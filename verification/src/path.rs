//! The path of a page: the titles of its ancestors and its own, from the root
//! of the tree down, as far as a set of pages lets the parents be followed.
use crate::data::Page;
use vstd::prelude::*;

verus! {

/// The characters of each string of a sequence.
pub open spec fn texts(strings: Seq<String>) -> Seq<Seq<char>> {
    strings.map_values(|s: String| s@)
}

/// The plain text of the title of a page, if it has a title.
pub open spec fn title_text(page: Page) -> Option<Seq<char>> {
    match page.spec_title() {
        Some(title) => Some(title.plain_text@),
        None => None,
    }
}

/// The identifier of the parent of a page, where the parent is a page.
pub open spec fn parent_page(page: Page) -> Option<Seq<char>> {
    match page.parent {
        Some(parent) => parent.page_id(),
        None => None,
    }
}

/// The titles on the way from the farthest ancestor that can be reached down
/// to the page called `id`, which comes last.
///
/// Only the pages in `unvisited` can be stepped on, and each of them once:
/// the walk goes on from a page to its parent while the page is in `pages`
/// and in `unvisited`, has a title, and has a page for its parent. It ends
/// with nothing more to add at a page that is missing, that has no title or
/// that was stepped on before.
pub open spec fn ancestry(
    pages: Map<Seq<char>, Page>,
    id: Seq<char>,
    unvisited: Set<Seq<char>>,
) -> Seq<Seq<char>>
    decreases unvisited.len(),
    when unvisited.finite()
{
    if unvisited.contains(id) && pages.contains_key(id) {
        match title_text(pages[id]) {
            Some(title) => match parent_page(pages[id]) {
                Some(parent) => ancestry(pages, parent, unvisited.remove(id)).push(title),
                None => seq![title],
            },
            None => seq![],
        }
    } else {
        seq![]
    }
}

/// The path of the page called `id` among `pages`: the titles from the
/// farthest ancestor that can be reached down to the page itself. There is
/// none where the page is missing or has no title.
pub open spec fn path_of(pages: Map<Seq<char>, Page>, id: Seq<char>) -> Option<Seq<Seq<char>>> {
    let titles = ancestry(pages, id, pages.dom());
    if titles.len() == 0 {
        None
    } else {
        Some(titles)
    }
}

/// The first identifier on the way up from the page called `id` that `pages`
/// does not hold, if the walk of [`ancestry`] comes to one.
pub open spec fn missing(
    pages: Map<Seq<char>, Page>,
    id: Seq<char>,
    unvisited: Set<Seq<char>>,
) -> Option<Seq<char>>
    decreases unvisited.len(),
    when unvisited.finite()
{
    if !pages.contains_key(id) {
        Some(id)
    } else if !unvisited.contains(id) {
        None
    } else if title_text(pages[id]) is Some && parent_page(pages[id]) is Some {
        missing(pages, parent_page(pages[id])->0, unvisited.remove(id))
    } else {
        None
    }
}

/// The identifier that has to be fetched next to lengthen the path of the
/// page called `id`, if there is one.
pub open spec fn missing_of(pages: Map<Seq<char>, Page>, id: Seq<char>) -> Option<Seq<char>> {
    missing(pages, id, pages.dom())
}

/// A walk steps on each page at most once: it collects no more titles than
/// there are pages that it may step on.
pub proof fn lemma_ancestry_is_bounded(
    pages: Map<Seq<char>, Page>,
    id: Seq<char>,
    unvisited: Set<Seq<char>>,
)
    requires
        unvisited.finite(),
    ensures
        ancestry(pages, id, unvisited).len() <= unvisited.len(),
    decreases unvisited.len(),
{
    if unvisited.contains(id) && pages.contains_key(id) {
        if title_text(pages[id]) is Some && parent_page(pages[id]) is Some {
            lemma_ancestry_is_bounded(pages, parent_page(pages[id])->0, unvisited.remove(id));
        }
    }
}

/// A page has a path exactly when it is among the pages and has a title. The
/// path then ends with that title, and is no longer than there are pages,
/// whatever the parents are: a circle of parents gives a path, too.
pub proof fn lemma_path_exists(pages: Map<Seq<char>, Page>, id: Seq<char>)
    requires
        pages.dom().finite(),
    ensures
        path_of(pages, id) is Some <==> pages.contains_key(id) && title_text(pages[id]) is Some,
        path_of(pages, id) matches Some(path) ==> {
            &&& 1 <= path.len() <= pages.dom().len()
            &&& title_text(pages[id]) == Some(path.last())
        },
{
    lemma_ancestry_is_bounded(pages, id, pages.dom());
}

/// A page that is missing has no path, and is what has to be fetched.
pub proof fn lemma_no_path_without_page(pages: Map<Seq<char>, Page>, id: Seq<char>)
    requires
        pages.dom().finite(),
        !pages.contains_key(id),
    ensures
        path_of(pages, id) is None,
        missing_of(pages, id) == Some(id),
{
}

/// A page without a title has no path, and nothing that could be fetched
/// would give it one.
pub proof fn lemma_no_path_without_title(pages: Map<Seq<char>, Page>, id: Seq<char>)
    requires
        pages.dom().finite(),
        pages.contains_key(id),
        title_text(pages[id]) is None,
    ensures
        path_of(pages, id) is None,
        missing_of(pages, id) is None,
{
}

/// The path of a page whose parent is missing is the title of the page
/// alone, and the parent is what has to be fetched.
pub proof fn lemma_path_stops_at_missing_parent(pages: Map<Seq<char>, Page>, id: Seq<char>)
    requires
        pages.dom().finite(),
        pages.contains_key(id),
        title_text(pages[id]) is Some,
        parent_page(pages[id]) matches Some(parent) && !pages.contains_key(parent),
    ensures
        path_of(pages, id) == Some(seq![title_text(pages[id])->0]),
        missing_of(pages, id) == parent_page(pages[id]),
{
    let parent = parent_page(pages[id])->0;
    assert(ancestry(pages, parent, pages.dom().remove(id)) =~= Seq::<Seq<char>>::empty());
    assert(ancestry(pages, id, pages.dom()) =~= seq![title_text(pages[id])->0]);
    assert(missing(pages, parent, pages.dom().remove(id)) == Some(parent));
}

/// The path of a page whose parent is no page is the title of the page
/// alone, and nothing is missing.
pub proof fn lemma_path_of_root(pages: Map<Seq<char>, Page>, id: Seq<char>)
    requires
        pages.dom().finite(),
        pages.contains_key(id),
        title_text(pages[id]) is Some,
        parent_page(pages[id]) is None,
    ensures
        path_of(pages, id) == Some(seq![title_text(pages[id])->0]),
        missing_of(pages, id) is None,
{
}

/// Three pages in a line: the path of a page under a page under a page whose
/// parent is no page holds the three titles, the farthest first.
pub proof fn lemma_path_of_grandchild(
    pages: Map<Seq<char>, Page>,
    top: Seq<char>,
    middle: Seq<char>,
    bottom: Seq<char>,
)
    requires
        pages.dom().finite(),
        top != middle && middle != bottom && top != bottom,
        pages.contains_key(top) && pages.contains_key(middle) && pages.contains_key(bottom),
        title_text(pages[top]) is Some,
        title_text(pages[middle]) is Some,
        title_text(pages[bottom]) is Some,
        parent_page(pages[bottom]) == Some(middle),
        parent_page(pages[middle]) == Some(top),
        parent_page(pages[top]) is None,
    ensures
        path_of(pages, bottom) == Some(
            seq![
                title_text(pages[top])->0,
                title_text(pages[middle])->0,
                title_text(pages[bottom])->0,
            ],
        ),
{
    let below_bottom = pages.dom().remove(bottom);
    let below_middle = below_bottom.remove(middle);
    assert(ancestry(pages, top, below_middle) =~= seq![title_text(pages[top])->0]);
    assert(ancestry(pages, middle, below_bottom) =~= seq![
        title_text(pages[top])->0,
        title_text(pages[middle])->0,
    ]);
    assert(ancestry(pages, bottom, pages.dom()) =~= seq![
        title_text(pages[top])->0,
        title_text(pages[middle])->0,
        title_text(pages[bottom])->0,
    ]);
}

/// Two pages that are each other's parent: the path of one of them holds the
/// title of the other and then its own.
pub proof fn lemma_path_in_circle(pages: Map<Seq<char>, Page>, one: Seq<char>, other: Seq<char>)
    requires
        pages.dom().finite(),
        one != other,
        pages.contains_key(one) && pages.contains_key(other),
        title_text(pages[one]) is Some,
        title_text(pages[other]) is Some,
        parent_page(pages[one]) == Some(other),
        parent_page(pages[other]) == Some(one),
    ensures
        path_of(pages, one) == Some(seq![title_text(pages[other])->0, title_text(pages[one])->0]),
{
    let without_one = pages.dom().remove(one);
    assert(ancestry(pages, one, without_one.remove(other)) =~= Seq::<Seq<char>>::empty());
    assert(ancestry(pages, other, without_one) =~= seq![title_text(pages[other])->0]);
    assert(ancestry(pages, one, pages.dom()) =~= seq![
        title_text(pages[other])->0,
        title_text(pages[one])->0,
    ]);
}

/// The identifier that a walk reports as missing is not among the pages.
pub proof fn lemma_missing_is_absent(
    pages: Map<Seq<char>, Page>,
    id: Seq<char>,
    unvisited: Set<Seq<char>>,
)
    requires
        unvisited.finite(),
    ensures
        missing(pages, id, unvisited) matches Some(next) ==> !pages.contains_key(next),
    decreases unvisited.len(),
{
    if pages.contains_key(id) && unvisited.contains(id) && title_text(pages[id]) is Some
        && parent_page(pages[id]) is Some {
        lemma_missing_is_absent(pages, parent_page(pages[id])->0, unvisited.remove(id));
    }
}

/// Whether a walk over `pages` and one over `more` that have stepped on the
/// same pages so far may go on side by side: `more` holds every page of
/// `pages`, and the pages that the walk over `pages` may still step on are
/// those of its own pages that the walk over `more` may still step on.
spec fn in_step(
    pages: Map<Seq<char>, Page>,
    unvisited: Set<Seq<char>>,
    more: Map<Seq<char>, Page>,
    more_unvisited: Set<Seq<char>>,
) -> bool {
    &&& pages.submap_of(more)
    &&& unvisited.finite()
    &&& more_unvisited.finite()
    &&& forall|id: Seq<char>|
        unvisited.contains(id) <==> more_unvisited.contains(id) && pages.contains_key(id)
}

proof fn lemma_walks_in_step(
    pages: Map<Seq<char>, Page>,
    unvisited: Set<Seq<char>>,
    more: Map<Seq<char>, Page>,
    more_unvisited: Set<Seq<char>>,
    id: Seq<char>,
)
    requires
        in_step(pages, unvisited, more, more_unvisited),
    ensures
        ancestry(pages, id, unvisited).is_suffix_of(ancestry(more, id, more_unvisited)),
        (missing(pages, id, unvisited) matches Some(next) ==> !more.contains_key(next)) ==> {
            &&& ancestry(more, id, more_unvisited) == ancestry(pages, id, unvisited)
            &&& missing(more, id, more_unvisited) == missing(pages, id, unvisited)
        },
    decreases unvisited.len(),
{
    let short = ancestry(pages, id, unvisited);
    let long = ancestry(more, id, more_unvisited);
    if unvisited.contains(id) && pages.contains_key(id) {
        assert(more.dom().contains(id) && more[id] == pages[id]);
        if title_text(pages[id]) is Some && parent_page(pages[id]) is Some {
            let title = title_text(pages[id])->0;
            let parent = parent_page(pages[id])->0;
            lemma_walks_in_step(
                pages,
                unvisited.remove(id),
                more,
                more_unvisited.remove(id),
                parent,
            );
            let short_above = ancestry(pages, parent, unvisited.remove(id));
            let long_above = ancestry(more, parent, more_unvisited.remove(id));
            assert(short == short_above.push(title));
            assert(long == long_above.push(title));
            assert(short =~= long.subrange(long.len() - short.len(), long.len() as int));
        } else {
            assert(short =~= long);
            assert(short =~= long.subrange(long.len() - short.len(), long.len() as int));
        }
    } else {
        assert(short =~= long.subrange(long.len() - short.len(), long.len() as int));
        if pages.contains_key(id) {
            assert(more.dom().contains(id));
            assert(!more_unvisited.contains(id));
        }
    }
}

/// Pages that are added only lengthen a path at its far end: the path of a
/// page is the tail of the path that it has among more pages.
pub proof fn lemma_more_pages_lengthen_the_path(
    pages: Map<Seq<char>, Page>,
    more: Map<Seq<char>, Page>,
    id: Seq<char>,
)
    requires
        pages.submap_of(more),
        more.dom().finite(),
    ensures
        ancestry(pages, id, pages.dom()).is_suffix_of(ancestry(more, id, more.dom())),
        path_of(pages, id) matches Some(path) ==> path_of(more, id) matches Some(longer)
            && path.is_suffix_of(longer),
{
    vstd::set_lib::lemma_len_subset(pages.dom(), more.dom());
    lemma_walks_in_step(pages, pages.dom(), more, more.dom(), id);
}

/// A path is final once nothing that can be had is missing: where the walk
/// over `pages` misses no page, or misses one that `more` does not hold
/// either, the page has the same path among `more`, and the same page is
/// missing there.
///
/// So the path over a cache is the path over all that the cache and the
/// store hold together, as soon as the cache holds every ancestor that could
/// be fetched.
pub proof fn lemma_path_is_final(
    pages: Map<Seq<char>, Page>,
    more: Map<Seq<char>, Page>,
    id: Seq<char>,
)
    requires
        pages.submap_of(more),
        more.dom().finite(),
        missing_of(pages, id) matches Some(next) ==> !more.contains_key(next),
    ensures
        path_of(more, id) == path_of(pages, id),
        missing_of(more, id) == missing_of(pages, id),
{
    vstd::set_lib::lemma_len_subset(pages.dom(), more.dom());
    lemma_walks_in_step(pages, pages.dom(), more, more.dom(), id);
}

/// The pages that a cache holds once the ancestors of the page called `id`
/// have been fetched from `store` as far as they can be: as long as a page
/// is missing that the store holds, that page is stored under the
/// identifier that was missing.
pub open spec fn filled(
    pages: Map<Seq<char>, Page>,
    store: Map<Seq<char>, Page>,
    id: Seq<char>,
) -> Map<Seq<char>, Page>
    decreases store.dom().difference(pages.dom()).len(),
    when store.dom().finite() && pages.dom().finite()
    via filled_decreases
{
    match missing_of(pages, id) {
        Some(next) => if store.contains_key(next) {
            filled(pages.insert(next, store[next]), store, id)
        } else {
            pages
        },
        None => pages,
    }
}

#[via_fn]
proof fn filled_decreases(pages: Map<Seq<char>, Page>, store: Map<Seq<char>, Page>, id: Seq<char>) {
    if let Some(next) = missing_of(pages, id) {
        if store.contains_key(next) {
            lemma_missing_is_absent(pages, id, pages.dom());
            let before = store.dom().difference(pages.dom());
            let after = store.dom().difference(pages.insert(next, store[next]).dom());
            assert(after =~= before.remove(next));
            assert(before.contains(next));
        }
    }
}

/// To fetch what is missing until nothing more can be had gives the path
/// that a page has among all the pages that there are: the path over the
/// cache that was filled from a store is the path over the pages of the
/// cache and of the store together, those of the cache first.
pub proof fn lemma_filled_cache_gives_the_path(
    pages: Map<Seq<char>, Page>,
    store: Map<Seq<char>, Page>,
    id: Seq<char>,
)
    requires
        pages.dom().finite(),
        store.dom().finite(),
    ensures
        pages.submap_of(filled(pages, store, id)),
        filled(pages, store, id).submap_of(store.union_prefer_right(pages)),
        path_of(filled(pages, store, id), id) == path_of(store.union_prefer_right(pages), id),
    decreases store.dom().difference(pages.dom()).len(),
{
    let world = store.union_prefer_right(pages);
    assert(pages.submap_of(world));
    assert(world.dom() =~= store.dom().union(pages.dom()));
    lemma_missing_is_absent(pages, id, pages.dom());
    match missing_of(pages, id) {
        Some(next) => {
            if store.contains_key(next) {
                let more = pages.insert(next, store[next]);
                let before = store.dom().difference(pages.dom());
                assert(store.dom().difference(more.dom()) =~= before.remove(next));
                assert(before.contains(next));
                lemma_filled_cache_gives_the_path(more, store, id);
                assert(store.union_prefer_right(more) =~= world);
                let full = filled(more, store, id);
                assert forall|key: Seq<char>| #[trigger]
                    pages.dom().contains(key) implies #[trigger] full.dom().contains(key)
                    && pages[key] == full[key] by {
                    assert(more.dom().contains(key) && more[key] == pages[key]);
                }
            } else {
                assert(!world.contains_key(next));
                lemma_path_is_final(pages, world, id);
            }
        },
        None => {
            lemma_path_is_final(pages, world, id);
        },
    }
}

/// The list in the opposite order.
pub fn reverse(list: Vec<String>) -> (res: Vec<String>)
    ensures
        res@ == list@.reverse(),
{
    let mut list = list;
    let ghost whole = list@;
    let mut res: Vec<String> = Vec::new();
    while list.len() > 0
        invariant
            list@.len() + res@.len() == whole.len(),
            list@ == whole.take(list@.len() as int),
            forall|i: int| 0 <= i < res@.len() ==> res@[i] == whole[whole.len() - 1 - i],
        decreases list.len(),
    {
        let last = list.pop();
        match last {
            Some(item) => res.push(item),
            None => {},
        }
    }
    assert(res@ =~= whole.reverse());
    res
}

} // verus!
