//! The page cache: the pages that were fetched, by identifier, and the paths
//! that they give.
//!
//! The cache sends no request. To look a page up through it, ask
//! [`CachedClient::get_page`]; where that finds nothing, fetch the page and
//! hand the outcome to [`CachedClient::accept`]. To find the path of a page,
//! fetch what [`CachedClient::missing_ancestor`] names and hand the outcome to
//! [`CachedClient::after_fetch`], which names what to fetch next, until it
//! names nothing; then [`CachedClient::get_path`] gives the path. By
//! [`lemma_filled_cache_gives_the_path`](crate::path::lemma_filled_cache_gives_the_path)
//! that is the path that the page has among all the pages that the cache
//! held and the store could give.
//!
//! The view of a cache is the map from the identifiers that it holds to
//! their pages.
use crate::data::parent_object::{Data, ParentObject};
use crate::data::{Page, SearchResponse};
use crate::path::{
    ancestry, lemma_missing_is_absent, lemma_path_exists, missing, missing_of, path_of, reverse,
    texts, title_text,
};
use std::sync::Arc;
use vstd::hash_map::StringHashMap;
use vstd::hash_set::StringHashSet;
use vstd::prelude::*;

verus! {

/// `Arc::clone`: one more handle to the value that `page` shares.
#[verifier::external_body]
fn share(page: &Arc<Page>) -> (res: Arc<Page>)
    ensures
        res == *page,
{
    Arc::clone(page)
}

/// The pages after each entry of `entries`, an identifier and a page, was
/// stored in turn: of two pages under one identifier the later stays.
pub open spec fn stored_under(
    pages: Map<Seq<char>, Page>,
    entries: Seq<(Seq<char>, Page)>,
) -> Map<Seq<char>, Page>
    decreases entries.len(),
{
    if entries.len() == 0 {
        pages
    } else {
        stored_under(pages, entries.drop_last()).insert(entries.last().0, entries.last().1)
    }
}

/// Each page of `found` with its own identifier.
pub open spec fn by_own_id(found: Seq<Page>) -> Seq<(Seq<char>, Page)> {
    found.map_values(|page: Page| (page.id@, page))
}

/// The pages after each page of `found` was stored under its own identifier,
/// in the order of `found`.
pub open spec fn stored(pages: Map<Seq<char>, Page>, found: Seq<Page>) -> Map<Seq<char>, Page> {
    stored_under(pages, by_own_id(found))
}

/// Whether `listed` holds every page of `pages` once: there is a way to name
/// one key of `pages` for each place of `listed`, no key twice and each key
/// of `pages` once, such that each place holds the page under its key.
pub open spec fn lists_each_once(pages: Map<Seq<char>, Page>, listed: Seq<Page>) -> bool {
    exists|keys: Seq<Seq<char>>|
        {
            &&& keys.len() == listed.len()
            &&& keys.no_duplicates()
            &&& keys.to_set() == pages.dom()
            &&& forall|i: int| 0 <= i < keys.len() ==> listed[i] == #[trigger] pages[keys[i]]
        }
}

/// The pages behind a sequence of handles.
pub open spec fn shared_pages(handles: Seq<Arc<Page>>) -> Seq<Page> {
    handles.map_values(|handle: Arc<Page>| *handle)
}

/// A page that was stored under an identifier is found under it, so that
/// nothing has to be fetched for that identifier again, and the pages under
/// the other identifiers are what they were.
pub proof fn lemma_stored_page_is_found(pages: Map<Seq<char>, Page>, id: Seq<char>, page: Page)
    ensures
        pages.insert(id, page).get(id) == Some(page),
        forall|other: Seq<char>|
            other != id ==> pages.insert(id, page).get(other) == pages.get(other),
{
}

/// However often one page is stored under one identifier, and in whatever
/// turns with lookups, the cache holds it once: it is then the cache that
/// came of storing the page once.
pub proof fn lemma_storing_often_is_storing_once(
    pages: Map<Seq<char>, Page>,
    id: Seq<char>,
    page: Page,
    times: nat,
)
    requires
        times >= 1,
    ensures
        stored_under(pages, Seq::new(times, |i: int| (id, page))) == pages.insert(id, page),
        pages.insert(id, page).dom() == pages.dom().insert(id),
    decreases times,
{
    let entries = Seq::new(times, |i: int| (id, page));
    let rest = Seq::new((times - 1) as nat, |i: int| (id, page));
    assert(entries.drop_last() =~= rest);
    if times == 1 {
        assert(stored_under(pages, rest) == pages);
    } else {
        lemma_storing_often_is_storing_once(pages, id, page, (times - 1) as nat);
        assert(pages.insert(id, page).insert(id, page) =~= pages.insert(id, page));
    }
}

/// To store one list of entries and then another is to store the two lists
/// as one.
pub proof fn lemma_stored_in_turn(
    pages: Map<Seq<char>, Page>,
    first: Seq<(Seq<char>, Page)>,
    second: Seq<(Seq<char>, Page)>,
)
    ensures
        stored_under(stored_under(pages, first), second) == stored_under(pages, first + second),
    decreases second.len(),
{
    if second.len() == 0 {
        assert(first + second =~= first);
    } else {
        lemma_stored_in_turn(pages, first, second.drop_last());
        assert((first + second).drop_last() =~= first + second.drop_last());
    }
}

/// The identifiers of a list of entries, in the list's order.
pub open spec fn identifiers(entries: Seq<(Seq<char>, Page)>) -> Seq<Seq<char>> {
    entries.map_values(|entry: (Seq<char>, Page)| entry.0)
}

/// What was stored is held: the cache holds the identifiers that it held
/// and those of the entries, and no other.
pub proof fn lemma_stored_identifiers(
    pages: Map<Seq<char>, Page>,
    entries: Seq<(Seq<char>, Page)>,
)
    ensures
        stored_under(pages, entries).dom() == pages.dom().union(identifiers(entries).to_set()),
    decreases entries.len(),
{
    let held = stored_under(pages, entries);
    let named = identifiers(entries);
    if entries.len() == 0 {
        assert(held.dom() =~= pages.dom().union(named.to_set()));
    } else {
        let rest = entries.drop_last();
        lemma_stored_identifiers(pages, rest);
        assert(named =~= identifiers(rest).push(entries.last().0));
        assert forall|id: Seq<char>| named.contains(id) <==> identifiers(rest).contains(id) || id
            == entries.last().0 by {
            if identifiers(rest).contains(id) {
                let i = identifiers(rest).index_of(id);
                assert(named[i] == id);
            }
            if id == entries.last().0 {
                assert(named[named.len() - 1] == id);
            }
        }
        assert(held.dom() =~= pages.dom().union(named.to_set()));
    }
}

/// The page under an identifier is the one that was stored under it last:
/// an entry is found as it was stored where no later entry has its
/// identifier.
pub proof fn lemma_last_stored_is_found(
    pages: Map<Seq<char>, Page>,
    entries: Seq<(Seq<char>, Page)>,
    at: int,
)
    requires
        0 <= at < entries.len(),
        forall|later: int| at < later < entries.len() ==> entries[later].0 != entries[at].0,
    ensures
        stored_under(pages, entries).get(entries[at].0) == Some(entries[at].1),
    decreases entries.len(),
{
    if at < entries.len() - 1 {
        let rest = entries.drop_last();
        assert(rest[at] == entries[at]);
        assert forall|later: int| at < later < rest.len() implies rest[later].0 != rest[at].0 by {
            assert(rest[later] == entries[later]);
        }
        lemma_last_stored_is_found(pages, rest, at);
    }
}

/// After a search, each page that it found is cached under its own
/// identifier, so that nothing has to be fetched for it: a lookup gives the
/// page as it was found, where the search found no later page with that
/// identifier.
pub proof fn lemma_found_page_is_cached(pages: Map<Seq<char>, Page>, found: Seq<Page>, at: int)
    requires
        0 <= at < found.len(),
        forall|later: int| at < later < found.len() ==> found[later].id@ != found[at].id@,
    ensures
        stored(pages, found).get(found[at].id@) == Some(found[at]),
{
    lemma_last_stored_is_found(pages, by_own_id(found), at);
}

/// Entries with distinct identifiers that are stored in an empty cache are
/// all held, each under its identifier, and nothing else is: the cache
/// holds as many pages as there were entries.
pub proof fn lemma_distinct_entries_are_all_held(entries: Seq<(Seq<char>, Page)>)
    requires
        identifiers(entries).no_duplicates(),
    ensures
        ({
            let held = stored_under(Map::empty(), entries);
            &&& held.dom() == identifiers(entries).to_set()
            &&& held.dom().finite()
            &&& held.dom().len() == entries.len()
            &&& forall|i: int|
                0 <= i < entries.len() ==> held.get(#[trigger] entries[i].0) == Some(entries[i].1)
        }),
{
    let held = stored_under(Map::<Seq<char>, Page>::empty(), entries);
    let named = identifiers(entries);
    lemma_stored_identifiers(Map::empty(), entries);
    assert(held.dom() =~= named.to_set());
    assert forall|i: int| 0 <= i < entries.len() implies held.get(#[trigger] entries[i].0) == Some(
        entries[i].1,
    ) by {
        assert forall|later: int| i < later < entries.len() implies entries[later].0
            != entries[i].0 by {
            assert(named[later] == entries[later].0 && named[i] == entries[i].0);
        }
        lemma_last_stored_is_found(Map::empty(), entries, i);
    }
    vstd::seq_lib::seq_to_set_is_finite(named);
    named.unique_seq_to_set();
}

/// A list that holds every page of `pages` once is as long as there are
/// pages, holds the page of each identifier, and holds nothing else.
pub proof fn lemma_listing_is_exact(pages: Map<Seq<char>, Page>, listed: Seq<Page>)
    requires
        lists_each_once(pages, listed),
    ensures
        pages.dom().finite(),
        listed.len() == pages.dom().len(),
        forall|id: Seq<char>| pages.contains_key(id) ==> listed.contains(#[trigger] pages[id]),
        forall|i: int| 0 <= i < listed.len() ==> pages.contains_value(#[trigger] listed[i]),
{
    let keys = choose|keys: Seq<Seq<char>>|
        {
            &&& keys.len() == listed.len()
            &&& keys.no_duplicates()
            &&& keys.to_set() == pages.dom()
            &&& forall|i: int| 0 <= i < keys.len() ==> listed[i] == #[trigger] pages[keys[i]]
        };
    vstd::seq_lib::seq_to_set_is_finite(keys);
    keys.unique_seq_to_set();
    assert forall|id: Seq<char>| pages.contains_key(id) implies listed.contains(
        #[trigger] pages[id],
    ) by {
        assert(keys.to_set().contains(id));
        let i = keys.index_of(id);
        assert(listed[i] == pages[keys[i]]);
    }
    assert forall|i: int| 0 <= i < listed.len() implies pages.contains_value(
        #[trigger] listed[i],
    ) by {
        assert(keys.to_set().contains(keys[i]));
        assert(pages.contains_key(keys[i]) && pages[keys[i]] == listed[i]);
    }
}

/// A cache of pages by identifier.
///
/// The cache holds what was stored in it and never drops a page. A page that
/// is stored under an identifier that the cache holds takes the place of the
/// earlier one.
pub struct CachedClient {
    /// The pages that are cached, by identifier.
    pages: StringHashMap<Arc<Page>>,
    /// The identifiers in the order in which they were first stored.
    order: Vec<String>,
}

impl View for CachedClient {
    type V = Map<Seq<char>, Page>;

    closed spec fn view(&self) -> Map<Seq<char>, Page> {
        Map::new(|id: Seq<char>| self.pages@.contains_key(id), |id: Seq<char>| *self.pages@[id])
    }
}

impl CachedClient {
    spec fn ids(&self) -> Seq<Seq<char>> {
        texts(self.order@)
    }

    #[verifier::type_invariant]
    spec fn well_formed(&self) -> bool {
        &&& self.ids().no_duplicates()
        &&& forall|id: Seq<char>| self.pages@.contains_key(id) <==> self.ids().contains(id)
    }

    /// A cache that holds no page.
    #[must_use]
    pub fn new() -> (res: Self)
        ensures
            res@ == Map::<Seq<char>, Page>::empty(),
    {
        let res = CachedClient { pages: StringHashMap::new(), order: Vec::new() };
        assert(res@ =~= Map::<Seq<char>, Page>::empty());
        res
    }

    proof fn lemma_finite(&self)
        requires
            self.well_formed(),
        ensures
            self@.dom().finite(),
            self@.dom() == self.ids().to_set(),
            self@.dom().len() == self.ids().len(),
    {
        assert(self@.dom() =~= self.ids().to_set());
        vstd::seq_lib::seq_to_set_is_finite(self.ids());
        self.ids().unique_seq_to_set();
    }

    /// Stores `page` under `id`, in place of the page that `id` had.
    fn insert(&mut self, id: String, page: Arc<Page>)
        ensures
            final(self)@ == old(self)@.insert(id@, *page),
    {
        proof {
            use_type_invariant(&*self);
        }
        let ghost before = *self;
        let mut taken = CachedClient::new();
        std::mem::swap(self, &mut taken);
        let CachedClient { mut pages, mut order } = taken;
        assert(texts(order@) == before.ids());
        if !pages.contains_key(id.as_str()) {
            assert(!before.ids().contains(id@));
            order.push(id.clone());
            assert(texts(order@) =~= before.ids().push(id@));
        }
        assert(texts(order@).no_duplicates());
        pages.insert(id, page);
        assert forall|key: Seq<char>| pages@.contains_key(key) <==> texts(order@).contains(key) by {
            if before.ids().contains(key) {
                let at = before.ids().index_of(key);
                assert(texts(order@)[at] == key);
            }
            if !before.pages@.contains_key(id@) {
                assert(texts(order@)[before.ids().len() as int] == id@);
            }
        }
        *self = CachedClient { pages, order };
        assert(self@ =~= before@.insert(id@, *page));
    }

    /// The cached page called `id`, if the cache holds one. Where it holds
    /// none, the page has to be fetched and handed to [`Self::accept`].
    pub fn get_page(&self, id: &str) -> (res: Option<Arc<Page>>)
        ensures
            match res {
                Some(page) => self@.get(id@) == Some(*page),
                None => self@.get(id@) is None,
            },
    {
        match self.pages.get(id) {
            Some(page) => Some(share(page)),
            None => None,
        }
    }

    /// Takes in what a fetch of the page called `id` gave.
    ///
    /// A page that was fetched is stored under `id`, in place of the page
    /// that `id` had, and a handle to it is returned. A fetch that failed
    /// leaves the cache as it was and gives no page, whatever the failure.
    pub fn accept<E>(&mut self, id: &str, fetched: Result<Page, E>) -> (res: Option<Arc<Page>>)
        ensures
            match fetched {
                Ok(page) => res matches Some(handle) && *handle == page && final(self)@ == old(
                    self,
                )@.insert(id@, page),
                Err(_) => res is None && final(self)@ == old(self)@,
            },
    {
        match fetched {
            Ok(page) => {
                let handle = Arc::new(page);
                self.insert(id.to_owned(), share(&handle));
                Some(handle)
            },
            Err(_) => None,
        }
    }

    /// Takes in what a search gave.
    ///
    /// Each page that was found is stored under its own identifier, in the
    /// order of the results, and the handles to them are returned in that
    /// order. A search that failed leaves the cache as it was, and its error
    /// is handed on.
    pub fn search<E>(&mut self, response: Result<SearchResponse, E>) -> (res: Result<
        Vec<Arc<Page>>,
        E,
    >)
        ensures
            match response {
                Ok(found) => res matches Ok(handles) && shared_pages(handles@) == found.results@
                    && final(self)@ == stored(old(self)@, found.results@),
                Err(error) => res == Err::<Vec<Arc<Page>>, E>(error) && final(self)@ == old(self)@,
            },
    {
        let found = match response {
            Ok(found) => found,
            Err(error) => return Err(error),
        };
        let ghost before = self@;
        let ghost results = found.results@;
        let mut handles: Vec<Arc<Page>> = Vec::with_capacity(found.results.len());
        for page in it: found.results.into_iter()
            invariant
                it.seq() == results,
                shared_pages(handles@) == results.take(it.index() as int),
                self@ == stored(before, results.take(it.index() as int)),
        {
            let ghost done = results.take(it.index() as int);
            let ghost grown = results.take(it.index() + 1);
            let handle = Arc::new(page);
            self.insert(handle.id.clone(), share(&handle));
            handles.push(handle);
            proof {
                assert(by_own_id(grown).drop_last() =~= by_own_id(done));
                assert(by_own_id(grown).last() == (page.id@, page));
                assert(shared_pages(handles@) =~= grown);
            }
        }
        assert(results.take(results.len() as int) =~= results);
        Ok(handles)
    }

    /// Every page that the cache holds, once each, in no order that a caller
    /// can rely on.
    pub fn pages(&self) -> (res: Vec<Arc<Page>>)
        ensures
            lists_each_once(self@, shared_pages(res@)),
    {
        proof {
            use_type_invariant(self);
            self.lemma_finite();
        }
        let mut res: Vec<Arc<Page>> = Vec::new();
        let mut i: usize = 0;
        while i < self.order.len()
            invariant
                self.well_formed(),
                i <= self.order.len(),
                res@.len() == i,
                forall|j: int| 0 <= j < i ==> *res@[j] == self@[#[trigger] self.ids()[j]],
            decreases self.order.len() - i,
        {
            assert(self.ids()[i as int] == self.order@[i as int]@);
            assert(self.ids().contains(self.order@[i as int]@));
            if let Some(page) = self.pages.get(self.order[i].as_str()) {
                res.push(share(page));
            }
            i += 1;
        }
        proof {
            let keys = self.ids();
            let listed = shared_pages(res@);
            assert(keys.len() == listed.len());
            assert forall|j: int| 0 <= j < keys.len() implies listed[j]
                == #[trigger] self@[keys[j]] by {
                assert(listed[j] == *res@[j]);
            }
            assert(keys.to_set() == self@.dom());
        }
        res
    }

    /// Walks up from the page called `id`: the titles that the walk of
    /// [`ancestry`] collects, the nearest first, and the identifier that it
    /// was stopped by because the cache does not hold it, if it was.
    fn walk(&self, id: &str) -> (res: (Vec<String>, Option<String>))
        ensures
            texts(res.0@).reverse() == ancestry(self@, id@, self@.dom()),
            match res.1 {
                Some(next) => missing_of(self@, id@) == Some(next@),
                None => missing_of(self@, id@) is None,
            },
    {
        proof {
            use_type_invariant(self);
            self.lemma_finite();
        }
        let ghost pages = self@;
        let ghost mut unvisited = pages.dom();
        let mut titles: Vec<String> = Vec::new();
        let mut visited = StringHashSet::new();
        let mut current: String = id.to_owned();
        let mut next: Option<String> = None;
        assert(texts(titles@).reverse() =~= Seq::<Seq<char>>::empty());
        loop
            invariant_except_break
                next is None,
                ancestry(pages, id@, pages.dom()) == ancestry(pages, current@, unvisited) + texts(
                    titles@,
                ).reverse(),
                missing(pages, id@, pages.dom()) == missing(pages, current@, unvisited),
            invariant
                pages == self@,
                unvisited.finite(),
                forall|key: Seq<char>|
                    unvisited.contains(key) <==> pages.contains_key(key) && !visited@.contains(key),
            ensures
                ancestry(pages, id@, pages.dom()) == texts(titles@).reverse(),
                match next {
                    Some(next) => missing(pages, id@, pages.dom()) == Some(next@),
                    None => missing(pages, id@, pages.dom()) is None,
                },
            decreases unvisited.len(),
        {
            let page = match self.pages.get(current.as_str()) {
                Some(page) => page,
                None => {
                    next = Some(current);
                    break;
                },
            };
            if visited.contains(current.as_str()) {
                break;
            }
            let title = match page.title() {
                Some(title) => title,
                None => {
                    break;
                },
            };
            let ghost above = texts(titles@).reverse();
            titles.push(title.plain_text.clone());
            assert(texts(titles@).reverse() =~= seq![title.plain_text@] + above);
            let parent = match &page.parent {
                Some(ParentObject { data: Data::PageId(parent), .. }) => parent.clone(),
                _ => {
                    break;
                },
            };
            proof {
                assert(ancestry(pages, current@, unvisited) == ancestry(
                    pages,
                    parent@,
                    unvisited.remove(current@),
                ).push(title.plain_text@));
                assert(ancestry(pages, parent@, unvisited.remove(current@)).push(title.plain_text@)
                    + above =~= ancestry(pages, parent@, unvisited.remove(current@)) + (seq![
                    title.plain_text@,
                ] + above));
                unvisited = unvisited.remove(current@);
            }
            visited.insert(current);
            current = parent;
        }
        (titles, next)
    }

    /// The path of the page called `id`: the titles of its ancestors and its
    /// own, from the farthest ancestor that the cache lets the walk reach
    /// down to the page itself.
    ///
    /// There is no path where the cache does not hold the page, or the page
    /// has no title. The walk up ends at a page whose parent is no page, at a
    /// parent that the cache does not hold or that has no title, and at a
    /// parent that is on the path already.
    pub fn get_path(&self, id: &str) -> (res: Option<Vec<String>>)
        ensures
            match res {
                Some(path) => path_of(self@, id@) == Some(texts(path@)),
                None => path_of(self@, id@) is None,
            },
            res is Some <==> self@.contains_key(id@) && title_text(self@[id@]) is Some,
            self@.dom().finite(),
    {
        proof {
            use_type_invariant(self);
            self.lemma_finite();
            lemma_path_exists(self@, id@);
        }
        let (titles, _) = self.walk(id);
        if titles.len() == 0 {
            None
        } else {
            let path = reverse(titles);
            assert(texts(path@) =~= texts(titles@).reverse());
            Some(path)
        }
    }

    /// The last title of the path of the page called `id`, which is the
    /// title of the page itself, where the page has a path.
    pub fn get_path_current(&self, id: &str) -> (res: Option<String>)
        ensures
            match res {
                Some(title) => path_of(self@, id@) matches Some(path) && path.last() == title@,
                None => path_of(self@, id@) is None,
            },
            res matches Some(title) ==> self@.contains_key(id@) && title_text(self@[id@]) == Some(
                title@,
            ),
    {
        proof {
            use_type_invariant(self);
            self.lemma_finite();
            lemma_path_exists(self@, id@);
        }
        match self.get_path(id) {
            Some(path) => {
                let mut path = path;
                path.pop()
            },
            None => None,
        }
    }

    /// The identifier that has to be fetched next to lengthen the path of the
    /// page called `id`: the first one on the way up that the cache does not
    /// hold. There is none where the walk up ends for another reason.
    pub fn missing_ancestor(&self, id: &str) -> (res: Option<String>)
        ensures
            match res {
                Some(next) => missing_of(self@, id@) == Some(next@) && !self@.contains_key(next@),
                None => missing_of(self@, id@) is None,
            },
            self@.dom().finite(),
    {
        proof {
            use_type_invariant(self);
            self.lemma_finite();
            lemma_missing_is_absent(self@, id@, self@.dom());
        }
        let (_, next) = self.walk(id);
        next
    }

    /// Takes in what the fetch of `asked` gave, which was fetched as the
    /// missing ancestor of the page called `id`, and names the ancestor that
    /// has to be fetched next.
    ///
    /// A page that was fetched is stored under `asked`, as by
    /// [`Self::accept`], and the walk up from `id` goes on over it. A fetch
    /// that failed ends the walk: the cache stays as it was and nothing more
    /// is to be fetched, so that the path is cut at `asked`.
    pub fn after_fetch<E>(&mut self, id: &str, asked: &str, fetched: Result<Page, E>) -> (res:
        Option<String>)
        ensures
            final(self)@ == (match fetched {
                Ok(page) => old(self)@.insert(asked@, page),
                Err(_) => old(self)@,
            }),
            match res {
                Some(next) => fetched is Ok && missing_of(final(self)@, id@) == Some(next@)
                    && !final(self)@.contains_key(next@),
                None => fetched is Err || missing_of(final(self)@, id@) is None,
            },
            final(self)@.dom().finite(),
    {
        match self.accept(asked, fetched) {
            Some(_) => self.missing_ancestor(id),
            None => {
                proof {
                    use_type_invariant(&*self);
                    self.lemma_finite();
                }
                None
            },
        }
    }
}

} // verus!
