//! The records of the remote store: pages, blocks, users and what they hold.
use vstd::prelude::*;

pub mod block;
pub mod color;
pub mod parent_object;
pub mod property;
pub mod rich_text;

pub use block::{Block, BlockData};

verus! {

/// `serde_json::Value`: a JSON value that a record carries as the store sent
/// it. Nothing in this crate looks inside one.
#[verifier::external_type_specification]
#[verifier::external_body]
pub struct ExJsonValue(serde_json::Value);

/// `Clone::clone` of `serde_json::Value`, which `serde_json` derives: the
/// copy is equal to the value that was copied.
pub assume_specification[ <serde_json::Value as Clone>::clone ](value: &serde_json::Value) -> (res:
    serde_json::Value)
    ensures
        res == *value,
;

/// The direction in which search results are sorted.
#[derive(Debug, Clone, Copy, PartialEq, Eq)]
pub enum SortDirection {
    Ascending,
    Descending,
}

/// The timestamp by which search results are sorted.
#[derive(Debug, Clone, Copy, PartialEq, Eq)]
pub enum SortTimestamp {
    LastEditedTime,
}

/// The order of search results.
#[derive(Debug, Clone, Copy, PartialEq, Eq)]
pub struct Sort {
    pub direction: SortDirection,
    pub timestamp: SortTimestamp,
}

/// A restriction of a search to one kind of object.
#[derive(Debug, Clone, Copy, PartialEq, Eq)]
pub struct Filter<'a> {
    /// The value that the property is held against: `page` or `database`.
    pub value: &'a str,
    /// The name of the property to filter by: `object`.
    pub property: &'a str,
}

/// The body of a search request.
#[derive(Debug, Clone, Copy, PartialEq, Eq)]
pub struct SearchRequest<'a> {
    /// The text that titles of pages and databases are compared against.
    pub query: Option<&'a str>,
    pub sort: Option<Sort>,
    pub filter: Option<Filter<'a>>,
    pub start_cursor: Option<&'a str>,
    /// The largest number of results to return, 100 at most.
    pub page_size: Option<u32>,
}

impl Default for SearchRequest<'_> {
    /// A search for everything, in pages of 100 results.
    fn default() -> (res: Self)
        ensures
            res.query is None,
            res.sort is None,
            res.filter is None,
            res.start_cursor is None,
            res.page_size == Some(100u32),
    {
        SearchRequest {
            query: None,
            sort: None,
            filter: None,
            start_cursor: None,
            page_size: Some(100),
        }
    }
}

/// Anything that the store hands out, told apart by its kind.
#[derive(Debug)]
pub enum Object {
    User(User),
    List(List),
    Page(Page),
    Block(Box<Block>),
}

/// A page: one node of the tree of content, as it was when it was fetched.
#[derive(Debug, Clone)]
pub struct Page {
    /// The identifier of the page, such as
    /// `be633bf1-dfa0-436d-b259-571129a590e5`.
    pub id: String,
    pub created_time: String,
    pub last_edited_time: String,
    pub created_by: User,
    pub last_edited_by: User,
    pub cover: Option<serde_json::Value>,
    pub icon: Option<serde_json::Value>,
    pub parent: Option<parent_object::ParentObject>,
    pub archived: bool,
    pub properties: property::Properties,
    pub url: String,
}

impl Page {
    /// The value of the property called `name`, if the page has one.
    pub open spec fn spec_property(&self, name: Seq<char>) -> Option<property::PropertyData> {
        if self.properties@.contains_key(name) {
            Some(self.properties@[name].data)
        } else {
            None
        }
    }

    /// The title of the page: the first piece of text of its title, which
    /// is the first of its properties, in the order of their names, that is
    /// a title and holds text. The name of that property does not matter.
    pub open spec fn spec_title(&self) -> Option<TextBlock> {
        first_title(self.properties@, self.properties.names())
    }

    /// The value of the property called `name`, if the page has one.
    #[must_use]
    pub fn property(&self, name: &str) -> (res: Option<&property::PropertyData>)
        ensures
            match res {
                Some(data) => self.spec_property(name@) == Some(*data),
                None => self.spec_property(name@) is None,
            },
    {
        match self.properties.get(name) {
            Some(property) => Some(&property.data),
            None => None,
        }
    }

    /// The title of the page: the first piece of text of the property that
    /// is a title, under whatever name the page has it. Of several such
    /// properties the first that holds text gives the title. A page without
    /// such a property, or whose titles hold no text, has none.
    #[must_use]
    pub fn title(&self) -> (res: Option<&TextBlock>)
        ensures
            match res {
                Some(text) => self.spec_title() == Some(*text),
                None => self.spec_title() is None,
            },
            res matches Some(text) ==> exists|name: Seq<char>|
                self.properties@.contains_key(name) && #[trigger] title_of(self.properties@[name])
                    == Some(*text),
            res is None ==> forall|name: Seq<char>|
                self.properties@.contains_key(name) ==> #[trigger] title_of(
                    self.properties@[name],
                ) is None,
    {
        let entries = self.properties.entries();
        let ghost held = self.properties@;
        let ghost names = self.properties.names();
        let mut i: usize = 0;
        assert(names.skip(0) =~= names);
        while i < entries.len()
            invariant
                i <= entries.len(),
                held == self.properties@,
                names == self.properties.names(),
                names == property::names_of(entries@),
                names.to_set() == held.dom(),
                forall|j: int|
                    0 <= j < entries@.len() ==> held.get(#[trigger] entries@[j].0@) == Some(
                        entries@[j].1,
                    ),
                forall|j: int| 0 <= j < i ==> title_of(held[#[trigger] names[j]]) is None,
                first_title(held, names) == first_title(held, names.skip(i as int)),
            decreases entries.len() - i,
        {
            assert(names[i as int] == entries@[i as int].0@);
            assert(names.skip(i as int).first() == names[i as int]);
            assert(names.skip(i as int).drop_first() =~= names.skip(i + 1));
            assert(names.to_set().contains(names[i as int]));
            assert(held.get(entries@[i as int].0@) == Some(entries@[i as int].1));
            assert(held[names[i as int]] == entries@[i as int].1);
            match &entries[i].1.data {
                property::PropertyData::Title(texts) => {
                    if texts.len() > 0 {
                        assert(title_of(held[names[i as int]]) == Some(texts@[0]));
                        return Some(&texts[0]);
                    }
                },
                _ => {},
            }
            i += 1;
        }
        proof {
            assert forall|name: Seq<char>| held.contains_key(name) implies #[trigger] title_of(
                held[name],
            ) is None by {
                assert(names.to_set().contains(name));
                let at = names.index_of(name);
                assert(title_of(held[names[at]]) is None);
            }
        }
        None
    }
}

/// The first piece of text of a property that is a title and holds text.
pub open spec fn title_of(property: property::Property) -> Option<TextBlock> {
    match property.data {
        property::PropertyData::Title(texts) => if texts.len() > 0 {
            Some(texts[0])
        } else {
            None
        },
        _ => None,
    }
}

/// The title that the first of `names` gives whose property, among
/// `properties`, is a title and holds text.
pub open spec fn first_title(
    properties: Map<Seq<char>, property::Property>,
    names: Seq<Seq<char>>,
) -> Option<TextBlock>
    decreases names.len(),
{
    if names.len() == 0 {
        None
    } else {
        match title_of(properties[names.first()]) {
            Some(text) => Some(text),
            None => first_title(properties, names.drop_first()),
        }
    }
}

/// The title that [`first_title`] gives is the title of one of the names, and
/// no name before that one gives a title; where it gives none, no name does.
pub proof fn lemma_first_title(
    properties: Map<Seq<char>, property::Property>,
    names: Seq<Seq<char>>,
)
    ensures
        match first_title(properties, names) {
            Some(text) => exists|at: int|
                {
                    &&& 0 <= at < names.len()
                    &&& #[trigger] title_of(properties[names[at]]) == Some(text)
                    &&& forall|before: int|
                        0 <= before < at ==> title_of(properties[#[trigger] names[before]]) is None
                },
            None => forall|at: int|
                0 <= at < names.len() ==> title_of(properties[#[trigger] names[at]]) is None,
        },
    decreases names.len(),
{
    if names.len() > 0 {
        let rest = names.drop_first();
        lemma_first_title(properties, rest);
        match title_of(properties[names.first()]) {
            Some(text) => {
                assert(title_of(properties[names[0]]) == Some(text));
            },
            None => {
                match first_title(properties, rest) {
                    Some(text) => {
                        let at = choose|at: int|
                            {
                                &&& 0 <= at < rest.len()
                                &&& #[trigger] title_of(properties[rest[at]]) == Some(text)
                                &&& forall|before: int|
                                    0 <= before < at ==> title_of(
                                        properties[#[trigger] rest[before]],
                                    ) is None
                            };
                        assert(title_of(properties[names[at + 1]]) == Some(text));
                        assert forall|before: int| 0 <= before < at + 1 implies title_of(
                            properties[#[trigger] names[before]],
                        ) is None by {
                            if before > 0 {
                                assert(names[before] == rest[before - 1]);
                            }
                        }
                    },
                    None => {
                        assert forall|at: int| 0 <= at < names.len() implies title_of(
                            properties[#[trigger] names[at]],
                        ) is None by {
                            if at > 0 {
                                assert(names[at] == rest[at - 1]);
                            }
                        }
                    },
                }
            },
        }
    }
}

/// A list of objects, as a listing endpoint returns it.
#[derive(Debug)]
pub struct List {
    pub results: Vec<Object>,
}

/// A user of the workspace.
#[derive(Debug, Clone, PartialEq, Eq)]
pub struct User {
    pub id: String,
    pub name: Option<String>,
    pub avatar_url: Option<String>,
    pub type_: Option<String>,
    pub person: Option<Person>,
}

/// What is known of a user who is a person.
#[derive(Debug, Clone, PartialEq, Eq)]
pub struct Person {
    pub email: String,
}

/// The content of a piece of text.
#[derive(Debug, Clone, PartialEq, Eq)]
pub struct TextData {
    pub content: Option<String>,
    pub link: Option<String>,
}

impl Default for TextData {
    /// No content and no link.
    fn default() -> (res: Self)
        ensures
            res.content is None,
            res.link is None,
    {
        TextData { content: None, link: None }
    }
}

/// How a piece of text is styled.
#[derive(Debug, Clone, PartialEq, Eq, Hash)]
pub struct Annotations {
    pub bold: bool,
    pub italic: bool,
    pub strikethrough: bool,
    pub underline: bool,
    pub code: bool,
    pub color: String,
}

impl Default for Annotations {
    /// No style, and no color named.
    fn default() -> (res: Self)
        ensures
            !res.bold && !res.italic && !res.strikethrough && !res.underline && !res.code,
            res.color@ == Seq::<char>::empty(),
    {
        Annotations {
            bold: false,
            italic: false,
            strikethrough: false,
            underline: false,
            code: false,
            color: String::new(),
        }
    }
}

/// A piece of text with its style and its plain rendering.
#[derive(Debug, Clone, PartialEq, Eq)]
pub struct TextBlock {
    pub text: TextData,
    pub annotations: Annotations,
    pub plain_text: String,
    pub href: Option<String>,
}

impl Default for TextBlock {
    /// Empty text without content, link or style.
    fn default() -> (res: Self)
        ensures
            res.text.content is None && res.text.link is None,
            !res.annotations.bold && !res.annotations.italic && !res.annotations.strikethrough
                && !res.annotations.underline && !res.annotations.code,
            res.annotations.color@ == Seq::<char>::empty(),
            res.plain_text@ == Seq::<char>::empty(),
            res.href is None,
    {
        TextBlock {
            text: TextData::default(),
            annotations: Annotations::default(),
            plain_text: String::new(),
            href: None,
        }
    }
}

/// What a search returns.
#[derive(Debug, Clone)]
pub struct SearchResponse {
    pub object: String,
    pub results: Vec<Page>,
    pub next_cursor: Option<String>,
    pub has_more: bool,
    pub type_: String,
    pub page_or_database: serde_json::Value,
}

} // verus!
