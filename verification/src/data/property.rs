//! The properties of a page: the typed values that its columns hold.
use super::{TextBlock, User};
use vstd::prelude::*;

verus! {

/// The value of one property, by its type.
#[derive(Debug, Clone)]
pub enum PropertyData {
    Checkbox(bool),
    CreatedBy(User),
    CreatedTime(String),
    Date(Date),
    Email(String),
    Files(Vec<File>),
    Formula(Formula),
    LastEditedBy(User),
    LastEditedTime(String),
    MultiSelect(serde_json::Value),
    Number(i64),
    People(Vec<User>),
    PhoneNumber(String),
    Relation(serde_json::Value),
    Rollup(serde_json::Value),
    RichText(RichText),
    Select(serde_json::Value),
    Status(Status),
    Title(Vec<TextBlock>),
    Url(String),
}

/// Rich text of a property, kept as the store sent it.
#[derive(Debug, Clone)]
pub struct RichText(pub serde_json::Value);

/// One property of a page.
#[derive(Debug, Clone)]
pub struct Property {
    pub id: String,
    pub data: PropertyData,
}

/// The result of a formula.
#[derive(Debug, Clone)]
pub enum Formula {
    Boolean(bool),
    Date(String),
    Number(i64),
    String(String),
}

/// A file attached to a page.
#[derive(Debug, Clone)]
pub struct File {
    pub name: String,
    pub type_: String,
    pub external_url: serde_json::Value,
}

/// A date or a range of dates.
#[derive(Debug, Clone)]
pub struct Date {
    pub start: Option<String>,
    pub end: Option<String>,
    pub time_zone: Option<String>,
}

/// The state of a status property.
#[derive(Debug, Clone)]
pub struct Status {
    pub id: String,
    pub name: String,
    pub color: String,
}

/// The properties of a page, found by name.
///
/// A name occurs at most once. The properties are kept in the order in which
/// their names were first inserted.
#[derive(Debug)]
pub struct Properties {
    entries: Vec<(String, Property)>,
}

/// The names of a list of named properties, in the list's order.
pub open spec fn names_of(entries: Seq<(String, Property)>) -> Seq<Seq<char>> {
    entries.map_values(|entry: (String, Property)| entry.0@)
}

/// The map from each name of a list of named properties to the property
/// that the list has for it. It is meant for lists without repeated names.
spec fn map_of(entries: Seq<(String, Property)>) -> Map<Seq<char>, Property> {
    Map::new(
        |name: Seq<char>| names_of(entries).contains(name),
        |name: Seq<char>| entries[names_of(entries).index_of(name)].1,
    )
}

/// Each entry of a list without repeated names is found under its name.
proof fn lemma_entry_is_mapped(entries: Seq<(String, Property)>, at: int)
    requires
        names_of(entries).no_duplicates(),
        0 <= at < entries.len(),
    ensures
        map_of(entries).get(entries[at].0@) == Some(entries[at].1),
{
    assert(names_of(entries)[at] == entries[at].0@);
    assert(names_of(entries).index_of(entries[at].0@) == at);
}

/// An entry under a new name, added at the end, is one more key of the map.
proof fn lemma_entry_is_added(entries: Seq<(String, Property)>, entry: (String, Property))
    requires
        names_of(entries).no_duplicates(),
        !names_of(entries).contains(entry.0@),
    ensures
        names_of(entries.push(entry)) == names_of(entries).push(entry.0@),
        names_of(entries.push(entry)).no_duplicates(),
        map_of(entries.push(entry)) == map_of(entries).insert(entry.0@, entry.1),
{
    let grown = entries.push(entry);
    assert(names_of(grown) =~= names_of(entries).push(entry.0@));
    assert forall|name: Seq<char>| #[trigger]
        map_of(grown).contains_key(name) <==> map_of(entries).contains_key(name) || name
            == entry.0@ by {
        if names_of(entries).contains(name) {
            let at = names_of(entries).index_of(name);
            assert(names_of(grown)[at] == name);
        }
        if name == entry.0@ {
            assert(names_of(grown)[entries.len() as int] == name);
        }
    }
    assert forall|name: Seq<char>| map_of(grown).contains_key(name) implies #[trigger] map_of(
        grown,
    )[name] == map_of(entries).insert(entry.0@, entry.1)[name] by {
        let at = names_of(grown).index_of(name);
        lemma_entry_is_mapped(grown, at);
        if at < entries.len() {
            lemma_entry_is_mapped(entries, at);
        }
    }
    assert(map_of(grown) =~= map_of(entries).insert(entry.0@, entry.1));
}

/// An entry that takes the place of the entry of the same name changes the
/// property under that name, and nothing else.
proof fn lemma_entry_is_replaced(
    entries: Seq<(String, Property)>,
    at: int,
    entry: (String, Property),
)
    requires
        names_of(entries).no_duplicates(),
        0 <= at < entries.len(),
        entries[at].0@ == entry.0@,
    ensures
        names_of(entries.update(at, entry)) == names_of(entries),
        map_of(entries.update(at, entry)) == map_of(entries).insert(entry.0@, entry.1),
{
    let changed = entries.update(at, entry);
    assert(names_of(changed) =~= names_of(entries));
    assert(names_of(entries)[at] == entry.0@);
    assert forall|name: Seq<char>| map_of(changed).contains_key(name) implies #[trigger] map_of(
        changed,
    )[name] == map_of(entries).insert(entry.0@, entry.1)[name] by {
        let at_name = names_of(entries).index_of(name);
        lemma_entry_is_mapped(changed, at_name);
        lemma_entry_is_mapped(entries, at_name);
    }
    assert(map_of(changed) =~= map_of(entries).insert(entry.0@, entry.1));
}

impl View for Properties {
    type V = Map<Seq<char>, Property>;

    closed spec fn view(&self) -> Map<Seq<char>, Property> {
        map_of(self.entries@)
    }
}

impl Properties {
    /// The names, in the order in which they were first inserted.
    pub closed spec fn names(&self) -> Seq<Seq<char>> {
        names_of(self.entries@)
    }

    #[verifier::type_invariant]
    spec fn well_formed(&self) -> bool {
        self.names().no_duplicates()
    }

    /// Where the names are distinct, they are exactly the keys of the view.
    proof fn lemma_names(&self)
        requires
            self.names().no_duplicates(),
        ensures
            self.names().to_set() == self@.dom(),
            self@.dom().finite(),
            self@.dom().len() == self.names().len(),
    {
        assert(self.names().to_set() =~= self@.dom());
        self.names().unique_seq_to_set();
        vstd::seq_lib::seq_to_set_is_finite(self.names());
    }

    /// No properties.
    pub fn new() -> (res: Self)
        ensures
            res@ == Map::<Seq<char>, Property>::empty(),
            res.names() == Seq::<Seq<char>>::empty(),
    {
        let entries: Vec<(String, Property)> = Vec::new();
        assert(names_of(entries@) =~= Seq::<Seq<char>>::empty());
        assert(map_of(entries@) =~= Map::<Seq<char>, Property>::empty());
        Properties { entries }
    }

    /// The number of properties.
    pub fn len(&self) -> (res: usize)
        ensures
            res == self.names().len(),
            res == self@.dom().len(),
    {
        proof {
            use_type_invariant(self);
            self.lemma_names();
        }
        self.entries.len()
    }

    /// The properties with their names, in the order in which the names
    /// were first inserted: each name once, with the property that it has.
    pub fn entries(&self) -> (res: &Vec<(String, Property)>)
        ensures
            names_of(res@) == self.names(),
            self.names().no_duplicates(),
            self.names().to_set() == self@.dom(),
            forall|i: int|
                0 <= i < res@.len() ==> self@.get(#[trigger] res@[i].0@) == Some(res@[i].1),
    {
        proof {
            use_type_invariant(self);
            self.lemma_names();
            assert forall|i: int| 0 <= i < self.entries@.len() implies self@.get(
                #[trigger] self.entries@[i].0@,
            ) == Some(self.entries@[i].1) by {
                lemma_entry_is_mapped(self.entries@, i);
            }
        }
        &self.entries
    }

    /// The place of the entry called `name` in `entries`, if there is one.
    fn position(entries: &Vec<(String, Property)>, name: &str) -> (res: Option<usize>)
        ensures
            match res {
                Some(at) => at < entries@.len() && entries@[at as int].0@ == name@,
                None => !names_of(entries@).contains(name@),
            },
    {
        let mut i: usize = 0;
        while i < entries.len()
            invariant
                i <= entries.len(),
                forall|j: int| 0 <= j < i ==> names_of(entries@)[j] != name@,
            decreases entries.len() - i,
        {
            if entries[i].0.as_str().eq(name) {
                return Some(i);
            }
            i += 1;
        }
        None
    }

    /// The property called `name`, if there is one.
    pub fn get(&self, name: &str) -> (res: Option<&Property>)
        ensures
            match res {
                Some(property) => self@.get(name@) == Some(*property),
                None => self@.get(name@) is None,
            },
    {
        proof {
            use_type_invariant(self);
        }
        match Self::position(&self.entries, name) {
            Some(at) => {
                proof {
                    lemma_entry_is_mapped(self.entries@, at as int);
                }
                Some(&self.entries[at].1)
            },
            None => None,
        }
    }

    /// Sets the property called `name`, and returns the one that it had before.
    pub fn insert(&mut self, name: String, property: Property) -> (res: Option<Property>)
        ensures
            final(self)@ == old(self)@.insert(name@, property),
            res == old(self)@.get(name@),
            final(self).names() == (if old(self)@.contains_key(name@) {
                old(self).names()
            } else {
                old(self).names().push(name@)
            }),
    {
        proof {
            use_type_invariant(&*self);
        }
        let mut entries: Vec<(String, Property)> = Vec::new();
        assert(names_of(entries@) =~= Seq::<Seq<char>>::empty());
        std::mem::swap(&mut entries, &mut self.entries);
        let ghost before = entries@;
        let mut entry = (name, property);
        let res = match Self::position(&entries, entry.0.as_str()) {
            Some(at) => {
                proof {
                    lemma_entry_is_mapped(before, at as int);
                    lemma_entry_is_replaced(before, at as int, entry);
                }
                std::mem::swap(&mut entry, &mut entries[at]);
                Some(entry.1)
            },
            None => {
                proof {
                    lemma_entry_is_added(before, entry);
                }
                entries.push(entry);
                None
            },
        };
        self.entries = entries;
        res
    }
}

impl Clone for Properties {
    /// A copy with the same names in the same order, each with a clone of
    /// the property that it has.
    fn clone(&self) -> (res: Self)
        ensures
            res.names() == self.names(),
            res@.dom() == self@.dom(),
            forall|name: Seq<char>|
                self@.contains_key(name) ==> cloned(#[trigger] self@[name], res@[name]),
    {
        proof {
            use_type_invariant(self);
        }
        let mut entries: Vec<(String, Property)> = Vec::new();
        let mut i: usize = 0;
        while i < self.entries.len()
            invariant
                i <= self.entries.len(),
                entries@.len() == i,
                names_of(entries@) == self.names().take(i as int),
                forall|j: int| 0 <= j < i ==> cloned(self.entries@[j].1, #[trigger] entries@[j].1),
            decreases self.entries.len() - i,
        {
            let name = self.entries[i].0.clone();
            let property = self.entries[i].1.clone();
            let ghost grown = names_of(entries@).push(name@);
            entries.push((name, property));
            assert(names_of(entries@) =~= grown);
            assert(grown =~= self.names().take(i + 1));
            i += 1;
        }
        assert(self.names().take(i as int) =~= self.names());
        let res = Properties { entries };
        assert(res@.dom() =~= self@.dom());
        assert forall|name: Seq<char>| self@.contains_key(name) implies cloned(
            #[trigger] self@[name],
            res@[name],
        ) by {
            let at = self.names().index_of(name);
            lemma_entry_is_mapped(self.entries@, at);
            lemma_entry_is_mapped(res.entries@, at);
        }
        res
    }
}

} // verus!
