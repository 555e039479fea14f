//! The container that a page or a block hangs under.
use vstd::prelude::*;

verus! {

/// What a parent reference points at.
#[derive(Debug, Clone, PartialEq, Eq)]
pub enum Data {
    /// Another page, by its identifier.
    PageId(String),
    /// A database, by its identifier.
    DatabaseId(String),
}

/// A parent reference as the remote store reports it.
#[derive(Debug, Clone, PartialEq, Eq)]
pub struct ParentObject {
    /// The tag that the store sends along with the reference.
    pub type_: String,
    pub data: Data,
}

impl ParentObject {
    /// The identifier of the parent page, where the parent is a page.
    pub open spec fn page_id(self) -> Option<Seq<char>> {
        match self.data {
            Data::PageId(id) => Some(id@),
            Data::DatabaseId(_) => None,
        }
    }
}

} // verus!
