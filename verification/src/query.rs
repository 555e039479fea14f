//! The parameters of the listing endpoints.
use vstd::prelude::*;

verus! {

/// The parameters of a request for the children of a block.
#[derive(Debug, Clone)]
pub struct BlockChildren {
    /// Where to go on from, as an earlier response told it.
    pub start_cursor: Option<String>,
    /// The largest number of children to return.
    pub page_size: u32,
}

impl Default for BlockChildren {
    /// From the first child on, 100 children at a time.
    fn default() -> (res: Self)
        ensures
            res.start_cursor is None,
            res.page_size == 100,
    {
        BlockChildren { start_cursor: None, page_size: 100 }
    }
}

} // verus!
