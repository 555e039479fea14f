//! What the requests to the store are made of: where they go and what a
//! search asks for.
use crate::data::SearchRequest;
use vstd::prelude::*;
use vstd::string::StringExecFns;

verus! {

/// The version of the API that the requests name in their `Notion-Version`
/// header.
pub const API_VERSION: &'static str = "2022-06-28";

/// The address of the endpoint at `path`.
pub fn url(path: &str) -> (res: String)
    ensures
        res@ == "https://api.notion.com/v1/"@ + path@,
{
    let mut res = String::from_str("https://api.notion.com/v1/");
    res.append(path);
    res
}

/// The path of the endpoint that lists the users.
pub const USERS_PATH: &'static str = "users";

/// The path of the search endpoint.
pub const SEARCH_PATH: &'static str = "search";

/// The path of the endpoint of one block.
pub fn block_path(block_id: &str) -> (res: String)
    ensures
        res@ == "blocks/"@ + block_id@,
{
    let mut res = String::from_str("blocks/");
    res.append(block_id);
    res
}

/// The path of the endpoint that lists the children of a block.
pub fn block_children_path(block_id: &str) -> (res: String)
    ensures
        res@ == "blocks/"@ + block_id@ + "/children"@,
{
    let mut res = String::from_str("blocks/");
    res.append(block_id);
    res.append("/children");
    res
}

/// The path of the endpoint of one page.
pub fn page_path(page_id: &str) -> (res: String)
    ensures
        res@ == "pages/"@ + page_id@,
{
    let mut res = String::from_str("pages/");
    res.append(page_id);
    res
}

/// The body of a search for `query`: the empty query asks for everything,
/// and the rest is as [`SearchRequest::default`] has it.
pub fn search(query: &str) -> (res: SearchRequest<'_>)
    ensures
        res.query == (if query@.len() == 0 {
            None
        } else {
            Some(query)
        }),
        res.sort is None,
        res.filter is None,
        res.start_cursor is None,
        res.page_size == Some(100u32),
{
    let query = if query.is_empty() {
        None
    } else {
        Some(query)
    };
    SearchRequest { query, ..crate::default() }
}

} // verus!
