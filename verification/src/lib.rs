//! The Notion API without the network: the records of the store, what the
//! requests to its endpoints hold and what is taken out of their answers, and
//! a cache of pages that gives the path of a page through its ancestors.
//!
//! Nothing here sends a request. A caller that does hands the answers in:
//! [`CachedClient::get_page`] and [`CachedClient::missing_ancestor`] say
//! what has to be fetched, [`CachedClient::accept`],
//! [`CachedClient::after_fetch`] and [`CachedClient::search`] take in what
//! came back.
use vstd::prelude::*;

pub mod cache;
pub mod data;
pub mod path;
pub mod query;
pub mod request;
pub mod response;
pub mod text;

pub use cache::CachedClient;

verus! {

/// The default value of `T`.
pub fn default<T: Default>() -> (res: T)
    ensures
        call_ensures(T::default, (), res),
{
    T::default()
}

} // verus!
