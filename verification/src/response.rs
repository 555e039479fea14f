//! What the answers of the store have to look like, and what is taken out of
//! them.
use crate::data::{Block, List, Object, Page, User};
use iter_tools::Itertools;
use vstd::prelude::*;

verus! {

/// An answer of the store that is not what the request asked for. Each
/// variant holds the object that was in the way.
#[derive(Debug)]
pub enum ResponseError {
    /// The answer to a listing request is no list.
    NotAList(Object),
    /// A list of users holds something else.
    NotAUser(Object),
    /// A list of blocks holds something else.
    NotABlock(Object),
    /// The answer to a request for a page is no page.
    NotAPage(Object),
}

/// The values of `items` in their order where each item is a value, and the
/// first error where one is not.
pub open spec fn collected<T, E>(items: Seq<Result<T, E>>) -> Result<Seq<T>, E>
    decreases items.len(),
{
    if items.len() == 0 {
        Ok(Seq::empty())
    } else {
        match items.first() {
            Ok(value) => match collected(items.drop_first()) {
                Ok(rest) => Ok(seq![value] + rest),
                Err(error) => Err(error),
            },
            Err(error) => Err(error),
        }
    }
}

/// `Itertools::try_collect` of `iter_tools`, on the items of a vector: it
/// collects them as `Iterator::collect` does into a `Result`, which gives
/// the values in their order, or the first error that it comes to.
#[verifier::external_body]
fn try_collect<T, E>(items: Vec<Result<T, E>>) -> (res: Result<Vec<T>, E>)
    ensures
        match res {
            Ok(values) => collected(items@) == Ok::<Seq<T>, E>(values@),
            Err(error) => collected(items@) == Err::<Seq<T>, E>(error),
        },
{
    items.into_iter().try_collect()
}

/// The user that an object is, or the error for an object that is none.
pub open spec fn as_user(object: Object) -> Result<User, ResponseError> {
    match object {
        Object::User(user) => Ok(user),
        other => Err(ResponseError::NotAUser(other)),
    }
}

/// The block that an object is, or the error for an object that is none.
pub open spec fn as_block(object: Object) -> Result<Block, ResponseError> {
    match object {
        Object::Block(block) => Ok(*block),
        other => Err(ResponseError::NotABlock(other)),
    }
}

/// The users that the answer to a request for the users lists.
pub open spec fn users_of(response: Object) -> Result<Seq<User>, ResponseError> {
    match response {
        Object::List(list) => collected(list.results@.map_values(|object: Object| as_user(object))),
        other => Err(ResponseError::NotAList(other)),
    }
}

/// The blocks that the answer to a request for the children of a block
/// lists. An answer that could not be read stands for no children.
pub open spec fn blocks_of(response: Option<Object>) -> Result<Seq<Block>, ResponseError> {
    match response {
        None => Ok(Seq::empty()),
        Some(Object::List(list)) => collected(
            list.results@.map_values(|object: Object| as_block(object)),
        ),
        Some(other) => Err(ResponseError::NotAList(other)),
    }
}

/// The users of the workspace, out of the answer to a request for them.
///
/// The answer has to be a list, and each of its items a user: the first
/// item that is none is the error.
pub fn users(response: Object) -> (res: Result<Vec<User>, ResponseError>)
    ensures
        match res {
            Ok(users) => users_of(response) == Ok::<Seq<User>, ResponseError>(users@),
            Err(error) => users_of(response) == Err::<Seq<User>, ResponseError>(error),
        },
{
    let results = match response {
        Object::List(List { results }) => results,
        other => {
            return Err(ResponseError::NotAList(other));
        },
    };
    let ghost objects = results@;
    let mut items: Vec<Result<User, ResponseError>> = Vec::with_capacity(results.len());
    for object in it: results.into_iter()
        invariant
            it.seq() == objects,
            items@ == objects.take(it.index() as int).map_values(|object: Object| as_user(object)),
    {
        let item = match object {
            Object::User(user) => Ok(user),
            other => Err(ResponseError::NotAUser(other)),
        };
        items.push(item);
        assert(items@ =~= objects.take(it.index() + 1).map_values(
            |object: Object| as_user(object),
        ));
    }
    assert(objects.take(objects.len() as int) =~= objects);
    try_collect(items)
}

/// The children of a block, out of the answer to a request for them.
///
/// An answer that could not be read stands for no children. One that could
/// has to be a list, and each of its items a block: the first item that is
/// none is the error.
pub fn blocks(response: Option<Object>) -> (res: Result<Vec<Block>, ResponseError>)
    ensures
        match res {
            Ok(blocks) => blocks_of(response) == Ok::<Seq<Block>, ResponseError>(blocks@),
            Err(error) => blocks_of(response) == Err::<Seq<Block>, ResponseError>(error),
        },
{
    let results = match response {
        None => {
            return Ok(Vec::new());
        },
        Some(Object::List(List { results })) => results,
        Some(other) => {
            return Err(ResponseError::NotAList(other));
        },
    };
    let ghost objects = results@;
    let mut items: Vec<Result<Block, ResponseError>> = Vec::with_capacity(results.len());
    for object in it: results.into_iter()
        invariant
            it.seq() == objects,
            items@ == objects.take(it.index() as int).map_values(|object: Object| as_block(object)),
    {
        let item = match object {
            Object::Block(block) => Ok(*block),
            other => Err(ResponseError::NotABlock(other)),
        };
        items.push(item);
        assert(items@ =~= objects.take(it.index() + 1).map_values(
            |object: Object| as_block(object),
        ));
    }
    assert(objects.take(objects.len() as int) =~= objects);
    try_collect(items)
}

/// The page, out of the answer to a request for one: the answer has to be
/// a page.
pub fn page(response: Object) -> (res: Result<Page, ResponseError>)
    ensures
        res == (match response {
            Object::Page(page) => Ok::<Page, ResponseError>(page),
            other => Err(ResponseError::NotAPage(other)),
        }),
{
    match response {
        Object::Page(page) => Ok(page),
        other => Err(ResponseError::NotAPage(other)),
    }
}

} // verus!
