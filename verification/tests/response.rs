use notion_api::data::block::{Block, BlockData};
use notion_api::data::property::Properties;
use notion_api::data::{List, Object, Page, User};
use notion_api::request;
use notion_api::response::{blocks, page, users, ResponseError};

fn user(id: &str) -> User {
    User {
        id: id.to_string(),
        name: Some(format!("user {id}")),
        avatar_url: None,
        type_: None,
        person: None,
    }
}

fn block(id: &str) -> Block {
    Block {
        id: id.to_string(),
        parent: None,
        type_: "divider".to_string(),
        data: BlockData::Divider,
        created_time: "2023-03-13T03:32:00.000Z".to_string(),
        created_by: serde_json::Value::Null,
        last_edited_time: "2023-03-13T03:41:00.000Z".to_string(),
        last_edited_by: serde_json::Value::Null,
        archived: false,
        has_children: false,
    }
}

fn a_page(id: &str) -> Page {
    Page {
        id: id.to_string(),
        created_time: String::new(),
        last_edited_time: String::new(),
        created_by: user("u"),
        last_edited_by: user("u"),
        cover: None,
        icon: None,
        parent: None,
        archived: false,
        properties: Properties::new(),
        url: String::new(),
    }
}

fn list(results: Vec<Object>) -> Object {
    Object::List(List { results })
}

#[test]
fn users_of_a_list_of_users() {
    let found = users(list(vec![
        Object::User(user("1")),
        Object::User(user("2")),
        Object::User(user("3")),
    ]));
    assert_eq!(found.unwrap(), vec![user("1"), user("2"), user("3")]);
}

#[test]
fn users_of_an_empty_list() {
    assert_eq!(users(list(vec![])).unwrap(), vec![]);
}

#[test]
fn users_of_something_else_is_an_error() {
    match users(Object::User(user("1"))) {
        Err(ResponseError::NotAList(Object::User(found))) => assert_eq!(found, user("1")),
        other => panic!("{other:?}"),
    }
}

#[test]
fn users_stops_at_the_first_item_that_is_no_user() {
    let found = users(list(vec![
        Object::User(user("1")),
        Object::Page(a_page("p")),
        Object::User(user("2")),
        Object::Block(Box::new(block("b"))),
    ]));
    match found {
        Err(ResponseError::NotAUser(Object::Page(found))) => assert_eq!(found.id, "p"),
        other => panic!("{other:?}"),
    }
}

#[test]
fn blocks_of_a_list_of_blocks() {
    let found = blocks(Some(list(vec![
        Object::Block(Box::new(block("1"))),
        Object::Block(Box::new(block("2"))),
    ])))
    .unwrap();
    assert_eq!(found.iter().map(|b| b.id.as_str()).collect::<Vec<_>>(), vec!["1", "2"]);
}

#[test]
fn blocks_of_an_unreadable_answer_are_none() {
    assert!(blocks(None).unwrap().is_empty());
}

#[test]
fn blocks_of_something_else_is_an_error() {
    let found = blocks(Some(Object::Page(a_page("p"))));
    assert!(matches!(found, Err(ResponseError::NotAList(Object::Page(_)))));
}

#[test]
fn blocks_stops_at_the_first_item_that_is_no_block() {
    let found = blocks(Some(list(vec![
        Object::Block(Box::new(block("1"))),
        Object::User(user("u1")),
        Object::User(user("u2")),
    ])));
    match found {
        Err(ResponseError::NotABlock(Object::User(found))) => assert_eq!(found, user("u1")),
        other => panic!("{other:?}"),
    }
}

#[test]
fn page_of_a_page() {
    assert_eq!(page(Object::Page(a_page("p"))).unwrap().id, "p");
}

#[test]
fn page_of_something_else_is_an_error() {
    assert!(matches!(page(list(vec![])), Err(ResponseError::NotAPage(Object::List(_)))));
    assert!(matches!(page(Object::User(user("u"))), Err(ResponseError::NotAPage(Object::User(_)))));
}

#[test]
fn url_of_an_endpoint() {
    assert_eq!(request::url("users"), "https://api.notion.com/v1/users");
    assert_eq!(request::url(""), "https://api.notion.com/v1/");
    assert_eq!(request::url(request::USERS_PATH), "https://api.notion.com/v1/users");
    assert_eq!(request::url(request::SEARCH_PATH), "https://api.notion.com/v1/search");
}

#[test]
fn paths_of_the_endpoints() {
    assert_eq!(request::block_path("c2d57097"), "blocks/c2d57097");
    assert_eq!(request::block_children_path("c2d57097"), "blocks/c2d57097/children");
    assert_eq!(request::page_path("be633bf1"), "pages/be633bf1");
    assert_eq!(request::API_VERSION, "2022-06-28");
}

#[test]
fn search_for_nothing_asks_for_everything() {
    let body = request::search("");
    assert_eq!(body.query, None);
    assert_eq!(body.page_size, Some(100));
    assert_eq!(body.sort, None);
    assert_eq!(body.filter, None);
    assert_eq!(body.start_cursor, None);
}

#[test]
fn search_for_a_term() {
    let body = request::search("Meeting");
    assert_eq!(body.query, Some("Meeting"));
    assert_eq!(body.page_size, Some(100));
    assert_eq!(body.sort, None);
    assert_eq!(body.filter, None);
    assert_eq!(body.start_cursor, None);
}
