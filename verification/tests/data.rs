use notion_api::data::block::{Block, BlockData, Heading};
use notion_api::data::color::Color;
use notion_api::data::parent_object::{Data, ParentObject};
use notion_api::data::property::{Properties, Property, PropertyData, Status};
use notion_api::data::rich_text::{Link, RichText, RichTextData};
use notion_api::data::{Annotations, Page, SearchRequest, TextBlock, TextData, User};
use notion_api::path::reverse;
use notion_api::query::BlockChildren;

fn user(id: &str) -> User {
    User { id: id.to_string(), name: None, avatar_url: None, type_: None, person: None }
}

fn text(plain: &str) -> TextBlock {
    TextBlock { plain_text: plain.to_string(), ..TextBlock::default() }
}

fn property(id: &str, data: PropertyData) -> Property {
    Property { id: id.to_string(), data }
}

fn page(properties: Properties) -> Page {
    Page {
        id: "69202e6a-a005-45cb-ae3d-1b2f8a2a022b".to_string(),
        created_time: "2023-03-13T03:12:00.000Z".to_string(),
        last_edited_time: "2023-03-13T21:10:00.000Z".to_string(),
        created_by: user("077a0175-ad9e-4ea0-bab1-6c2737500371"),
        last_edited_by: user("89a442ee-c522-422d-8552-879d3abca760"),
        cover: Some(serde_json::Value::String("cover.png".to_string())),
        icon: None,
        parent: Some(ParentObject {
            type_: "database_id".to_string(),
            data: Data::DatabaseId("d9824bdc-8445-4327-be8b-5b47500af6ce".to_string()),
        }),
        archived: false,
        properties,
        url: "https://www.notion.so/Examples-69202e6aa00545cbae3d1b2f8a2a022b".to_string(),
    }
}

fn rich(data: RichTextData) -> RichText {
    RichText {
        type_: "text".to_string(),
        data,
        annotations: Annotations::default(),
        plain_text: String::new(),
        href: None,
    }
}

fn heading(plain: &str) -> Heading {
    Heading {
        rich_text: vec![rich(RichTextData::Text { content: plain.to_string(), link: None })],
        color: Color::Default,
        is_toggleable: false,
    }
}

#[test]
fn properties_start_empty() {
    let properties = Properties::new();
    assert_eq!(properties.len(), 0);
    assert!(properties.get("title").is_none());
    assert!(properties.entries().is_empty());
}

#[test]
fn properties_are_found_by_name() {
    let mut properties = Properties::new();
    let done = property("a", PropertyData::Checkbox(true));
    let count = property("b", PropertyData::Number(7));
    assert!(properties.insert("Done".to_string(), done).is_none());
    assert!(properties.insert("Count".to_string(), count).is_none());
    assert_eq!(properties.len(), 2);
    assert!(matches!(properties.get("Done").unwrap().data, PropertyData::Checkbox(true)));
    assert!(matches!(properties.get("Count").unwrap().data, PropertyData::Number(7)));
    assert_eq!(properties.get("Count").unwrap().id, "b");
    assert!(properties.get("count").is_none());
    assert!(properties.get("").is_none());
}

#[test]
fn properties_insert_replaces_and_returns_the_old_value() {
    let mut properties = Properties::new();
    properties.insert("Count".to_string(), property("a", PropertyData::Number(1)));
    properties.insert("Done".to_string(), property("b", PropertyData::Checkbox(false)));
    let old = properties.insert("Count".to_string(), property("c", PropertyData::Number(2)));
    assert!(matches!(old.unwrap().data, PropertyData::Number(1)));
    assert_eq!(properties.len(), 2);
    assert!(matches!(properties.get("Count").unwrap().data, PropertyData::Number(2)));
    let names: Vec<&str> = properties.entries().iter().map(|e| e.0.as_str()).collect();
    assert_eq!(names, vec!["Count", "Done"]);
}

#[test]
fn properties_clone_keeps_names_and_values() {
    let mut properties = Properties::new();
    properties.insert("Count".to_string(), property("a", PropertyData::Number(1)));
    properties.insert(
        "Tags".to_string(),
        property("b", PropertyData::MultiSelect(serde_json::Value::Bool(true))),
    );
    let copy = properties.clone();
    assert_eq!(copy.len(), 2);
    assert!(matches!(copy.get("Count").unwrap().data, PropertyData::Number(1)));
    match &copy.get("Tags").unwrap().data {
        PropertyData::MultiSelect(value) => assert_eq!(value, &serde_json::Value::Bool(true)),
        other => panic!("{other:?}"),
    }
}

#[test]
fn page_property_gives_the_value() {
    let mut properties = Properties::new();
    properties.insert(
        "State".to_string(),
        property(
            "s",
            PropertyData::Status(Status {
                id: "1".to_string(),
                name: "Open".to_string(),
                color: "green".to_string(),
            }),
        ),
    );
    let page = page(properties);
    match page.property("State") {
        Some(PropertyData::Status(status)) => assert_eq!(status.name, "Open"),
        other => panic!("{other:?}"),
    }
    assert!(page.property("title").is_none());
}

#[test]
fn page_title_is_the_first_text_of_the_title_property() {
    let mut properties = Properties::new();
    properties.insert(
        "title".to_string(),
        property("title", PropertyData::Title(vec![text("Examples"), text(" and more")])),
    );
    let page = page(properties);
    assert_eq!(page.title().unwrap().plain_text, "Examples");
}

#[test]
fn page_title_is_found_under_any_name() {
    let mut properties = Properties::new();
    properties.insert("Done".to_string(), property("d", PropertyData::Checkbox(true)));
    properties
        .insert("Name".to_string(), property("n", PropertyData::Title(vec![text("Examples")])));
    properties.insert("Link".to_string(), property("l", PropertyData::Url("x".to_string())));
    let page = page(properties);
    assert!(page.property("title").is_none());
    assert_eq!(page.title().unwrap().plain_text, "Examples");
}

#[test]
fn page_title_is_the_first_title_that_holds_text() {
    let mut properties = Properties::new();
    properties.insert("Empty".to_string(), property("e", PropertyData::Title(vec![])));
    properties.insert("First".to_string(), property("f", PropertyData::Title(vec![text("One")])));
    properties.insert("Second".to_string(), property("s", PropertyData::Title(vec![text("Two")])));
    assert_eq!(page(properties).title().unwrap().plain_text, "One");
}

#[test]
fn page_without_title_property_has_no_title() {
    let mut properties = Properties::new();
    properties.insert("Name".to_string(), property("n", PropertyData::Email("a@b.c".to_string())));
    properties.insert("Done".to_string(), property("d", PropertyData::Checkbox(false)));
    assert!(page(properties).title().is_none());
    assert!(page(Properties::new()).title().is_none());
}

#[test]
fn page_with_empty_title_has_no_title() {
    let mut properties = Properties::new();
    properties.insert("title".to_string(), property("title", PropertyData::Title(vec![])));
    assert!(page(properties).title().is_none());
}

#[test]
fn page_whose_title_property_is_no_title_has_no_title() {
    let mut properties = Properties::new();
    properties
        .insert("title".to_string(), property("title", PropertyData::Url("Examples".to_string())));
    assert!(page(properties).title().is_none());
}

#[test]
fn page_clone_keeps_the_json_it_carries() {
    let page = page(Properties::new());
    let copy = page.clone();
    assert_eq!(copy.cover, Some(serde_json::Value::String("cover.png".to_string())));
    assert_eq!(copy.id, page.id);
    assert_eq!(copy.parent, page.parent);
}

#[test]
fn markdown_of_plain_text() {
    let piece = rich(RichTextData::Text { content: "Grocery List".to_string(), link: None });
    assert_eq!(piece.to_markdown(), "Grocery List");
}

#[test]
fn markdown_of_link() {
    let piece = rich(RichTextData::Text {
        content: "docs".to_string(),
        link: Some(Link { url: "https://developers.notion.com".to_string() }),
    });
    assert_eq!(piece.to_markdown(), "[docs](https://developers.notion.com)");
}

#[test]
fn markdown_of_equation() {
    let piece = rich(RichTextData::Equation { expression: "e = mc^2".to_string() });
    assert_eq!(piece.to_markdown(), "$$e = mc^2$$");
}

#[test]
fn markdown_of_mention() {
    let piece = rich(RichTextData::Mention { type_: "user".to_string() });
    assert_eq!(piece.to_markdown(), "@user");
}

#[test]
fn heading_of_each_level() {
    for data in [
        BlockData::Heading1(heading("one")),
        BlockData::Heading2(heading("two")),
        BlockData::Heading3(heading("three")),
    ] {
        let plain = data.heading().unwrap().rich_text[0].to_markdown();
        assert!(["one", "two", "three"].contains(&plain.as_str()));
        assert_eq!(data.into_heading().unwrap().rich_text[0].to_markdown(), plain);
    }
}

#[test]
fn heading_of_other_blocks_is_none() {
    assert!(BlockData::Divider.heading().is_none());
    assert!(BlockData::ChildPage { title: "Meeting Notes 1".to_string() }.heading().is_none());
    assert!(BlockData::Quote.into_heading().is_none());
    assert!(BlockData::Unsupported.heading_mut().is_none());
}

#[test]
fn heading_mut_changes_the_block_in_place() {
    let mut data = BlockData::Heading2(heading("two"));
    let inner = data.heading_mut().unwrap();
    inner.is_toggleable = true;
    inner.color = Color::Red;
    match &data {
        BlockData::Heading2(inner) => {
            assert!(inner.is_toggleable);
            assert_eq!(inner.color, Color::Red);
            assert_eq!(inner.rich_text[0].to_markdown(), "two");
        }
        other => panic!("{other:?}"),
    }
}

#[test]
fn block_holds_its_data() {
    let block = Block {
        id: "c2d57097-582a-4ddc-b2e7-9c7f64c21923".to_string(),
        parent: None,
        type_: "heading_1".to_string(),
        data: BlockData::Heading1(heading("Agenda")),
        created_time: "2023-03-13T03:32:00.000Z".to_string(),
        created_by: serde_json::Value::Null,
        last_edited_time: "2023-03-13T03:41:00.000Z".to_string(),
        last_edited_by: serde_json::Value::Null,
        archived: false,
        has_children: true,
    };
    assert_eq!(block.data.heading().unwrap().rich_text.len(), 1);
}

#[test]
fn search_request_default() {
    let request = SearchRequest::default();
    assert_eq!(request.query, None);
    assert_eq!(request.sort, None);
    assert_eq!(request.filter, None);
    assert_eq!(request.start_cursor, None);
    assert_eq!(request.page_size, Some(100));
}

#[test]
fn block_children_default() {
    let query = BlockChildren::default();
    assert_eq!(query.start_cursor, None);
    assert_eq!(query.page_size, 100);
}

#[test]
fn text_defaults_are_empty() {
    assert_eq!(TextData::default(), TextData { content: None, link: None });
    let annotations = Annotations::default();
    assert!(!annotations.bold && !annotations.italic && !annotations.strikethrough);
    assert!(!annotations.underline && !annotations.code);
    assert_eq!(annotations.color, "");
    let block = TextBlock::default();
    assert_eq!(block.text, TextData::default());
    assert_eq!(block.annotations, annotations);
    assert_eq!(block.plain_text, "");
    assert_eq!(block.href, None);
}

#[test]
fn default_is_the_default_of_the_type() {
    assert_eq!(notion_api::default::<u32>(), 0);
    assert_eq!(notion_api::default::<String>(), "");
    assert_eq!(notion_api::default::<Option<bool>>(), None);
    assert_eq!(notion_api::default::<BlockChildren>().page_size, 100);
    assert_eq!(notion_api::default::<SearchRequest>().page_size, Some(100));
}

#[test]
fn reverse_turns_the_list_around() {
    assert_eq!(reverse(vec![]), Vec::<String>::new());
    assert_eq!(reverse(vec!["a".to_string()]), vec!["a".to_string()]);
    assert_eq!(
        reverse(vec!["c".to_string(), "b".to_string(), "a".to_string()]),
        vec!["a".to_string(), "b".to_string(), "c".to_string()]
    );
}
