use rss::category::Category;
use rss::error::Error;
use rss::event::{Attribute, XmlEvent, XmlReader, XmlWriter};

fn open(reader: &mut XmlReader, expected: &str) -> Vec<Attribute> {
    match reader.read_event() {
        XmlEvent::Start { name, attributes } => {
            assert_eq!(name, expected);
            attributes
        }
        other => panic!("unexpected event {:?}", other),
    }
}

fn read_category(xml: &str) -> Result<Category, Error> {
    let mut reader = XmlReader::from_str(xml);
    let attributes = open(&mut reader, "category");
    Category::from_xml(&mut reader, &attributes)
}

fn write_category(category: &Category) -> String {
    let mut writer = XmlWriter::new();
    category.to_xml(&mut writer);
    String::from_utf8(writer.to_bytes().unwrap()).unwrap()
}

#[test]
fn category_with_domain_is_read_and_written_back_byte_for_byte() {
    let xml = "<category domain=\"http://example.com/\">Technology</category>";
    let category = read_category(xml).unwrap();
    assert_eq!(
        category,
        Category { name: "Technology".to_string(), domain: Some("http://example.com/".to_string()) }
    );
    assert_eq!(category.name(), "Technology");
    assert_eq!(category.domain(), Some("http://example.com/"));
    assert_eq!(write_category(&category), xml);
}

#[test]
fn category_without_domain_writes_no_attribute() {
    let category = read_category("<category>News</category>").unwrap();
    assert_eq!(category, Category { name: "News".to_string(), domain: None });
    assert_eq!(write_category(&category), "<category>News</category>");
}

#[test]
fn category_without_text_has_the_empty_name() {
    let category = read_category("<category></category>").unwrap();
    assert_eq!(category.name(), "");
    assert_eq!(category.domain(), None);
    let category = read_category("<category/>").unwrap();
    assert_eq!(category, Category::default());
}

#[test]
fn category_keeps_the_first_of_two_domains() {
    let category = read_category("<category domain=\"first\" domain=\"second\">x</category>").unwrap();
    assert_eq!(category.domain(), Some("first"));
}

#[test]
fn category_with_empty_domain_is_not_a_category_without_domain() {
    let present = read_category("<category domain=\"\">x</category>").unwrap();
    assert_eq!(present.domain(), Some(""));
    assert_eq!(write_category(&present), "<category domain=\"\">x</category>");
    let absent = read_category("<category>x</category>").unwrap();
    assert_eq!(absent.domain(), None);
    assert_ne!(present, absent);
}

#[test]
fn category_ignores_a_child_element() {
    let with_child = read_category("<category>Tech<x:foo a=\"1\"><b>deep</b></x:foo>nology</category>").unwrap();
    let without = read_category("<category>Technology</category>").unwrap();
    assert_eq!(with_child, without);
}

#[test]
fn category_joins_the_pieces_of_its_text() {
    let category = read_category("<category>a &amp; b<!-- c --> &lt;d&gt;<![CDATA[<e>]]></category>").unwrap();
    assert_eq!(category.name(), "a & b <d><e>");
}

#[test]
fn category_that_is_cut_off_is_an_error() {
    assert_eq!(read_category("<category>Tech"), Err(Error::Eof));
    assert_eq!(read_category("<category>"), Err(Error::Eof));
}

#[test]
fn category_with_a_text_that_cannot_be_decoded_is_an_error() {
    assert_eq!(read_category("<category>a &bogus; b</category>"), Err(Error::MalformedText));
    assert_eq!(read_category("<category domain=\"&bogus;\">x</category>"), Err(Error::MalformedText));
}

#[test]
fn category_does_not_look_at_what_it_does_not_need() {
    let category = read_category("<category other=\"&bogus;\" domain=\"d\" domain=\"&bogus;\">x<y>&bogus;</y></category>").unwrap();
    assert_eq!(category, Category { name: "x".to_string(), domain: Some("d".to_string()) });
}

#[test]
fn category_in_an_ill_formed_document_is_an_error() {
    match read_category("<category>x</wrong>") {
        Err(Error::Xml(_)) => {}
        other => panic!("unexpected result {:?}", other),
    }
}

#[test]
fn category_round_trip_keeps_special_characters() {
    let mut category = Category::default();
    category.set_name("a < b & \"c\" > 'd'\r\n\te");
    category.set_domain(Some("x=\"1\" & <y>\n\tz".to_string()));
    let xml = write_category(&category);
    assert_eq!(read_category(&xml).unwrap(), category);
}

#[test]
fn category_round_trip_over_events_keeps_empty_texts() {
    let category = Category { name: String::new(), domain: Some(String::new()) };
    let mut writer = XmlWriter::new();
    category.to_xml(&mut writer);
    let events = writer.into_events();
    assert_eq!(
        events,
        vec![
            XmlEvent::Start {
                name: "category".to_string(),
                attributes: vec![Attribute { name: "domain".to_string(), value: Some(String::new()) }],
            },
            XmlEvent::Text(String::new()),
            XmlEvent::End { name: "category".to_string() },
        ]
    );
    let mut reader = XmlReader::from_events(events);
    let attributes = open(&mut reader, "category");
    assert_eq!(Category::from_xml(&mut reader, &attributes).unwrap(), category);
    assert_eq!(reader.remaining(), 0);
}

#[test]
fn category_setters_change_one_field() {
    let mut category = Category::default();
    category.set_name("Technology");
    assert_eq!(category.name(), "Technology");
    assert_eq!(category.domain(), None);
    category.set_domain(Some("http://example.com".to_string()));
    assert_eq!(category.domain(), Some("http://example.com"));
    assert_eq!(category.name(), "Technology");
    category.set_domain(None);
    assert_eq!(category.domain(), None);
}

#[test]
fn category_leaves_the_reader_behind_its_end_tag() {
    let mut reader = XmlReader::from_str("<category>a</category><category>b</category>");
    let attributes = open(&mut reader, "category");
    assert_eq!(Category::from_xml(&mut reader, &attributes).unwrap().name(), "a");
    let attributes = open(&mut reader, "category");
    assert_eq!(Category::from_xml(&mut reader, &attributes).unwrap().name(), "b");
    assert_eq!(reader.read_event(), XmlEvent::Eof);
}
