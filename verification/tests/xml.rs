use rss::error::Error;
use rss::event::{Attribute, XmlEvent, XmlReader, XmlWriter};
use rss::util::{attribute_text, element_text, skip_element};
use rss::xml::read_events;

fn start(name: &str, attributes: Vec<Attribute>) -> XmlEvent {
    XmlEvent::Start { name: name.to_string(), attributes }
}

fn end(name: &str) -> XmlEvent {
    XmlEvent::End { name: name.to_string() }
}

fn text(text: &str) -> XmlEvent {
    XmlEvent::Text(text.to_string())
}

fn attribute(name: &str, value: Option<&str>) -> Attribute {
    Attribute { name: name.to_string(), value: value.map(|value| value.to_string()) }
}

#[test]
fn document_is_read_into_its_events() {
    let events = read_events(
        b"<?xml version=\"1.0\"?><a x=\"1\" y='two &amp; 2'>t<b/><!-- c -->u &lt; v<![CDATA[<w>]]>&#65;</a>",
    );
    assert_eq!(
        events,
        vec![
            XmlEvent::Other,
            start("a", vec![attribute("x", Some("1")), attribute("y", Some("two & 2"))]),
            text("t"),
            start("b", vec![]),
            end("b"),
            XmlEvent::Other,
            text("u "),
            text("<"),
            text(" v"),
            text("<w>"),
            text("A"),
            end("a"),
        ]
    );
}

#[test]
fn document_without_content_has_no_events() {
    assert_eq!(read_events(b""), vec![]);
    let mut reader = XmlReader::from_bytes(b"");
    assert_eq!(reader.remaining(), 0);
    assert_eq!(reader.read_event(), XmlEvent::Eof);
    assert_eq!(reader.read_event(), XmlEvent::Eof);
}

#[test]
fn document_keeps_what_cannot_be_decoded_in_its_place() {
    let events = read_events(b"<a k=\"&nope;\" j=\"ok\">x&nope;y</a>");
    assert_eq!(
        events,
        vec![
            start("a", vec![attribute("k", None), attribute("j", Some("ok"))]),
            text("x"),
            XmlEvent::BadText,
            text("y"),
            end("a"),
        ]
    );
}

#[test]
fn document_leaves_out_a_malformed_attribute() {
    let events = read_events(b"<a good=\"1\" bad also=\"2\"/>");
    match &events[0] {
        XmlEvent::Start { name, attributes } => {
            assert_eq!(name, "a");
            assert_eq!(attributes[0], attribute("good", Some("1")));
            assert_eq!(attributes[attributes.len() - 1], attribute("also", Some("2")));
            assert!(attributes.iter().all(|a| a.name != "bad"));
        }
        other => panic!("unexpected event {:?}", other),
    }
}

#[test]
fn document_that_is_ill_formed_ends_in_a_failure() {
    let events = read_events(b"<a><b>x</a>");
    assert_eq!(events.len(), 4);
    assert_eq!(events[0], start("a", vec![]));
    assert_eq!(events[1], start("b", vec![]));
    assert_eq!(events[2], text("x"));
    assert!(matches!(events[3], XmlEvent::Failure(_)));
    let events = read_events(b"<a><!-- never closed");
    assert!(matches!(events.last(), Some(XmlEvent::Failure(_))));
}

#[test]
fn reader_from_text_and_from_bytes_agree() {
    let xml = "<a k=\"v\">\u{e9}t\u{e9}<b/></a>";
    let mut from_str = XmlReader::from_str(xml);
    let mut from_bytes = XmlReader::from_bytes(xml.as_bytes());
    assert_eq!(from_str.remaining(), 5);
    loop {
        let event = from_str.read_event();
        assert_eq!(event, from_bytes.read_event());
        if event == XmlEvent::Eof {
            break;
        }
    }
}

#[test]
fn reader_hands_out_events_in_order_and_then_the_end() {
    let mut reader = XmlReader::from_events(vec![text("a"), XmlEvent::Other, end("x")]);
    assert_eq!(reader.remaining(), 3);
    assert_eq!(reader.read_event(), text("a"));
    assert_eq!(reader.read_event(), XmlEvent::Other);
    assert_eq!(reader.remaining(), 1);
    assert_eq!(reader.read_event(), end("x"));
    assert_eq!(reader.read_event(), XmlEvent::Eof);
    assert_eq!(reader.remaining(), 0);
}

#[test]
fn element_text_is_read_up_to_the_end_tag() {
    let mut reader = XmlReader::from_str("<x>a<b>c<d/></b>e</x>f");
    assert_eq!(reader.read_event(), start("x", vec![]));
    assert_eq!(element_text(&mut reader), Ok(Some("ae".to_string())));
    assert_eq!(reader.read_event(), text("f"));
    let mut reader = XmlReader::from_str("<x></x>");
    assert_eq!(reader.read_event(), start("x", vec![]));
    assert_eq!(element_text(&mut reader), Ok(None));
    assert_eq!(reader.read_event(), XmlEvent::Eof);
    let mut reader = XmlReader::from_events(vec![text(""), end("x")]);
    assert_eq!(element_text(&mut reader), Ok(Some(String::new())));
    let mut reader = XmlReader::from_events(vec![text("a"), XmlEvent::BadText, end("x")]);
    assert_eq!(element_text(&mut reader), Err(Error::MalformedText));
    let mut reader = XmlReader::from_events(vec![text("a"), XmlEvent::Failure("why".to_string())]);
    assert_eq!(element_text(&mut reader), Err(Error::Xml("why".to_string())));
    let mut reader = XmlReader::from_events(vec![text("a")]);
    assert_eq!(element_text(&mut reader), Err(Error::Eof));
}

#[test]
fn skip_element_reads_up_to_the_matching_end_tag() {
    let mut reader = XmlReader::from_str("<x>a<b>&nope;<b></b></b><c/></x>rest");
    assert_eq!(reader.read_event(), start("x", vec![]));
    assert_eq!(skip_element(&mut reader), Ok(()));
    assert_eq!(reader.read_event(), text("rest"));
    let mut reader = XmlReader::from_events(vec![start("a", vec![]), end("a")]);
    assert_eq!(skip_element(&mut reader), Err(Error::Eof));
    let mut reader = XmlReader::from_events(vec![start("a", vec![]), XmlEvent::Failure("why".to_string()), end("a")]);
    assert_eq!(skip_element(&mut reader), Err(Error::Xml("why".to_string())));
}

#[test]
fn attribute_text_finds_the_first_of_a_name() {
    let attributes = vec![
        attribute("a", Some("1")),
        attribute("b", None),
        attribute("a", None),
        attribute("b", Some("2")),
    ];
    assert_eq!(attribute_text(&attributes, "a"), Ok(Some("1".to_string())));
    assert_eq!(attribute_text(&attributes, "b"), Err(Error::MalformedText));
    assert_eq!(attribute_text(&attributes, "c"), Ok(None));
    assert_eq!(attribute_text(&vec![], "a"), Ok(None));
}

#[test]
fn writer_frames_and_escapes_its_events() {
    let mut writer = XmlWriter::new();
    writer.write_event(start("a", vec![attribute("k", Some("<\"v\"> & 'w'\n"))]));
    writer.write_event(text("x < y & z > \"q\""));
    writer.write_event(XmlEvent::Other);
    writer.write_text_element("b:c", "t");
    writer.write_optional_text_element("d", &None);
    writer.write_optional_text_element("e", &Some(String::new()));
    writer.write_text_elements("f", &vec!["1".to_string(), "2".to_string()]);
    writer.write_event(end("a"));
    writer.write_event(XmlEvent::Eof);
    let bytes = writer.to_bytes().unwrap();
    assert_eq!(
        String::from_utf8(bytes.clone()).unwrap(),
        "<a k=\"&lt;&quot;v&quot;&gt; &amp; &apos;w&apos;&#10;\">x &lt; y &amp; z &gt; &quot;q&quot;\
         <b:c>t</b:c><e></e><f>1</f><f>2</f></a>"
    );
    let back = read_events(&bytes);
    assert_eq!(back[0], start("a", vec![attribute("k", Some("<\"v\"> & 'w'\n"))]));
    assert_eq!(back[back.len() - 1], end("a"));
}

#[test]
fn writer_refuses_what_cannot_be_written() {
    let mut writer = XmlWriter::new();
    writer.write_event(text("a"));
    writer.write_event(XmlEvent::BadText);
    assert_eq!(writer.to_bytes(), Err(Error::MalformedText));
    let mut writer = XmlWriter::new();
    writer.write_event(start("a", vec![attribute("k", None)]));
    assert_eq!(writer.to_bytes(), Err(Error::MalformedText));
    let mut writer = XmlWriter::new();
    writer.write_event(XmlEvent::Failure("why".to_string()));
    assert_eq!(writer.to_bytes(), Err(Error::Xml("why".to_string())));
    assert_eq!(XmlWriter::new().to_bytes(), Ok(vec![]));
}

#[test]
fn writer_keeps_the_events_it_was_given() {
    let mut writer = XmlWriter::new();
    writer.write_text_element("a", "t");
    assert_eq!(writer.events(), &vec![start("a", vec![]), text("t"), end("a")]);
    assert_eq!(writer.into_events(), vec![start("a", vec![]), text("t"), end("a")]);
}

#[test]
fn document_that_is_no_text_ends_in_a_failure() {
    let events = read_events(b"<a>\xff\xfe</a>");
    assert_eq!(events[0], start("a", vec![]));
    assert!(matches!(events.last(), Some(XmlEvent::Failure(_))));
    let mut reader = XmlReader::from_bytes(b"<a>\xff\xfe</a>");
    assert_eq!(reader.read_event(), start("a", vec![]));
    assert!(matches!(element_text(&mut reader), Err(Error::Xml(_))));
}

#[test]
fn document_with_a_byte_order_mark_is_read_without_it() {
    let events = read_events(b"\xef\xbb\xbf<a>x</a>");
    assert_eq!(events, vec![start("a", vec![]), text("x"), end("a")]);
}

#[test]
fn writer_passes_over_what_is_neither_tag_nor_text() {
    let mut writer = XmlWriter::new();
    writer.write_event(XmlEvent::Other);
    writer.write_event(XmlEvent::Eof);
    writer.write_event(XmlEvent::Other);
    assert_eq!(writer.to_bytes(), Ok(vec![]));
}

#[test]
fn writer_stops_at_the_first_event_that_cannot_be_written() {
    let mut writer = XmlWriter::new();
    writer.write_event(text("a"));
    writer.write_event(XmlEvent::Failure("first".to_string()));
    writer.write_event(XmlEvent::BadText);
    assert_eq!(writer.to_bytes(), Err(Error::Xml("first".to_string())));
    let mut writer = XmlWriter::new();
    writer.write_event(XmlEvent::Other);
    writer.write_event(start("a", vec![attribute("k", Some("v")), attribute("j", None)]));
    writer.write_event(XmlEvent::Failure("later".to_string()));
    assert_eq!(writer.to_bytes(), Err(Error::MalformedText));
}
