use rss::error::Error;
use rss::event::{XmlEvent, XmlReader};
use rss::extension::{parse_extension_element, remove_extension_values, Extension, ExtensionMap};

fn capture(xml: &str) -> Result<Extension, Error> {
    let mut reader = XmlReader::from_str(xml);
    match reader.read_event() {
        XmlEvent::Start { attributes, .. } => parse_extension_element(&mut reader, &attributes),
        other => panic!("unexpected event {:?}", other),
    }
}

fn pair(name: &str, value: &str) -> (String, String) {
    (name.to_string(), value.to_string())
}

#[test]
fn extension_captures_a_leaf_with_its_text_and_attributes() {
    let extension = capture("<dc:creator role=\"author\" id=\"7\">Jane Doe</dc:creator>").unwrap();
    assert_eq!(extension.name(), "dc:creator");
    assert_eq!(extension.value(), Some("Jane Doe"));
    assert_eq!(extension.attrs(), &vec![pair("role", "author"), pair("id", "7")]);
    assert_eq!(extension.children().len(), 0);
    assert_eq!(extension, {
        let mut reader = XmlReader::from_events(vec![
            XmlEvent::Text("Jane Doe".to_string()),
            XmlEvent::End { name: "dc:creator".to_string() },
        ]);
        let attributes = vec![
            rss::event::Attribute { name: "role".to_string(), value: Some("author".to_string()) },
            rss::event::Attribute { name: "id".to_string(), value: Some("7".to_string()) },
        ];
        parse_extension_element(&mut reader, &attributes).unwrap()
    });
}

#[test]
fn extension_without_text_has_no_value() {
    let extension = capture("<a:b></a:b>").unwrap();
    assert_eq!(extension.value(), None);
    let extension = capture("<a:b/>").unwrap();
    assert_eq!(extension.name(), "a:b");
    assert_eq!(extension.value(), None);
    assert_eq!(extension.attrs().len(), 0);
}

#[test]
fn extension_keeps_the_first_of_two_attributes() {
    let extension = capture("<x k=\"1\" j=\"2\" k=\"3\" k=\"&bogus;\"/>").unwrap();
    assert_eq!(extension.attrs(), &vec![pair("k", "1"), pair("j", "2")]);
}

#[test]
fn extension_captures_children_under_their_local_names_in_order() {
    let extension = capture(
        "<media:group><media:content url=\"a\">one</media:content><other>x</other>\
         <media:content url=\"b\"><deep:er><deep:est>leaf</deep:est></deep:er></media:content>\
         <alt:content>three</alt:content></media:group>",
    )
    .unwrap();
    assert_eq!(extension.name(), "media:group");
    assert_eq!(extension.value(), None);
    let children = extension.children();
    assert_eq!(children.len(), 2);
    let content = children.get("content").unwrap();
    assert_eq!(content.len(), 3);
    assert_eq!(content[0].name(), "media:content");
    assert_eq!(content[0].value(), Some("one"));
    assert_eq!(content[0].attrs(), &vec![pair("url", "a")]);
    assert_eq!(content[1].name(), "media:content");
    assert_eq!(content[1].value(), None);
    assert_eq!(content[2].name(), "alt:content");
    assert_eq!(content[2].value(), Some("three"));
    let other = children.get("other").unwrap();
    assert_eq!(other.len(), 1);
    assert_eq!(other[0].name(), "other");
    assert!(children.get("media:content").is_none());
    let deeper = content[1].children().get("er").unwrap();
    assert_eq!(deeper[0].children().get("est").unwrap()[0].value(), Some("leaf"));
}

#[test]
fn extension_joins_the_pieces_of_its_text_around_its_children() {
    let extension = capture("<a>x &amp; <b>no</b>y</a>").unwrap();
    assert_eq!(extension.value(), Some("x & y"));
    assert_eq!(extension.children().get("b").unwrap()[0].value(), Some("no"));
}

#[test]
fn extension_that_is_cut_off_is_an_error() {
    assert_eq!(capture("<a><b>x</b>"), Err(Error::Eof));
    assert_eq!(capture("<a><b>x"), Err(Error::Eof));
}

#[test]
fn extension_with_what_cannot_be_decoded_is_an_error() {
    assert_eq!(capture("<a>&bogus;</a>"), Err(Error::MalformedText));
    assert_eq!(capture("<a k=\"&bogus;\"/>"), Err(Error::MalformedText));
    assert_eq!(capture("<a><b><c k=\"&bogus;\"/></b></a>"), Err(Error::MalformedText));
}

#[test]
fn extension_capture_leaves_the_reader_behind_the_element() {
    let mut reader = XmlReader::from_str("<a><b/></a><c/>");
    let attributes = match reader.read_event() {
        XmlEvent::Start { attributes, .. } => attributes,
        other => panic!("unexpected event {:?}", other),
    };
    parse_extension_element(&mut reader, &attributes).unwrap();
    assert_eq!(reader.read_event(), XmlEvent::Start { name: "c".to_string(), attributes: vec![] });
}

#[test]
fn extension_map_keeps_values_in_the_order_they_came() {
    let mut map = ExtensionMap::new();
    assert_eq!(map.len(), 0);
    assert!(map.get("a").is_none());
    map.push("a", Extension::with_text("x:a", "1"));
    map.push("b", Extension::with_text("x:b", "2"));
    map.push("a", Extension::with_text("y:a", "3"));
    assert_eq!(map.len(), 2);
    let a = map.get("a").unwrap();
    assert_eq!(a.len(), 2);
    assert_eq!((a[0].name(), a[0].value()), ("x:a", Some("1")));
    assert_eq!((a[1].name(), a[1].value()), ("y:a", Some("3")));
    assert_eq!(map.get("b").unwrap().len(), 1);
    let removed = map.remove("a").unwrap();
    assert_eq!(removed.len(), 2);
    assert_eq!(removed[1].value(), Some("3"));
    assert_eq!(map.len(), 1);
    assert!(map.get("a").is_none());
    assert!(map.remove("a").is_none());
    assert_eq!(map.get("b").unwrap()[0].value(), Some("2"));
}

#[test]
fn extension_with_text_holds_a_text_and_nothing_else() {
    let extension = Extension::with_text("dc:title", "T");
    assert_eq!(extension.name(), "dc:title");
    assert_eq!(extension.value(), Some("T"));
    assert_eq!(extension.attrs().len(), 0);
    assert_eq!(extension.children().len(), 0);
    assert_eq!(extension, capture("<dc:title>T</dc:title>").unwrap());
}

#[test]
fn remove_extension_values_takes_the_texts_and_the_entry() {
    let parent = capture("<p><d:a>one</d:a><d:b>x</d:b><d:a/><d:a k=\"v\">three<z/></d:a></p>").unwrap();
    let mut map = ExtensionMap::new();
    for value in ["one", "", "three"] {
        map.push("a", Extension::with_text("d:a", value));
    }
    map.push("b", Extension::with_text("d:b", "x"));
    assert_eq!(parent.children().get("a").unwrap().len(), 3);
    assert_eq!(parent.children().get("a").unwrap()[1].value(), None);
    let mut store = ExtensionMap::new();
    store.push("a", Extension::with_text("d:a", "one"));
    store.push("b", Extension::with_text("d:b", "x"));
    store.push("a", capture("<d:a/>").unwrap());
    store.push("a", capture("<d:a k=\"v\">three<z/></d:a>").unwrap());
    assert_eq!(&store, parent.children());
    assert_eq!(
        remove_extension_values(&mut store, "a"),
        Some(vec!["one".to_string(), String::new(), "three".to_string()])
    );
    assert_eq!(store.len(), 1);
    assert!(store.get("a").is_none());
    assert_eq!(store.get("b").unwrap()[0].value(), Some("x"));
}

#[test]
fn remove_extension_values_of_an_absent_name_changes_nothing() {
    let mut store = ExtensionMap::new();
    store.push("b", Extension::with_text("d:b", "x"));
    let mut same = ExtensionMap::new();
    same.push("b", Extension::with_text("d:b", "x"));
    assert_eq!(remove_extension_values(&mut store, "a"), None);
    assert_eq!(store, same);
    let mut empty = ExtensionMap::new();
    assert_eq!(remove_extension_values(&mut empty, "a"), None);
    assert_eq!(empty.len(), 0);
}

fn write(extension: &Extension) -> String {
    let mut writer = rss::event::XmlWriter::new();
    extension.to_xml(&mut writer);
    String::from_utf8(writer.to_bytes().unwrap()).unwrap()
}

#[test]
fn extension_is_written_with_all_it_holds() {
    let extension = capture("<a x=\"1\" y=\"&lt;2&gt;\">t<b:c>u</b:c><d/>v<z:c k=\"w\"><e>f</e></z:c></a>").unwrap();
    assert_eq!(
        write(&extension),
        "<a x=\"1\" y=\"&lt;2&gt;\">tv<b:c>u</b:c><z:c k=\"w\"><e>f</e></z:c><d></d></a>"
    );
    assert_eq!(write(&Extension::with_text("dc:title", "T & U")), "<dc:title>T &amp; U</dc:title>");
    assert_eq!(write(&capture("<a/>").unwrap()), "<a></a>");
}

#[test]
fn extension_that_is_written_is_captured_again_as_it_was() {
    for xml in [
        "<a/>",
        "<a>text</a>",
        "<a x=\"1\" y=\"&lt;2&gt;\">t<b:c>u</b:c><d/>v<z:c k=\"w\"><e>f</e></z:c></a>",
        "<m:g><m:c u=\"a\">one</m:c><o>x</o><m:c u=\"b\"><d:e><d:f>leaf</d:f></d:e></m:c><n:c>3</n:c></m:g>",
    ] {
        let first = capture(xml).unwrap();
        let second = capture(&write(&first)).unwrap();
        assert_eq!(first, second);
        assert_eq!(write(&first), write(&second));
    }
}

#[test]
fn extension_map_is_written_name_by_name() {
    let mut map = ExtensionMap::new();
    map.push("a", Extension::with_text("x:a", "1"));
    map.push("b", Extension::with_text("x:b", "2"));
    map.push("a", Extension::with_text("y:a", "3"));
    let mut writer = rss::event::XmlWriter::new();
    map.to_xml(&mut writer);
    assert_eq!(
        String::from_utf8(writer.to_bytes().unwrap()).unwrap(),
        "<x:a>1</x:a><y:a>3</y:a><x:b>2</x:b>"
    );
    let mut writer = rss::event::XmlWriter::new();
    ExtensionMap::new().to_xml(&mut writer);
    assert_eq!(writer.into_events(), vec![]);
}

#[test]
fn lift_takes_each_name_in_turn() {
    let mut map = ExtensionMap::new();
    map.push("a", Extension::with_text("x:a", "1"));
    map.push("b", Extension::with_text("x:b", "2"));
    map.push("a", capture("<y:a/>").unwrap());
    map.push("c", Extension::with_text("x:c", "4"));
    let fields = rss::extension::lift(&mut map, &["a", "missing", "c", "a"]);
    assert_eq!(
        fields,
        vec![
            vec!["1".to_string(), String::new()],
            Vec::<String>::new(),
            vec!["4".to_string()],
            Vec::<String>::new(),
        ]
    );
    assert_eq!(map.len(), 1);
    assert_eq!(map.get("b").unwrap()[0].value(), Some("2"));
    let fields = rss::extension::lift(&mut map, &[]);
    assert_eq!(fields, Vec::<Vec<String>>::new());
    assert_eq!(map.len(), 1);
}

#[test]
fn lower_puts_one_element_for_each_text() {
    let mut map = ExtensionMap::new();
    map.push("a", Extension::with_text("x:a", "0"));
    rss::extension::lower(&mut map, "a", "dc:a", &vec!["1".to_string(), "2".to_string()]);
    rss::extension::lower(&mut map, "b", "dc:b", &vec![]);
    rss::extension::lower(&mut map, "c", "dc:c", &vec![String::new()]);
    assert_eq!(map.len(), 2);
    assert_eq!(
        map.get("a").unwrap(),
        &vec![
            Extension::with_text("x:a", "0"),
            Extension::with_text("dc:a", "1"),
            Extension::with_text("dc:a", "2"),
        ]
    );
    assert!(map.get("b").is_none());
    assert_eq!(map.get("c").unwrap(), &vec![Extension::with_text("dc:c", "")]);
}
