use rss::event::{XmlEvent, XmlReader, XmlWriter};
use rss::extension::dublincore::{DublinCoreExtension, DublinCoreExtensionBuilder, NAMESPACE};
use rss::extension::{parse_extension_element, Extension, ExtensionMap};

fn texts(items: &[&str]) -> Vec<String> {
    items.iter().map(|item| item.to_string()).collect()
}

fn children_of(xml: &str) -> ExtensionMap {
    let mut reader = XmlReader::from_str(xml);
    let attributes = match reader.read_event() {
        XmlEvent::Start { attributes, .. } => attributes,
        other => panic!("unexpected event {:?}", other),
    };
    let parent = parse_extension_element(&mut reader, &attributes).unwrap();
    let mut map = ExtensionMap::new();
    for name in [
        "contributor", "coverage", "creator", "date", "description", "format", "identifier",
        "language", "publisher", "relation", "rights", "source", "subject", "title", "type",
        "other", "point",
    ] {
        if let Some(values) = parent.children().get(name) {
            for value in values {
                let mut reader = XmlReader::from_events(vec![
                    XmlEvent::Text(value.value().unwrap_or("").to_string()),
                    XmlEvent::End { name: value.name().to_string() },
                ]);
                let attributes = value
                    .attrs()
                    .iter()
                    .map(|(name, value)| rss::event::Attribute {
                        name: name.clone(),
                        value: Some(value.clone()),
                    })
                    .collect();
                map.push(name, parse_extension_element(&mut reader, &attributes).unwrap());
            }
        }
    }
    map
}

fn full() -> DublinCoreExtension {
    DublinCoreExtensionBuilder::new()
        .contributors(texts(&["c1", "c2"]))
        .coverages(texts(&["cov"]))
        .creators(texts(&["cr"]))
        .dates(texts(&["2017-01-01"]))
        .descriptions(texts(&["d"]))
        .formats(texts(&["f"]))
        .identifiers(texts(&["i"]))
        .languages(texts(&["en", "de"]))
        .publishers(texts(&["p"]))
        .relations(texts(&["r"]))
        .rights(texts(&["ri"]))
        .sources(texts(&["s"]))
        .subjects(texts(&["su"]))
        .titles(texts(&["t"]))
        .resource_types(texts(&["ty"]))
        .finalize()
        .unwrap()
}

#[test]
fn dublin_core_namespace_is_the_one_of_the_elements() {
    assert_eq!(NAMESPACE, "http://purl.org/dc/elements/1.1/");
}

#[test]
fn dublin_core_builder_sets_each_field() {
    let extension = full();
    assert_eq!(extension.contributors(), &texts(&["c1", "c2"])[..]);
    assert_eq!(extension.coverages(), &texts(&["cov"])[..]);
    assert_eq!(extension.creators(), &texts(&["cr"])[..]);
    assert_eq!(extension.dates(), &texts(&["2017-01-01"])[..]);
    assert_eq!(extension.descriptions(), &texts(&["d"])[..]);
    assert_eq!(extension.formats(), &texts(&["f"])[..]);
    assert_eq!(extension.identifiers(), &texts(&["i"])[..]);
    assert_eq!(extension.languages(), &texts(&["en", "de"])[..]);
    assert_eq!(extension.publishers(), &texts(&["p"])[..]);
    assert_eq!(extension.relations(), &texts(&["r"])[..]);
    assert_eq!(extension.rights(), &texts(&["ri"])[..]);
    assert_eq!(extension.sources(), &texts(&["s"])[..]);
    assert_eq!(extension.subjects(), &texts(&["su"])[..]);
    assert_eq!(extension.titles(), &texts(&["t"])[..]);
    assert_eq!(extension.resource_types(), &texts(&["ty"])[..]);
}

#[test]
fn dublin_core_builder_starts_empty() {
    let extension = DublinCoreExtensionBuilder::new().finalize().unwrap();
    assert_eq!(extension, DublinCoreExtension::default());
    assert!(extension.creators().is_empty());
    assert!(extension.resource_types().is_empty());
}

#[test]
fn dublin_core_lifts_its_fields_and_leaves_the_rest() {
    let mut map = children_of(
        "<item><dc:creator>Jane</dc:creator><geo:point lat=\"1\">p</geo:point>\
         <dc:creator role=\"x\">John<b/></dc:creator><dc:type/><dc:title>T</dc:title>\
         <x:other>o</x:other></item>",
    );
    assert_eq!(map.len(), 5);
    let extension = DublinCoreExtension::from_map(&mut map);
    assert_eq!(extension.creators(), &texts(&["Jane", "John"])[..]);
    assert_eq!(extension.titles(), &texts(&["T"])[..]);
    assert_eq!(extension.resource_types(), &texts(&[""])[..]);
    assert!(extension.contributors().is_empty());
    assert!(extension.dates().is_empty());
    assert_eq!(map.len(), 2);
    assert!(map.get("creator").is_none());
    assert!(map.get("title").is_none());
    assert!(map.get("type").is_none());
    assert_eq!(map.get("point").unwrap()[0].value(), Some("p"));
    assert_eq!(map.get("point").unwrap()[0].attrs()[0], ("lat".to_string(), "1".to_string()));
    assert_eq!(map.get("other").unwrap()[0].name(), "x:other");
}

#[test]
fn dublin_core_lifted_from_an_empty_store_is_empty() {
    let mut map = ExtensionMap::new();
    assert_eq!(DublinCoreExtension::from_map(&mut map), DublinCoreExtension::default());
    assert_eq!(map.len(), 0);
    let mut map = ExtensionMap::new();
    map.push("point", Extension::with_text("geo:point", "p"));
    assert_eq!(DublinCoreExtension::from_map(&mut map), DublinCoreExtension::default());
    assert_eq!(map.get("point").unwrap().len(), 1);
    assert_eq!(map.len(), 1);
}

#[test]
fn dublin_core_is_lowered_into_a_store() {
    let extension = DublinCoreExtensionBuilder::new()
        .creators(texts(&["Jane", "John"]))
        .titles(texts(&["T"]))
        .finalize()
        .unwrap();
    let mut map = ExtensionMap::new();
    map.push("point", Extension::with_text("geo:point", "p"));
    map.push("title", Extension::with_text("x:title", "old"));
    extension.to_map(&mut map);
    assert_eq!(map.len(), 3);
    let creators = map.get("creator").unwrap();
    assert_eq!(creators, &vec![Extension::with_text("dc:creator", "Jane"), Extension::with_text("dc:creator", "John")]);
    let titles = map.get("title").unwrap();
    assert_eq!(titles, &vec![Extension::with_text("x:title", "old"), Extension::with_text("dc:title", "T")]);
    assert!(map.get("date").is_none());
    assert_eq!(map.get("point").unwrap().len(), 1);
}

#[test]
fn dublin_core_lift_then_lower_gives_the_store_again() {
    let xml = "<item><dc:creator>Jane</dc:creator><geo:point lat=\"1\">p<q/></geo:point>\
               <dc:creator>John</dc:creator><dc:type>text</dc:type><dc:title>T</dc:title></item>";
    let original = children_of(xml);
    let mut map = children_of(xml);
    let extension = DublinCoreExtension::from_map(&mut map);
    extension.to_map(&mut map);
    assert_eq!(map.len(), original.len());
    for name in ["creator", "point", "type", "title"] {
        assert_eq!(map.get(name), original.get(name));
    }
    assert!(map.get("date").is_none());
}

#[test]
fn dublin_core_lift_then_lower_keeps_the_text_only() {
    let mut map = children_of("<item><dc:creator role=\"x\">Jane<b/></dc:creator><dc:date/></item>");
    let extension = DublinCoreExtension::from_map(&mut map);
    extension.to_map(&mut map);
    assert_eq!(map.get("creator").unwrap(), &vec![Extension::with_text("dc:creator", "Jane")]);
    assert_eq!(map.get("date").unwrap(), &vec![Extension::with_text("dc:date", "")]);
}

#[test]
fn dublin_core_is_written_field_by_field() {
    let extension = DublinCoreExtensionBuilder::new()
        .titles(texts(&["T"]))
        .creators(texts(&["Jane", "J & J"]))
        .resource_types(texts(&[""]))
        .finalize()
        .unwrap();
    let mut writer = XmlWriter::new();
    extension.to_xml(&mut writer);
    assert_eq!(
        String::from_utf8(writer.to_bytes().unwrap()).unwrap(),
        "<dc:creator>Jane</dc:creator><dc:creator>J &amp; J</dc:creator>\
         <dc:title>T</dc:title><dc:type></dc:type>"
    );
    let mut writer = XmlWriter::new();
    DublinCoreExtension::default().to_xml(&mut writer);
    assert_eq!(writer.to_bytes().unwrap(), Vec::<u8>::new());
}

#[test]
fn dublin_core_round_trip_through_text_and_store() {
    let extension = full();
    let mut writer = XmlWriter::new();
    writer.write_event(XmlEvent::Start { name: "item".to_string(), attributes: vec![] });
    extension.to_xml(&mut writer);
    writer.write_event(XmlEvent::End { name: "item".to_string() });
    let xml = String::from_utf8(writer.to_bytes().unwrap()).unwrap();
    let mut map = children_of(&xml);
    assert_eq!(map.len(), 15);
    assert_eq!(DublinCoreExtension::from_map(&mut map), extension);
    assert_eq!(map.len(), 0);
}

#[test]
fn dublin_core_builder_default_is_the_new_builder() {
    let by_default = DublinCoreExtensionBuilder::default().titles(texts(&["t"])).finalize().unwrap();
    let by_new = DublinCoreExtensionBuilder::new().titles(texts(&["t"])).finalize().unwrap();
    assert_eq!(by_default, by_new);
    assert_eq!(DublinCoreExtensionBuilder::default().finalize().unwrap(), DublinCoreExtension::default());
}
