use rss::error::Error;
use rss::event::{XmlEvent, XmlReader, XmlWriter};
use rss::image::Image;

fn read_image(xml: &str) -> Result<Image, Error> {
    let mut reader = XmlReader::from_str(xml);
    match reader.read_event() {
        XmlEvent::Start { name, attributes } => {
            assert_eq!(name, "image");
            Image::from_xml(&mut reader, &attributes)
        }
        other => panic!("unexpected event {:?}", other),
    }
}

fn write_image(image: &Image) -> String {
    let mut writer = XmlWriter::new();
    image.to_xml(&mut writer);
    String::from_utf8(writer.to_bytes().unwrap()).unwrap()
}

#[test]
fn image_with_required_fields_only_is_read_and_written_back() {
    let xml = "<image><url>http://x/i.png</url><title>T</title><link>http://x/</link></image>";
    let image = read_image(xml).unwrap();
    assert_eq!(image.url(), "http://x/i.png");
    assert_eq!(image.title(), "T");
    assert_eq!(image.link(), "http://x/");
    assert_eq!(image.width(), None);
    assert_eq!(image.height(), None);
    assert_eq!(image.description(), None);
    assert_eq!(write_image(&image), xml);
}

#[test]
fn image_with_all_fields_is_written_in_the_fixed_order() {
    let image = read_image(
        "<image><description>D</description><height>31</height><width>80</width>\
         <link>L</link><title>T</title><url>U</url></image>",
    )
    .unwrap();
    assert_eq!(image.width(), Some("80"));
    assert_eq!(image.height(), Some("31"));
    assert_eq!(image.description(), Some("D"));
    assert_eq!(
        write_image(&image),
        "<image><url>U</url><title>T</title><link>L</link><width>80</width>\
         <height>31</height><description>D</description></image>"
    );
}

#[test]
fn image_without_children_is_the_empty_image() {
    let image = read_image("<image></image>").unwrap();
    assert_eq!(image, Image::default());
    assert_eq!(image.url(), "");
    assert_eq!(image.title(), "");
    assert_eq!(image.link(), "");
    assert_eq!(write_image(&image), "<image><url></url><title></title><link></link></image>");
}

#[test]
fn image_ignores_unknown_children_between_the_known() {
    let plain = read_image("<image><url>U</url><title>T</title><link>L</link><width>1</width></image>").unwrap();
    let mixed = read_image(
        "<image>\n  <x:a><url>no</url></x:a><url>U</url><foo/>text<title>T</title>\
         <link>L<bar>no</bar></link><width>1</width><!-- c --><y k=\"&bogus;\">&bogus;</y></image>",
    )
    .unwrap();
    assert_eq!(mixed, plain);
}

#[test]
fn image_width_is_kept_as_text() {
    let image = read_image("<image><width>not a number</width><height>-7</height></image>").unwrap();
    assert_eq!(image.width(), Some("not a number"));
    assert_eq!(image.height(), Some("-7"));
}

#[test]
fn image_optional_child_without_text_is_absent() {
    let image = read_image("<image><width></width><height/></image>").unwrap();
    assert_eq!(image.width(), None);
    assert_eq!(image.height(), None);
}

#[test]
fn image_later_child_replaces_the_earlier() {
    let image = read_image("<image><url>a</url><url>b</url><width>1</width><width></width></image>").unwrap();
    assert_eq!(image.url(), "b");
    assert_eq!(image.width(), None);
}

#[test]
fn image_that_is_cut_off_is_an_error() {
    assert_eq!(read_image("<image><url>U</url>"), Err(Error::Eof));
    assert_eq!(read_image("<image><url>U"), Err(Error::Eof));
    assert_eq!(read_image("<image><other><url>"), Err(Error::Eof));
}

#[test]
fn image_with_a_field_that_cannot_be_decoded_is_an_error() {
    assert_eq!(read_image("<image><title>&bogus;</title></image>"), Err(Error::MalformedText));
}

#[test]
fn image_round_trip_over_text() {
    let mut image = Image::default();
    image.set_url("http://example.com/image.png?a=1&b=2");
    image.set_title("Example <image>");
    image.set_link("http://example.com");
    image.set_width(Some("80".to_string()));
    image.set_height(Some("31".to_string()));
    image.set_description(Some("Example \"Title\"".to_string()));
    assert_eq!(read_image(&write_image(&image)).unwrap(), image);
    image.set_height(None);
    assert_eq!(read_image(&write_image(&image)).unwrap(), image);
}

#[test]
fn image_round_trip_over_events_keeps_empty_optional_texts() {
    let mut image = Image::default();
    image.set_width(Some(String::new()));
    let mut writer = XmlWriter::new();
    image.to_xml(&mut writer);
    let mut reader = XmlReader::from_events(writer.into_events());
    let attributes = match reader.read_event() {
        XmlEvent::Start { attributes, .. } => attributes,
        other => panic!("unexpected event {:?}", other),
    };
    let back = Image::from_xml(&mut reader, &attributes).unwrap();
    assert_eq!(back, image);
    assert_eq!(back.width(), Some(""));
    assert_eq!(back.height(), None);
}

#[test]
fn image_setters_change_one_field() {
    let mut image = Image::default();
    image.set_url("http://example.com/image.png");
    assert_eq!(image.url(), "http://example.com/image.png");
    image.set_title("Example image");
    assert_eq!(image.title(), "Example image");
    image.set_link("http://example.com");
    assert_eq!(image.link(), "http://example.com");
    image.set_width(Some("80".to_string()));
    assert_eq!(image.width(), Some("80"));
    image.set_height(Some("31".to_string()));
    assert_eq!(image.height(), Some("31"));
    image.set_description(Some("Example Title".to_string()));
    assert_eq!(image.description(), Some("Example Title"));
    assert_eq!(image.url(), "http://example.com/image.png");
    image.set_description(None);
    assert_eq!(image.description(), None);
}

#[test]
fn image_is_written_in_the_fixed_order_whatever_the_order_of_setting() {
    let mut image = Image::default();
    image.set_description(Some("d".to_string()));
    image.set_height(Some("31".to_string()));
    image.set_width(Some("80".to_string()));
    image.set_link("l");
    image.set_title("t");
    image.set_url("u");
    assert_eq!(
        write_image(&image),
        "<image><url>u</url><title>t</title><link>l</link><width>80</width>\
         <height>31</height><description>d</description></image>"
    );
}
