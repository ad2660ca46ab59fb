//! The `<image>` element: a picture that stands for the feed.

use crate::error::{Error, ErrorModel};
use crate::event::{
    next_event, Attribute, AttributeModel, EventModel, XmlEvent, XmlReader, XmlWriter,
};
use crate::text::str_eq;
use crate::toxml::{optional_text_element, text_element};
use crate::util::{
    element_text, element_text_of, lemma_element_text_is_suffix, lemma_skipped_is_suffix,
    is_element, lemma_element_text_frame, lemma_element_text_ignores_element,
    lemma_skipped_frame, lemma_skipped_ignores_element, lemma_text_element_read,
    or_empty, skip_element, skipped, text_or_empty,
};
use crate::xml::{
    document_bytes, end_tag_bytes, lemma_document_bytes_concat, lemma_optional_text_element_bytes,
    lemma_text_element_bytes, optional_text_element_bytes, start_tag_bytes, text_element_bytes,
    written_attributes,
};
use vstd::prelude::*;

verus! {

/// Represents an image in a feed.
#[derive(Debug, Clone, PartialEq, Eq)]
pub struct Image {
    /// The URL of the image.
    url: String,
    /// A description of the image. This is used in the HTML `alt` attribute.
    title: String,
    /// The URL that the image links to.
    link: String,
    /// The width of the image.
    width: Option<String>,
    /// The height of the image.
    height: Option<String>,
    /// The text for the HTML `title` attribute of the link formed around the image.
    description: Option<String>,
}

/// What an [`Image`] holds: three texts that are always there, and three
/// that may be absent.
pub struct ImageModel {
    pub url: Seq<char>,
    pub title: Seq<char>,
    pub link: Seq<char>,
    pub width: Option<Seq<char>>,
    pub height: Option<Seq<char>>,
    pub description: Option<Seq<char>>,
}

impl View for Image {
    type V = ImageModel;

    closed spec fn view(&self) -> ImageModel {
        ImageModel {
            url: self.url@,
            title: self.title@,
            link: self.link@,
            width: self.width.deep_view(),
            height: self.height.deep_view(),
            description: self.description.deep_view(),
        }
    }
}

impl ImageModel {
    /// The image whose required fields are empty and whose optional fields
    /// are absent.
    pub open spec fn empty() -> ImageModel {
        ImageModel {
            url: Seq::empty(),
            title: Seq::empty(),
            link: Seq::empty(),
            width: None,
            height: None,
            description: None,
        }
    }

    /// The events that stand for this value: the required children first,
    /// then the optional children that are present, each in its fixed place.
    pub open spec fn events(self) -> Seq<EventModel> {
        seq![EventModel::Start { name: "image"@, attributes: Seq::empty() }] + self.children()
            + seq![EventModel::End { name: "image"@ }]
    }

    /// The events of the children alone.
    pub open spec fn children(self) -> Seq<EventModel> {
        text_element("url"@, self.url) + text_element("title"@, self.title) + text_element(
            "link"@,
            self.link,
        ) + optional_text_element("width"@, self.width) + optional_text_element(
            "height"@,
            self.height,
        ) + optional_text_element("description"@, self.description)
    }

    /// Whether a child element of this name holds one of the fields.
    pub open spec fn is_field(name: Seq<char>) -> bool {
        name == "url"@ || name == "title"@ || name == "link"@ || name == "width"@ || name
            == "height"@ || name == "description"@
    }

    /// This value once the child called `name` has been read and held `text`.
    /// A required field takes the empty text where the child held none.
    pub open spec fn with_field(self, name: Seq<char>, text: Option<Seq<char>>) -> ImageModel {
        if name == "url"@ {
            ImageModel { url: text_or_empty(text), ..self }
        } else if name == "title"@ {
            ImageModel { title: text_or_empty(text), ..self }
        } else if name == "link"@ {
            ImageModel { link: text_or_empty(text), ..self }
        } else if name == "width"@ {
            ImageModel { width: text, ..self }
        } else if name == "height"@ {
            ImageModel { height: text, ..self }
        } else if name == "description"@ {
            ImageModel { description: text, ..self }
        } else {
            self
        }
    }

    /// The value that the events behind an `<image>` start tag stand for, and
    /// the events behind the element's end, where `image` holds what the
    /// children read so far gave.
    ///
    /// A child that holds a field sets it. Any other child is skipped with
    /// all it holds. What lies between the children is ignored.
    pub open spec fn decoded_after(events: Seq<EventModel>, image: ImageModel) -> Result<
        (ImageModel, Seq<EventModel>),
        ErrorModel,
    >
        decreases events.len(),
    {
        match next_event(events) {
            EventModel::Eof => Err(ErrorModel::Eof),
            EventModel::Failure => Err(ErrorModel::Xml),
            EventModel::End { .. } => Ok((image, events.skip(1))),
            EventModel::Start { name, .. } => if Self::is_field(name) {
                match element_text_of(events.skip(1)) {
                    Ok((text, rest)) => {
                        proof {
                            lemma_element_text_is_suffix(events.skip(1), None);
                        }
                        Self::decoded_after(rest, image.with_field(name, text))
                    },
                    Err(e) => Err(e),
                }
            } else {
                match skipped(events.skip(1), 0) {
                    Ok(rest) => {
                        proof {
                            lemma_skipped_is_suffix(events.skip(1), 0);
                        }
                        Self::decoded_after(rest, image)
                    },
                    Err(e) => Err(e),
                }
            },
            _ => Self::decoded_after(events.skip(1), image),
        }
    }

    /// The value that the events behind an `<image>` start tag stand for, and
    /// the events behind the element's end.
    pub open spec fn decoded(events: Seq<EventModel>) -> Result<
        (ImageModel, Seq<EventModel>),
        ErrorModel,
    > {
        Self::decoded_after(events, Self::empty())
    }
}

/// The six child names are six different texts.
proof fn lemma_image_names()
    ensures
        "url"@ != "title"@,
        "url"@ != "link"@,
        "url"@ != "width"@,
        "url"@ != "height"@,
        "url"@ != "description"@,
        "title"@ != "link"@,
        "title"@ != "width"@,
        "title"@ != "height"@,
        "title"@ != "description"@,
        "link"@ != "width"@,
        "link"@ != "height"@,
        "link"@ != "description"@,
        "width"@ != "height"@,
        "width"@ != "description"@,
        "height"@ != "description"@,
{
    reveal_strlit("url");
    reveal_strlit("title");
    reveal_strlit("link");
    reveal_strlit("width");
    reveal_strlit("height");
    reveal_strlit("description");
    assert("url"@.len() == 3);
    assert("title"@.len() == 5);
    assert("link"@.len() == 4);
    assert("width"@.len() == 5);
    assert("height"@.len() == 6);
    assert("description"@.len() == 11);
    assert("title"@[0] != "width"@[0]);
}

/// A child that holds a field and one piece of text sets the field to that
/// text, and reading goes on behind the child.
pub proof fn lemma_image_field_read(
    name: Seq<char>,
    text: Seq<char>,
    rest: Seq<EventModel>,
    image: ImageModel,
)
    requires
        ImageModel::is_field(name),
    ensures
        ImageModel::decoded_after(text_element(name, text) + rest, image)
            == ImageModel::decoded_after(rest, image.with_field(name, Some(text))),
{
    let events = text_element(name, text) + rest;
    assert(events[0] == EventModel::Start { name: name, attributes: Seq::empty() });
    assert(events.skip(1) =~= seq![
        EventModel::Text { text: text },
        EventModel::End { name: name },
    ] + rest);
    lemma_text_element_read(name, text, rest);
}

/// An optional child that is written sets its field to the text it holds,
/// and one that is not written leaves the field as it was.
proof fn lemma_image_optional_read(
    name: Seq<char>,
    text: Option<Seq<char>>,
    rest: Seq<EventModel>,
    image: ImageModel,
)
    requires
        ImageModel::is_field(name),
    ensures
        ImageModel::decoded_after(optional_text_element(name, text) + rest, image)
            == ImageModel::decoded_after(
            rest,
            match text {
                Some(_) => image.with_field(name, text),
                None => image,
            },
        ),
{
    match text {
        Some(text) => {
            lemma_image_field_read(name, text, rest, image);
        },
        None => {
            assert(optional_text_element(name, text) + rest =~= rest);
        },
    }
}

/// Setting the six fields one after the other, starting from the empty
/// image, gives the image that holds them.
proof fn lemma_image_fields_set(value: ImageModel)
    ensures
        ({
            let with_link = ImageModel::empty().with_field("url"@, Some(value.url)).with_field(
                "title"@,
                Some(value.title),
            ).with_field("link"@, Some(value.link));
            let with_width = match value.width {
                Some(_) => with_link.with_field("width"@, value.width),
                None => with_link,
            };
            let with_height = match value.height {
                Some(_) => with_width.with_field("height"@, value.height),
                None => with_width,
            };
            let with_description = match value.description {
                Some(_) => with_height.with_field("description"@, value.description),
                None => with_height,
            };
            with_description == value
        }),
{
    lemma_image_names();
}

/// The events behind the start tag, with the concatenation grouped from the
/// right, as reading takes them.
proof fn lemma_image_events_grouped(value: ImageModel, rest: Seq<EventModel>)
    ensures
        value.events()[0] == (EventModel::Start { name: "image"@, attributes: Seq::empty() }),
        value.events().skip(1) + rest == text_element("url"@, value.url) + (text_element(
            "title"@,
            value.title,
        ) + (text_element("link"@, value.link) + (optional_text_element("width"@, value.width) + (
            optional_text_element("height"@, value.height) + (optional_text_element(
                "description"@,
                value.description,
            ) + (seq![EventModel::End { name: "image"@ }] + rest)))))),
{
    let start = seq![EventModel::Start { name: "image"@, attributes: Seq::empty() }];
    let end = seq![EventModel::End { name: "image"@ }];
    let children = value.children();
    assert(value.events() == start + children + end);
    assert((start + children + end).skip(1) =~= children + end);
    let a = text_element("url"@, value.url);
    let b = text_element("title"@, value.title);
    let c = text_element("link"@, value.link);
    let d = optional_text_element("width"@, value.width);
    let e = optional_text_element("height"@, value.height);
    let f = optional_text_element("description"@, value.description);
    assert(children == a + b + c + d + e + f);
    assert(a + b + c + d + e + f + end + rest =~= a + (b + (c + (d + (e + (f + (end + rest)))))));
}

/// Reading back what was written gives the value again: for every value, the
/// events behind the start tag that stands for it decode to the same value,
/// and the reader is left behind the element. An optional field that is
/// absent comes back absent, and one that is present comes back present, be
/// its text empty or not.
pub proof fn lemma_image_round_trip(value: ImageModel, rest: Seq<EventModel>)
    ensures
        value.events()[0] == (EventModel::Start { name: "image"@, attributes: Seq::empty() }),
        ImageModel::decoded(value.events().skip(1) + rest) == Ok::<
            (ImageModel, Seq<EventModel>),
            ErrorModel,
        >((value, rest)),
{
    let tail = seq![EventModel::End { name: "image"@ }] + rest;
    let s5 = optional_text_element("description"@, value.description) + tail;
    let s4 = optional_text_element("height"@, value.height) + s5;
    let s3 = optional_text_element("width"@, value.width) + s4;
    let s2 = text_element("link"@, value.link) + s3;
    let s1 = text_element("title"@, value.title) + s2;
    let i0 = ImageModel::empty();
    let i1 = i0.with_field("url"@, Some(value.url));
    let i2 = i1.with_field("title"@, Some(value.title));
    let i3 = i2.with_field("link"@, Some(value.link));
    let i4 = match value.width {
        Some(_) => i3.with_field("width"@, value.width),
        None => i3,
    };
    let i5 = match value.height {
        Some(_) => i4.with_field("height"@, value.height),
        None => i4,
    };
    lemma_image_events_grouped(value, rest);
    lemma_image_field_read("url"@, value.url, s1, i0);
    lemma_image_field_read("title"@, value.title, s2, i1);
    lemma_image_field_read("link"@, value.link, s3, i2);
    lemma_image_optional_read("width"@, value.width, s4, i3);
    lemma_image_optional_read("height"@, value.height, s5, i4);
    lemma_image_optional_read("description"@, value.description, tail, i5);
    lemma_image_fields_set(value);
    assert(tail[0] is End);
    assert(tail.skip(1) =~= rest);
}

impl ImageModel {
    /// What the field called `name` holds. A required field always holds a
    /// text; a name that is no field holds nothing.
    pub open spec fn field(self, name: Seq<char>) -> Option<Seq<char>> {
        if name == "url"@ {
            Some(self.url)
        } else if name == "title"@ {
            Some(self.title)
        } else if name == "link"@ {
            Some(self.link)
        } else if name == "width"@ {
            self.width
        } else if name == "height"@ {
            self.height
        } else if name == "description"@ {
            self.description
        } else {
            None
        }
    }
}

/// A field whose child is missing keeps what it held, and its absence is no
/// error: where no start tag in the events has the name of the field, the
/// value that is read holds in that field what `image` held. Read from the
/// empty image, a required field is then the empty text and an optional
/// field is absent.
pub proof fn lemma_image_missing_child(
    events: Seq<EventModel>,
    image: ImageModel,
    name: Seq<char>,
)
    requires
        forall|i: int|
            0 <= i < events.len() ==> ((#[trigger] events[i]) matches EventModel::Start {
                name: found,
                ..
            } ==> found != name),
        ImageModel::decoded_after(events, image) is Ok,
    ensures
        ImageModel::decoded_after(events, image)->Ok_0.0.field(name) == image.field(name),
    decreases events.len(),
{
    lemma_image_names();
    if events.len() > 0 {
        let tail = events.skip(1);
        assert forall|i: int| 0 <= i < tail.len() implies ((#[trigger] tail[i])
            matches EventModel::Start { name: found, .. } ==> found != name) by {
            assert(tail[i] == events[i + 1]);
        }
        match events[0] {
            EventModel::Start { name: found, .. } => {
                assert(found != name);
                let rest = if ImageModel::is_field(found) {
                    lemma_element_text_is_suffix(tail, None);
                    element_text_of(tail)->Ok_0.1
                } else {
                    lemma_skipped_is_suffix(tail, 0);
                    skipped(tail, 0)->Ok_0
                };
                let next = if ImageModel::is_field(found) {
                    image.with_field(found, element_text_of(tail)->Ok_0.0)
                } else {
                    image
                };
                assert forall|i: int| 0 <= i < rest.len() implies ((#[trigger] rest[i])
                    matches EventModel::Start { name: other, .. } ==> other != name) by {
                    assert(rest[i] == tail[tail.len() - rest.len() + i]);
                }
                lemma_image_missing_child(rest, next, name);
                assert(next.field(name) == image.field(name));
            },
            EventModel::End { .. } => {},
            EventModel::Eof => {},
            EventModel::Failure => {},
            _ => {
                lemma_image_missing_child(tail, image, name);
            },
        }
    }
}

impl ImageModel {
    /// The bytes that stand for this value: the start tag, the three
    /// required children, the optional children that are present, each in
    /// its fixed place, and the end tag. A child that is absent leaves no
    /// byte.
    pub open spec fn bytes(self) -> Seq<u8> {
        start_tag_bytes("image"@, Seq::empty()) + text_element_bytes("url"@, self.url)
            + text_element_bytes("title"@, self.title) + text_element_bytes("link"@, self.link)
            + optional_text_element_bytes("width"@, self.width) + optional_text_element_bytes(
            "height"@,
            self.height,
        ) + optional_text_element_bytes("description"@, self.description) + end_tag_bytes(
            "image"@,
        )
    }
}

/// The events that stand for an image are always written, and as its bytes:
/// the children stand in their fixed order, and an optional child that is
/// absent is not written at all.
pub proof fn lemma_image_bytes(value: ImageModel)
    ensures
        document_bytes(value.events()) == Ok::<Seq<u8>, ErrorModel>(value.bytes()),
{
    let start = seq![EventModel::Start { name: "image"@, attributes: Seq::empty() }];
    let end = seq![EventModel::End { name: "image"@ }];
    let url = text_element("url"@, value.url);
    let title = text_element("title"@, value.title);
    let link = text_element("link"@, value.link);
    let width = optional_text_element("width"@, value.width);
    let height = optional_text_element("height"@, value.height);
    let description = optional_text_element("description"@, value.description);
    assert(document_bytes(start) == Ok::<Seq<u8>, ErrorModel>(
        start_tag_bytes("image"@, Seq::empty()),
    )) by {
        assert(start.drop_last() =~= Seq::<EventModel>::empty());
        assert(written_attributes(Seq::<AttributeModel>::empty()) == Some(
            Seq::<(Seq<char>, Seq<char>)>::empty(),
        ));
        assert(document_bytes(start.drop_last()) == Ok::<Seq<u8>, ErrorModel>(Seq::empty()));
        assert(Seq::<u8>::empty() + start_tag_bytes("image"@, Seq::empty()) =~= start_tag_bytes(
            "image"@,
            Seq::empty(),
        ));
    }
    assert(document_bytes(end) == Ok::<Seq<u8>, ErrorModel>(end_tag_bytes("image"@))) by {
        assert(end.drop_last() =~= Seq::<EventModel>::empty());
        assert(document_bytes(end.drop_last()) == Ok::<Seq<u8>, ErrorModel>(Seq::empty()));
        assert(Seq::<u8>::empty() + end_tag_bytes("image"@) =~= end_tag_bytes("image"@));
    }
    lemma_text_element_bytes("url"@, value.url);
    lemma_text_element_bytes("title"@, value.title);
    lemma_text_element_bytes("link"@, value.link);
    lemma_optional_text_element_bytes("width"@, value.width);
    lemma_optional_text_element_bytes("height"@, value.height);
    lemma_optional_text_element_bytes("description"@, value.description);
    lemma_document_bytes_concat(start, url);
    lemma_document_bytes_concat(start + url, title);
    lemma_document_bytes_concat(start + url + title, link);
    lemma_document_bytes_concat(start + url + title + link, width);
    lemma_document_bytes_concat(start + url + title + link + width, height);
    lemma_document_bytes_concat(start + url + title + link + width + height, description);
    lemma_document_bytes_concat(
        start + url + title + link + width + height + description,
        end,
    );
    assert(value.events() =~= start + url + title + link + width + height + description + end);
}

/// A child that holds no field changes nothing, wherever in the element it
/// stands: with the whole of it taken out of the events, the same value is
/// read and the same events are left, and the same error is met where there
/// is one. `before` are the events in front of the child, which leave the
/// element open; the child may stand between the known children, or inside
/// one of them.
pub proof fn lemma_image_ignores_unknown_child(
    before: Seq<EventModel>,
    child: Seq<EventModel>,
    after: Seq<EventModel>,
    image: ImageModel,
)
    requires
        is_element(child),
        child[0] matches EventModel::Start { name, .. } && !ImageModel::is_field(name),
        ImageModel::decoded_after(before, image) == Err::<
            (ImageModel, Seq<EventModel>),
            ErrorModel,
        >(ErrorModel::Eof),
    ensures
        ImageModel::decoded_after(before + child + after, image) == ImageModel::decoded_after(
            before + after,
            image,
        ),
    decreases before.len(),
{
    if before.len() == 0 {
        let inside = child.skip(1);
        assert(before + child + after =~= child + after);
        assert(before + after =~= after);
        assert((child + after)[0] == child[0]);
        assert((child + after).skip(1) =~= inside + after);
        lemma_skipped_frame(inside, 0, after);
        assert(Seq::<EventModel>::empty() + after =~= after);
    } else {
        let tail = before.skip(1);
        assert((before + child + after)[0] == before[0]);
        assert((before + after)[0] == before[0]);
        assert((before + child + after).skip(1) =~= tail + child + after);
        assert((before + after).skip(1) =~= tail + after);
        assert(tail + child + after =~= tail + (child + after));
        match before[0] {
            EventModel::Start { name, .. } => {
                if ImageModel::is_field(name) {
                    match element_text_of(tail) {
                        Ok((text, rest)) => {
                            lemma_element_text_is_suffix(tail, None);
                            lemma_element_text_frame(tail, None, child + after);
                            lemma_element_text_frame(tail, None, after);
                            assert(rest + (child + after) =~= rest + child + after);
                            lemma_image_ignores_unknown_child(
                                rest,
                                child,
                                after,
                                image.with_field(name, text),
                            );
                        },
                        Err(_) => {
                            lemma_element_text_ignores_element(tail, None, child, after);
                        },
                    }
                } else {
                    match skipped(tail, 0) {
                        Ok(rest) => {
                            lemma_skipped_is_suffix(tail, 0);
                            lemma_skipped_frame(tail, 0, child + after);
                            lemma_skipped_frame(tail, 0, after);
                            assert(rest + (child + after) =~= rest + child + after);
                            lemma_image_ignores_unknown_child(rest, child, after, image);
                        },
                        Err(_) => {
                            lemma_skipped_ignores_element(tail, 0, child, after);
                        },
                    }
                }
            },
            EventModel::End { .. } => {},
            EventModel::Eof => {},
            EventModel::Failure => {},
            _ => {
                lemma_image_ignores_unknown_child(tail, child, after, image);
            },
        }
    }
}

impl Default for Image {
    fn default() -> (image: Image)
        ensures
            image@ == ImageModel::empty(),
    {
        Image {
            url: String::new(),
            title: String::new(),
            link: String::new(),
            width: None,
            height: None,
            description: None,
        }
    }
}

impl Image {
    /// Return the URL of this image.
    pub fn url(&self) -> (url: &str)
        ensures
            url@ == self@.url,
    {
        self.url.as_str()
    }

    /// Set the URL of this image.
    pub fn set_url(&mut self, url: &str)
        ensures
            final(self)@ == (ImageModel { url: url@, ..old(self)@ }),
    {
        self.url = url.to_owned();
    }

    /// Return the description of this image, which is used in the HTML `alt` attribute.
    pub fn title(&self) -> (title: &str)
        ensures
            title@ == self@.title,
    {
        self.title.as_str()
    }

    /// Set the description of this image, which is used in the HTML `alt` attribute.
    pub fn set_title(&mut self, title: &str)
        ensures
            final(self)@ == (ImageModel { title: title@, ..old(self)@ }),
    {
        self.title = title.to_owned();
    }

    /// Return the URL that this image links to.
    pub fn link(&self) -> (link: &str)
        ensures
            link@ == self@.link,
    {
        self.link.as_str()
    }

    /// Set the URL that this image links to.
    pub fn set_link(&mut self, link: &str)
        ensures
            final(self)@ == (ImageModel { link: link@, ..old(self)@ }),
    {
        self.link = link.to_owned();
    }

    /// Return the width of this image; where there is none, `80` is meant.
    pub fn width(&self) -> (width: Option<&str>)
        ensures
            width.deep_view() == self@.width,
    {
        match &self.width {
            Some(width) => Some(width.as_str()),
            None => None,
        }
    }

    /// Set the width of this image; where there is none, `80` is meant, or take it away.
    pub fn set_width(&mut self, width: Option<String>)
        ensures
            final(self)@ == (ImageModel { width: width.deep_view(), ..old(self)@ }),
    {
        self.width = width;
    }

    /// Return the height of this image; where there is none, `31` is meant.
    pub fn height(&self) -> (height: Option<&str>)
        ensures
            height.deep_view() == self@.height,
    {
        match &self.height {
            Some(height) => Some(height.as_str()),
            None => None,
        }
    }

    /// Set the height of this image; where there is none, `31` is meant, or take it away.
    pub fn set_height(&mut self, height: Option<String>)
        ensures
            final(self)@ == (ImageModel { height: height.deep_view(), ..old(self)@ }),
    {
        self.height = height;
    }

    /// Return the title for the link formed around this image.
    pub fn description(&self) -> (description: Option<&str>)
        ensures
            description.deep_view() == self@.description,
    {
        match &self.description {
            Some(description) => Some(description.as_str()),
            None => None,
        }
    }

    /// Set the title for the link formed around this image, or take it away.
    pub fn set_description(&mut self, description: Option<String>)
        ensures
            final(self)@ == (ImageModel { description: description.deep_view(), ..old(self)@ }),
    {
        self.description = description;
    }

    /// Builds an `Image` from the events behind its start tag, up to and with
    /// its end tag.
    pub fn from_xml(reader: &mut XmlReader, _attributes: &Vec<Attribute>) -> (image: Result<
        Image,
        Error,
    >)
        ensures
            match ImageModel::decoded(old(reader)@) {
                Ok((value, rest)) => image matches Ok(got) && got@ == value && final(reader)@
                    == rest,
                Err(e) => image matches Err(error) && error@ == e,
            },
    {
        let mut image = Image::default();
        loop
            invariant
                ImageModel::decoded_after(reader@, image@) == ImageModel::decoded(old(reader)@),
            decreases reader@.len(),
        {
            let ghost before = reader@;
            match reader.read_event() {
                XmlEvent::Eof => {
                    return Err(Error::Eof);
                },
                XmlEvent::Failure(message) => {
                    return Err(Error::Xml(message));
                },
                XmlEvent::End { .. } => {
                    return Ok(image);
                },
                XmlEvent::Start { name, .. } => {
                    let name = name.as_str();
                    proof {
                        lemma_element_text_is_suffix(reader@, None);
                        lemma_skipped_is_suffix(reader@, 0);
                    }
                    if str_eq(name, "url") {
                        match element_text(reader) {
                            Ok(text) => {
                                image.url = or_empty(text);
                            },
                            Err(error) => {
                                return Err(error);
                            },
                        }
                    } else if str_eq(name, "title") {
                        match element_text(reader) {
                            Ok(text) => {
                                image.title = or_empty(text);
                            },
                            Err(error) => {
                                return Err(error);
                            },
                        }
                    } else if str_eq(name, "link") {
                        match element_text(reader) {
                            Ok(text) => {
                                image.link = or_empty(text);
                            },
                            Err(error) => {
                                return Err(error);
                            },
                        }
                    } else if str_eq(name, "width") {
                        match element_text(reader) {
                            Ok(text) => {
                                image.width = text;
                            },
                            Err(error) => {
                                return Err(error);
                            },
                        }
                    } else if str_eq(name, "height") {
                        match element_text(reader) {
                            Ok(text) => {
                                image.height = text;
                            },
                            Err(error) => {
                                return Err(error);
                            },
                        }
                    } else if str_eq(name, "description") {
                        match element_text(reader) {
                            Ok(text) => {
                                image.description = text;
                            },
                            Err(error) => {
                                return Err(error);
                            },
                        }
                    } else {
                        match skip_element(reader) {
                            Ok(()) => {},
                            Err(error) => {
                                return Err(error);
                            },
                        }
                    }
                },
                _ => {},
            }
        }
    }

    /// Writes this value as an `<image>` element.
    pub fn to_xml(&self, writer: &mut XmlWriter)
        ensures
            final(writer)@ == old(writer)@ + self@.events(),
    {
        let ghost value = self@;
        let ghost start = seq![EventModel::Start { name: "image"@, attributes: Seq::empty() }];
        let attributes: Vec<Attribute> = Vec::new();
        assert(attributes.deep_view() =~= Seq::<AttributeModel>::empty());
        writer.write_event(XmlEvent::Start { name: "image".to_owned(), attributes });
        assert(writer@ =~= old(writer)@ + start);
        writer.write_text_element("url", self.url.as_str());
        writer.write_text_element("title", self.title.as_str());
        writer.write_text_element("link", self.link.as_str());
        assert(writer@ =~= old(writer)@ + (start + text_element("url"@, value.url) + text_element(
            "title"@,
            value.title,
        ) + text_element("link"@, value.link)));
        writer.write_optional_text_element("width", &self.width);
        writer.write_optional_text_element("height", &self.height);
        writer.write_optional_text_element("description", &self.description);
        assert(writer@ =~= old(writer)@ + (start + value.children()));
        writer.write_event(XmlEvent::End { name: "image".to_owned() });
        assert(writer@ =~= old(writer)@ + self@.events());
    }
}

} // verus!
