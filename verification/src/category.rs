//! The `<category>` element: a category that the feed or an item belongs to.

use crate::error::{Error, ErrorModel};
use crate::event::{Attribute, AttributeModel, EventModel, XmlEvent, XmlReader, XmlWriter};
use crate::util::{
    attribute_named, attribute_text, attribute_text_of, element_text, element_text_of,
    is_element, lemma_element_text_ignores_element, lemma_missing_attribute,
    lemma_text_element_read, or_empty, text_or_empty,
};
use crate::xml::{
    document_bytes, end_tag_bytes, start_tag_bytes, text_bytes, written_attributes,
};
use vstd::prelude::*;

verus! {

/// Represents a category in a feed.
#[derive(Debug, Clone, PartialEq, Eq)]
pub struct Category {
    /// The name of the category.
    pub name: String,
    /// The domain for the category.
    pub domain: Option<String>,
}

/// What a [`Category`] holds: its name, and its domain where it has one.
pub struct CategoryModel {
    pub name: Seq<char>,
    pub domain: Option<Seq<char>>,
}

impl View for Category {
    type V = CategoryModel;

    open spec fn view(&self) -> CategoryModel {
        CategoryModel { name: self.name@, domain: self.domain.deep_view() }
    }
}

impl CategoryModel {
    /// The category without a name and without a domain.
    pub open spec fn empty() -> CategoryModel {
        CategoryModel { name: Seq::empty(), domain: None }
    }

    /// The attributes of the start tag: the domain where there is one, and
    /// none at all where there is not.
    pub open spec fn attributes(self) -> Seq<AttributeModel> {
        match self.domain {
            Some(domain) => seq![AttributeModel { name: "domain"@, value: Some(domain) }],
            None => Seq::empty(),
        }
    }

    /// The events that stand for this value: the start tag, the name as the
    /// element's text, and the end tag.
    pub open spec fn events(self) -> Seq<EventModel> {
        seq![
            EventModel::Start { name: "category"@, attributes: self.attributes() },
            EventModel::Text { text: self.name },
            EventModel::End { name: "category"@ },
        ]
    }

    /// The value that the attributes of a `<category>` start tag and the
    /// events behind that tag stand for, and the events behind the element's
    /// end.
    ///
    /// The domain is the first attribute called `domain`, and is absent
    /// without one; a domain that cannot be decoded is an error, found before
    /// any event is read. The name is the element's text, and is empty where
    /// the element holds none.
    pub open spec fn decoded(attributes: Seq<AttributeModel>, events: Seq<EventModel>) -> Result<
        (CategoryModel, Seq<EventModel>),
        ErrorModel,
    > {
        match attribute_text_of(attributes, "domain"@) {
            Err(e) => Err(e),
            Ok(domain) => match element_text_of(events) {
                Ok((text, rest)) => Ok(
                    (CategoryModel { name: text_or_empty(text), domain: domain }, rest),
                ),
                Err(e) => Err(e),
            },
        }
    }
}

/// Reading back what was written gives the value again: for every value, the
/// attributes of the start tag that stands for it, and the events behind that
/// tag, decode to the same value, and the reader is left behind the element.
/// A domain that is absent comes back absent, and one that is present comes
/// back present, be its text empty or not.
pub proof fn lemma_category_round_trip(value: CategoryModel, rest: Seq<EventModel>)
    ensures
        value.events()[0] == (EventModel::Start {
            name: "category"@,
            attributes: value.attributes(),
        }),
        CategoryModel::decoded(value.attributes(), value.events().skip(1) + rest) == Ok::<
            (CategoryModel, Seq<EventModel>),
            ErrorModel,
        >((value, rest)),
{
    reveal_with_fuel(attribute_named, 2);
    assert(value.events().skip(1) + rest =~= seq![
        EventModel::Text { text: value.name },
        EventModel::End { name: "category"@ },
    ] + rest);
    lemma_text_element_read("category"@, value.name, rest);
}

impl CategoryModel {
    /// The attributes as the start tag is written with them.
    pub open spec fn written(self) -> Seq<(Seq<char>, Seq<char>)> {
        match self.domain {
            Some(domain) => seq![("domain"@, domain)],
            None => Seq::empty(),
        }
    }

    /// The bytes that stand for this value: the start tag, with the domain
    /// as its only attribute where there is one and with no attribute where
    /// there is none, the escaped name, and the end tag.
    pub open spec fn bytes(self) -> Seq<u8> {
        start_tag_bytes("category"@, self.written()) + text_bytes(self.name) + end_tag_bytes(
            "category"@,
        )
    }
}

/// The events that stand for a category are always written, and as its
/// bytes: a category without a domain is written without the attribute.
pub proof fn lemma_category_bytes(value: CategoryModel)
    ensures
        document_bytes(value.events()) == Ok::<Seq<u8>, ErrorModel>(value.bytes()),
{
    let events = value.events();
    let two = events.drop_last();
    let one = two.drop_last();
    let attributes = value.attributes();
    assert(one.drop_last() =~= Seq::<EventModel>::empty());
    assert(one.last() == events[0]);
    assert(two.last() == events[1]);
    assert(events.last() == events[2]);
    assert(written_attributes(attributes) == Some(value.written())) by {
        match value.domain {
            Some(domain) => {
                assert(attributes.drop_last() =~= Seq::<AttributeModel>::empty());
                assert(written_attributes(attributes.drop_last()) == Some(
                    Seq::<(Seq<char>, Seq<char>)>::empty(),
                ));
                assert(Seq::<(Seq<char>, Seq<char>)>::empty().push(("domain"@, domain))
                    =~= value.written());
            },
            None => {},
        }
    }
    let start = start_tag_bytes("category"@, value.written());
    assert(document_bytes(one.drop_last()) == Ok::<Seq<u8>, ErrorModel>(Seq::empty()));
    assert(Seq::<u8>::empty() + start =~= start);
    assert(document_bytes(one) == Ok::<Seq<u8>, ErrorModel>(start));
    assert(document_bytes(two) == Ok::<Seq<u8>, ErrorModel>(start + text_bytes(value.name)));
}

/// What is missing is no error: without an attribute called `domain` the
/// domain is absent, and an element that holds no text has the empty name.
pub proof fn lemma_category_defaults(attributes: Seq<AttributeModel>, events: Seq<EventModel>)
    requires
        forall|i: int| 0 <= i < attributes.len() ==> (#[trigger] attributes[i]).name != "domain"@,
    ensures
        CategoryModel::decoded(attributes, events) == match element_text_of(events) {
            Ok((text, rest)) => Ok::<(CategoryModel, Seq<EventModel>), ErrorModel>(
                (CategoryModel { name: text_or_empty(text), domain: None }, rest),
            ),
            Err(e) => Err(e),
        },
        events.len() > 0 && events[0] is End ==> CategoryModel::decoded(attributes, events) == Ok::<
            (CategoryModel, Seq<EventModel>),
            ErrorModel,
        >((CategoryModel::empty(), events.skip(1))),
{
    lemma_missing_attribute(attributes, "domain"@);
}

/// A child element changes nothing, wherever in the element it stands: a
/// category holds no element that is known, so with the whole of the child
/// taken out of the events, the same value is read and the same events are
/// left. `before` are the events in front of the child, which leave the
/// element open.
pub proof fn lemma_category_ignores_child(
    attributes: Seq<AttributeModel>,
    before: Seq<EventModel>,
    child: Seq<EventModel>,
    after: Seq<EventModel>,
)
    requires
        is_element(child),
        element_text_of(before) == Err::<(Option<Seq<char>>, Seq<EventModel>), ErrorModel>(
            ErrorModel::Eof,
        ),
    ensures
        CategoryModel::decoded(attributes, before + child + after) == CategoryModel::decoded(
            attributes,
            before + after,
        ),
{
    lemma_element_text_ignores_element(before, None, child, after);
}

impl Default for Category {
    fn default() -> (category: Category)
        ensures
            category@ == CategoryModel::empty(),
    {
        Category { name: String::new(), domain: None }
    }
}

impl Category {
    /// Return the name of this category.
    pub fn name(&self) -> (name: &str)
        ensures
            name@ == self@.name,
    {
        self.name.as_str()
    }

    /// Set the name of this category.
    pub fn set_name(&mut self, name: &str)
        ensures
            final(self)@ == (CategoryModel { name: name@, ..old(self)@ }),
    {
        self.name = name.to_owned();
    }

    /// Return the domain of this category.
    pub fn domain(&self) -> (domain: Option<&str>)
        ensures
            domain.deep_view() == self@.domain,
    {
        match &self.domain {
            Some(domain) => Some(domain.as_str()),
            None => None,
        }
    }

    /// Set the domain of this category, or take it away.
    pub fn set_domain(&mut self, domain: Option<String>)
        ensures
            final(self)@ == (CategoryModel { domain: domain.deep_view(), ..old(self)@ }),
    {
        self.domain = domain;
    }

    /// Builds a `Category` from the attributes of its start tag and the
    /// events behind that tag, up to and with its end tag.
    pub fn from_xml(reader: &mut XmlReader, attributes: &Vec<Attribute>) -> (category: Result<
        Category,
        Error,
    >)
        ensures
            match CategoryModel::decoded(attributes.deep_view(), old(reader)@) {
                Ok((value, rest)) => category matches Ok(got) && got@ == value && final(reader)@
                    == rest,
                Err(e) => category matches Err(error) && error@ == e,
            },
    {
        let domain = match attribute_text(attributes, "domain") {
            Ok(found) => found,
            Err(error) => {
                return Err(error);
            },
        };
        match element_text(reader) {
            Ok(text) => Ok(Category { name: or_empty(text), domain }),
            Err(error) => Err(error),
        }
    }

    /// Writes this value as a `<category>` element. The `domain` attribute is
    /// written only where there is a domain.
    pub fn to_xml(&self, writer: &mut XmlWriter)
        ensures
            final(writer)@ == old(writer)@ + self@.events(),
    {
        let mut attributes: Vec<Attribute> = Vec::new();
        match &self.domain {
            Some(domain) => {
                attributes.push(Attribute { name: "domain".to_owned(), value: Some(domain.clone()) });
            },
            None => {},
        }
        assert(attributes.deep_view() =~= self@.attributes());
        writer.write_event(XmlEvent::Start { name: "category".to_owned(), attributes });
        writer.write_event(XmlEvent::Text(self.name.clone()));
        writer.write_event(XmlEvent::End { name: "category".to_owned() });
        assert(writer@ =~= old(writer)@ + self@.events());
    }
}

} // verus!
