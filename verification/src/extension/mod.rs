//! Namespaced child elements that the base schema does not know.
//!
//! Such an element is captured whole, as an [`Extension`], and kept in an
//! [`ExtensionMap`] under its local name, so that nothing of it is lost.

pub mod dublincore;
pub mod lossless;
pub mod store;

use crate::error::{Error, ErrorModel};
use crate::event::{
    next_event, Attribute, AttributeModel, EventModel, XmlEvent, XmlReader, XmlWriter,
};
use crate::extension::lossless::{faithful, lemma_decoded_is_faithful};
use crate::extension::store::{
    as_map, events_of_children, events_of_values, lemma_position_is, lemma_position_none,
    lemma_position_of, lemma_with_value, lemma_with_values_push, lemma_without,
    lemma_without_all_push, names_distinct, position_of, value_of, with_value, with_values,
    without, without_all, ExtensionModel,
};
use crate::toxml::{lemma_text_elements_front, text_element, text_elements};
use crate::util::{joined, text_or_empty};
use crate::text::{local_name, local_part, str_eq};
use vstd::prelude::*;
use vstd::string::StringExecFns;

verus! {

/// One captured element: its name, its text, its attributes and its children.
#[derive(Debug, PartialEq, Eq)]
pub struct Extension {
    name: String,
    value: Option<String>,
    attrs: Vec<(String, String)>,
    children: ExtensionMap,
}

/// The values captured under one name.
#[derive(Debug, PartialEq, Eq)]
struct ExtensionEntry {
    name: String,
    values: Vec<Extension>,
}

/// The captured children of one element: each local name once, with the
/// values captured under it in the order in which they stood.
#[derive(Debug, PartialEq, Eq)]
pub struct ExtensionMap {
    entries: Vec<ExtensionEntry>,
}

/// What a captured element holds.
pub closed spec fn extension_model(extension: Extension) -> ExtensionModel
    decreases extension,
{
    ExtensionModel {
        name: extension.name@,
        value: extension.value.deep_view(),
        attrs: extension.attrs.deep_view(),
        children: entries_model(extension.children.entries@),
    }
}

/// What the entries of a store hold, entry by entry.
closed spec fn entries_model(entries: Seq<ExtensionEntry>) -> Seq<
    (Seq<char>, Seq<ExtensionModel>),
>
    decreases entries,
{
    Seq::new(
        entries.len(),
        |i: int|
            if 0 <= i < entries.len() {
                (entries[i].name@, extensions_model(entries[i].values@))
            } else {
                arbitrary()
            },
    )
}

/// What a sequence of captured elements holds, one after the other.
pub closed spec fn extensions_model(extensions: Seq<Extension>) -> Seq<ExtensionModel>
    decreases extensions,
{
    Seq::new(
        extensions.len(),
        |i: int|
            if 0 <= i < extensions.len() {
                extension_model(extensions[i])
            } else {
                arbitrary()
            },
    )
}

impl View for Extension {
    type V = ExtensionModel;

    closed spec fn view(&self) -> ExtensionModel {
        extension_model(*self)
    }
}

impl DeepView for Extension {
    type V = ExtensionModel;

    open spec fn deep_view(&self) -> ExtensionModel {
        self@
    }
}

impl View for ExtensionMap {
    type V = Seq<(Seq<char>, Seq<ExtensionModel>)>;

    /// The names in the order in which each was captured first, each with
    /// what is held under it.
    closed spec fn view(&self) -> Seq<(Seq<char>, Seq<ExtensionModel>)> {
        entries_model(self.entries@)
    }
}

/// The model of a sequence of captured elements is the sequence of their
/// models.
pub proof fn lemma_extensions_model(extensions: Seq<Extension>)
    ensures
        extensions_model(extensions).len() == extensions.len(),
        forall|i: int|
            0 <= i < extensions.len() ==> #[trigger] extensions_model(extensions)[i]
                == extensions[i]@,
{
}

impl ExtensionMap {
    /// No name stands twice in a store.
    #[verifier::type_invariant]
    spec fn names_are_distinct(self) -> bool {
        names_distinct(entries_model(self.entries@))
    }

    /// A store that holds nothing.
    pub fn new() -> (map: ExtensionMap)
        ensures
            map@ == Seq::<(Seq<char>, Seq<ExtensionModel>)>::empty(),
    {
        let map = ExtensionMap { entries: Vec::new() };
        assert(map@ =~= Seq::<(Seq<char>, Seq<ExtensionModel>)>::empty());
        map
    }

    /// The number of names under which something is held. No name stands
    /// twice among them.
    pub fn len(&self) -> (n: usize)
        ensures
            n == self@.len(),
            names_distinct(self@),
    {
        proof {
            use_type_invariant(self);
        }
        self.entries.len()
    }

    fn position(&self, name: &str) -> (found: Option<usize>)
        ensures
            match found {
                Some(i) => position_of(self@, name@) == Some(i as int) && i < self.entries.len(),
                None => position_of(self@, name@) is None,
            },
            self@.len() == self.entries.len(),
    {
        let ghost model = self@;
        let mut i: usize = 0;
        while i < self.entries.len()
            invariant
                i <= self.entries.len(),
                model == self@,
                model.len() == self.entries.len(),
                forall|j: int| 0 <= j < i ==> (#[trigger] model[j]).0 != name@,
            decreases self.entries.len() - i,
        {
            assert(model[i as int].0 == self.entries[i as int].name@);
            if str_eq(self.entries[i].name.as_str(), name) {
                proof {
                    lemma_position_is(model, name@, i as int);
                }
                return Some(i);
            }
            i += 1;
        }
        proof {
            lemma_position_none(model, name@);
        }
        None
    }

    /// The values held under `name`, in the order in which they were captured.
    pub fn get(&self, name: &str) -> (values: Option<&Vec<Extension>>)
        ensures
            match value_of(self@, name@) {
                Some(held) => values matches Some(got) && got.deep_view() == held,
                None => values is None,
            },
            values matches Some(got) ==> as_map(self@).contains_key(name@) && as_map(self@)[name@]
                == got.deep_view(),
            values is None ==> !as_map(self@).contains_key(name@),
    {
        match self.position(name) {
            Some(i) => {
                let values = &self.entries[i].values;
                proof {
                    assert(self@[i as int].1 == extensions_model(values@));
                    lemma_extensions_model(values@);
                    assert(values.deep_view() =~= extensions_model(values@));
                }
                Some(values)
            },
            None => None,
        }
    }

    /// Puts `extension` behind the values held under `name`. A name under
    /// which nothing was held comes to stand behind all other names.
    pub fn push(&mut self, name: &str, extension: Extension)
        ensures
            final(self)@ == with_value(old(self)@, name@, extension@),
            as_map(final(self)@) == as_map(old(self)@).insert(
                name@,
                match value_of(old(self)@, name@) {
                    Some(values) => values.push(extension@),
                    None => seq![extension@],
                },
            ),
    {
        proof {
            use_type_invariant(&*self);
            lemma_with_value(self@, name@, extension@);
            lemma_position_of(self@, name@);
        }
        let found = self.position(name);
        let mut entries: Vec<ExtensionEntry> = Vec::new();
        assert(entries_model(entries@) =~= Seq::<(Seq<char>, Seq<ExtensionModel>)>::empty());
        std::mem::swap(&mut self.entries, &mut entries);
        match found {
            Some(i) => {
                let mut entry = entries.remove(i);
                let ghost held = entry.values@;
                entry.values.push(extension);
                proof {
                    lemma_extensions_model(held);
                    lemma_extensions_model(entry.values@);
                    assert(extensions_model(entry.values@) =~= extensions_model(held).push(
                        extension@,
                    ));
                    assert(entry.name@ == name@);
                }
                entries.insert(i, entry);
            },
            None => {
                let mut values: Vec<Extension> = Vec::new();
                values.push(extension);
                proof {
                    lemma_extensions_model(values@);
                    assert(extensions_model(values@) =~= seq![extension@]);
                }
                entries.push(ExtensionEntry { name: name.to_owned(), values });
            },
        }
        assert(entries_model(entries@) =~= with_value(old(self)@, name@, extension@));
        std::mem::swap(&mut self.entries, &mut entries);
    }

    /// Takes out what is held under `name` and hands it over.
    pub fn remove(&mut self, name: &str) -> (removed: Option<Vec<Extension>>)
        ensures
            final(self)@ == without(old(self)@, name@),
            removed.deep_view() == value_of(old(self)@, name@),
            as_map(final(self)@) == as_map(old(self)@).remove(name@),
    {
        proof {
            use_type_invariant(&*self);
            lemma_without(self@, name@);
            lemma_position_of(self@, name@);
        }
        match self.position(name) {
            Some(i) => {
                let mut entries: Vec<ExtensionEntry> = Vec::new();
                assert(entries_model(entries@) =~= Seq::<
                    (Seq<char>, Seq<ExtensionModel>),
                >::empty());
                std::mem::swap(&mut self.entries, &mut entries);
                let entry = entries.remove(i);
                proof {
                    lemma_extensions_model(entry.values@);
                    assert(entry.values.deep_view() =~= extensions_model(entry.values@));
                    assert(entries_model(entries@) =~= without(old(self)@, name@));
                }
                std::mem::swap(&mut self.entries, &mut entries);
                Some(entry.values)
            },
            None => None,
        }
    }
}

/// The attributes of a captured element, given those of its start tag: each
/// name once, with the value of its first occurrence, in the order of the
/// first occurrences. A later attribute of a name that was seen is not looked
/// at; a value that has to be kept and cannot be decoded is an error.
pub open spec fn captured_attributes(attributes: Seq<AttributeModel>) -> Result<
    Seq<(Seq<char>, Seq<char>)>,
    ErrorModel,
>
    decreases attributes.len(),
{
    if attributes.len() == 0 {
        Ok(Seq::empty())
    } else {
        match captured_attributes(attributes.drop_last()) {
            Err(e) => Err(e),
            Ok(before) => {
                let last = attributes.last();
                if position_of(before, last.name) is Some {
                    Ok(before)
                } else {
                    match last.value {
                        Some(value) => Ok(before.push((last.name, value))),
                        None => Err(ErrorModel::MalformedText),
                    }
                }
            },
        }
    }
}

impl ExtensionModel {
    /// A captured element of which only the attributes are known yet.
    pub open spec fn opened(attrs: Seq<(Seq<char>, Seq<char>)>) -> ExtensionModel {
        ExtensionModel { name: Seq::empty(), value: None, attrs: attrs, children: Seq::empty() }
    }

    /// A captured element that holds a text and nothing else.
    pub open spec fn text_only(name: Seq<char>, text: Seq<char>) -> ExtensionModel {
        ExtensionModel {
            name: name,
            value: Some(text),
            attrs: Seq::empty(),
            children: Seq::empty(),
        }
    }

    /// The captured element that the events behind a start tag stand for,
    /// and the events behind its end tag, where `current` is the element
    /// that is open at the start of `events` and `outer` are the elements
    /// around it that are open as well, the outermost first.
    ///
    /// A piece of text is joined to the text of the open element. A start
    /// tag opens a child, of which the attributes are captured. An end tag
    /// gives the open element its name and closes it: the outermost element
    /// is the result, any other is put into the element around it, behind
    /// the children captured under the same local name.
    pub open spec fn decoded_with(
        events: Seq<EventModel>,
        outer: Seq<ExtensionModel>,
        current: ExtensionModel,
    ) -> Result<(ExtensionModel, Seq<EventModel>), ErrorModel>
        decreases events.len(),
    {
        match next_event(events) {
            EventModel::Eof => Err(ErrorModel::Eof),
            EventModel::Failure => Err(ErrorModel::Xml),
            EventModel::BadText => Err(ErrorModel::MalformedText),
            EventModel::Other => Self::decoded_with(events.skip(1), outer, current),
            EventModel::Text { text } => Self::decoded_with(
                events.skip(1),
                outer,
                ExtensionModel { value: Some(joined(current.value, text)), ..current },
            ),
            EventModel::Start { attributes, .. } => match captured_attributes(attributes) {
                Err(e) => Err(e),
                Ok(attrs) => Self::decoded_with(
                    events.skip(1),
                    outer.push(current),
                    Self::opened(attrs),
                ),
            },
            EventModel::End { name } => {
                let closed = ExtensionModel { name: name, ..current };
                if outer.len() == 0 {
                    Ok((closed, events.skip(1)))
                } else {
                    let parent = outer.last();
                    Self::decoded_with(
                        events.skip(1),
                        outer.drop_last(),
                        ExtensionModel {
                            children: with_value(parent.children, local_part(name), closed),
                            ..parent
                        },
                    )
                }
            },
        }
    }

    /// The captured element that the attributes of a start tag and the
    /// events behind that tag stand for, and the events behind the element's
    /// end tag.
    pub open spec fn decoded(attributes: Seq<AttributeModel>, events: Seq<EventModel>) -> Result<
        (ExtensionModel, Seq<EventModel>),
        ErrorModel,
    > {
        match captured_attributes(attributes) {
            Err(e) => Err(e),
            Ok(attrs) => Self::decoded_with(events, Seq::empty(), Self::opened(attrs)),
        }
    }
}

/// A child that holds a text and nothing else is captured as such, under
/// its local name, and reading goes on behind it.
pub proof fn lemma_text_element_captured(
    name: Seq<char>,
    text: Seq<char>,
    rest: Seq<EventModel>,
    outer: Seq<ExtensionModel>,
    current: ExtensionModel,
)
    ensures
        ExtensionModel::decoded_with(text_element(name, text) + rest, outer, current)
            == ExtensionModel::decoded_with(
            rest,
            outer,
            ExtensionModel {
                children: with_value(
                    current.children,
                    local_part(name),
                    ExtensionModel::text_only(name, text),
                ),
                ..current
            },
        ),
{
    let events = text_element(name, text) + rest;
    let inner = outer.push(current);
    assert(events[0] == EventModel::Start { name: name, attributes: Seq::empty() });
    assert(events.skip(1)[0] == EventModel::Text { text: text });
    assert(events.skip(1).skip(1)[0] == EventModel::End { name: name });
    assert(events.skip(1).skip(1).skip(1) =~= rest);
    assert(inner.drop_last() =~= outer);
    assert(inner.last() == current);
    reveal_with_fuel(ExtensionModel::decoded_with, 4);
}

/// A run of children that hold a text and nothing else is captured child by
/// child, under their local name, and reading goes on behind them.
pub proof fn lemma_text_elements_captured(
    name: Seq<char>,
    texts: Seq<Seq<char>>,
    rest: Seq<EventModel>,
    outer: Seq<ExtensionModel>,
    current: ExtensionModel,
)
    ensures
        ExtensionModel::decoded_with(text_elements(name, texts) + rest, outer, current)
            == ExtensionModel::decoded_with(
            rest,
            outer,
            ExtensionModel {
                children: with_values(
                    current.children,
                    local_part(name),
                    text_values(name, texts),
                ),
                ..current
            },
        ),
    decreases texts.len(),
{
    if texts.len() == 0 {
        assert(text_elements(name, texts) + rest =~= rest);
    } else {
        let first = ExtensionModel::text_only(name, texts[0]);
        let next = ExtensionModel {
            children: with_value(current.children, local_part(name), first),
            ..current
        };
        lemma_text_elements_front(name, texts);
        assert(text_elements(name, texts) + rest =~= text_element(name, texts[0]) + (text_elements(
            name,
            texts.skip(1),
        ) + rest));
        lemma_text_element_captured(
            name,
            texts[0],
            text_elements(name, texts.skip(1)) + rest,
            outer,
            current,
        );
        lemma_text_elements_captured(name, texts.skip(1), rest, outer, next);
        assert(text_values(name, texts)[0] == first);
        assert(text_values(name, texts).skip(1) =~= text_values(name, texts.skip(1)));
    }
}

fn has_name(attrs: &Vec<(String, String)>, name: &str) -> (found: bool)
    ensures
        found == (position_of(attrs.deep_view(), name@) is Some),
{
    let ghost model = attrs.deep_view();
    let mut i: usize = 0;
    while i < attrs.len()
        invariant
            i <= attrs.len(),
            model == attrs.deep_view(),
            forall|j: int| 0 <= j < i ==> (#[trigger] model[j]).0 != name@,
        decreases attrs.len() - i,
    {
        assert(model[i as int].0 == attrs[i as int].0@);
        if str_eq(attrs[i].0.as_str(), name) {
            proof {
                lemma_position_is(model, name@, i as int);
            }
            return true;
        }
        i += 1;
    }
    proof {
        lemma_position_none(model, name@);
    }
    false
}

fn capture_attributes(attributes: &Vec<Attribute>) -> (captured: Result<
    Vec<(String, String)>,
    Error,
>)
    ensures
        match captured_attributes(attributes.deep_view()) {
            Ok(attrs) => captured matches Ok(got) && got.deep_view() == attrs,
            Err(e) => captured matches Err(error) && error@ == e,
        },
{
    let ghost all = attributes.deep_view();
    let mut attrs: Vec<(String, String)> = Vec::new();
    let mut i: usize = 0;
    assert(all.take(0) =~= Seq::<AttributeModel>::empty());
    assert(attrs.deep_view() =~= Seq::<(Seq<char>, Seq<char>)>::empty());
    while i < attributes.len()
        invariant
            i <= attributes.len(),
            all == attributes.deep_view(),
            captured_attributes(all.take(i as int)) == Ok::<
                Seq<(Seq<char>, Seq<char>)>,
                ErrorModel,
            >(attrs.deep_view()),
        decreases attributes.len() - i,
    {
        let attribute = &attributes[i];
        proof {
            let next = all.take(i + 1);
            assert(next.drop_last() =~= all.take(i as int));
            assert(next.last() == attribute@);
        }
        if !has_name(&attrs, attribute.name.as_str()) {
            match &attribute.value {
                Some(value) => {
                    let ghost before = attrs.deep_view();
                    attrs.push((attribute.name.clone(), value.clone()));
                    assert(attrs.deep_view() =~= before.push((attribute.name@, value@)));
                },
                None => {
                    proof {
                        lemma_capture_fails(all, i + 1);
                    }
                    return Err(Error::MalformedText);
                },
            }
        }
        i += 1;
    }
    assert(all.take(i as int) =~= all);
    Ok(attrs)
}

/// Once the capture of the first attributes has failed, that of all has.
proof fn lemma_capture_fails(attributes: Seq<AttributeModel>, n: int)
    requires
        0 <= n <= attributes.len(),
        captured_attributes(attributes.take(n)) is Err,
    ensures
        captured_attributes(attributes) == captured_attributes(attributes.take(n)),
    decreases attributes.len() - n,
{
    if n == attributes.len() {
        assert(attributes.take(n) =~= attributes);
    } else {
        assert(attributes.take(n + 1).drop_last() =~= attributes.take(n));
        lemma_capture_fails(attributes, n + 1);
    }
}

impl Extension {
    /// A captured element called `name` that holds `text` and nothing else.
    pub fn with_text(name: &str, text: &str) -> (extension: Extension)
        ensures
            extension@ == ExtensionModel::text_only(name@, text@),
    {
        let attrs: Vec<(String, String)> = Vec::new();
        let children = ExtensionMap::new();
        assert(attrs.deep_view() =~= Seq::<(Seq<char>, Seq<char>)>::empty());
        Extension { name: name.to_owned(), value: Some(text.to_owned()), attrs, children }
    }

    /// The name of the element as written, prefix included.
    pub fn name(&self) -> (name: &str)
        ensures
            name@ == self@.name,
    {
        self.name.as_str()
    }

    /// The text that lies directly in the element, if there is any.
    pub fn value(&self) -> (value: Option<&str>)
        ensures
            value.deep_view() == self@.value,
    {
        match &self.value {
            Some(value) => Some(value.as_str()),
            None => None,
        }
    }

    /// The attributes, each name once, in the order of their first occurrence.
    pub fn attrs(&self) -> (attrs: &Vec<(String, String)>)
        ensures
            attrs.deep_view() == self@.attrs,
    {
        &self.attrs
    }

    /// The captured children.
    pub fn children(&self) -> (children: &ExtensionMap)
        ensures
            children@ == self@.children,
    {
        &self.children
    }

    /// Writes this element with all it holds: its start tag with its
    /// attributes, its text, its children, and its end tag.
    #[verifier::loop_isolation(false)]
    pub fn to_xml(&self, writer: &mut XmlWriter)
        ensures
            final(writer)@ == old(writer)@ + self@.events(),
        decreases self, 1nat,
    {
        let ghost model = self@;
        let mut attributes: Vec<Attribute> = Vec::new();
        let mut i: usize = 0;
        assert(attributes.deep_view() =~= model.attributes().take(0));
        while i < self.attrs.len()
            invariant
                i <= self.attrs.len(),
                attributes.deep_view() == model.attributes().take(i as int),
            decreases self.attrs.len() - i,
        {
            let ghost before = attributes.deep_view();
            let attribute = Attribute {
                name: self.attrs[i].0.clone(),
                value: Some(self.attrs[i].1.clone()),
            };
            attributes.push(attribute);
            assert(attributes.deep_view() =~= before.push(attribute@));
            assert(model.attributes().take(i + 1) =~= model.attributes().take(i as int).push(
                attribute@,
            ));
            i += 1;
        }
        assert(model.attributes().take(i as int) =~= model.attributes());
        let ghost start = seq![
            EventModel::Start { name: model.name, attributes: model.attributes() },
        ];
        writer.write_event(XmlEvent::Start { name: self.name.clone(), attributes });
        assert(writer@ =~= old(writer)@ + start);
        match &self.value {
            Some(text) => {
                writer.write_event(XmlEvent::Text(text.clone()));
            },
            None => {},
        }
        assert(writer@ =~= old(writer)@ + (start + model.text_events()));
        self.children.to_xml(writer);
        writer.write_event(XmlEvent::End { name: self.name.clone() });
        assert(writer@ =~= old(writer)@ + model.events());
    }
}

impl ExtensionMap {
    /// Writes the captured children: name by name, and under each name the
    /// values in the order in which they were captured.
    #[verifier::loop_isolation(false)]
    pub fn to_xml(&self, writer: &mut XmlWriter)
        ensures
            final(writer)@ == old(writer)@ + events_of_children(self@),
        decreases self, 0nat,
    {
        let ghost entries = self@;
        let mut i: usize = 0;
        assert(entries.skip(0) =~= entries);
        while i < self.entries.len()
            invariant
                i <= self.entries.len(),
                entries.len() == self.entries.len(),
                writer@ + events_of_children(entries.skip(i as int)) == old(writer)@
                    + events_of_children(entries),
            decreases self.entries.len() - i,
        {
            let values = &self.entries[i].values;
            let ghost held = entries[i as int].1;
            let ghost behind = events_of_children(entries.skip(i + 1));
            proof {
                lemma_extensions_model(values@);
                assert(held =~= values.deep_view());
                assert(entries.skip(i as int)[0] == entries[i as int]);
                assert(entries.skip(i as int).skip(1) =~= entries.skip(i + 1));
                assert(held.skip(0) =~= held);
            }
            let mut j: usize = 0;
            while j < values.len()
                invariant
                    j <= values.len(),
                    held.len() == values.len(),
                    writer@ + (events_of_values(held.skip(j as int)) + behind) == old(writer)@
                        + events_of_children(entries),
                decreases values.len() - j,
            {
                let ghost before = writer@;
                proof {
                    assert(held.skip(j as int)[0] == values[j as int]@);
                    assert(held.skip(j as int).skip(1) =~= held.skip(j + 1));
                }
                values[j].to_xml(writer);
                assert(writer@ + (events_of_values(held.skip(j + 1)) + behind) =~= before + (
                events_of_values(held.skip(j as int)) + behind));
                j += 1;
            }
            assert(events_of_values(held.skip(j as int)) + behind =~= behind);
            i += 1;
        }
        assert(writer@ + events_of_children(entries.skip(i as int)) =~= writer@);
    }
}

/// Captures the element whose start tag was read last, with all it holds,
/// up to and with its end tag.
pub fn parse_extension_element(reader: &mut XmlReader, attributes: &Vec<Attribute>) -> (extension:
    Result<Extension, Error>)
    ensures
        match ExtensionModel::decoded(attributes.deep_view(), old(reader)@) {
            Ok((value, rest)) => extension matches Ok(got) && got@ == value && final(reader)@
                == rest,
            Err(e) => extension matches Err(error) && error@ == e,
        },
        extension matches Ok(got) ==> faithful(got@),
{
    proof {
        lemma_decoded_is_faithful(attributes.deep_view(), reader@);
    }
    let attrs = match capture_attributes(attributes) {
        Ok(attrs) => attrs,
        Err(error) => {
            return Err(error);
        },
    };
    let mut outer: Vec<Extension> = Vec::new();
    let mut current = Extension {
        name: String::new(),
        value: None,
        attrs,
        children: ExtensionMap::new(),
    };
    assert(outer.deep_view() =~= Seq::<ExtensionModel>::empty());
    loop
        invariant
            ExtensionModel::decoded_with(reader@, outer.deep_view(), current@)
                == ExtensionModel::decoded(attributes.deep_view(), old(reader)@),
            ExtensionModel::decoded(attributes.deep_view(), old(reader)@) matches Ok(
                (extension, _),
            ) ==> faithful(extension),
        decreases reader@.len(),
    {
        let ghost around = outer.deep_view();
        match reader.read_event() {
            XmlEvent::Eof => {
                return Err(Error::Eof);
            },
            XmlEvent::Failure(message) => {
                return Err(Error::Xml(message));
            },
            XmlEvent::BadText => {
                return Err(Error::MalformedText);
            },
            XmlEvent::Other => {},
            XmlEvent::Text(piece) => {
                current.value = Some(
                    match current.value {
                        Some(text) => text.concat(piece.as_str()),
                        None => piece,
                    },
                );
            },
            XmlEvent::Start { attributes: inner, .. } => {
                let attrs = match capture_attributes(&inner) {
                    Ok(attrs) => attrs,
                    Err(error) => {
                        return Err(error);
                    },
                };
                let child = Extension {
                    name: String::new(),
                    value: None,
                    attrs,
                    children: ExtensionMap::new(),
                };
                outer.push(current);
                assert(outer.deep_view() =~= around.push(current@));
                current = child;
            },
            XmlEvent::End { name } => {
                let local = local_name(name.as_str());
                current.name = name;
                match outer.pop() {
                    None => {
                        return Ok(current);
                    },
                    Some(parent) => {
                        let mut parent = parent;
                        assert(outer.deep_view() =~= around.drop_last());
                        assert(parent@ == around.last());
                        parent.children.push(local.as_str(), current);
                        current = parent;
                    },
                }
            },
        }
    }
}

/// The texts of the captured elements, one for each: the text that the
/// element holds, or the empty text where it holds none.
pub open spec fn texts_of(values: Seq<ExtensionModel>) -> Seq<Seq<char>> {
    Seq::new(values.len(), |i: int| text_or_empty(values[i].value))
}

/// Takes out of `map` what is held under `key`, and hands over the text of
/// each value, in order. Where nothing is held under `key`, the map stays as
/// it is and nothing is handed over.
pub fn remove_extension_values(map: &mut ExtensionMap, key: &str) -> (texts: Option<Vec<String>>)
    ensures
        final(map)@ == without(old(map)@, key@),
        as_map(final(map)@) == as_map(old(map)@).remove(key@),
        texts.deep_view() == match value_of(old(map)@, key@) {
            Some(values) => Some(texts_of(values)),
            None => None,
        },
        !as_map(old(map)@).contains_key(key@) ==> texts is None && final(map)@ == old(map)@,
{
    proof {
        lemma_position_of(map@, key@);
    }
    match map.remove(key) {
        Some(values) => {
            let ghost held = values.deep_view();
            let mut texts: Vec<String> = Vec::new();
            let mut i: usize = 0;
            while i < values.len()
                invariant
                    i <= values.len(),
                    held == values.deep_view(),
                    texts.deep_view() == texts_of(held).take(i as int),
                decreases values.len() - i,
            {
                let ghost before = texts.deep_view();
                let text = match &values[i].value {
                    Some(text) => text.clone(),
                    None => String::new(),
                };
                assert(text@ == text_or_empty(held[i as int].value));
                texts.push(text);
                assert(texts.deep_view() =~= before.push(text@));
                assert(texts_of(held).take(i + 1) =~= texts_of(held).take(i as int).push(text@));
                i += 1;
            }
            assert(texts_of(held).take(i as int) =~= texts_of(held));
            Some(texts)
        },
        None => None,
    }
}

/// The texts of what `store` holds under `name`, or none where it holds
/// nothing under that name.
pub open spec fn texts_under(store: Map<Seq<char>, Seq<ExtensionModel>>, name: Seq<char>) -> Seq<
    Seq<char>,
> {
    if store.contains_key(name) {
        texts_of(store[name])
    } else {
        Seq::empty()
    }
}

/// The captured elements that stand for `texts`: one for each, called
/// `name`, holding that text and nothing else.
pub open spec fn text_values(name: Seq<char>, texts: Seq<Seq<char>>) -> Seq<ExtensionModel> {
    Seq::new(texts.len(), |i: int| ExtensionModel::text_only(name, texts[i]))
}

/// The store with the elements that stand for `texts` behind what it holds
/// under `key`. Without a text, the store stays as it is.
pub open spec fn with_texts(
    store: Map<Seq<char>, Seq<ExtensionModel>>,
    key: Seq<char>,
    name: Seq<char>,
    texts: Seq<Seq<char>>,
) -> Map<Seq<char>, Seq<ExtensionModel>> {
    if texts.len() == 0 {
        store
    } else if store.contains_key(key) {
        store.insert(key, store[key] + text_values(name, texts))
    } else {
        store.insert(key, text_values(name, texts))
    }
}

/// Lifting a name under which the store holds nothing gives no text, and
/// leaves the store as it is.
pub proof fn lemma_lift_of_absent(store: Map<Seq<char>, Seq<ExtensionModel>>, name: Seq<char>)
    requires
        !store.contains_key(name),
    ensures
        texts_under(store, name) == Seq::<Seq<char>>::empty(),
        store.remove(name) == store,
{
    assert(store.remove(name) =~= store);
}

/// The texts that lifting hands over, one sequence for each of `names` in
/// their order: the texts of what the store holds under the name once the
/// names in front of it are taken out. A name under which nothing is held,
/// and a name that stood in front already, gives no text.
pub open spec fn lifted_texts(
    store: Map<Seq<char>, Seq<ExtensionModel>>,
    names: Seq<Seq<char>>,
) -> Seq<Seq<Seq<char>>> {
    Seq::new(
        names.len(),
        |i: int| texts_under(store.remove_keys(names.take(i).to_set()), names[i]),
    )
}

/// The names among the first `n + 1` are the names among the first `n` and
/// the one behind them.
proof fn lemma_take_to_set(names: Seq<Seq<char>>, n: int)
    requires
        0 <= n < names.len(),
    ensures
        names.take(n + 1).to_set() == names.take(n).to_set().insert(names[n]),
{
    let more = names.take(n + 1);
    let fewer = names.take(n);
    assert forall|name: Seq<char>| more.to_set().contains(name) <==> fewer.to_set().insert(
        names[n],
    ).contains(name) by {
        if more.contains(name) {
            let i = choose|i: int| 0 <= i < more.len() && more[i] == name;
            if i < n {
                assert(fewer[i] == name);
            }
        }
        if fewer.contains(name) {
            let i = choose|i: int| 0 <= i < fewer.len() && fewer[i] == name;
            assert(more[i] == name);
        }
        if name == names[n] {
            assert(more[n] == name);
        }
    }
    assert(more.to_set() =~= fewer.to_set().insert(names[n]));
}

/// Lifts the fields called `names` out of the store: for each name, in the
/// order given, what the store holds under it is taken out and its texts are
/// handed over. The store keeps what is held under every other name.
pub fn lift(map: &mut ExtensionMap, names: &[&str]) -> (fields: Vec<Vec<String>>)
    ensures
        fields.deep_view() == lifted_texts(as_map(old(map)@), names.deep_view()),
        final(map)@ == without_all(old(map)@, names.deep_view()),
        as_map(final(map)@) == as_map(old(map)@).remove_keys(names.deep_view().to_set()),
{
    let ghost first = map@;
    let ghost start = as_map(map@);
    let ghost all = names.deep_view();
    let mut fields: Vec<Vec<String>> = Vec::new();
    let mut i: usize = 0;
    assert(all.take(0).to_set() =~= Set::<Seq<char>>::empty());
    assert(start.remove_keys(Set::<Seq<char>>::empty()) =~= start);
    assert(fields.deep_view() =~= lifted_texts(start, all).take(0));
    while i < names.len()
        invariant
            i <= names.len(),
            all == names.deep_view(),
            as_map(map@) == start.remove_keys(all.take(i as int).to_set()),
            map@ == without_all(first, all.take(i as int)),
            fields.deep_view() == lifted_texts(start, all).take(i as int),
        decreases names.len() - i,
    {
        let ghost held = as_map(map@);
        let ghost before = fields.deep_view();
        let name = names[i];
        assert(name@ == all[i as int]);
        let texts = match remove_extension_values(map, name) {
            Some(texts) => texts,
            None => Vec::new(),
        };
        proof {
            lemma_take_to_set(all, i as int);
            lemma_without_all_push(first, all.take(i as int), all[i as int]);
            assert(all.take(i + 1) =~= all.take(i as int).push(all[i as int]));
            assert(texts.deep_view() =~= texts_under(held, all[i as int]));
            assert(as_map(map@) =~= start.remove_keys(all.take(i + 1).to_set()));
        }
        fields.push(texts);
        proof {
            assert(fields.deep_view() =~= before.push(texts.deep_view()));
            assert(lifted_texts(start, all).take(i + 1) =~= lifted_texts(start, all).take(
                i as int,
            ).push(texts_under(held, all[i as int])));
        }
        i += 1;
    }
    assert(all.take(i as int) =~= all);
    assert(lifted_texts(start, all).take(i as int) =~= lifted_texts(start, all));
    fields
}

/// Lowers the texts of one field into the store: one element for each of
/// `texts`, called `name` and holding that text and nothing else, is put
/// behind what the store holds under `key`. Without a text, the store stays
/// as it is.
pub fn lower(map: &mut ExtensionMap, key: &str, name: &str, texts: &Vec<String>)
    ensures
        final(map)@ == with_values(old(map)@, key@, text_values(name@, texts.deep_view())),
        as_map(final(map)@) == with_texts(as_map(old(map)@), key@, name@, texts.deep_view()),
{
    let ghost first = map@;
    let ghost start = as_map(map@);
    let ghost all = texts.deep_view();
    let mut i: usize = 0;
    assert(all.take(0) =~= Seq::<Seq<char>>::empty());
    while i < texts.len()
        invariant
            i <= texts.len(),
            all == texts.deep_view(),
            as_map(map@) == with_texts(start, key@, name@, all.take(i as int)),
            map@ == with_values(first, key@, text_values(name@, all.take(i as int))),
        decreases texts.len() - i,
    {
        let ghost entries = map@;
        let ghost held = as_map(entries);
        let ghost done = all.take(i as int);
        let ghost next = all.take(i + 1);
        map.push(key, Extension::with_text(name, texts[i].as_str()));
        proof {
            let value = ExtensionModel::text_only(name@, all[i as int]);
            lemma_with_values_push(first, key@, text_values(name@, done), value);
            assert(held.contains_key(key@) == (value_of(entries, key@) is Some));
            assert(held.contains_key(key@) ==> held[key@] == value_of(entries, key@)->Some_0);
            assert(done.len() == i);
            assert(next.len() == i + 1);
            assert(text_values(name@, next) =~= text_values(name@, done).push(value));
            if i == 0 {
                assert(text_values(name@, done) =~= Seq::<ExtensionModel>::empty());
                if start.contains_key(key@) {
                    assert(start[key@].push(value) =~= start[key@] + text_values(name@, next));
                } else {
                    assert(seq![value] =~= text_values(name@, next));
                }
            } else {
                if start.contains_key(key@) {
                    assert((start[key@] + text_values(name@, done)).push(value) =~= start[key@]
                        + text_values(name@, next));
                }
            }
            assert(as_map(map@) =~= with_texts(start, key@, name@, next));
        }
        i += 1;
    }
    assert(all.take(i as int) =~= all);
}

} // verus!
