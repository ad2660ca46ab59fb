//! What every element codec does alike: reading the text of an element,
//! skipping an element that is not known, and looking up an attribute.

use crate::error::{Error, ErrorModel};
use crate::event::{next_event, Attribute, AttributeModel, EventModel, XmlEvent, XmlReader};
use crate::text::str_eq;
use vstd::prelude::*;
use vstd::string::StringExecFns;

verus! {

/// What is left of `events` once the element that is open at their start has
/// been skipped, the start tags inside it counted by `depth`.
///
/// The element ends at the end tag that is met while `depth` is zero. Running
/// out of events, or into the point where the document is ill-formed, is an
/// error.
pub open spec fn skipped(events: Seq<EventModel>, depth: nat) -> Result<Seq<EventModel>, ErrorModel>
    decreases events.len(),
{
    match next_event(events) {
        EventModel::Eof => Err(ErrorModel::Eof),
        EventModel::Failure => Err(ErrorModel::Xml),
        EventModel::Start { .. } => skipped(events.skip(1), depth + 1),
        EventModel::End { .. } => if depth == 0 {
            Ok(events.skip(1))
        } else {
            skipped(events.skip(1), (depth - 1) as nat)
        },
        _ => skipped(events.skip(1), depth),
    }
}

/// What skips leaves is a proper suffix of what it was given.
pub proof fn lemma_skipped_is_suffix(events: Seq<EventModel>, depth: nat)
    ensures
        skipped(events, depth) matches Ok(rest) ==> rest.len() < events.len() && rest
            == events.skip(events.len() - rest.len()),
    decreases events.len(),
{
    if events.len() > 0 {
        let tail = events.skip(1);
        match events[0] {
            EventModel::Eof => {},
            EventModel::Failure => {},
            EventModel::Start { .. } => {
                lemma_skipped_is_suffix(tail, depth + 1);
            },
            EventModel::End { .. } => {
                if depth > 0 {
                    lemma_skipped_is_suffix(tail, (depth - 1) as nat);
                }
            },
            _ => {
                lemma_skipped_is_suffix(tail, depth);
            },
        }
        if let Ok(rest) = skipped(events, depth) {
            assert(tail.skip(tail.len() - rest.len()) =~= events.skip(events.len() - rest.len()));
        }
    }
}

/// Skipping looks at nothing behind the end of the element: with more events
/// behind, the same element is skipped and those events are left as well.
pub proof fn lemma_skipped_frame(events: Seq<EventModel>, depth: nat, more: Seq<EventModel>)
    requires
        skipped(events, depth) is Ok,
    ensures
        skipped(events + more, depth) == Ok::<Seq<EventModel>, ErrorModel>(
            skipped(events, depth)->Ok_0 + more,
        ),
    decreases events.len(),
{
    if events.len() > 0 {
        let tail = events.skip(1);
        assert((events + more)[0] == events[0]);
        assert((events + more).skip(1) =~= tail + more);
        match events[0] {
            EventModel::Start { .. } => {
                lemma_skipped_frame(tail, depth + 1, more);
            },
            EventModel::End { .. } => {
                if depth > 0 {
                    lemma_skipped_frame(tail, (depth - 1) as nat, more);
                }
            },
            EventModel::Eof => {},
            EventModel::Failure => {},
            _ => {
                lemma_skipped_frame(tail, depth, more);
            },
        }
    }
}

/// Whether `inside` is what one element holds, up to and with its end tag,
/// and nothing more.
pub open spec fn closes_element(inside: Seq<EventModel>) -> bool {
    skipped(inside, 0) == Ok::<Seq<EventModel>, ErrorModel>(Seq::empty())
}

/// Whether `element` is one whole element: its start tag, what it holds,
/// and its end tag.
pub open spec fn is_element(element: Seq<EventModel>) -> bool {
    element.len() > 0 && element[0] is Start && closes_element(element.skip(1))
}

/// Skipping from deeper inside: what closes the open element at depth
/// `depth` leaves the reader one level higher when it is met further in.
proof fn lemma_skipped_deeper(
    events: Seq<EventModel>,
    depth: nat,
    further: nat,
    more: Seq<EventModel>,
)
    requires
        skipped(events, depth) is Ok,
    ensures
        skipped(events + more, depth + further + 1) == skipped(
            skipped(events, depth)->Ok_0 + more,
            further,
        ),
    decreases events.len(),
{
    if events.len() > 0 {
        let tail = events.skip(1);
        assert((events + more)[0] == events[0]);
        assert((events + more).skip(1) =~= tail + more);
        match events[0] {
            EventModel::Start { .. } => {
                lemma_skipped_deeper(tail, depth + 1, further, more);
            },
            EventModel::End { .. } => {
                if depth > 0 {
                    lemma_skipped_deeper(tail, (depth - 1) as nat, further, more);
                }
            },
            EventModel::Eof => {},
            EventModel::Failure => {},
            _ => {
                lemma_skipped_deeper(tail, depth, further, more);
            },
        }
    }
}

/// A whole element that stands where skipping is under way is skipped with
/// the rest: with or without it, the same events are left.
pub proof fn lemma_skipped_ignores_element(
    before: Seq<EventModel>,
    depth: nat,
    element: Seq<EventModel>,
    after: Seq<EventModel>,
)
    requires
        is_element(element),
        skipped(before, depth) == Err::<Seq<EventModel>, ErrorModel>(ErrorModel::Eof),
    ensures
        skipped(before + element + after, depth) == skipped(before + after, depth),
    decreases before.len(),
{
    if before.len() == 0 {
        let inside = element.skip(1);
        assert(before + element + after =~= element + after);
        assert(before + after =~= after);
        assert((element + after)[0] == element[0]);
        assert((element + after).skip(1) =~= inside + after);
        lemma_skipped_deeper(inside, 0, depth, after);
        assert(Seq::<EventModel>::empty() + after =~= after);
    } else {
        let tail = before.skip(1);
        assert((before + element + after)[0] == before[0]);
        assert((before + after)[0] == before[0]);
        assert((before + element + after).skip(1) =~= tail + element + after);
        assert((before + after).skip(1) =~= tail + after);
        match before[0] {
            EventModel::Start { .. } => {
                lemma_skipped_ignores_element(tail, depth + 1, element, after);
            },
            EventModel::End { .. } => {
                if depth > 0 {
                    lemma_skipped_ignores_element(tail, (depth - 1) as nat, element, after);
                }
            },
            EventModel::Eof => {},
            EventModel::Failure => {},
            _ => {
                lemma_skipped_ignores_element(tail, depth, element, after);
            },
        }
    }
}

/// The text of the element that is open at the start of `events`, and the
/// events behind its end tag.
///
/// The text is made of the pieces of character data that lie directly in the
/// element, joined in order; `before` holds what was joined so far. An element
/// that holds no piece at all has no text, which is not the same as an empty
/// one. Child elements are skipped. A piece that cannot be decoded is an
/// error, as is the end of the events before the end tag.
pub open spec fn element_text_after(events: Seq<EventModel>, before: Option<Seq<char>>) -> Result<
    (Option<Seq<char>>, Seq<EventModel>),
    ErrorModel,
>
    decreases events.len(),
{
    match next_event(events) {
        EventModel::Eof => Err(ErrorModel::Eof),
        EventModel::Failure => Err(ErrorModel::Xml),
        EventModel::End { .. } => Ok((before, events.skip(1))),
        EventModel::Text { text } => element_text_after(events.skip(1), Some(joined(before, text))),
        EventModel::BadText => Err(ErrorModel::MalformedText),
        EventModel::Other => element_text_after(events.skip(1), before),
        EventModel::Start { .. } => match skipped(events.skip(1), 0) {
            Ok(rest) => {
                proof {
                    lemma_skipped_is_suffix(events.skip(1), 0);
                }
                element_text_after(rest, before)
            },
            Err(e) => Err(e),
        },
    }
}

/// The text read so far with one more piece behind it.
pub open spec fn joined(before: Option<Seq<char>>, piece: Seq<char>) -> Seq<char> {
    match before {
        Some(text) => text + piece,
        None => piece,
    }
}

/// The text of the element that is open at the start of `events`, and the
/// events behind its end tag.
pub open spec fn element_text_of(events: Seq<EventModel>) -> Result<
    (Option<Seq<char>>, Seq<EventModel>),
    ErrorModel,
> {
    element_text_after(events, None)
}

/// Whatever the text read so far, what is left behind the element is a proper
/// suffix of the events.
pub proof fn lemma_element_text_is_suffix(events: Seq<EventModel>, before: Option<Seq<char>>)
    ensures
        element_text_after(events, before) matches Ok((_, rest)) ==> rest.len() < events.len()
            && rest == events.skip(events.len() - rest.len()),
    decreases events.len(),
{
    if events.len() > 0 {
        let tail = events.skip(1);
        match events[0] {
            EventModel::Text { text } => {
                lemma_element_text_is_suffix(tail, Some(joined(before, text)));
            },
            EventModel::Other => {
                lemma_element_text_is_suffix(tail, before);
            },
            EventModel::Start { .. } => {
                lemma_skipped_is_suffix(tail, 0);
                if let Ok(rest) = skipped(tail, 0) {
                    lemma_element_text_is_suffix(rest, before);
                    if let Ok((_, last)) = element_text_after(rest, before) {
                        assert(rest.skip(rest.len() - last.len()) =~= tail.skip(
                            tail.len() - last.len(),
                        ));
                    }
                }
            },
            _ => {},
        }
        if let Ok((_, rest)) = element_text_after(events, before) {
            assert(tail.skip(tail.len() - rest.len()) =~= events.skip(events.len() - rest.len()));
        }
    }
}

/// Reading a text looks at nothing behind the end of the element: with more
/// events behind, the same text is read and those events are left as well.
pub proof fn lemma_element_text_frame(
    events: Seq<EventModel>,
    before: Option<Seq<char>>,
    more: Seq<EventModel>,
)
    requires
        element_text_after(events, before) is Ok,
    ensures
        element_text_after(events + more, before) == Ok::<
            (Option<Seq<char>>, Seq<EventModel>),
            ErrorModel,
        >(
            (
                element_text_after(events, before)->Ok_0.0,
                element_text_after(events, before)->Ok_0.1 + more,
            ),
        ),
    decreases events.len(),
{
    if events.len() > 0 {
        let tail = events.skip(1);
        assert((events + more)[0] == events[0]);
        assert((events + more).skip(1) =~= tail + more);
        match events[0] {
            EventModel::Text { text } => {
                lemma_element_text_frame(tail, Some(joined(before, text)), more);
            },
            EventModel::Other => {
                lemma_element_text_frame(tail, before, more);
            },
            EventModel::Start { .. } => {
                lemma_skipped_is_suffix(tail, 0);
                lemma_skipped_frame(tail, 0, more);
                lemma_element_text_frame(skipped(tail, 0)->Ok_0, before, more);
            },
            _ => {},
        }
    }
}

/// A whole element that stands in an element whose text is being read, at
/// whatever depth, changes neither the text nor what is left: child elements
/// are no part of the text.
pub proof fn lemma_element_text_ignores_element(
    before: Seq<EventModel>,
    text: Option<Seq<char>>,
    element: Seq<EventModel>,
    after: Seq<EventModel>,
)
    requires
        is_element(element),
        element_text_after(before, text) == Err::<
            (Option<Seq<char>>, Seq<EventModel>),
            ErrorModel,
        >(ErrorModel::Eof),
    ensures
        element_text_after(before + element + after, text) == element_text_after(
            before + after,
            text,
        ),
    decreases before.len(),
{
    if before.len() == 0 {
        let inside = element.skip(1);
        assert(before + element + after =~= element + after);
        assert(before + after =~= after);
        assert((element + after)[0] == element[0]);
        assert((element + after).skip(1) =~= inside + after);
        lemma_skipped_frame(inside, 0, after);
        assert(Seq::<EventModel>::empty() + after =~= after);
    } else {
        let tail = before.skip(1);
        assert((before + element + after)[0] == before[0]);
        assert((before + after)[0] == before[0]);
        assert((before + element + after).skip(1) =~= tail + element + after);
        assert((before + after).skip(1) =~= tail + after);
        match before[0] {
            EventModel::Text { text: piece } => {
                lemma_element_text_ignores_element(
                    tail,
                    Some(joined(text, piece)),
                    element,
                    after,
                );
            },
            EventModel::Other => {
                lemma_element_text_ignores_element(tail, text, element, after);
            },
            EventModel::Start { .. } => {
                match skipped(tail, 0) {
                    Ok(rest) => {
                        lemma_skipped_is_suffix(tail, 0);
                        lemma_skipped_frame(tail, 0, element + after);
                        lemma_skipped_frame(tail, 0, after);
                        assert(tail + element + after =~= tail + (element + after));
                        assert(rest + (element + after) =~= rest + element + after);
                        lemma_element_text_ignores_element(rest, text, element, after);
                    },
                    Err(_) => {
                        lemma_skipped_ignores_element(tail, 0, element, after);
                    },
                }
            },
            _ => {},
        }
    }
}

/// Behind the start tag of an element that holds one piece of text and
/// nothing else, the text that is read is that piece, and what is left is
/// what stands behind the end tag.
pub proof fn lemma_text_element_read(name: Seq<char>, text: Seq<char>, rest: Seq<EventModel>)
    ensures
        element_text_of(
            seq![EventModel::Text { text: text }, EventModel::End { name: name }] + rest,
        ) == Ok::<(Option<Seq<char>>, Seq<EventModel>), ErrorModel>((Some(text), rest)),
{
    let events = seq![EventModel::Text { text: text }, EventModel::End { name: name }] + rest;
    assert(events[0] == EventModel::Text { text: text });
    assert(events.skip(1)[0] == EventModel::End { name: name });
    assert(events.skip(1).skip(1) =~= rest);
    reveal_with_fuel(element_text_after, 3);
}

/// Reads on to the end of the element whose start tag was read last, and
/// ignores what it holds.
pub fn skip_element(reader: &mut XmlReader) -> (done: Result<(), Error>)
    ensures
        match skipped(old(reader)@, 0) {
            Ok(rest) => done is Ok && final(reader)@ == rest,
            Err(e) => done is Err && done->Err_0@ == e,
        },
{
    let total = reader.remaining();
    let mut depth: usize = 0;
    loop
        invariant
            skipped(reader@, depth as nat) == skipped(old(reader)@, 0),
            depth + reader@.len() <= total,
        decreases reader@.len(),
    {
        match reader.read_event() {
            XmlEvent::Eof => {
                return Err(Error::Eof);
            },
            XmlEvent::Failure(message) => {
                return Err(Error::Xml(message));
            },
            XmlEvent::Start { .. } => {
                depth = depth + 1;
            },
            XmlEvent::End { .. } => {
                if depth == 0 {
                    return Ok(());
                }
                depth = depth - 1;
            },
            _ => {},
        }
    }
}

/// Reads the text of the element whose start tag was read last, up to and
/// with its end tag.
pub fn element_text(reader: &mut XmlReader) -> (text: Result<Option<String>, Error>)
    ensures
        match element_text_of(old(reader)@) {
            Ok((found, rest)) => text matches Ok(got) && got.deep_view() == found && final(reader)@
                == rest,
            Err(e) => text matches Err(error) && error@ == e,
        },
{
    let mut content: Option<String> = None;
    loop
        invariant
            element_text_after(reader@, content.deep_view()) == element_text_of(old(reader)@),
        decreases reader@.len(),
    {
        match reader.read_event() {
            XmlEvent::Eof => {
                return Err(Error::Eof);
            },
            XmlEvent::Failure(message) => {
                return Err(Error::Xml(message));
            },
            XmlEvent::End { .. } => {
                return Ok(content);
            },
            XmlEvent::Text(piece) => {
                content = Some(
                    match content {
                        Some(text) => text.concat(piece.as_str()),
                        None => piece,
                    },
                );
            },
            XmlEvent::BadText => {
                return Err(Error::MalformedText);
            },
            XmlEvent::Other => {},
            XmlEvent::Start { .. } => {
                proof {
                    lemma_skipped_is_suffix(reader@, 0);
                }
                match skip_element(reader) {
                    Ok(()) => {},
                    Err(error) => {
                        return Err(error);
                    },
                }
            },
        }
    }
}

/// The first attribute of `attributes` that is called `name`. Where a name
/// stands twice, the later one is never looked at.
pub open spec fn attribute_named(attributes: Seq<AttributeModel>, name: Seq<char>) -> Option<
    AttributeModel,
>
    decreases attributes.len(),
{
    if attributes.len() == 0 {
        None
    } else if attributes[0].name == name {
        Some(attributes[0])
    } else {
        attribute_named(attributes.skip(1), name)
    }
}

/// The decoded value of the first attribute called `name`: nothing where
/// there is no such attribute, an error where its value cannot be decoded.
pub open spec fn attribute_text_of(attributes: Seq<AttributeModel>, name: Seq<char>) -> Result<
    Option<Seq<char>>,
    ErrorModel,
> {
    match attribute_named(attributes, name) {
        None => Ok(None),
        Some(attribute) => match attribute.value {
            Some(value) => Ok(Some(value)),
            None => Err(ErrorModel::MalformedText),
        },
    }
}

/// An attribute that is missing is no error: where no attribute is called
/// `name`, the look-up finds nothing and fails on nothing.
pub proof fn lemma_missing_attribute(attributes: Seq<AttributeModel>, name: Seq<char>)
    requires
        forall|i: int| 0 <= i < attributes.len() ==> (#[trigger] attributes[i]).name != name,
    ensures
        attribute_text_of(attributes, name) == Ok::<Option<Seq<char>>, ErrorModel>(None),
    decreases attributes.len(),
{
    if attributes.len() > 0 {
        let tail = attributes.skip(1);
        assert(attributes[0].name != name);
        assert forall|i: int| 0 <= i < tail.len() implies (#[trigger] tail[i]).name != name by {
            assert(tail[i] == attributes[i + 1]);
        }
        lemma_missing_attribute(tail, name);
    }
}

/// Looks up the attribute called `name` and hands out its decoded value.
pub fn attribute_text(attributes: &Vec<Attribute>, name: &str) -> (text: Result<
    Option<String>,
    Error,
>)
    ensures
        match attribute_text_of(attributes.deep_view(), name@) {
            Ok(found) => text matches Ok(got) && got.deep_view() == found,
            Err(e) => text matches Err(error) && error@ == e,
        },
{
    let ghost all = attributes.deep_view();
    let mut i: usize = 0;
    assert(all.skip(0) =~= all);
    while i < attributes.len()
        invariant
            i <= attributes.len(),
            all == attributes.deep_view(),
            attribute_named(all.skip(i as int), name@) == attribute_named(all, name@),
        decreases attributes.len() - i,
    {
        let attribute = &attributes[i];
        assert(all.skip(i as int)[0] == attribute@);
        if str_eq(attribute.name.as_str(), name) {
            return match &attribute.value {
                Some(value) => Ok(Some(value.clone())),
                None => Err(Error::MalformedText),
            };
        }
        assert(all.skip(i as int).skip(1) =~= all.skip(i + 1));
        i += 1;
    }
    Ok(None)
}

/// The text of a required field: what was found, or the empty text.
pub open spec fn text_or_empty(found: Option<Seq<char>>) -> Seq<char> {
    match found {
        Some(text) => text,
        None => Seq::empty(),
    }
}

/// The text of a required field: what was found, or the empty text.
pub fn or_empty(found: Option<String>) -> (text: String)
    ensures
        text@ == text_or_empty(found.deep_view()),
{
    match found {
        Some(text) => text,
        None => String::new(),
    }
}

} // verus!
