//! The event stream that the element codecs read from and write to.
//!
//! A document is a sequence of events: the start and the end of each element,
//! the pieces of decoded character data between them, and whatever else the
//! markup holds. The codecs never see bytes: they pull events from an
//! [`XmlReader`] and push events to an [`XmlWriter`].

use std::collections::VecDeque;
use vstd::prelude::*;

verus! {

/// One attribute of a start tag.
#[derive(Debug, Clone, PartialEq, Eq)]
pub struct Attribute {
    /// The attribute's name as written, prefix included.
    pub name: String,
    /// The decoded value; `None` where the value as written cannot be decoded.
    pub value: Option<String>,
}

/// One event of the stream.
#[derive(Debug, Clone, PartialEq, Eq)]
pub enum XmlEvent {
    /// A start tag, with its attributes in the order written.
    Start { name: String, attributes: Vec<Attribute> },
    /// An end tag.
    End { name: String },
    /// A piece of decoded character data.
    Text(String),
    /// A piece of character data that cannot be decoded.
    BadText,
    /// A comment, a processing instruction, a declaration or a document type.
    Other,
    /// The point from which the document is not well-formed; the text says why.
    Failure(String),
    /// The end of the input.
    Eof,
}

/// What an [`Attribute`] holds: its name, and its value where that is known.
pub struct AttributeModel {
    pub name: Seq<char>,
    pub value: Option<Seq<char>>,
}

/// What an [`XmlEvent`] holds. The text of a failure is no part of it.
pub enum EventModel {
    Start { name: Seq<char>, attributes: Seq<AttributeModel> },
    End { name: Seq<char> },
    Text { text: Seq<char> },
    BadText,
    Other,
    Failure,
    Eof,
}

impl View for Attribute {
    type V = AttributeModel;

    open spec fn view(&self) -> AttributeModel {
        AttributeModel { name: self.name@, value: self.value.deep_view() }
    }
}

impl DeepView for Attribute {
    type V = AttributeModel;

    open spec fn deep_view(&self) -> AttributeModel {
        self@
    }
}

impl View for XmlEvent {
    type V = EventModel;

    open spec fn view(&self) -> EventModel {
        match self {
            XmlEvent::Start { name, attributes } => EventModel::Start {
                name: name@,
                attributes: attributes.deep_view(),
            },
            XmlEvent::End { name } => EventModel::End { name: name@ },
            XmlEvent::Text(text) => EventModel::Text { text: text@ },
            XmlEvent::BadText => EventModel::BadText,
            XmlEvent::Other => EventModel::Other,
            XmlEvent::Failure(_) => EventModel::Failure,
            XmlEvent::Eof => EventModel::Eof,
        }
    }
}

impl DeepView for XmlEvent {
    type V = EventModel;

    open spec fn deep_view(&self) -> EventModel {
        self@
    }
}

/// The event that a reader over `events` hands out next: the first one, or
/// `Eof` once none is left.
pub open spec fn next_event(events: Seq<EventModel>) -> EventModel {
    if events.len() == 0 {
        EventModel::Eof
    } else {
        events[0]
    }
}

/// The events that are left once the next one has been handed out.
pub open spec fn after_event(events: Seq<EventModel>) -> Seq<EventModel> {
    if events.len() == 0 {
        events
    } else {
        events.skip(1)
    }
}

/// A source of events.
pub struct XmlReader {
    events: VecDeque<XmlEvent>,
}

impl View for XmlReader {
    type V = Seq<EventModel>;

    /// The events that have not been read yet, in order.
    closed spec fn view(&self) -> Seq<EventModel> {
        self.events.deep_view()
    }
}

impl XmlReader {
    /// A reader that hands out `events` in order, and `Eof` after the last.
    pub fn from_events(events: Vec<XmlEvent>) -> (reader: XmlReader)
        ensures
            reader@ == events.deep_view(),
    {
        let mut stack = events;
        let mut queue: VecDeque<XmlEvent> = VecDeque::new();
        while stack.len() > 0
            invariant
                stack@ + queue@ == events@,
            decreases stack.len(),
        {
            let ghost before = stack@;
            let ghost behind = queue@;
            let event = stack.pop().unwrap();
            queue.push_front(event);
            assert(stack@ + queue@ =~= before + behind);
        }
        assert(queue@ =~= events@);
        assert(queue.deep_view() =~= events.deep_view());
        XmlReader { events: queue }
    }

    /// The number of events that have not been read yet.
    pub fn remaining(&self) -> (n: usize)
        ensures
            n == self@.len(),
    {
        self.events.len()
    }

    /// Hands out the next event and moves past it.
    pub fn read_event(&mut self) -> (event: XmlEvent)
        ensures
            event@ == next_event(old(self)@),
            final(self)@ == after_event(old(self)@),
    {
        match self.events.pop_front() {
            Some(event) => {
                assert(self.events.deep_view() =~= old(self).events.deep_view().skip(1));
                event
            },
            None => XmlEvent::Eof,
        }
    }
}

/// A sink of events.
pub struct XmlWriter {
    events: Vec<XmlEvent>,
}

impl View for XmlWriter {
    type V = Seq<EventModel>;

    /// The events written so far, in order.
    closed spec fn view(&self) -> Seq<EventModel> {
        self.events.deep_view()
    }
}

impl XmlWriter {
    /// A writer to which nothing has been written.
    pub fn new() -> (writer: XmlWriter)
        ensures
            writer@ == Seq::<EventModel>::empty(),
    {
        let writer = XmlWriter { events: Vec::new() };
        assert(writer@ =~= Seq::<EventModel>::empty());
        writer
    }

    /// Appends one event.
    pub fn write_event(&mut self, event: XmlEvent)
        ensures
            final(self)@ == old(self)@.push(event@),
    {
        self.events.push(event);
        assert(self.events.deep_view() =~= old(self).events.deep_view().push(event@));
    }

    /// The events written so far, in order.
    pub fn events(&self) -> (events: &Vec<XmlEvent>)
        ensures
            events.deep_view() == self@,
    {
        &self.events
    }

    /// The events written, in order.
    pub fn into_events(self) -> (events: Vec<XmlEvent>)
        ensures
            events.deep_view() == self@,
    {
        self.events
    }
}

} // verus!
