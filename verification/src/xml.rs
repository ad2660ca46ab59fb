//! The bridge between XML text and the event stream, by way of quick_xml.
//!
//! Reading, quick_xml cuts the text into tokens, finds the attributes of a
//! start tag and resolves references; what is made of them is decided here.
//! Writing, quick_xml frames and escapes each event; the order is decided
//! here. Nothing is proved of quick_xml itself: each call into it is a small
//! function whose contract is believed.

use crate::error::{Error, ErrorModel};
use crate::event::{Attribute, AttributeModel, EventModel, XmlEvent, XmlReader, XmlWriter};
use crate::toxml::{optional_text_element, text_element};
use quick_xml::escape::unescape;
use quick_xml::events::attributes::Attributes;
use quick_xml::events::{BytesEnd, BytesStart, BytesText, Event};
use quick_xml::reader::Reader;
use quick_xml::writer::Writer;
use quick_xml::Error as XmlError;
use vstd::prelude::*;
use vstd::string::StringExecFns;
use vstd::utf8::encode_utf8;

verus! {

/// The pull parser of quick_xml.
#[verifier::external_type_specification]
#[verifier::external_body]
#[verifier::reject_recursive_types(R)]
pub struct ExReader<R>(Reader<R>);

/// The error of quick_xml.
#[verifier::external_type_specification]
#[verifier::external_body]
pub struct ExXmlError(XmlError);

/// One token as quick_xml hands it out, its text still as written.
pub enum RawToken {
    /// A start tag: its name, and the text of its attributes.
    Start { name: String, attributes: String },
    /// The tag of an element without content.
    Empty { name: String, attributes: String },
    /// An end tag.
    End { name: String },
    /// Character data that holds no reference.
    Text(String),
    /// The content of a CDATA section.
    CData(String),
    /// What stands between the `&` and the `;` of a reference.
    Reference(String),
    /// A comment, a processing instruction, a declaration or a document type.
    Other,
    /// The end of the input.
    Eof,
}

/// What a [`RawToken`] holds, and the failure, which no token holds.
pub enum TokenModel {
    Start { name: Seq<char>, attributes: Seq<char> },
    Empty { name: Seq<char>, attributes: Seq<char> },
    End { name: Seq<char> },
    Text { text: Seq<char> },
    CData { text: Seq<char> },
    Reference { name: Seq<char> },
    Other,
    Eof,
    /// The point at which the parser reports an error.
    Failure,
}

impl View for RawToken {
    type V = TokenModel;

    open spec fn view(&self) -> TokenModel {
        match self {
            RawToken::Start { name, attributes } => TokenModel::Start {
                name: name@,
                attributes: attributes@,
            },
            RawToken::Empty { name, attributes } => TokenModel::Empty {
                name: name@,
                attributes: attributes@,
            },
            RawToken::End { name } => TokenModel::End { name: name@ },
            RawToken::Text(text) => TokenModel::Text { text: text@ },
            RawToken::CData(text) => TokenModel::CData { text: text@ },
            RawToken::Reference(name) => TokenModel::Reference { name: name@ },
            RawToken::Other => TokenModel::Other,
            RawToken::Eof => TokenModel::Eof,
        }
    }
}

/// The tokens that a parser hands out from the state it is in, up to the end
/// of its input or to the first error, which then stands as `Failure`.
pub uninterp spec fn reader_tokens(reader: Reader<&[u8]>) -> Seq<TokenModel>;

/// The tokens of a document, as a parser that is opened on it holds them.
pub uninterp spec fn xml_tokens(input: Seq<u8>) -> Seq<TokenModel>;

/// The attributes that quick_xml finds in the attribute text of a start tag,
/// each with its name and its value as written; `None` stands where an
/// attribute is malformed.
pub uninterp spec fn xml_attributes(raw: Seq<char>) -> Seq<Option<(Seq<char>, Seq<char>)>>;

/// The text that `raw` stands for once its references are resolved, or
/// `None` where one of them cannot be.
pub uninterp spec fn xml_unescaped(raw: Seq<char>) -> Option<Seq<char>>;

/// The token that is handed out next.
pub open spec fn next_token(tokens: Seq<TokenModel>) -> TokenModel {
    if tokens.len() == 0 {
        TokenModel::Eof
    } else {
        tokens[0]
    }
}

/// The tokens that are left once the next one has been handed out.
pub open spec fn after_token(tokens: Seq<TokenModel>) -> Seq<TokenModel> {
    if tokens.len() == 0 {
        tokens
    } else {
        tokens.skip(1)
    }
}

/// What a character of character data is written as: `<`, `>`, `&`, `'`, `"`
/// and the carriage return as references, every other character as itself.
pub open spec fn escaped_char(c: char) -> Seq<char> {
    if c == '<' {
        "&lt;"@
    } else if c == '>' {
        "&gt;"@
    } else if c == '&' {
        "&amp;"@
    } else if c == '\'' {
        "&apos;"@
    } else if c == '"' {
        "&quot;"@
    } else if c == '\r' {
        "&#13;"@
    } else {
        seq![c]
    }
}

/// What character data is written as, character by character.
pub open spec fn escaped(text: Seq<char>) -> Seq<char>
    decreases text.len(),
{
    if text.len() == 0 {
        Seq::empty()
    } else {
        escaped(text.drop_last()) + escaped_char(text.last())
    }
}

/// What a character of an attribute value is written as: as in character
/// data, and the line feed and the tabulator as references too.
pub open spec fn escaped_value_char(c: char) -> Seq<char> {
    if c == '\n' {
        "&#10;"@
    } else if c == '\t' {
        "&#9;"@
    } else {
        escaped_char(c)
    }
}

/// What an attribute value is written as, character by character.
pub open spec fn escaped_value(value: Seq<char>) -> Seq<char>
    decreases value.len(),
{
    if value.len() == 0 {
        Seq::empty()
    } else {
        escaped_value(value.drop_last()) + escaped_value_char(value.last())
    }
}

/// What the attributes of a start tag are written as: for each, a blank,
/// the name, `="`, the escaped value, and `"`.
pub open spec fn attributes_text(attributes: Seq<(Seq<char>, Seq<char>)>) -> Seq<char>
    decreases attributes.len(),
{
    if attributes.len() == 0 {
        Seq::empty()
    } else {
        attributes_text(attributes.drop_last()) + " "@ + attributes.last().0 + "=\""@
            + escaped_value(attributes.last().1) + "\""@
    }
}

/// The bytes of a start tag: `<`, the name, the attributes, `>`.
pub open spec fn start_tag_bytes(
    name: Seq<char>,
    attributes: Seq<(Seq<char>, Seq<char>)>,
) -> Seq<u8> {
    seq![0x3cu8] + encode_utf8(name + attributes_text(attributes)) + seq![0x3eu8]
}

/// The bytes of a piece of character data: the escaped text in UTF-8.
pub open spec fn text_bytes(text: Seq<char>) -> Seq<u8> {
    encode_utf8(escaped(text))
}

/// The bytes of an end tag: `</`, the name, `>`.
pub open spec fn end_tag_bytes(name: Seq<char>) -> Seq<u8> {
    seq![0x3cu8, 0x2fu8] + encode_utf8(name) + seq![0x3eu8]
}

/// Opens a parser on `input` with `Reader::from_reader` of quick_xml, in the
/// configuration that quick_xml starts with. What it holds is a function of
/// the input alone.
#[verifier::external_body]
fn open_reader<'a>(input: &'a [u8]) -> (reader: Reader<&'a [u8]>)
    ensures
        reader_tokens(reader) == xml_tokens(input@),
{
    Reader::from_reader(input)
}

/// Takes the next token with `Reader::read_event` of quick_xml and copies
/// out its name and text as written. A token that is handed out is the first
/// of those the parser held, and the parser holds the others afterwards; the
/// end of the input is reported when, and only when, it held none; an error
/// is reported where the first is the failure. Nothing is claimed of the
/// parser after an error.
#[verifier::external_body]
fn read_token<'a>(reader: &mut Reader<&'a [u8]>) -> (token: Result<RawToken, XmlError>)
    ensures
        match token {
            Ok(found) => found@ == next_token(reader_tokens(*old(reader))) && (found@ is Eof
                ==> reader_tokens(*old(reader)).len() == 0) && reader_tokens(*final(reader))
                == after_token(reader_tokens(*old(reader))),
            Err(_) => next_token(reader_tokens(*old(reader))) is Failure,
        },
{
    Ok(match reader.read_event()? {
        Event::Start(e) => RawToken::Start { name: e.name().0.to_owned(), attributes: e.attributes_raw().to_owned() },
        Event::Empty(e) => RawToken::Empty { name: e.name().0.to_owned(), attributes: e.attributes_raw().to_owned() },
        Event::End(e) => RawToken::End { name: e.name().0.to_owned() },
        Event::Text(e) => RawToken::Text(e.into_inner().into_owned()),
        Event::CData(e) => RawToken::CData(e.into_inner().into_owned()),
        Event::GeneralRef(e) => RawToken::Reference(e.into_inner().into_owned()),
        Event::Eof => RawToken::Eof,
        _ => RawToken::Other,
    })
}

/// The words of an error of quick_xml, by its `Display`.
#[verifier::external_body]
fn xml_error_text(error: &XmlError) -> String {
    error.to_string()
}

/// Finds the attributes in the attribute text of a start tag with the
/// `Attributes` iterator of quick_xml, without the check for names that
/// stand twice, and copies out each name and value as written.
#[verifier::external_body]
fn raw_attributes(raw: &str) -> (found: Vec<Option<(String, String)>>)
    ensures
        found.deep_view() == xml_attributes(raw@),
{
    Attributes::new(raw, 0)
        .with_checks(false)
        .map(|found| found.ok().map(|a| (a.key.0.to_owned(), a.value.into_owned())))
        .collect()
}

/// Resolves the references in `raw` with `escape::unescape` of quick_xml.
#[verifier::external_body]
fn unescaped(raw: &str) -> (text: Option<String>)
    ensures
        text.deep_view() == xml_unescaped(raw@),
{
    unescape(raw).ok().map(|text| text.into_owned())
}

/// Writes a start tag behind `out` with `Writer::write_event` of quick_xml,
/// which puts the name and the attributes between `<` and `>`. Each attribute
/// is put behind the name by `BytesStart::extend_attributes` as a blank, the
/// name, `="`, the value and `"`, the value escaped as character data is, and
/// the line feed and the tabulator as well. The writer fails only where what
/// it writes to does, and a vector takes whatever is put behind it.
#[verifier::external_body]
fn write_start(out: &mut Vec<u8>, name: &str, attributes: &Vec<(String, String)>) -> (done:
    Result<(), XmlError>)
    ensures
        done is Ok,
        final(out)@ == old(out)@ + start_tag_bytes(name@, attributes.deep_view()),
{
    let mut element = BytesStart::new(name);
    element.extend_attributes(attributes.iter().map(|a| (a.0.as_str(), a.1.as_str())));
    Writer::new(out).write_event(Event::Start(element)).map_err(XmlError::from)
}

/// Writes a piece of character data behind `out` with `Writer::write_event`
/// of quick_xml. The text is escaped by `BytesText::new`, which replaces
/// `<`, `>`, `&`, `'`, `"` and the carriage return by references. The writer
/// fails only where what it writes to does, and a vector takes whatever is
/// put behind it.
#[verifier::external_body]
fn write_text(out: &mut Vec<u8>, text: &str) -> (done: Result<(), XmlError>)
    ensures
        done is Ok,
        final(out)@ == old(out)@ + text_bytes(text@),
{
    Writer::new(out).write_event(Event::Text(BytesText::new(text))).map_err(XmlError::from)
}

/// Writes an end tag behind `out` with `Writer::write_event` of quick_xml,
/// which puts the name between `</` and `>`. The writer fails only where
/// what it writes to does, and a vector takes whatever is put behind it.
#[verifier::external_body]
fn write_end(out: &mut Vec<u8>, name: &str) -> (done: Result<(), XmlError>)
    ensures
        done is Ok,
        final(out)@ == old(out)@ + end_tag_bytes(name@),
{
    Writer::new(out).write_event(Event::End(BytesEnd::new(name))).map_err(XmlError::from)
}

/// The attributes of a start tag, given what quick_xml found in its
/// attribute text: a malformed attribute is left out, and the value of every
/// other is what its text stands for, or nothing where that cannot be told.
pub open spec fn attributes_of(found: Seq<Option<(Seq<char>, Seq<char>)>>) -> Seq<AttributeModel>
    decreases found.len(),
{
    if found.len() == 0 {
        Seq::empty()
    } else {
        let before = attributes_of(found.drop_last());
        match found.last() {
            Some((name, value)) => before.push(
                AttributeModel { name: name, value: xml_unescaped(value) },
            ),
            None => before,
        }
    }
}

/// A reference as it is written: the name between `&` and `;`.
pub open spec fn reference_text(name: Seq<char>) -> Seq<char> {
    "&"@ + name + ";"@
}

/// The events that one token stands for.
///
/// The tag of an element without content stands for a start tag and an end
/// tag. Character data and the content of a CDATA section are taken as they
/// are. A reference stands for the text it resolves to, and for a piece that
/// cannot be decoded where it does not resolve.
pub open spec fn token_events(token: TokenModel) -> Seq<EventModel> {
    match token {
        TokenModel::Start { name, attributes } => seq![
            EventModel::Start {
                name: name,
                attributes: attributes_of(xml_attributes(attributes)),
            },
        ],
        TokenModel::Empty { name, attributes } => seq![
            EventModel::Start {
                name: name,
                attributes: attributes_of(xml_attributes(attributes)),
            },
            EventModel::End { name: name },
        ],
        TokenModel::End { name } => seq![EventModel::End { name: name }],
        TokenModel::Text { text } => seq![EventModel::Text { text: text }],
        TokenModel::CData { text } => seq![EventModel::Text { text: text }],
        TokenModel::Reference { name } => match xml_unescaped(reference_text(name)) {
            Some(text) => seq![EventModel::Text { text: text }],
            None => seq![EventModel::BadText],
        },
        TokenModel::Other => seq![EventModel::Other],
        TokenModel::Eof => Seq::empty(),
        TokenModel::Failure => seq![EventModel::Failure],
    }
}

/// The events that a run of tokens stands for. The run ends with its last
/// token, or at the end of the input, or with the first failure.
pub open spec fn events_of(tokens: Seq<TokenModel>) -> Seq<EventModel>
    decreases tokens.len(),
{
    if tokens.len() == 0 {
        Seq::empty()
    } else {
        match tokens[0] {
            TokenModel::Eof => Seq::empty(),
            TokenModel::Failure => seq![EventModel::Failure],
            token => token_events(token) + events_of(tokens.skip(1)),
        }
    }
}

/// The events of a document.
pub open spec fn document_events(input: Seq<u8>) -> Seq<EventModel> {
    events_of(xml_tokens(input))
}

/// Makes the attributes of a start tag out of what quick_xml found in its
/// attribute text and of what each value stands for.
fn decode_attributes(raw: &str) -> (attributes: Vec<Attribute>)
    ensures
        attributes.deep_view() == attributes_of(xml_attributes(raw@)),
{
    let found = raw_attributes(raw);
    let ghost all = found.deep_view();
    let mut attributes: Vec<Attribute> = Vec::new();
    let mut i: usize = 0;
    assert(all.take(0) =~= Seq::<Option<(Seq<char>, Seq<char>)>>::empty());
    assert(attributes.deep_view() =~= Seq::<AttributeModel>::empty());
    while i < found.len()
        invariant
            i <= found.len(),
            all == found.deep_view(),
            attributes.deep_view() == attributes_of(all.take(i as int)),
        decreases found.len() - i,
    {
        let ghost before = attributes.deep_view();
        proof {
            let next = all.take(i + 1);
            assert(next.drop_last() =~= all.take(i as int));
            assert(next.last() == found[i as int].deep_view());
        }
        match &found[i] {
            Some(pair) => {
                let value = unescaped(pair.1.as_str());
                let attribute = Attribute { name: pair.0.clone(), value };
                attributes.push(attribute);
                assert(attributes.deep_view() =~= before.push(attribute@));
            },
            None => {},
        }
        i += 1;
    }
    assert(all.take(i as int) =~= all);
    attributes
}

/// Puts the events that `token` stands for behind `events`.
fn push_token_events(events: &mut Vec<XmlEvent>, token: RawToken)
    ensures
        final(events).deep_view() == old(events).deep_view() + token_events(token@),
{
    let ghost before = events.deep_view();
    match token {
        RawToken::Start { name, attributes } => {
            let attributes = decode_attributes(attributes.as_str());
            let event = XmlEvent::Start { name, attributes };
            events.push(event);
            assert(events.deep_view() =~= before + seq![event@]);
        },
        RawToken::Empty { name, attributes } => {
            let attributes = decode_attributes(attributes.as_str());
            let end = XmlEvent::End { name: name.clone() };
            let start = XmlEvent::Start { name, attributes };
            events.push(start);
            events.push(end);
            assert(events.deep_view() =~= before + seq![start@, end@]);
        },
        RawToken::End { name } => {
            let event = XmlEvent::End { name };
            events.push(event);
            assert(events.deep_view() =~= before + seq![event@]);
        },
        RawToken::Text(text) => {
            let event = XmlEvent::Text(text);
            events.push(event);
            assert(events.deep_view() =~= before + seq![event@]);
        },
        RawToken::CData(text) => {
            let event = XmlEvent::Text(text);
            events.push(event);
            assert(events.deep_view() =~= before + seq![event@]);
        },
        RawToken::Reference(name) => {
            let written = "&".to_owned().concat(name.as_str()).concat(";");
            let event = match unescaped(written.as_str()) {
                Some(text) => XmlEvent::Text(text),
                None => XmlEvent::BadText,
            };
            events.push(event);
            assert(events.deep_view() =~= before + seq![event@]);
        },
        RawToken::Other => {
            events.push(XmlEvent::Other);
            assert(events.deep_view() =~= before + seq![EventModel::Other]);
        },
        RawToken::Eof => {
            assert(events.deep_view() =~= before + Seq::<EventModel>::empty());
        },
    }
}

/// Reads a document into its events. Where the document is not well-formed,
/// the events up to that point are followed by a `Failure`.
pub fn read_events(input: &[u8]) -> (events: Vec<XmlEvent>)
    ensures
        events.deep_view() == document_events(input@),
{
    let mut reader = open_reader(input);
    let mut events: Vec<XmlEvent> = Vec::new();
    assert(events.deep_view() =~= Seq::<EventModel>::empty());
    loop
        invariant
            events.deep_view() + events_of(reader_tokens(reader)) == document_events(input@),
        decreases reader_tokens(reader).len(),
    {
        let ghost before = events.deep_view();
        let ghost held = reader_tokens(reader);
        match read_token(&mut reader) {
            Err(error) => {
                let event = XmlEvent::Failure(xml_error_text(&error));
                events.push(event);
                assert(events.deep_view() =~= before + seq![EventModel::Failure]);
                return events;
            },
            Ok(RawToken::Eof) => {
                assert(before + events_of(held) =~= before);
                return events;
            },
            Ok(token) => {
                push_token_events(&mut events, token);
                assert(events.deep_view() + events_of(held.skip(1)) =~= before + events_of(held));
            },
        }
    }
}

impl XmlReader {
    /// A reader over the events of the document `input`.
    pub fn from_bytes(input: &[u8]) -> (reader: XmlReader)
        ensures
            reader@ == document_events(input@),
    {
        XmlReader::from_events(read_events(input))
    }

    /// A reader over the events of the document `input`.
    pub fn from_str(input: &str) -> (reader: XmlReader)
        ensures
            reader@ == document_events(encode_utf8(input@)),
    {
        XmlReader::from_events(read_events(input.as_bytes()))
    }
}

/// The attributes as a start tag is written with them: each name with its
/// value, or nothing at all where the value of one of them is not known.
pub open spec fn written_attributes(attributes: Seq<AttributeModel>) -> Option<
    Seq<(Seq<char>, Seq<char>)>,
>
    decreases attributes.len(),
{
    if attributes.len() == 0 {
        Some(Seq::empty())
    } else {
        match (written_attributes(attributes.drop_last()), attributes.last().value) {
            (Some(before), Some(value)) => Some(before.push((attributes.last().name, value))),
            _ => None,
        }
    }
}

/// The bytes that one event is written as. A piece that cannot be decoded
/// and an attribute without a known value cannot be written, nor can a
/// failure; what is neither tag nor text is not written at all.
pub open spec fn event_bytes(event: EventModel) -> Result<Seq<u8>, ErrorModel> {
    match event {
        EventModel::Start { name, attributes } => match written_attributes(attributes) {
            Some(pairs) => Ok(start_tag_bytes(name, pairs)),
            None => Err(ErrorModel::MalformedText),
        },
        EventModel::End { name } => Ok(end_tag_bytes(name)),
        EventModel::Text { text } => Ok(text_bytes(text)),
        EventModel::BadText => Err(ErrorModel::MalformedText),
        EventModel::Failure => Err(ErrorModel::Xml),
        EventModel::Other => Ok(Seq::empty()),
        EventModel::Eof => Ok(Seq::empty()),
    }
}

/// The bytes that the events are written as, one after the other, or the
/// error of the first that cannot be written.
pub open spec fn document_bytes(events: Seq<EventModel>) -> Result<Seq<u8>, ErrorModel>
    decreases events.len(),
{
    if events.len() == 0 {
        Ok(Seq::empty())
    } else {
        match document_bytes(events.drop_last()) {
            Err(e) => Err(e),
            Ok(before) => match event_bytes(events.last()) {
                Ok(bytes) => Ok(before + bytes),
                Err(e) => Err(e),
            },
        }
    }
}

fn attribute_pairs(attributes: &Vec<Attribute>) -> (pairs: Option<Vec<(String, String)>>)
    ensures
        pairs.deep_view() == written_attributes(attributes.deep_view()),
{
    let ghost all = attributes.deep_view();
    let mut pairs: Vec<(String, String)> = Vec::new();
    let mut i: usize = 0;
    assert(all.take(0) =~= Seq::<AttributeModel>::empty());
    assert(pairs.deep_view() =~= Seq::<(Seq<char>, Seq<char>)>::empty());
    while i < attributes.len()
        invariant
            i <= attributes.len(),
            all == attributes.deep_view(),
            written_attributes(all.take(i as int)) == Some(pairs.deep_view()),
        decreases attributes.len() - i,
    {
        let ghost before = pairs.deep_view();
        proof {
            let next = all.take(i + 1);
            assert(next.drop_last() =~= all.take(i as int));
            assert(next.last() == attributes[i as int]@);
        }
        match &attributes[i].value {
            Some(value) => {
                pairs.push((attributes[i].name.clone(), value.clone()));
                assert(pairs.deep_view() =~= before.push((attributes[i as int].name@, value@)));
            },
            None => {
                proof {
                    lemma_written_attributes_fail(all, i + 1);
                }
                return None;
            },
        }
        i += 1;
    }
    assert(all.take(i as int) =~= all);
    Some(pairs)
}

/// Once the first attributes cannot be written, none of the rest can be.
proof fn lemma_written_attributes_fail(attributes: Seq<AttributeModel>, n: int)
    requires
        0 <= n <= attributes.len(),
        written_attributes(attributes.take(n)) is None,
    ensures
        written_attributes(attributes) is None,
    decreases attributes.len() - n,
{
    if n == attributes.len() {
        assert(attributes.take(n) =~= attributes);
    } else {
        assert(attributes.take(n + 1).drop_last() =~= attributes.take(n));
        lemma_written_attributes_fail(attributes, n + 1);
    }
}

/// Writes one event behind `out`; one that cannot be written is refused and leaves `out` as it is.
fn write_event_bytes(out: &mut Vec<u8>, event: &XmlEvent) -> (done: Result<(), Error>)
    ensures
        match event_bytes(event@) {
            Ok(bytes) => done is Ok && final(out)@ == old(out)@ + bytes,
            Err(e) => done matches Err(error) && error@ == e && final(out)@ == old(out)@,
        },
{
    let ghost before = out@;
    let written = match event {
        XmlEvent::Start { name, attributes } => match attribute_pairs(attributes) {
            Some(pairs) => write_start(out, name.as_str(), &pairs),
            None => {
                return Err(Error::MalformedText);
            },
        },
        XmlEvent::End { name } => write_end(out, name.as_str()),
        XmlEvent::Text(text) => write_text(out, text.as_str()),
        XmlEvent::BadText => {
            return Err(Error::MalformedText);
        },
        XmlEvent::Failure(message) => {
            return Err(Error::Xml(message.clone()));
        },
        XmlEvent::Other => Ok(()),
        XmlEvent::Eof => Ok(()),
    };
    match written {
        Ok(()) => {
            assert(before + Seq::<u8>::empty() =~= before);
            Ok(())
        },
        Err(error) => Err(Error::Xml(xml_error_text(&error))),
    }
}

impl XmlWriter {
    /// The document that the events written so far make: the bytes of each
    /// event, one after the other. Where an event cannot be written, the
    /// error of the first such event comes back instead.
    pub fn to_bytes(&self) -> (document: Result<Vec<u8>, Error>)
        ensures
            match document_bytes(self@) {
                Ok(bytes) => document matches Ok(got) && got@ == bytes,
                Err(e) => document matches Err(error) && error@ == e,
            },
    {
        let events = self.events();
        let ghost all = events.deep_view();
        let mut out: Vec<u8> = Vec::new();
        let mut i: usize = 0;
        assert(all.take(0) =~= Seq::<EventModel>::empty());
        while i < events.len()
            invariant
                i <= events.len(),
                all == events.deep_view(),
                all == self@,
                document_bytes(all.take(i as int)) == Ok::<Seq<u8>, ErrorModel>(out@),
            decreases events.len() - i,
        {
            proof {
                let next = all.take(i + 1);
                assert(next.drop_last() =~= all.take(i as int));
                assert(next.last() == events[i as int]@);
            }
            match write_event_bytes(&mut out, &events[i]) {
                Ok(()) => {},
                Err(error) => {
                    proof {
                        lemma_document_bytes_fail(all, i + 1);
                    }
                    return Err(error);
                },
            }
            i += 1;
        }
        assert(all.take(i as int) =~= all);
        Ok(out)
    }
}

/// Once the first events cannot be written, the error of the whole is
/// theirs.
proof fn lemma_document_bytes_fail(events: Seq<EventModel>, n: int)
    requires
        0 <= n <= events.len(),
        document_bytes(events.take(n)) is Err,
    ensures
        document_bytes(events) == document_bytes(events.take(n)),
    decreases events.len() - n,
{
    if n == events.len() {
        assert(events.take(n) =~= events);
    } else {
        assert(events.take(n + 1).drop_last() =~= events.take(n));
        lemma_document_bytes_fail(events, n + 1);
    }
}

/// Events in two runs are written as the first run and then the second: the
/// bytes of the one stand behind the bytes of the other, and the error of
/// the first event that cannot be written is the error of the whole.
pub proof fn lemma_document_bytes_concat(first: Seq<EventModel>, second: Seq<EventModel>)
    ensures
        document_bytes(first + second) == match document_bytes(first) {
            Err(e) => Err::<Seq<u8>, ErrorModel>(e),
            Ok(front) => match document_bytes(second) {
                Ok(back) => Ok(front + back),
                Err(e) => Err(e),
            },
        },
    decreases second.len(),
{
    if second.len() == 0 {
        assert(first + second =~= first);
        if let Ok(front) = document_bytes(first) {
            assert(front + Seq::<u8>::empty() =~= front);
        }
    } else {
        let all = first + second;
        assert(all.drop_last() =~= first + second.drop_last());
        assert(all.last() == second.last());
        lemma_document_bytes_concat(first, second.drop_last());
        if let Ok(front) = document_bytes(first) {
            if let Ok(middle) = document_bytes(second.drop_last()) {
                if let Ok(last) = event_bytes(second.last()) {
                    assert(front + middle + last =~= front + (middle + last));
                }
            }
        }
    }
}

/// The bytes of an element that holds a text and has no attributes: its
/// start tag, the escaped text, and its end tag.
pub open spec fn text_element_bytes(name: Seq<char>, text: Seq<char>) -> Seq<u8> {
    start_tag_bytes(name, Seq::empty()) + text_bytes(text) + end_tag_bytes(name)
}

/// An element that holds a text is always written, as its start tag, the
/// escaped text, and its end tag.
pub proof fn lemma_text_element_bytes(name: Seq<char>, text: Seq<char>)
    ensures
        document_bytes(text_element(name, text)) == Ok::<Seq<u8>, ErrorModel>(
            text_element_bytes(name, text),
        ),
{
    let events = text_element(name, text);
    let two = events.drop_last();
    let one = two.drop_last();
    assert(one.drop_last() =~= Seq::<EventModel>::empty());
    assert(one.last() == events[0]);
    assert(two.last() == events[1]);
    assert(events.last() == events[2]);
    assert(written_attributes(Seq::<AttributeModel>::empty()) == Some(
        Seq::<(Seq<char>, Seq<char>)>::empty(),
    ));
    assert(document_bytes(one.drop_last()) == Ok::<Seq<u8>, ErrorModel>(Seq::empty()));
    assert(document_bytes(one) == Ok::<Seq<u8>, ErrorModel>(
        Seq::<u8>::empty() + start_tag_bytes(name, Seq::empty()),
    ));
    assert(Seq::<u8>::empty() + start_tag_bytes(name, Seq::empty()) =~= start_tag_bytes(
        name,
        Seq::empty(),
    ));
    let start = start_tag_bytes(name, Seq::empty());
    assert(document_bytes(one) == Ok::<Seq<u8>, ErrorModel>(start));
    assert(two.drop_last() == one);
    assert(event_bytes(two.last()) == Ok::<Seq<u8>, ErrorModel>(text_bytes(text)));
    assert(document_bytes(two) == Ok::<Seq<u8>, ErrorModel>(start + text_bytes(text)));
    assert(event_bytes(events.last()) == Ok::<Seq<u8>, ErrorModel>(end_tag_bytes(name)));
    assert(document_bytes(events) == Ok::<Seq<u8>, ErrorModel>(
        start + text_bytes(text) + end_tag_bytes(name),
    ));
}

/// The bytes of an optional element: those of the element where there is a
/// text, none where there is not.
pub open spec fn optional_text_element_bytes(name: Seq<char>, text: Option<Seq<char>>) -> Seq<
    u8,
> {
    match text {
        Some(text) => text_element_bytes(name, text),
        None => Seq::empty(),
    }
}

/// An optional element is always written: as the element where there is a
/// text, and as nothing at all where there is none.
pub proof fn lemma_optional_text_element_bytes(name: Seq<char>, text: Option<Seq<char>>)
    ensures
        document_bytes(optional_text_element(name, text)) == Ok::<Seq<u8>, ErrorModel>(
            optional_text_element_bytes(name, text),
        ),
{
    match text {
        Some(text) => {
            lemma_text_element_bytes(name, text);
        },
        None => {},
    }
}

} // verus!
