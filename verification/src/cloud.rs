//! The `<cloud>` element: where to register for update notifications.

use crate::error::{Error, ErrorModel};
use crate::event::{Attribute, AttributeModel, EventModel, XmlEvent, XmlReader, XmlWriter};
use crate::util::{
    attribute_named, attribute_text, attribute_text_of, is_element, lemma_missing_attribute,
    lemma_skipped_ignores_element, or_empty, skip_element, skipped, text_or_empty,
};
use crate::text::{decimal, i64_to_string, str_eq};
use crate::validation::{url_fault, url_fault_of};
use vstd::prelude::*;

verus! {

/// A representation of the `<cloud>` element.
#[derive(Debug, Clone, PartialEq, Eq)]
pub struct Cloud {
    /// The domain to register with.
    domain: String,
    /// The port to register with.
    port: String,
    /// The path to register with.
    path: String,
    /// The procedure to register with.
    register_procedure: String,
    /// The protocol to register with.
    protocol: String,
}

/// What a [`Cloud`] holds: five texts.
pub struct CloudModel {
    pub domain: Seq<char>,
    pub port: Seq<char>,
    pub path: Seq<char>,
    pub register_procedure: Seq<char>,
    pub protocol: Seq<char>,
}

impl View for Cloud {
    type V = CloudModel;

    closed spec fn view(&self) -> CloudModel {
        CloudModel {
            domain: self.domain@,
            port: self.port@,
            path: self.path@,
            register_procedure: self.register_procedure@,
            protocol: self.protocol@,
        }
    }
}

/// What a field that is read from an attribute holds, given what the look-up
/// of that attribute gave.
pub open spec fn attribute_field(found: Result<Option<Seq<char>>, ErrorModel>) -> Seq<char> {
    match found {
        Ok(text) => text_or_empty(text),
        Err(_) => Seq::empty(),
    }
}

impl CloudModel {
    /// The events that stand for this value: a start tag that carries all
    /// five fields as attributes, and the end tag.
    pub open spec fn events(self) -> Seq<EventModel> {
        seq![
            EventModel::Start { name: "cloud"@, attributes: self.attributes() },
            EventModel::End { name: "cloud"@ },
        ]
    }

    /// The attributes of the start tag, in the order in which they are written.
    pub open spec fn attributes(self) -> Seq<AttributeModel> {
        seq![
            AttributeModel { name: "domain"@, value: Some(self.domain) },
            AttributeModel { name: "port"@, value: Some(self.port) },
            AttributeModel { name: "path"@, value: Some(self.path) },
            AttributeModel { name: "registerProcedure"@, value: Some(self.register_procedure) },
            AttributeModel { name: "protocol"@, value: Some(self.protocol) },
        ]
    }

    /// The value that the attributes of a `<cloud>` start tag and the events
    /// behind that tag stand for, and the events behind the element's end.
    ///
    /// Each field is the first attribute of its name, or empty without one.
    /// Whatever the element holds is skipped. A field whose value cannot be
    /// decoded is an error, and is found before any event is read.
    pub open spec fn decoded(attributes: Seq<AttributeModel>, events: Seq<EventModel>) -> Result<
        (CloudModel, Seq<EventModel>),
        ErrorModel,
    > {
        let domain = attribute_text_of(attributes, "domain"@);
        let port = attribute_text_of(attributes, "port"@);
        let path = attribute_text_of(attributes, "path"@);
        let register_procedure = attribute_text_of(attributes, "registerProcedure"@);
        let protocol = attribute_text_of(attributes, "protocol"@);
        if domain is Err || port is Err || path is Err || register_procedure is Err
            || protocol is Err {
            Err(ErrorModel::MalformedText)
        } else {
            match skipped(events, 0) {
                Ok(rest) => Ok(
                    (
                        CloudModel {
                            domain: attribute_field(domain),
                            port: attribute_field(port),
                            path: attribute_field(path),
                            register_procedure: attribute_field(register_procedure),
                            protocol: attribute_field(protocol),
                        },
                        rest,
                    ),
                ),
                Err(e) => Err(e),
            }
        }
    }
}

/// The five attribute names are five different texts.
proof fn lemma_cloud_names()
    ensures
        "domain"@ != "port"@,
        "domain"@ != "path"@,
        "domain"@ != "registerProcedure"@,
        "domain"@ != "protocol"@,
        "port"@ != "path"@,
        "port"@ != "registerProcedure"@,
        "port"@ != "protocol"@,
        "path"@ != "registerProcedure"@,
        "path"@ != "protocol"@,
        "registerProcedure"@ != "protocol"@,
{
    reveal_strlit("domain");
    reveal_strlit("port");
    reveal_strlit("path");
    reveal_strlit("registerProcedure");
    reveal_strlit("protocol");
    assert("domain"@.len() == 6);
    assert("port"@.len() == 4);
    assert("path"@.len() == 4);
    assert("registerProcedure"@.len() == 17);
    assert("protocol"@.len() == 8);
    assert("port"@[1] != "path"@[1]);
}

/// Reading back what was written gives the value again: for every value, the
/// attributes of the start tag that stands for it, and the events behind that
/// tag, decode to the same value, and the reader is left behind the element.
pub proof fn lemma_cloud_round_trip(value: CloudModel, rest: Seq<EventModel>)
    ensures
        value.events().len() == 2,
        value.events()[0] == (EventModel::Start { name: "cloud"@, attributes: value.attributes() }),
        CloudModel::decoded(value.attributes(), value.events().skip(1) + rest) == Ok::<
            (CloudModel, Seq<EventModel>),
            ErrorModel,
        >((value, rest)),
{
    lemma_cloud_names();
    reveal_with_fuel(attribute_named, 6);
    let attributes = value.attributes();
    assert(attributes.skip(1)[0] == attributes[1]);
    assert(attributes.skip(1).skip(1)[0] == attributes[2]);
    assert(attributes.skip(1).skip(1).skip(1)[0] == attributes[3]);
    assert(attributes.skip(1).skip(1).skip(1).skip(1)[0] == attributes[4]);
    assert(attribute_named(attributes, "domain"@) == Some(attributes[0]));
    assert(attribute_named(attributes, "port"@) == Some(attributes[1]));
    assert(attribute_named(attributes, "path"@) == Some(attributes[2]));
    assert(attribute_named(attributes, "registerProcedure"@) == Some(attributes[3]));
    assert(attribute_named(attributes, "protocol"@) == Some(attributes[4]));
    let events = value.events().skip(1) + rest;
    assert(events[0] is End);
    assert(events.skip(1) =~= rest);
    assert(skipped(events, 0) == Ok::<Seq<EventModel>, ErrorModel>(rest));
}

/// A field whose attribute is missing is empty, and its absence is no
/// error: where no attribute has the name of a field, the value that is read
/// holds the empty text in that field.
pub proof fn lemma_cloud_missing_attribute(
    attributes: Seq<AttributeModel>,
    events: Seq<EventModel>,
    name: Seq<char>,
)
    requires
        forall|i: int| 0 <= i < attributes.len() ==> (#[trigger] attributes[i]).name != name,
        CloudModel::decoded(attributes, events) is Ok,
    ensures
        ({
            let value = CloudModel::decoded(attributes, events)->Ok_0.0;
            &&& name == "domain"@ ==> value.domain == Seq::<char>::empty()
            &&& name == "port"@ ==> value.port == Seq::<char>::empty()
            &&& name == "path"@ ==> value.path == Seq::<char>::empty()
            &&& name == "registerProcedure"@ ==> value.register_procedure == Seq::<char>::empty()
            &&& name == "protocol"@ ==> value.protocol == Seq::<char>::empty()
        }),
{
    lemma_missing_attribute(attributes, name);
}

/// A start tag without attributes is no error: the value that is read is
/// empty in every field, whatever the element holds.
pub proof fn lemma_cloud_without_attributes(events: Seq<EventModel>)
    ensures
        CloudModel::decoded(Seq::empty(), events) == match skipped(events, 0) {
            Ok(rest) => Ok::<(CloudModel, Seq<EventModel>), ErrorModel>(
                (CloudModel::empty(), rest),
            ),
            Err(e) => Err(e),
        },
{
}

/// A child element changes nothing, wherever in the element it stands:
/// whatever a cloud holds is skipped, so with the whole of the child taken
/// out of the events, the same value is read and the same events are left.
/// `before` are the events in front of the child, which leave the element
/// open.
pub proof fn lemma_cloud_ignores_child(
    attributes: Seq<AttributeModel>,
    before: Seq<EventModel>,
    child: Seq<EventModel>,
    after: Seq<EventModel>,
)
    requires
        is_element(child),
        skipped(before, 0) == Err::<Seq<EventModel>, ErrorModel>(ErrorModel::Eof),
    ensures
        CloudModel::decoded(attributes, before + child + after) == CloudModel::decoded(
            attributes,
            before + after,
        ),
{
    lemma_skipped_ignores_element(before, 0, child, after);
}

impl CloudModel {
    /// The cloud whose five texts are empty.
    pub open spec fn empty() -> CloudModel {
        CloudModel {
            domain: Seq::empty(),
            port: Seq::empty(),
            path: Seq::empty(),
            register_procedure: Seq::empty(),
            protocol: Seq::empty(),
        }
    }
}

impl Default for Cloud {
    fn default() -> (cloud: Cloud)
        ensures
            cloud@ == CloudModel::empty(),
    {
        Cloud {
            domain: String::new(),
            port: String::new(),
            path: String::new(),
            register_procedure: String::new(),
            protocol: String::new(),
        }
    }
}

impl Cloud {
    /// Get the domain that exists under `Cloud`.
    pub fn domain(&self) -> (domain: &str)
        ensures
            domain@ == self@.domain,
    {
        self.domain.as_str()
    }

    /// Get the port that exists under `Cloud`.
    pub fn port(&self) -> (port: &str)
        ensures
            port@ == self@.port,
    {
        self.port.as_str()
    }

    /// Get the path that exists under `Cloud`.
    pub fn path(&self) -> (path: &str)
        ensures
            path@ == self@.path,
    {
        self.path.as_str()
    }

    /// Get the register procedure that exists under `Cloud`.
    pub fn register_procedure(&self) -> (register_procedure: &str)
        ensures
            register_procedure@ == self@.register_procedure,
    {
        self.register_procedure.as_str()
    }

    /// Get the protocol that exists under `Cloud`.
    pub fn protocol(&self) -> (protocol: &str)
        ensures
            protocol@ == self@.protocol,
    {
        self.protocol.as_str()
    }

    /// Builds a `Cloud` from the attributes of its start tag, and reads on to
    /// the end of the element.
    pub fn from_xml(reader: &mut XmlReader, attributes: &Vec<Attribute>) -> (cloud: Result<
        Cloud,
        Error,
    >)
        ensures
            match CloudModel::decoded(attributes.deep_view(), old(reader)@) {
                Ok((value, rest)) => cloud matches Ok(got) && got@ == value && final(reader)@
                    == rest,
                Err(e) => cloud matches Err(error) && error@ == e,
            },
    {
        let domain = match attribute_text(attributes, "domain") {
            Ok(found) => found,
            Err(error) => {
                return Err(error);
            },
        };
        let port = match attribute_text(attributes, "port") {
            Ok(found) => found,
            Err(error) => {
                return Err(error);
            },
        };
        let path = match attribute_text(attributes, "path") {
            Ok(found) => found,
            Err(error) => {
                return Err(error);
            },
        };
        let register_procedure = match attribute_text(attributes, "registerProcedure") {
            Ok(found) => found,
            Err(error) => {
                return Err(error);
            },
        };
        let protocol = match attribute_text(attributes, "protocol") {
            Ok(found) => found,
            Err(error) => {
                return Err(error);
            },
        };
        match skip_element(reader) {
            Ok(()) => {},
            Err(error) => {
                return Err(error);
            },
        }
        Ok(
            Cloud {
                domain: or_empty(domain),
                port: or_empty(port),
                path: or_empty(path),
                register_procedure: or_empty(register_procedure),
                protocol: or_empty(protocol),
            },
        )
    }

    /// Writes this value as a `<cloud>` element.
    pub fn to_xml(&self, writer: &mut XmlWriter)
        ensures
            final(writer)@ == old(writer)@ + self@.events(),
    {
        let mut attributes: Vec<Attribute> = Vec::new();
        attributes.push(Attribute { name: "domain".to_owned(), value: Some(self.domain.clone()) });
        attributes.push(Attribute { name: "port".to_owned(), value: Some(self.port.clone()) });
        attributes.push(Attribute { name: "path".to_owned(), value: Some(self.path.clone()) });
        attributes.push(
            Attribute {
                name: "registerProcedure".to_owned(),
                value: Some(self.register_procedure.clone()),
            },
        );
        attributes.push(
            Attribute { name: "protocol".to_owned(), value: Some(self.protocol.clone()) },
        );
        assert(attributes.deep_view() =~= self@.attributes());
        writer.write_event(XmlEvent::Start { name: "cloud".to_owned(), attributes });
        writer.write_event(XmlEvent::End { name: "cloud".to_owned() });
        assert(writer@ =~= old(writer)@ + self@.events());
    }
}

/// Enumerations of protocols for `Cloud`.
#[derive(Debug, Clone, Copy, PartialEq, Eq)]
pub enum CloudProtocol {
    /// http-post
    HttpPost,
    /// xml-rpc
    XmlRpc,
    /// soap
    Soap,
}

/// The protocol that `text` names, if it names one.
pub open spec fn protocol_of(text: Seq<char>) -> Option<CloudProtocol> {
    if text == "http-post"@ {
        Some(CloudProtocol::HttpPost)
    } else if text == "xml-rpc"@ {
        Some(CloudProtocol::XmlRpc)
    } else if text == "soap"@ {
        Some(CloudProtocol::Soap)
    } else {
        None
    }
}

impl CloudProtocol {
    /// Convert `&str` to `CloudProtocol`.
    pub fn from_str(s: &str) -> (protocol: Result<CloudProtocol, &'static str>)
        ensures
            match protocol_of(s@) {
                Some(named) => protocol == Ok::<CloudProtocol, &'static str>(named),
                None => protocol matches Err(reason) && reason@ == "not a valid value"@,
            },
    {
        if str_eq(s, "http-post") {
            Ok(CloudProtocol::HttpPost)
        } else if str_eq(s, "xml-rpc") {
            Ok(CloudProtocol::XmlRpc)
        } else if str_eq(s, "soap") {
            Ok(CloudProtocol::Soap)
        } else {
            Err("not a valid value")
        }
    }
}

/// This `CloudBuilder` struct creates the `Cloud`.
#[derive(Debug, Clone)]
pub struct CloudBuilder {
    domain: String,
    port: i64,
    path: String,
    register_procedure: String,
    protocol: String,
}

/// What a [`CloudBuilder`] holds: four texts, and the port as a number.
pub struct CloudBuilderModel {
    pub domain: Seq<char>,
    pub port: int,
    pub path: Seq<char>,
    pub register_procedure: Seq<char>,
    pub protocol: Seq<char>,
}

impl View for CloudBuilder {
    type V = CloudBuilderModel;

    closed spec fn view(&self) -> CloudBuilderModel {
        CloudBuilderModel {
            domain: self.domain@,
            port: self.port as int,
            path: self.path@,
            register_procedure: self.register_procedure@,
            protocol: self.protocol@,
        }
    }
}

impl CloudBuilderModel {
    /// The builder in which nothing has been set: every text is empty and
    /// the port is zero.
    pub open spec fn empty() -> CloudBuilderModel {
        CloudBuilderModel {
            domain: Seq::empty(),
            port: 0,
            path: Seq::empty(),
            register_procedure: Seq::empty(),
            protocol: Seq::empty(),
        }
    }

    /// Why these values are refused, if they are, where `domain_fault` is
    /// what is wrong with the domain as a URL.
    ///
    /// The port is looked at first and must not be negative. The domain comes
    /// next and must be an absolute URL. The protocol comes last and must be
    /// one of `http-post`, `xml-rpc` and `soap`.
    pub open spec fn fault(self, domain_fault: Option<Seq<char>>) -> Option<Seq<char>> {
        if self.port < 0 {
            Some("Cloud Port cannot be a negative value"@)
        } else if domain_fault is Some {
            domain_fault
        } else if protocol_of(self.protocol) is None {
            Some("not a valid value"@)
        } else {
            None
        }
    }

    /// The `Cloud` that these values make: the port in decimal, and every
    /// text as it is.
    pub open spec fn cloud(self) -> CloudModel {
        CloudModel {
            domain: self.domain,
            port: decimal(self.port),
            path: self.path,
            register_procedure: self.register_procedure,
            protocol: self.protocol,
        }
    }
}

impl Default for CloudBuilder {
    fn default() -> (builder: CloudBuilder)
        ensures
            builder@ == CloudBuilderModel::empty(),
    {
        CloudBuilder::new()
    }
}

impl CloudBuilder {
    /// Construct a new `CloudBuilder` and return default values.
    pub fn new() -> (builder: CloudBuilder)
        ensures
            builder@ == CloudBuilderModel::empty(),
    {
        CloudBuilder {
            domain: String::new(),
            port: 0,
            path: String::new(),
            register_procedure: String::new(),
            protocol: String::new(),
        }
    }

    /// Set the domain that exists under `Cloud`.
    pub fn domain(self, domain: &str) -> (builder: CloudBuilder)
        ensures
            builder@ == (CloudBuilderModel { domain: domain@, ..self@ }),
    {
        let mut builder = self;
        builder.domain = domain.to_owned();
        builder
    }

    /// Set the port that exists under `Cloud`.
    pub fn port(self, port: i64) -> (builder: CloudBuilder)
        ensures
            builder@ == (CloudBuilderModel { port: port as int, ..self@ }),
    {
        let mut builder = self;
        builder.port = port;
        builder
    }

    /// Set the path that exists under `Cloud`.
    pub fn path(self, path: &str) -> (builder: CloudBuilder)
        ensures
            builder@ == (CloudBuilderModel { path: path@, ..self@ }),
    {
        let mut builder = self;
        builder.path = path.to_owned();
        builder
    }

    /// Set the register procedure that exists under `Cloud`.
    pub fn register_procedure(self, register_procedure: &str) -> (builder: CloudBuilder)
        ensures
            builder@ == (CloudBuilderModel { register_procedure: register_procedure@, ..self@ }),
    {
        let mut builder = self;
        builder.register_procedure = register_procedure.to_owned();
        builder
    }

    /// Set the protocol that exists under `Cloud`.
    pub fn protocol(self, protocol: &str) -> (builder: CloudBuilder)
        ensures
            builder@ == (CloudBuilderModel { protocol: protocol@, ..self@ }),
    {
        let mut builder = self;
        builder.protocol = protocol.to_owned();
        builder
    }

    /// Validate the contents of `Cloud`, given what is wrong with the domain
    /// as a URL: the builder comes back where nothing is wrong, and the
    /// reason for the refusal where something is.
    pub fn validate_with(self, domain_fault: Option<String>) -> (checked: Result<
        CloudBuilder,
        Error,
    >)
        ensures
            match self@.fault(domain_fault.deep_view()) {
                Some(reason) => checked matches Err(error) && error@ == (ErrorModel::Validation {
                    reason: reason,
                }),
                None => checked matches Ok(builder) && builder@ == self@,
            },
    {
        if self.port < 0 {
            return Err(Error::Validation("Cloud Port cannot be a negative value".to_owned()));
        }
        match domain_fault {
            Some(reason) => {
                return Err(Error::Validation(reason));
            },
            None => {},
        }
        match CloudProtocol::from_str(self.protocol.as_str()) {
            Ok(_) => Ok(self),
            Err(reason) => Err(Error::Validation(reason.to_owned())),
        }
    }

    /// Validate the contents of `Cloud`.
    pub fn validate(self) -> (checked: Result<CloudBuilder, Error>)
        ensures
            match self@.fault(url_fault_of(self@.domain)) {
                Some(reason) => checked matches Err(error) && error@ == (ErrorModel::Validation {
                    reason: reason,
                }),
                None => checked matches Ok(builder) && builder@ == self@,
            },
    {
        let domain_fault = url_fault(self.domain.as_str());
        self.validate_with(domain_fault)
    }

    /// Construct the `Cloud` from the `CloudBuilder`, once its contents have
    /// passed validation.
    pub fn finalize(self) -> (cloud: Result<Cloud, Error>)
        ensures
            match self@.fault(url_fault_of(self@.domain)) {
                Some(reason) => cloud matches Err(error) && error@ == (ErrorModel::Validation {
                    reason: reason,
                }),
                None => cloud matches Ok(made) && made@ == self@.cloud(),
            },
    {
        match self.validate() {
            Ok(builder) => {
                let port = i64_to_string(builder.port);
                Ok(
                    Cloud {
                        domain: builder.domain,
                        port,
                        path: builder.path,
                        register_procedure: builder.register_procedure,
                        protocol: builder.protocol,
                    },
                )
            },
            Err(error) => Err(error),
        }
    }
}

} // verus!
