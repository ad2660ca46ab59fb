use rss::cloud::{Cloud, CloudBuilder, CloudProtocol};
use rss::error::Error;
use rss::event::{XmlEvent, XmlReader, XmlWriter};

fn read_cloud(xml: &str) -> Result<Cloud, Error> {
    let mut reader = XmlReader::from_str(xml);
    match reader.read_event() {
        XmlEvent::Start { name, attributes } => {
            assert_eq!(name, "cloud");
            Cloud::from_xml(&mut reader, &attributes)
        }
        other => panic!("unexpected event {:?}", other),
    }
}

fn write_cloud(cloud: &Cloud) -> String {
    let mut writer = XmlWriter::new();
    cloud.to_xml(&mut writer);
    String::from_utf8(writer.to_bytes().unwrap()).unwrap()
}

fn valid() -> CloudBuilder {
    CloudBuilder::new()
        .domain("http://rpc.sys.com/")
        .port(80)
        .path("/RPC2")
        .register_procedure("pingMe")
        .protocol("soap")
}

#[test]
fn cloud_is_read_from_its_attributes() {
    let cloud = read_cloud(
        "<cloud domain=\"rpc.sys.com\" port=\"80\" path=\"/RPC2\" registerProcedure=\"pingMe\" protocol=\"soap\"/>",
    )
    .unwrap();
    assert_eq!(cloud.domain(), "rpc.sys.com");
    assert_eq!(cloud.port(), "80");
    assert_eq!(cloud.path(), "/RPC2");
    assert_eq!(cloud.register_procedure(), "pingMe");
    assert_eq!(cloud.protocol(), "soap");
}

#[test]
fn cloud_is_written_with_all_five_attributes() {
    let cloud = valid().finalize().unwrap();
    assert_eq!(
        write_cloud(&cloud),
        "<cloud domain=\"http://rpc.sys.com/\" port=\"80\" path=\"/RPC2\" registerProcedure=\"pingMe\" protocol=\"soap\"></cloud>"
    );
    assert_eq!(read_cloud(&write_cloud(&cloud)).unwrap(), cloud);
}

#[test]
fn cloud_without_attributes_is_empty_in_every_field() {
    let cloud = read_cloud("<cloud></cloud>").unwrap();
    assert_eq!(cloud.domain(), "");
    assert_eq!(cloud.port(), "");
    assert_eq!(cloud.path(), "");
    assert_eq!(cloud.register_procedure(), "");
    assert_eq!(cloud.protocol(), "");
    assert_eq!(
        write_cloud(&cloud),
        "<cloud domain=\"\" port=\"\" path=\"\" registerProcedure=\"\" protocol=\"\"></cloud>"
    );
}

#[test]
fn cloud_keeps_the_first_of_two_attributes_and_ignores_the_unknown() {
    let cloud = read_cloud("<cloud port=\"1\" other=\"&bogus;\" port=\"&bogus;\" domain=\"d\">ignored<x>y</x></cloud>").unwrap();
    assert_eq!(cloud.port(), "1");
    assert_eq!(cloud.domain(), "d");
    assert_eq!(cloud.path(), "");
}

#[test]
fn cloud_port_is_kept_as_text() {
    let cloud = read_cloud("<cloud port=\"-1\" protocol=\"carrier pigeon\"/>").unwrap();
    assert_eq!(cloud.port(), "-1");
    assert_eq!(cloud.protocol(), "carrier pigeon");
}

#[test]
fn cloud_with_an_attribute_that_cannot_be_decoded_is_an_error() {
    assert_eq!(read_cloud("<cloud path=\"&bogus;\"/>"), Err(Error::MalformedText));
}

#[test]
fn cloud_that_is_cut_off_is_an_error() {
    assert_eq!(read_cloud("<cloud domain=\"d\">"), Err(Error::Eof));
    assert_eq!(read_cloud("<cloud domain=\"d\"><a></a>"), Err(Error::Eof));
}

#[test]
fn cloud_builder_accepts_valid_values() {
    let cloud = valid().validate().unwrap().finalize().unwrap();
    assert_eq!(cloud.domain(), "http://rpc.sys.com/");
    assert_eq!(cloud.port(), "80");
    assert_eq!(cloud.path(), "/RPC2");
    assert_eq!(cloud.register_procedure(), "pingMe");
    assert_eq!(cloud.protocol(), "soap");
    assert!(valid().protocol("http-post").finalize().is_ok());
    assert!(valid().protocol("xml-rpc").finalize().is_ok());
    assert!(valid().port(0).finalize().is_ok());
}

#[test]
fn cloud_builder_refuses_a_negative_port() {
    let expected = Error::Validation("Cloud Port cannot be a negative value".to_string());
    assert_eq!(valid().port(-1).validate().err(), Some(expected.clone()));
    assert_eq!(valid().port(-1).finalize().err(), Some(expected.clone()));
    assert_eq!(valid().port(i64::MIN).domain("no url").protocol("?").finalize().err(), Some(expected));
}

#[test]
fn cloud_builder_refuses_a_domain_that_is_no_url() {
    match valid().domain("rpc.sys.com").validate() {
        Err(Error::Validation(reason)) => assert_eq!(reason, "relative URL without a base"),
        other => panic!("unexpected result {:?}", other.map(|_| ())),
    }
    assert!(matches!(valid().domain("").finalize(), Err(Error::Validation(_))));
    assert!(matches!(valid().domain("http://").finalize(), Err(Error::Validation(_))));
    assert!(matches!(valid().domain("rpc.sys.com").protocol("?").finalize(), Err(Error::Validation(reason)) if reason == "relative URL without a base"));
}

#[test]
fn cloud_builder_refuses_an_unknown_protocol() {
    let expected = Error::Validation("not a valid value".to_string());
    assert_eq!(valid().protocol("carrier pigeon").validate().err(), Some(expected.clone()));
    assert_eq!(valid().protocol("SOAP").finalize().err(), Some(expected.clone()));
    assert_eq!(CloudBuilder::new().domain("http://rpc.sys.com/").finalize().err(), Some(expected));
}

#[test]
fn cloud_builder_checks_with_a_given_fault_of_the_domain() {
    assert!(valid().validate_with(None).is_ok());
    assert_eq!(
        valid().validate_with(Some("empty host".to_string())).err(),
        Some(Error::Validation("empty host".to_string()))
    );
    assert_eq!(
        valid().port(-5).validate_with(Some("empty host".to_string())).err(),
        Some(Error::Validation("Cloud Port cannot be a negative value".to_string()))
    );
    assert_eq!(
        valid().protocol("x").validate_with(None).err(),
        Some(Error::Validation("not a valid value".to_string()))
    );
}

#[test]
fn cloud_builder_writes_the_port_in_decimal() {
    assert_eq!(valid().port(0).finalize().unwrap().port(), "0");
    assert_eq!(valid().port(7).finalize().unwrap().port(), "7");
    assert_eq!(valid().port(8080).finalize().unwrap().port(), "8080");
    assert_eq!(valid().port(i64::MAX).finalize().unwrap().port(), "9223372036854775807");
}

#[test]
fn cloud_protocol_is_told_from_its_name() {
    assert_eq!(CloudProtocol::from_str("http-post"), Ok(CloudProtocol::HttpPost));
    assert_eq!(CloudProtocol::from_str("xml-rpc"), Ok(CloudProtocol::XmlRpc));
    assert_eq!(CloudProtocol::from_str("soap"), Ok(CloudProtocol::Soap));
    assert_eq!(CloudProtocol::from_str("Soap"), Err("not a valid value"));
    assert_eq!(CloudProtocol::from_str(""), Err("not a valid value"));
}

#[test]
fn cloud_and_its_builder_start_empty() {
    let cloud = Cloud::default();
    assert_eq!(cloud.domain(), "");
    assert_eq!(cloud.port(), "");
    assert_eq!(cloud.path(), "");
    assert_eq!(cloud.register_procedure(), "");
    assert_eq!(cloud.protocol(), "");
    assert_eq!(cloud, read_cloud("<cloud/>").unwrap());
    let built = CloudBuilder::default().domain("http://rpc.sys.com/").protocol("soap").finalize().unwrap();
    let made = CloudBuilder::new().domain("http://rpc.sys.com/").protocol("soap").finalize().unwrap();
    assert_eq!(built, made);
    assert_eq!(built.port(), "0");
}
