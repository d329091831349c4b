use wsman::amt::general::{parse, GeneralSettings, Settings};
use wsman::client::{Client, Credentials};
use wsman::error::WsmanError;
use wsman::transport::{ResponseBuf, ResponseMeta, Transport};

const GS_RESPONSE: &[u8] = br#"<?xml version="1.0" encoding="UTF-8"?>
<a:Envelope xmlns:a="http://www.w3.org/2003/05/soap-envelope"
            xmlns:g="http://intel.com/wbem/wscim/1/amt-schema/1/AMT_GeneralSettings">
  <a:Body>
    <g:AMT_GeneralSettings>
      <g:DigestRealm>Digest:AABBCCDD11223344</g:DigestRealm>
      <g:InstanceID>Intel(r) AMT: General Settings</g:InstanceID>
      <g:HostName>test-host</g:HostName>
      <g:DomainName>example.local</g:DomainName>
      <g:NetworkInterfaceEnabled>true</g:NetworkInterfaceEnabled>
    </g:AMT_GeneralSettings>
  </a:Body>
</a:Envelope>"#;

struct Canned {
    resp: &'static [u8],
    status: u16,
    last_body: Vec<u8>,
}

impl Transport for Canned {
    fn post(
        &mut self,
        _headers: &[(&str, &str)],
        body: &[u8],
        resp: &mut ResponseBuf<'_>,
    ) -> Result<ResponseMeta, WsmanError> {
        self.last_body = body.to_vec();
        resp.body[..self.resp.len()].copy_from_slice(self.resp);
        resp.body_len = self.resp.len();
        Ok(ResponseMeta { status: self.status })
    }
}

#[test]
fn get_returns_parsed_general_settings() {
    let mut client = Client::new(
        Canned { resp: GS_RESPONSE, status: 200, last_body: Vec::new() },
        Credentials::digest("u", "p"),
    );
    let gs: GeneralSettings = Settings::new(&mut client).get().unwrap();

    assert_eq!(gs.digest_realm, "Digest:AABBCCDD11223344");
    assert_eq!(gs.instance_id, "Intel(r) AMT: General Settings");
    assert_eq!(gs.host_name, "test-host");
    assert_eq!(gs.domain_name, "example.local");
    assert!(gs.network_interface_enabled);
}

#[test]
fn get_sends_a_get_of_the_general_settings_class() {
    let mut client = Client::new(
        Canned { resp: GS_RESPONSE, status: 200, last_body: Vec::new() },
        Credentials::digest("u", "p"),
    );
    client.next_message_id();
    Settings::new(&mut client).get().unwrap();
    assert_eq!(client.next_message_id(), 2);
    let sent = String::from_utf8(client.into_transport().last_body).unwrap();
    assert!(sent.contains("<a:Action>http://schemas.xmlsoap.org/ws/2004/09/transfer/Get</a:Action>"));
    assert!(sent.contains("<w:ResourceURI>http://intel.com/wbem/wscim/1/amt-schema/1/AMT_GeneralSettings</w:ResourceURI>"));
    assert!(sent.contains("<a:MessageID>1</a:MessageID>"));
}

#[test]
fn get_reports_http_errors() {
    let mut client = Client::new(
        Canned { resp: b"nope", status: 404, last_body: Vec::new() },
        Credentials::digest("u", "p"),
    );
    match Settings::new(&mut client).get().unwrap_err() {
        WsmanError::Http { status, body } => {
            assert_eq!(status, 404);
            assert_eq!(body, "nope");
        }
        other => panic!("wrong error: {other:?}"),
    }
}

#[test]
fn parse_reads_fault_reason() {
    let xml = b"<a:Envelope><a:Body><a:Fault><a:Reason><a:Text>Access denied</a:Text></a:Reason></a:Fault></a:Body></a:Envelope>";
    match parse(xml).unwrap_err() {
        WsmanError::SoapFault(text) => assert_eq!(text, "Access denied"),
        other => panic!("wrong error: {other:?}"),
    }
}

#[test]
fn parse_defaults_missing_fields() {
    let gs = parse(b"<g:AMT_GeneralSettings><g:HostName>h</g:HostName><g:NetworkInterfaceEnabled>TRUE</g:NetworkInterfaceEnabled></g:AMT_GeneralSettings>").unwrap();
    assert_eq!(
        gs,
        GeneralSettings {
            digest_realm: String::new(),
            instance_id: String::new(),
            host_name: "h".to_string(),
            domain_name: String::new(),
            network_interface_enabled: false,
        }
    );
}
