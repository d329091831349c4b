use std::cell::RefCell;

use wsman::amt::hostbasedsetup::{parse_setup, HostBasedSetupService, SetupInput, SetupOutput};
use wsman::client::{Client, Credentials};
use wsman::error::WsmanError;
use wsman::transport::{ResponseBuf, ResponseMeta, Transport};

const SETUP_OK: &[u8] = br#"<?xml version="1.0" encoding="UTF-8"?>
<a:Envelope xmlns:a="http://www.w3.org/2003/05/soap-envelope"
            xmlns:h="http://intel.com/wbem/wscim/1/ips-schema/1/IPS_HostBasedSetupService">
  <a:Body>
    <h:Setup_OUTPUT><h:ReturnValue>0</h:ReturnValue></h:Setup_OUTPUT>
  </a:Body>
</a:Envelope>"#;

const SETUP_FAIL: &[u8] = br#"<?xml version="1.0" encoding="UTF-8"?>
<a:Envelope xmlns:a="http://www.w3.org/2003/05/soap-envelope"
            xmlns:h="http://intel.com/wbem/wscim/1/ips-schema/1/IPS_HostBasedSetupService">
  <a:Body>
    <h:Setup_OUTPUT><h:ReturnValue>9</h:ReturnValue></h:Setup_OUTPUT>
  </a:Body>
</a:Envelope>"#;

struct Spy {
    resp: &'static [u8],
    last_body: RefCell<Vec<u8>>,
    last_action: RefCell<String>,
}

impl Transport for Spy {
    fn post(
        &mut self,
        _headers: &[(&str, &str)],
        body: &[u8],
        resp: &mut ResponseBuf<'_>,
    ) -> Result<ResponseMeta, WsmanError> {
        *self.last_body.borrow_mut() = body.to_vec();
        let as_str = std::str::from_utf8(body).unwrap();
        let start = as_str.find("<a:Action>").unwrap() + "<a:Action>".len();
        let end = as_str[start..].find("</a:Action>").unwrap();
        *self.last_action.borrow_mut() = as_str[start..start + end].to_string();
        resp.body[..self.resp.len()].copy_from_slice(self.resp);
        resp.body_len = self.resp.len();
        Ok(ResponseMeta { status: 200 })
    }
}

fn spy(resp: &'static [u8]) -> Spy {
    Spy { resp, last_body: Default::default(), last_action: Default::default() }
}

#[test]
fn setup_returns_zero_on_success() {
    let mut client = Client::new(spy(SETUP_OK), Credentials::digest("u", "p"));
    let out: SetupOutput = HostBasedSetupService::new(&mut client)
        .setup(SetupInput { admin_password_hash: "deadbeef".into(), encryption_type: 2 })
        .unwrap();
    assert_eq!(out.return_value, 0);
}

#[test]
fn setup_body_contains_password_hash_and_encryption_type() {
    let mut client = Client::new(spy(SETUP_OK), Credentials::digest("u", "p"));
    let _ = HostBasedSetupService::new(&mut client)
        .setup(SetupInput { admin_password_hash: "abc123".into(), encryption_type: 2 })
        .unwrap();
    let body_any = client.into_transport();
    let body_s = String::from_utf8(body_any.last_body.borrow().clone()).unwrap();
    assert!(body_s.contains("<h:NetAdminPassEncryptionType>2</h:NetAdminPassEncryptionType>"));
    assert!(body_s.contains("<h:NetworkAdminPassword>abc123</h:NetworkAdminPassword>"));
    assert_eq!(
        *body_any.last_action.borrow(),
        "http://intel.com/wbem/wscim/1/ips-schema/1/IPS_HostBasedSetupService/Setup"
    );
}

#[test]
fn setup_nonzero_return_is_returned_not_errored() {
    let mut client = Client::new(spy(SETUP_FAIL), Credentials::digest("u", "p"));
    let out = HostBasedSetupService::new(&mut client)
        .setup(SetupInput { admin_password_hash: "h".into(), encryption_type: 2 })
        .unwrap();
    assert_eq!(out.return_value, 9);
}

#[test]
fn setup_input_element_is_spliced_into_the_body() {
    let mut client = Client::new(spy(SETUP_OK), Credentials::digest("u", "p"));
    HostBasedSetupService::new(&mut client)
        .setup(SetupInput { admin_password_hash: "x".into(), encryption_type: 4294967295 })
        .unwrap();
    let body = String::from_utf8(client.into_transport().last_body.borrow().clone()).unwrap();
    assert!(body.contains("<Body><h:Setup_INPUT xmlns:h=\"http://intel.com/wbem/wscim/1/ips-schema/1/IPS_HostBasedSetupService\"><h:NetAdminPassEncryptionType>4294967295</h:NetAdminPassEncryptionType><h:NetworkAdminPassword>x</h:NetworkAdminPassword></h:Setup_INPUT></Body>"));
    assert!(body.contains("<w:ResourceURI>http://intel.com/wbem/wscim/1/ips-schema/1/IPS_HostBasedSetupService</w:ResourceURI>"));
}

#[test]
fn parse_setup_errors() {
    assert!(matches!(
        parse_setup(b"<h:Setup_OUTPUT></h:Setup_OUTPUT>"),
        Err(WsmanError::Parse("missing ReturnValue"))
    ));
    assert!(matches!(
        parse_setup(b"<h:ReturnValue>abc</h:ReturnValue>"),
        Err(WsmanError::Parse("missing ReturnValue"))
    ));
    match parse_setup(b"<s:Fault><s:Text>denied</s:Text></s:Fault>") {
        Err(WsmanError::SoapFault(t)) => assert_eq!(t, "denied"),
        other => panic!("wrong result: {other:?}"),
    }
    match parse_setup(b"<s:Fault/>") {
        Err(WsmanError::SoapFault(t)) => assert_eq!(t, ""),
        other => panic!("wrong result: {other:?}"),
    }
}
