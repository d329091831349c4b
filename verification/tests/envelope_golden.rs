use wsman::envelope;
use wsman::error::WsmanError;
use wsman::schema::Namespace;
use wsman::selector::Selector;

fn render(f: impl FnOnce(&mut [u8]) -> Result<usize, WsmanError>) -> String {
    let mut buf = [0u8; 4096];
    let n = f(&mut buf).expect("build ok");
    String::from_utf8(buf[..n].to_vec()).expect("utf8")
}

#[test]
fn get_envelope_matches_expected() {
    let uri = Namespace::Amt.resource_uri("AMT_GeneralSettings");
    let xml = render(|b| envelope::build_get(&uri, &[], 1, None, b));

    assert!(xml.starts_with("<?xml version=\"1.0\" encoding=\"utf-8\"?>"));
    assert!(xml.contains("<a:Action>http://schemas.xmlsoap.org/ws/2004/09/transfer/Get</a:Action>"));
    assert!(xml.contains("<a:To>/wsman</a:To>"));
    assert!(xml.contains("<w:ResourceURI>http://intel.com/wbem/wscim/1/amt-schema/1/AMT_GeneralSettings</w:ResourceURI>"));
    assert!(xml.contains("<a:MessageID>1</a:MessageID>"));
    assert!(xml.contains("<w:OperationTimeout>PT60S</w:OperationTimeout>"));
    assert!(xml.contains("<Body></Body>"));
    assert!(xml.ends_with("</Envelope>"));
}

#[test]
fn get_envelope_with_selector() {
    let uri = Namespace::Amt.resource_uri("AMT_GeneralSettings");
    let xml = render(|b| {
        envelope::build_get(&uri, &[Selector::new("InstanceID", "Intel(r) AMT")], 7, None, b)
    });

    assert!(xml.contains("<w:SelectorSet>"));
    assert!(xml.contains("<w:Selector Name=\"InstanceID\">Intel(r) AMT</w:Selector>"));
    assert!(xml.contains("<a:MessageID>7</a:MessageID>"));
}

#[test]
fn invoke_envelope_splices_input_body() {
    let uri = Namespace::Ips.resource_uri("IPS_HostBasedSetupService");
    let action = "http://intel.com/wbem/wscim/1/ips-schema/1/IPS_HostBasedSetupService/Setup";
    let input_xml =
        "<h:Setup_INPUT xmlns:h=\"http://intel.com/wbem/wscim/1/ips-schema/1/IPS_HostBasedSetupService\">\
<h:NetAdminPassEncryptionType>2</h:NetAdminPassEncryptionType>\
<h:NetworkAdminPassword>deadbeef</h:NetworkAdminPassword>\
</h:Setup_INPUT>";

    let xml = render(|b| envelope::build_invoke(action, &uri, input_xml.as_bytes(), &[], 42, None, b));

    assert!(xml.contains(&format!("<a:Action>{action}</a:Action>")));
    assert!(xml.contains(&format!("<w:ResourceURI>{uri}</w:ResourceURI>")));
    assert!(xml.contains("<a:MessageID>42</a:MessageID>"));
    assert!(xml.contains(input_xml));
}

#[test]
fn buffer_too_small_returns_error() {
    let uri = Namespace::Amt.resource_uri("AMT_GeneralSettings");
    let mut tiny = [0u8; 16];
    let err = envelope::build_get(&uri, &[], 1, None, &mut tiny).unwrap_err();
    assert!(matches!(err, WsmanError::BufferTooSmall { .. }));
}

#[test]
fn enumerate_and_pull_bodies() {
    let uri = Namespace::Amt.resource_uri("AMT_GeneralSettings");

    let e = render(|b| envelope::build_enumerate(&uri, 1, None, b));
    assert!(e.contains("<Enumerate xmlns=\"http://schemas.xmlsoap.org/ws/2004/09/enumeration\" />"));

    let p = render(|b| envelope::build_pull(&uri, "ctx-123", 2, None, b));
    assert!(p.contains("<EnumerationContext>ctx-123</EnumerationContext>"));
    assert!(p.contains("<MaxElements>999</MaxElements>"));
    assert!(p.contains("<MaxCharacters>99999</MaxCharacters>"));
}

#[test]
fn put_envelope_wraps_body_xml() {
    let uri = Namespace::Amt.resource_uri("AMT_GeneralSettings");
    let inner = "<h:GeneralSettings><h:PingResponseEnabled>true</h:PingResponseEnabled></h:GeneralSettings>";
    let xml = render(|b| envelope::build_put(&uri, inner.as_bytes(), &[], 5, None, b));
    assert!(xml.contains(&format!("<Body>{inner}</Body>")));
}

#[test]
fn get_envelope_exact_bytes() {
    let xml = render(|b| envelope::build_get("urn:x", &[], 3, Some("PT5S"), b));
    let expected = "<?xml version=\"1.0\" encoding=\"utf-8\"?><Envelope xmlns:xsi=\"http://www.w3.org/2001/XMLSchema-instance\" xmlns:xsd=\"http://www.w3.org/2001/XMLSchema\" xmlns:a=\"http://schemas.xmlsoap.org/ws/2004/08/addressing\" xmlns:w=\"http://schemas.dmtf.org/wbem/wsman/1/wsman.xsd\" xmlns=\"http://www.w3.org/2003/05/soap-envelope\"><Header><a:Action>http://schemas.xmlsoap.org/ws/2004/09/transfer/Get</a:Action><a:To>/wsman</a:To><w:ResourceURI>urn:x</w:ResourceURI><a:MessageID>3</a:MessageID><a:ReplyTo><a:Address>http://schemas.xmlsoap.org/ws/2004/08/addressing/role/anonymous</a:Address></a:ReplyTo><w:OperationTimeout>PT5S</w:OperationTimeout></Header><Body></Body></Envelope>";
    assert_eq!(xml, expected);
}

#[test]
fn put_body_that_is_not_utf8_is_refused() {
    let mut buf = [7u8; 4096];
    let err = envelope::build_put("urn:x", &[0xc3], &[], 1, None, &mut buf).unwrap_err();
    assert!(matches!(err, WsmanError::Builder("body_xml is not UTF-8")));
    assert!(buf.iter().all(|&b| b == 7));
}

#[test]
fn invoke_input_that_is_not_utf8_is_refused() {
    let mut buf = [0u8; 4096];
    let err = envelope::build_invoke("urn:a", "urn:x", &[0xff], &[], 1, None, &mut buf).unwrap_err();
    assert!(matches!(err, WsmanError::Builder("input_xml is not UTF-8")));
}

#[test]
fn buffer_too_small_names_needed_and_available() {
    let exact = render(|b| envelope::build_enumerate("urn:x", 9, None, b));
    let mut small = vec![0u8; exact.len() - 1];
    match envelope::build_enumerate("urn:x", 9, None, &mut small).unwrap_err() {
        WsmanError::BufferTooSmall { need, have } => {
            assert_eq!(need, exact.len());
            assert_eq!(have, exact.len() - 1);
        }
        other => panic!("wrong error: {other:?}"),
    }
    let mut fits = vec![0u8; exact.len()];
    assert_eq!(envelope::build_enumerate("urn:x", 9, None, &mut fits).unwrap(), exact.len());
}
