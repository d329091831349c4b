use wsman::parse;

const GS_RESPONSE: &str = r#"<?xml version="1.0" encoding="UTF-8"?>
<a:Envelope xmlns:a="http://www.w3.org/2003/05/soap-envelope"
            xmlns:g="http://intel.com/wbem/wscim/1/amt-schema/1/AMT_GeneralSettings">
  <a:Header><a:Action>...</a:Action></a:Header>
  <a:Body>
    <g:AMT_GeneralSettings>
      <g:DigestRealm>Digest:1234567890ABCDEF1234567890ABCDEF</g:DigestRealm>
      <g:HostName>test-host</g:HostName>
      <g:NetworkInterfaceEnabled>true</g:NetworkInterfaceEnabled>
    </g:AMT_GeneralSettings>
  </a:Body>
</a:Envelope>"#;

const SETUP_RESPONSE: &str = r#"<?xml version="1.0" encoding="UTF-8"?>
<a:Envelope xmlns:a="http://www.w3.org/2003/05/soap-envelope"
            xmlns:h="http://intel.com/wbem/wscim/1/ips-schema/1/IPS_HostBasedSetupService">
  <a:Body>
    <h:Setup_OUTPUT>
      <h:ReturnValue>0</h:ReturnValue>
    </h:Setup_OUTPUT>
  </a:Body>
</a:Envelope>"#;

const FAULT_RESPONSE: &str = r#"<?xml version="1.0" encoding="UTF-8"?>
<a:Envelope xmlns:a="http://www.w3.org/2003/05/soap-envelope">
  <a:Body>
    <a:Fault>
      <a:Code><a:Value>a:Sender</a:Value></a:Code>
      <a:Reason><a:Text>Access denied</a:Text></a:Reason>
    </a:Fault>
  </a:Body>
</a:Envelope>"#;

#[test]
fn extract_text_reads_first_match_by_local_name() {
    let realm = parse::extract_text(GS_RESPONSE.as_bytes(), "DigestRealm").unwrap();
    assert_eq!(realm, "Digest:1234567890ABCDEF1234567890ABCDEF");

    let host = parse::extract_text(GS_RESPONSE.as_bytes(), "HostName").unwrap();
    assert_eq!(host, "test-host");
}

#[test]
fn extract_u32_parses_decimal_text() {
    let rv = parse::extract_u32(SETUP_RESPONSE.as_bytes(), "ReturnValue").unwrap();
    assert_eq!(rv, 0);
}

#[test]
fn extract_missing_element_returns_none() {
    assert!(parse::extract_text(SETUP_RESPONSE.as_bytes(), "NoSuchElement").is_none());
}

#[test]
fn has_fault_detects_soap_fault() {
    assert!(parse::has_fault(FAULT_RESPONSE.as_bytes()));
    assert!(!parse::has_fault(GS_RESPONSE.as_bytes()));
    assert!(!parse::has_fault(SETUP_RESPONSE.as_bytes()));
}

#[test]
fn extract_text_unescapes_entities() {
    let xml = b"<a:X>&lt;b&gt; &amp; &quot;c&quot; &apos;d&apos; &unknown;</a:X>";
    assert_eq!(parse::extract_text(xml, "X").unwrap(), "<b> & \"c\" 'd' &unknown;");
}

#[test]
fn extract_text_of_empty_and_self_closing_elements() {
    assert!(parse::extract_text(b"<a><b></b></a>", "b").is_none());
    assert!(parse::extract_text(b"<a><b/></a>", "b").is_none());
    assert_eq!(parse::extract_text(b"<a><b x=\"1\">v</b></a>", "b").unwrap(), "v");
    assert_eq!(parse::extract_text(b"<b>\xff</b>", "b").unwrap(), "\u{FFFD}");
    assert!(parse::extract_text(b"<a><bc>1</bc></a>", "b").is_none());
}

#[test]
fn extract_u32_trims_and_bounds() {
    assert_eq!(parse::extract_u32(b"<R>  42\n</R>", "R"), Some(42));
    assert_eq!(parse::extract_u32(b"<R>+7</R>", "R"), Some(7));
    assert_eq!(parse::extract_u32(b"<R>4294967295</R>", "R"), Some(4294967295));
    assert_eq!(parse::extract_u32(b"<R>4294967296</R>", "R"), None);
    assert_eq!(parse::extract_u32(b"<R>-1</R>", "R"), None);
    assert_eq!(parse::extract_u32(b"<R></R>", "R"), None);
    assert_eq!(parse::extract_u32(b"<R>1 2</R>", "R"), None);
}

#[test]
fn fault_in_a_closing_tag_or_comment_is_not_a_fault() {
    assert!(!parse::has_fault(b"<a></Fault></a>"));
    assert!(!parse::has_fault(b"<a><!--Fault--></a>"));
    assert!(parse::has_fault(b"<s:Fault/>"));
    assert!(!parse::has_fault(b"<s:Faulty/>"));
}

#[test]
fn extract_text_ignores_slashes_and_brackets_inside_attribute_values() {
    assert_eq!(parse::extract_text(b"<X a=\"http://h/p\">v</X>", "X").unwrap(), "v");
    assert_eq!(parse::extract_text(b"<X a='1>2'>w</X>", "X").unwrap(), "w");
    assert!(parse::extract_text(b"<X a=\"1\"/>", "X").is_none());
    assert!(parse::extract_text(b"<X a=\"1\" />", "X").is_none());
}
