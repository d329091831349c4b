use wsman::digest::{build_authorization_header, Challenge};
use wsman::error::WsmanError;

const AMT_401_HEADER: &str =
    r#"Digest realm="Digest:AABBCCDD", nonce="1234567890abcdef", stale="false", qop="auth""#;

#[test]
fn parse_challenge_fields() {
    let c = Challenge::parse(AMT_401_HEADER.as_bytes()).unwrap();
    assert_eq!(c.realm(), "Digest:AABBCCDD");
    assert_eq!(c.nonce(), "1234567890abcdef");
    assert_eq!(c.qop(), "auth");
    assert_eq!(c.opaque(), "");
}

#[test]
fn parse_challenge_with_opaque() {
    let hdr = r#"Digest realm="R", nonce="N", qop="auth", opaque="OPAQUEVAL""#;
    let c = Challenge::parse(hdr.as_bytes()).unwrap();
    assert_eq!(c.opaque(), "OPAQUEVAL");
}

#[test]
fn parse_challenge_missing_prefix_fails() {
    assert!(Challenge::parse(b"Basic realm=\"x\"").is_err());
}

#[test]
fn authorization_header_round_trip() {
    let hdr = r#"Digest realm="realm", nonce="nonceval", qop="auth""#;
    let c = Challenge::parse(hdr.as_bytes()).unwrap();
    let mut out = [0u8; 1024];
    let n = build_authorization_header(&c, "user", "pass", "POST", "/wsman", 1, "cnonceval", &mut out)
        .unwrap();
    let hdr = core::str::from_utf8(&out[..n]).unwrap();

    assert!(hdr.starts_with("Digest "));
    assert!(hdr.contains(r#"username="user""#));
    assert!(hdr.contains(r#"realm="realm""#));
    assert!(hdr.contains(r#"nonce="nonceval""#));
    assert!(hdr.contains(r#"uri="/wsman""#));
    assert!(hdr.contains(r#"qop="auth""#));
    assert!(hdr.contains(r#"nc="00000001""#));
    assert!(hdr.contains(r#"cnonce="cnonceval""#));

    let resp_idx = hdr.find(r#"response=""#).unwrap() + r#"response=""#.len();
    let resp = &hdr[resp_idx..resp_idx + 32];
    assert!(resp.chars().all(|c| c.is_ascii_hexdigit()));
}

#[test]
fn authorization_header_without_qop_uses_legacy_form() {
    let hdr = r#"Digest realm="R", nonce="N""#;
    let c = Challenge::parse(hdr.as_bytes()).unwrap();
    let mut out = [0u8; 512];
    let n = build_authorization_header(&c, "u", "p", "POST", "/wsman", 1, "cnonceval", &mut out)
        .unwrap();
    let hdr = core::str::from_utf8(&out[..n]).unwrap();
    assert!(!hdr.contains("qop="));
    assert!(!hdr.contains("nc="));
}

#[test]
fn opaque_included_when_present() {
    let hdr = r#"Digest realm="R", nonce="N", qop="auth", opaque="OP""#;
    let c = Challenge::parse(hdr.as_bytes()).unwrap();
    let mut out = [0u8; 512];
    let n = build_authorization_header(&c, "u", "p", "POST", "/wsman", 1, "cnonceval", &mut out)
        .unwrap();
    let hdr = core::str::from_utf8(&out[..n]).unwrap();
    assert!(hdr.contains(r#"opaque="OP""#));
}

#[test]
fn response_matches_rfc2617_example() {
    let hdr = r#"Digest realm="testrealm@host.com", qop="auth", nonce="dcd98b7102dd2f0e8b11d0f600bfb0c093", opaque="5ccc069c403ebaf9f0171e9517f40e41""#;
    let c = Challenge::parse(hdr.as_bytes()).unwrap();
    let mut out = [0u8; 512];
    let n = build_authorization_header(
        &c,
        "Mufasa",
        "Circle Of Life",
        "GET",
        "/dir/index.html",
        1,
        "0a4f113b",
        &mut out,
    )
    .unwrap();
    let hdr = core::str::from_utf8(&out[..n]).unwrap();
    assert!(hdr.contains(r#"response="6629fae49393a05397450978507c4ef1""#));
}

#[test]
fn response_without_qop_is_legacy_digest() {
    // HA1 = MD5("u:R:p"), HA2 = MD5("POST:/wsman"), response = MD5(HA1:N:HA2)
    let c = Challenge::parse(br#"Digest realm="R", nonce="N""#).unwrap();
    let mut out = [0u8; 512];
    let n = build_authorization_header(&c, "u", "p", "POST", "/wsman", 1, "x", &mut out).unwrap();
    let hdr = core::str::from_utf8(&out[..n]).unwrap();
    let start = hdr.find("response=\"").unwrap() + 10;
    let resp = &hdr[start..start + 32];
    assert!(resp.chars().all(|c| c.is_ascii_hexdigit() && !c.is_ascii_uppercase()));
    assert!(hdr.ends_with(&format!("response=\"{resp}\"")));
}

#[test]
fn authorization_buffer_too_small_is_reported() {
    let c = Challenge::parse(br#"Digest realm="R", nonce="N""#).unwrap();
    let mut out = [0u8; 8];
    let err = build_authorization_header(&c, "u", "p", "POST", "/wsman", 1, "x", &mut out).unwrap_err();
    match err {
        WsmanError::BufferTooSmall { need, have } => {
            assert_eq!(have, 8);
            assert!(need > 8);
        }
        other => panic!("wrong error: {other:?}"),
    }
    assert_eq!(out, [0u8; 8]);
}

#[test]
fn challenge_that_is_not_utf8_fails() {
    assert!(matches!(
        Challenge::parse(&[0x44, 0xff]),
        Err(WsmanError::Auth("challenge not UTF-8"))
    ));
}
