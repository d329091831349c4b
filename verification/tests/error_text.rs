use wsman::error::{ApfError, HeciError, WsmanError};

#[test]
fn wsman_error_messages() {
    assert_eq!(WsmanError::Transport("down".to_string()).message(), "transport: down");
    assert_eq!(WsmanError::Auth("no").message(), "auth: no");
    assert_eq!(WsmanError::Http { status: 404, body: "gone".to_string() }.message(), "HTTP 404: gone");
    assert_eq!(WsmanError::Parse("x").message(), "malformed XML: x");
    assert_eq!(WsmanError::SoapFault("denied".to_string()).message(), "SOAP fault: denied");
    assert_eq!(
        WsmanError::BufferTooSmall { need: 10, have: 3 }.message(),
        "buffer too small: need 10, have 3"
    );
    assert_eq!(WsmanError::Builder("b").message(), "builder: b");
}

#[test]
fn heci_and_apf_error_messages() {
    assert_eq!(HeciError::Io("gone".to_string()).message(), "heci: gone");
    assert_eq!(HeciError::Busy.message(), "heci: device busy");
    assert_eq!(HeciError::BufferTooSmall.message(), "heci: buffer too small");
    assert_eq!(ApfError::Heci(HeciError::Busy).message(), "heci: heci: device busy");
    assert_eq!(ApfError::Protocol("p").message(), "apf protocol: p");
    assert_eq!(ApfError::OpenRejected(4).message(), "apf channel open rejected (reason=4)");
    assert_eq!(ApfError::Timeout("t").message(), "apf timeout waiting for t");
    assert_eq!(ApfError::ChannelClosed.message(), "apf channel not active");
    assert_eq!(ApfError::Aborted.message(), "apf aborted by ME");
    assert_eq!(ApfError::BufferTooSmall.message(), "apf buffer too small");
}

#[test]
fn heci_error_converts_into_apf_error() {
    let e: ApfError = HeciError::Busy.into();
    assert!(matches!(e, ApfError::Heci(HeciError::Busy)));
}
