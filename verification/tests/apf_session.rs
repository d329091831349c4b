use std::cell::Cell;

use wsman::apf_transport::ApfTransport;
use wsman::client::{Client, Credentials};
use wsman::error::{ApfError, HeciError};
use wsman::heci::{HeciHooks, HeciTransport, NoHooks};
use wsman::message::{
    write_be32, APF_AMT_HTTP_PORT, APF_CHANNEL_CLOSE, APF_CHANNEL_DATA, APF_CHANNEL_OPEN,
    APF_CHANNEL_OPEN_CONFIRMATION, APF_CHANNEL_OPEN_FAILURE, APF_CHANNEL_WINDOW_ADJUST,
    APF_GLOBAL_REQUEST, APF_KEEPALIVE_REPLY, APF_KEEPALIVE_REQUEST, APF_PROTOCOLVERSION,
    APF_REQUEST_SUCCESS, APF_SERVICE_ACCEPT, APF_SERVICE_PFWD, APF_SERVICE_REQUEST,
    LME_RX_WINDOW_SIZE,
};
use wsman::session::ApfSession;
use wsman::transport::ResponseBuf;

const HOST: u8 = 0x07;
const ME: u8 = 0x11;

#[derive(Debug, Clone)]
enum Event {
    ExpectSend { me: u8, host: u8, data: Vec<u8> },
    ReturnRecv { me: u8, host: u8, data: Vec<u8> },
    ReturnRecvErr(HeciError),
    FailSend(HeciError),
}

struct FakeHeci {
    script: Vec<Event>,
    idx: usize,
}

impl FakeHeci {
    fn new(script: Vec<Event>) -> Self {
        Self { script, idx: 0 }
    }
}

impl HeciTransport for FakeHeci {
    fn send(&mut self, me: u8, host: u8, data: &[u8]) -> Result<(), HeciError> {
        let ev = self
            .script
            .get(self.idx)
            .cloned()
            .unwrap_or_else(|| panic!("send past end of script"));
        self.idx += 1;
        match ev {
            Event::ExpectSend { me: em, host: eh, data: ed } => {
                assert_eq!((me, host), (em, eh), "send addr mismatch");
                assert_eq!(data, ed.as_slice(), "send bytes mismatch");
                Ok(())
            }
            Event::FailSend(e) => Err(e),
            other => panic!("send called but script expected {other:?}"),
        }
    }
    fn recv(&mut self, buf: &mut [u8]) -> Result<(usize, u8, u8), HeciError> {
        let ev = self
            .script
            .get(self.idx)
            .cloned()
            .unwrap_or_else(|| panic!("recv past end of script"));
        self.idx += 1;
        match ev {
            Event::ReturnRecv { me, host, data } => {
                if buf.len() < data.len() {
                    return Err(HeciError::BufferTooSmall);
                }
                buf[..data.len()].copy_from_slice(&data);
                Ok((data.len(), me, host))
            }
            Event::ReturnRecvErr(e) => Err(e),
            other => panic!("recv called but script expected {other:?}"),
        }
    }
    fn close(&mut self) {
        panic!("close not expected");
    }
}

struct RecordingHook {
    calls: Cell<u32>,
}

impl HeciHooks for RecordingHook {
    fn reconnect_heci<X: HeciTransport>(&mut self, _heci: &mut X) -> Result<(), HeciError> {
        self.calls.set(self.calls.get() + 1);
        Ok(())
    }
}

struct FailingReconnect;

impl HeciHooks for FailingReconnect {
    fn reconnect_heci<X: HeciTransport>(&mut self, _heci: &mut X) -> Result<(), HeciError> {
        Err(HeciError::Busy)
    }
}

struct FlagHook(Cell<bool>);

impl HeciHooks for FlagHook {
    fn post_channel_open_send(&mut self) {
        self.0.set(true);
    }
}

fn bytes_open(sender: u32) -> Vec<u8> {
    let mut v = vec![0u8; 66];
    let mut i = 0;
    v[i] = APF_CHANNEL_OPEN;
    i += 1;
    write_be32(&mut v[i..i + 4], 15);
    i += 4;
    v[i..i + 15].copy_from_slice(b"forwarded-tcpip");
    i += 15;
    write_be32(&mut v[i..i + 4], sender);
    i += 4;
    write_be32(&mut v[i..i + 4], LME_RX_WINDOW_SIZE);
    i += 4;
    write_be32(&mut v[i..i + 4], 0xFFFF_FFFF);
    i += 4;
    write_be32(&mut v[i..i + 4], 9);
    i += 4;
    v[i..i + 9].copy_from_slice(b"127.0.0.1");
    i += 9;
    write_be32(&mut v[i..i + 4], APF_AMT_HTTP_PORT);
    i += 4;
    write_be32(&mut v[i..i + 4], 9);
    i += 4;
    v[i..i + 9].copy_from_slice(b"127.0.0.1");
    i += 9;
    write_be32(&mut v[i..i + 4], APF_AMT_HTTP_PORT);
    v
}

fn bytes_confirmation(recip: u32, sender: u32, window: u32) -> Vec<u8> {
    let mut v = vec![0u8; 17];
    v[0] = APF_CHANNEL_OPEN_CONFIRMATION;
    write_be32(&mut v[1..5], recip);
    write_be32(&mut v[5..9], sender);
    write_be32(&mut v[9..13], window);
    v
}

fn bytes_channel_open_failure(recip: u32, reason: u32) -> Vec<u8> {
    let mut v = vec![0u8; 17];
    v[0] = APF_CHANNEL_OPEN_FAILURE;
    write_be32(&mut v[1..5], recip);
    write_be32(&mut v[5..9], reason);
    v
}

fn bytes_channel_data(recip: u32, data: &[u8]) -> Vec<u8> {
    let mut v = vec![0u8; 9 + data.len()];
    v[0] = APF_CHANNEL_DATA;
    write_be32(&mut v[1..5], recip);
    write_be32(&mut v[5..9], data.len() as u32);
    v[9..9 + data.len()].copy_from_slice(data);
    v
}

fn bytes_window_adjust(recip: u32, add: u32) -> Vec<u8> {
    let mut v = vec![0u8; 9];
    v[0] = APF_CHANNEL_WINDOW_ADJUST;
    write_be32(&mut v[1..5], recip);
    write_be32(&mut v[5..9], add);
    v
}

fn bytes_close(recip: u32) -> Vec<u8> {
    let mut v = vec![0u8; 5];
    v[0] = APF_CHANNEL_CLOSE;
    write_be32(&mut v[1..5], recip);
    v
}

fn bytes_proto_version(major: u32, minor: u32) -> Vec<u8> {
    let mut v = vec![0u8; 93];
    v[0] = APF_PROTOCOLVERSION;
    write_be32(&mut v[1..5], major);
    write_be32(&mut v[5..9], minor);
    v
}

fn bytes_named(opcode: u8, name: &[u8]) -> Vec<u8> {
    let mut v = vec![0u8; 5 + name.len()];
    v[0] = opcode;
    write_be32(&mut v[1..5], name.len() as u32);
    v[5..5 + name.len()].copy_from_slice(name);
    v
}

fn bytes_global_request_tcpip_forward(port: u32, want_reply: u8) -> Vec<u8> {
    let name = b"tcpip-forward";
    let addr = b"0.0.0.0";
    let mut v = Vec::new();
    v.push(APF_GLOBAL_REQUEST);
    let mut nl = [0u8; 4];
    write_be32(&mut nl, name.len() as u32);
    v.extend_from_slice(&nl);
    v.extend_from_slice(name);
    v.push(want_reply);
    let mut al = [0u8; 4];
    write_be32(&mut al, addr.len() as u32);
    v.extend_from_slice(&al);
    v.extend_from_slice(addr);
    let mut pb = [0u8; 4];
    write_be32(&mut pb, port);
    v.extend_from_slice(&pb);
    v
}

fn bytes_request_success(port: u32) -> Vec<u8> {
    let mut v = vec![0u8; 5];
    v[0] = APF_REQUEST_SUCCESS;
    write_be32(&mut v[1..5], port);
    v
}

fn open_session(script_tail: Vec<Event>) -> ApfSession<FakeHeci, NoHooks> {
    let mut script = vec![
        Event::ExpectSend { me: ME, host: HOST, data: bytes_open(1) },
        Event::ReturnRecv { me: ME, host: HOST, data: bytes_confirmation(1, 50, 8192) },
    ];
    script.extend(script_tail);
    let fake = FakeHeci::new(script);
    let mut session = ApfSession::new(fake, NoHooks, ME, HOST);
    session.force_port_forward_ok();
    session.channel_open().unwrap();
    session
}

#[test]
fn reopen_retries_after_aborted_open() {
    let script = vec![
        Event::ExpectSend { me: ME, host: HOST, data: bytes_open(1) },
        Event::ReturnRecvErr(HeciError::Io("HBM disconnect".into())),
        Event::ExpectSend { me: ME, host: HOST, data: bytes_open(2) },
        Event::ReturnRecv { me: ME, host: HOST, data: bytes_confirmation(2, 77, 4096) },
    ];
    let fake = FakeHeci::new(script);
    let hook = RecordingHook { calls: Cell::new(0) };
    let mut s = ApfSession::new(fake, hook, ME, HOST);
    s.force_port_forward_ok();

    s.reopen_channel().expect("reopen ok");
    assert_eq!(s.hooks_ref().calls.get(), 1);
    assert!(s.channel_active());
    assert_eq!(s.recipient_channel(), 77);
}

#[test]
fn channel_open_happy_path_records_state() {
    let script = vec![
        Event::ExpectSend { me: ME, host: HOST, data: bytes_open(1) },
        Event::ReturnRecv { me: ME, host: HOST, data: bytes_confirmation(1, 99, 8192) },
    ];
    let fake = FakeHeci::new(script);
    let mut session = ApfSession::new(fake, NoHooks, ME, HOST);
    session.force_port_forward_ok();

    session.channel_open().expect("open ok");
    assert!(session.channel_active());
    assert_eq!(session.recipient_channel(), 99);
    assert_eq!(session.tx_window(), 8192);
}

#[test]
fn channel_open_failure_returns_error() {
    let script = vec![
        Event::ExpectSend { me: ME, host: HOST, data: bytes_open(1) },
        Event::ReturnRecv { me: ME, host: HOST, data: bytes_channel_open_failure(1, 4) },
    ];
    let fake = FakeHeci::new(script);
    let mut session = ApfSession::new(fake, NoHooks, ME, HOST);
    session.force_port_forward_ok();
    let err = session.channel_open().unwrap_err();
    assert!(matches!(err, ApfError::OpenRejected(4)));
}

#[test]
fn post_channel_open_send_hook_fires() {
    let script = vec![
        Event::ExpectSend { me: ME, host: HOST, data: bytes_open(1) },
        Event::ReturnRecv { me: ME, host: HOST, data: bytes_confirmation(1, 99, 8192) },
    ];
    let fake = FakeHeci::new(script);
    let hook = FlagHook(Cell::new(false));
    let mut session = ApfSession::new(fake, hook, ME, HOST);
    session.force_port_forward_ok();
    session.channel_open().unwrap();
    assert!(session.hooks_ref().0.get(), "hook should have fired");
}

#[test]
fn send_bytes_wraps_in_channel_data() {
    let payload = b"GET / HTTP/1.1\r\n\r\n";
    let mut s = open_session(vec![Event::ExpectSend {
        me: ME,
        host: HOST,
        data: bytes_channel_data(50, payload),
    }]);
    s.send_bytes(payload).unwrap();
}

#[test]
fn recv_bytes_accumulates_channel_data_and_replies_with_window_adjust() {
    let payload = b"HTTP/1.1 200 OK\r\n\r\nbody";
    let mut s = open_session(vec![
        Event::ReturnRecv { me: ME, host: HOST, data: bytes_channel_data(1, payload) },
        Event::ExpectSend { me: ME, host: HOST, data: bytes_window_adjust(50, payload.len() as u32) },
        Event::ReturnRecv { me: ME, host: HOST, data: bytes_close(1) },
        Event::ExpectSend { me: ME, host: HOST, data: bytes_close(50) },
    ]);

    let mut out = [0u8; 128];
    let n = s.recv_bytes(&mut out).unwrap();
    assert_eq!(&out[..n], payload);
}

#[test]
fn happy_path_handshake() {
    let script = vec![
        Event::ExpectSend { me: ME, host: HOST, data: bytes_proto_version(1, 0) },
        Event::ReturnRecv { me: ME, host: HOST, data: bytes_proto_version(4, 0) },
        Event::ReturnRecv { me: ME, host: HOST, data: bytes_named(APF_SERVICE_REQUEST, &APF_SERVICE_PFWD) },
        Event::ExpectSend { me: ME, host: HOST, data: bytes_named(APF_SERVICE_ACCEPT, &APF_SERVICE_PFWD) },
        Event::ReturnRecv {
            me: ME,
            host: HOST,
            data: bytes_global_request_tcpip_forward(APF_AMT_HTTP_PORT, 1),
        },
        Event::ExpectSend { me: ME, host: HOST, data: bytes_request_success(APF_AMT_HTTP_PORT) },
    ];
    let fake = FakeHeci::new(script);
    let mut session = ApfSession::new(fake, NoHooks, ME, HOST);

    session.handshake().expect("handshake ok");
    assert!(session.port_forwarding_established());
}

#[test]
fn missing_protocol_version_errors() {
    let script = vec![
        Event::ExpectSend { me: ME, host: HOST, data: bytes_proto_version(1, 0) },
        Event::ReturnRecvErr(HeciError::Io("timeout".into())),
        Event::ReturnRecvErr(HeciError::Io("timeout".into())),
    ];
    let fake = FakeHeci::new(script);
    let mut session = ApfSession::new(fake, NoHooks, ME, HOST);
    assert!(session.handshake().is_err());
}

#[test]
fn apf_transport_drives_client_one_roundtrip() {
    let http_response =
        b"HTTP/1.1 200 OK\r\nContent-Type: application/soap+xml\r\nContent-Length: 5\r\n\r\n<ok/>";
    let request_body = b"<req/>";
    let expected_http = {
        let headers = b"POST /wsman HTTP/1.1\r\nHost: 127.0.0.1:16992\r\nContent-Type: application/soap+xml; charset=utf-8\r\nConnection: close\r\nContent-Length: 6\r\n\r\n";
        let mut v = Vec::from(&headers[..]);
        v.extend_from_slice(request_body);
        v
    };

    let script = vec![
        Event::ExpectSend { me: ME, host: HOST, data: bytes_channel_data(50, &expected_http) },
        Event::ReturnRecv { me: ME, host: HOST, data: bytes_channel_data(1, http_response) },
        Event::ExpectSend {
            me: ME,
            host: HOST,
            data: bytes_window_adjust(50, http_response.len() as u32),
        },
        Event::ReturnRecv { me: ME, host: HOST, data: bytes_close(1) },
        Event::ExpectSend { me: ME, host: HOST, data: bytes_close(50) },
    ];

    let fake = FakeHeci::new(script);
    let mut session = ApfSession::new(fake, NoHooks, ME, HOST);
    session.force_port_forward_ok();
    session.force_channel_state(50, 8192);

    let transport = ApfTransport::new(session);
    let mut client = Client::new(transport, Credentials::digest("u", "p"));

    let mut body = [0u8; 512];
    let mut www = [0u8; 256];
    let mut rb = ResponseBuf::new(&mut body, &mut www);
    let n = client.execute(request_body, &mut rb).unwrap();
    assert_eq!(&rb.body[..n], b"<ok/>");
}

#[test]
fn send_bytes_on_closed_channel_is_refused() {
    let fake = FakeHeci::new(vec![]);
    let mut session = ApfSession::new(fake, NoHooks, ME, HOST);
    assert!(matches!(session.send_bytes(b"x"), Err(ApfError::ChannelClosed)));
}

#[test]
fn recv_bytes_closed_before_data_is_aborted() {
    let mut s = open_session(vec![
        Event::ReturnRecv { me: ME, host: HOST, data: bytes_close(1) },
        Event::ExpectSend { me: ME, host: HOST, data: bytes_close(50) },
    ]);
    let mut out = [0u8; 16];
    assert!(matches!(s.recv_bytes(&mut out), Err(ApfError::Aborted)));
    assert!(!s.channel_active());
}

#[test]
fn keepalive_request_is_answered_while_receiving() {
    let payload = b"abc";
    let mut keepalive = vec![0u8; 5];
    keepalive[0] = APF_KEEPALIVE_REQUEST;
    write_be32(&mut keepalive[1..5], 0xDEADBEEF);
    let mut reply = vec![0u8; 5];
    reply[0] = APF_KEEPALIVE_REPLY;
    write_be32(&mut reply[1..5], 0xDEADBEEF);
    let mut s = open_session(vec![
        Event::ReturnRecv { me: ME, host: HOST, data: keepalive },
        Event::ExpectSend { me: ME, host: HOST, data: reply },
        Event::ReturnRecv { me: ME, host: HOST, data: bytes_channel_data(1, payload) },
        Event::ExpectSend { me: ME, host: HOST, data: bytes_window_adjust(50, 3) },
        Event::ReturnRecv { me: ME, host: HOST, data: bytes_close(1) },
        Event::ExpectSend { me: ME, host: HOST, data: bytes_close(50) },
    ]);
    let mut out = [0u8; 16];
    let n = s.recv_bytes(&mut out).unwrap();
    assert_eq!(&out[..n], payload);
}

#[test]
fn handshake_without_port_forward_times_out() {
    let script = vec![
        Event::ExpectSend { me: ME, host: HOST, data: bytes_proto_version(1, 0) },
        Event::ReturnRecv { me: ME, host: HOST, data: bytes_proto_version(4, 0) },
        Event::ReturnRecvErr(HeciError::Io("timeout".into())),
        Event::ReturnRecvErr(HeciError::Io("timeout".into())),
    ];
    let mut session = ApfSession::new(FakeHeci::new(script), NoHooks, ME, HOST);
    assert!(matches!(session.handshake(), Err(ApfError::Timeout("tcpip-forward"))));
    assert!(!session.port_forwarding_established());
}

#[test]
fn apf_transport_reports_rejected_reopen_as_transport_error() {
    let script = vec![
        Event::ExpectSend { me: ME, host: HOST, data: bytes_open(1) },
        Event::ReturnRecv { me: ME, host: HOST, data: bytes_channel_open_failure(1, 2) },
    ];
    let mut session = ApfSession::new(FakeHeci::new(script), NoHooks, ME, HOST);
    session.force_port_forward_ok();
    let mut client = Client::new(ApfTransport::new(session), Credentials::digest("u", "p"));
    let mut body = [0u8; 64];
    let mut www = [0u8; 64];
    let mut rb = ResponseBuf::new(&mut body, &mut www);
    match client.execute(b"<req/>", &mut rb).unwrap_err() {
        wsman::error::WsmanError::Transport(t) => assert_eq!(t, "apf channel open rejected (reason=2)"),
        other => panic!("wrong error: {other:?}"),
    }
}

#[test]
fn oversized_frame_counts_as_a_failed_receive() {
    let script = vec![
        Event::ExpectSend { me: ME, host: HOST, data: bytes_proto_version(1, 0) },
        Event::ReturnRecv { me: ME, host: HOST, data: vec![0u8; 600] },
        Event::ReturnRecvErr(HeciError::Io("timeout".into())),
    ];
    let mut session = ApfSession::new(FakeHeci::new(script), NoHooks, ME, HOST);
    assert!(matches!(
        session.handshake(),
        Err(ApfError::Protocol("protocol version not received"))
    ));
}

#[test]
fn empty_frames_are_skipped_while_receiving() {
    let payload = b"xy";
    let mut s = open_session(vec![
        Event::ReturnRecv { me: ME, host: HOST, data: vec![] },
        Event::ReturnRecv { me: ME, host: HOST, data: bytes_channel_data(1, payload) },
        Event::ExpectSend { me: ME, host: HOST, data: bytes_window_adjust(50, 2) },
        Event::ReturnRecv { me: ME, host: HOST, data: bytes_close(1) },
        Event::ExpectSend { me: ME, host: HOST, data: bytes_close(50) },
    ]);
    let mut out = [0u8; 16];
    let n = s.recv_bytes(&mut out).unwrap();
    assert_eq!(&out[..n], payload);
}

#[test]
fn truncated_channel_data_is_a_protocol_error() {
    let mut frame = bytes_channel_data(1, b"abcd");
    frame.truncate(10);
    let mut s = open_session(vec![Event::ReturnRecv { me: ME, host: HOST, data: frame }]);
    let mut out = [0u8; 16];
    assert!(matches!(s.recv_bytes(&mut out), Err(ApfError::Protocol("CHANNEL_DATA truncated"))));
}

#[test]
fn recv_bytes_keeps_the_data_when_the_link_fails_after_it() {
    let payload = b"HTTP/1.1 200 OK\r\n\r\n";
    let mut s = open_session(vec![
        Event::ReturnRecv { me: ME, host: HOST, data: bytes_channel_data(1, payload) },
        Event::ExpectSend { me: ME, host: HOST, data: bytes_window_adjust(50, payload.len() as u32) },
        Event::ReturnRecvErr(HeciError::Io("timeout".into())),
    ]);
    let mut out = [0u8; 64];
    let n = s.recv_bytes(&mut out).unwrap();
    assert_eq!(&out[..n], payload);
    assert!(s.channel_active());
}

#[test]
fn recv_bytes_reports_a_link_failure_before_any_data() {
    let mut s = open_session(vec![Event::ReturnRecvErr(HeciError::Busy)]);
    let mut out = [7u8; 8];
    assert!(matches!(s.recv_bytes(&mut out), Err(ApfError::Heci(HeciError::Busy))));
    assert_eq!(out, [7u8; 8]);
}

#[test]
fn recv_bytes_stops_when_a_window_adjust_cannot_be_sent() {
    let mut s = open_session(vec![
        Event::ReturnRecv { me: ME, host: HOST, data: bytes_channel_data(1, b"abc") },
        Event::FailSend(HeciError::Busy),
    ]);
    let mut out = [0u8; 8];
    assert!(matches!(s.recv_bytes(&mut out), Err(ApfError::Heci(HeciError::Busy))));
    assert_eq!(out, [0u8; 8]);
}

#[test]
fn send_bytes_hands_back_the_link_error() {
    let mut s = open_session(vec![Event::FailSend(HeciError::Busy)]);
    assert!(matches!(s.send_bytes(b"x"), Err(ApfError::Heci(HeciError::Busy))));
}

#[test]
fn failed_reconnect_ends_the_reopen_with_its_error() {
    let script = vec![
        Event::ExpectSend { me: ME, host: HOST, data: bytes_open(1) },
        Event::ReturnRecvErr(HeciError::Io("HBM disconnect".into())),
    ];
    let mut s = ApfSession::new(FakeHeci::new(script), FailingReconnect, ME, HOST);
    s.force_port_forward_ok();
    assert!(matches!(s.reopen_channel(), Err(ApfError::Heci(HeciError::Busy))));
    assert!(!s.channel_active());
    assert!(!s.port_forwarding_established());
}

#[test]
fn apf_transport_refuses_a_reply_too_short_for_its_status() {
    let short = b"HTTP/1.1 20";
    let request_body = b"<req/>";
    let expected_http = {
        let headers = b"POST /wsman HTTP/1.1\r\nHost: 127.0.0.1:16992\r\nContent-Type: application/soap+xml; charset=utf-8\r\nConnection: close\r\nContent-Length: 6\r\n\r\n";
        let mut v = Vec::from(&headers[..]);
        v.extend_from_slice(request_body);
        v
    };
    let script = vec![
        Event::ExpectSend { me: ME, host: HOST, data: bytes_channel_data(50, &expected_http) },
        Event::ReturnRecv { me: ME, host: HOST, data: bytes_channel_data(1, short) },
        Event::ExpectSend { me: ME, host: HOST, data: bytes_window_adjust(50, short.len() as u32) },
        Event::ReturnRecv { me: ME, host: HOST, data: bytes_close(1) },
        Event::ExpectSend { me: ME, host: HOST, data: bytes_close(50) },
    ];
    let mut session = ApfSession::new(FakeHeci::new(script), NoHooks, ME, HOST);
    session.force_port_forward_ok();
    session.force_channel_state(50, 8192);
    let mut client = Client::new(ApfTransport::new(session), Credentials::digest("u", "p"));
    let mut body = [0u8; 64];
    let mut www = [0u8; 64];
    let mut rb = ResponseBuf::new(&mut body, &mut www);
    assert!(matches!(
        client.execute(request_body, &mut rb),
        Err(wsman::error::WsmanError::Parse("bad status digits"))
    ));
}
