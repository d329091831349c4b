//! The APF session: the handshake with the ME, one `forwarded-tcpip`
//! channel to AMT's HTTP port, and the byte stream over it.

use vstd::prelude::*;
use crate::error::{ApfError, HeciError};
use crate::heci::{HeciHooks, HeciTransport};
use crate::message::{be32, lemma_be32_roundtrip, lemma_be32_value_bytes, APF_SERVICE_REQUEST, APF_GLOBAL_REQUEST, APF_AMT_HTTP_PORT, APF_CHANNEL_DATA, APF_CHANNEL_OPEN_CONFIRMATION, APF_CHANNEL_OPEN_FAILURE, APF_CHANNEL_WINDOW_ADJUST, APF_CHANNEL_CLOSE, APF_KEEPALIVE_REQUEST, APF_PROTOCOLVERSION, LME_RX_WINDOW_SIZE, be32_value, service_accept_frame, request_success_frame, channel_open_frame, channel_data_frame, channel_close_frame, window_adjust_frame, keepalive_reply_frame, protocol_version_frame, encoded, read_be32, encode_service_accept, encode_request_success, encode_channel_open, encode_channel_data, encode_channel_close, encode_window_adjust, encode_keepalive_reply, encode_protocol_version};
use crate::text::{splice, copy_into};

verus! {

pub const RX_BUF_SIZE: usize = 4096;
pub const APF_MAX_INCOMING: usize = 512;
pub const INIT_ATTEMPTS: usize = 40;

/// A frame the session took from the HECI link, with its addresses.
pub struct Received {
    pub frame: Seq<u8>,
    pub me: u8,
    pub host: u8,
}

/// The big-endian `u32` at `off` in `d`.
pub open spec fn be32_at(d: Seq<u8>, off: int) -> u32 {
    be32_value(d.subrange(off, off + 4))
}

/// What the session does with an incoming APF message outside the
/// channel-data path.
pub enum ApfAction {
    /// The message is malformed; the text says how.
    Invalid(&'static str),
    /// The reply would not fit the reply buffer.
    ReplyTooLong,
    /// The message is taken: its type, the reply to send (if any), and
    /// whether it tells that port 16992 is now forwarded.
    Handled { mt: u8, reply: Option<Seq<u8>>, forward: bool },
}

/// The port a GLOBAL_REQUEST (`tcpip-forward`) names, whose name field is
/// `name_len` bytes long; 0 when the message ends before the port.
pub open spec fn global_request_port(data: Seq<u8>, name_len: int) -> u32 {
    let off = 6 + name_len;
    if off + 4 <= data.len() {
        let off2 = off + 4 + be32_at(data, off) as int;
        if off2 + 4 <= data.len() {
            be32_at(data, off2)
        } else {
            0
        }
    } else {
        0
    }
}

/// How the session answers the APF message `data`.
#[verifier::opaque]
pub open spec fn apf_action(data: Seq<u8>) -> ApfAction {
    if data.len() == 0 {
        ApfAction::Invalid("empty APF message")
    } else if data[0] == APF_SERVICE_REQUEST {
        if data.len() < 5 {
            ApfAction::Invalid("SERVICE_REQUEST too short")
        } else {
            let nl = be32_at(data, 1) as int;
            if data.len() < 5 + nl {
                ApfAction::Invalid("SERVICE_REQUEST truncated")
            } else if 5 + nl > 128 {
                ApfAction::ReplyTooLong
            } else {
                ApfAction::Handled {
                    mt: data[0],
                    reply: Some(service_accept_frame(data.subrange(5, 5 + nl))),
                    forward: false,
                }
            }
        }
    } else if data[0] == APF_GLOBAL_REQUEST {
        if data.len() < 5 {
            ApfAction::Invalid("GLOBAL_REQUEST short")
        } else {
            let nl = be32_at(data, 1) as int;
            if data.len() < 6 + nl {
                ApfAction::Invalid("GLOBAL_REQUEST truncated")
            } else {
                let port = global_request_port(data, nl);
                ApfAction::Handled {
                    mt: data[0],
                    reply: if data[5 + nl] != 0 { Some(request_success_frame(port)) } else { None },
                    forward: port == APF_AMT_HTTP_PORT,
                }
            }
        }
    } else {
        ApfAction::Handled { mt: data[0], reply: None, forward: false }
    }
}

/// Only a GLOBAL_REQUEST that names AMT's HTTP port (16992) marks the port
/// as forwarded: the port is the big-endian `u32` after the request name,
/// the want-reply byte and the length-prefixed address.
pub proof fn law_forwarding_needs_http_port(d: Seq<u8>)
    ensures
        apf_action(d) matches ApfAction::Handled { forward: true, .. } ==> {
            let name_len = be32_at(d, 1) as int;
            let addr_at = 6 + name_len;
            let port_at = addr_at + 4 + be32_at(d, addr_at) as int;
            &&& d.len() > 0 && d[0] == APF_GLOBAL_REQUEST
            &&& port_at + 4 <= d.len()
            &&& be32_at(d, port_at) == 16992
        },
        d.len() > 0 && d[0] == APF_GLOBAL_REQUEST && d.len() >= 5 && ({
            let name_len = be32_at(d, 1) as int;
            let addr_at = 6 + name_len;
            let port_at = addr_at + 4 + be32_at(d, addr_at) as int;
            port_at + 4 <= d.len() && be32_at(d, port_at) == 16992
        }) ==> apf_action(d) matches ApfAction::Handled { forward: true, .. },
{
    reveal(apf_action);
}

/// A SERVICE_REQUEST is answered by a SERVICE_ACCEPT for the same service:
/// the type byte 6, then the request's own length field and name, unchanged.
pub proof fn law_service_request_is_accepted(d: Seq<u8>)
    ensures
        d.len() > 0 && d[0] == APF_SERVICE_REQUEST ==> match apf_action(d) {
            ApfAction::Handled { reply: Some(x), forward, .. } => {
                let name_end = 5 + be32_at(d, 1) as int;
                &&& !forward
                &&& name_end <= d.len()
                &&& x.len() == name_end
                &&& x[0] == 6
                &&& x.subrange(1, name_end) == d.subrange(1, name_end)
            },
            ApfAction::Handled { reply: None, .. } => false,
            _ => true,
        },
{
    reveal(apf_action);
    if d.len() >= 5 && d[0] == APF_SERVICE_REQUEST {
        let nl = be32_at(d, 1);
        if 5 + nl <= d.len() && 5 + nl <= 128 {
            let name = d.subrange(5, 5 + nl as int);
            lemma_be32_value_bytes(d.subrange(1, 5));
            assert(d.subrange(1, 5).take(4) =~= d.subrange(1, 5));
            let x = service_accept_frame(name);
            assert(x.subrange(1, 5) =~= be32(name.len() as u32));
            assert(x.subrange(1, 5 + nl as int) =~= d.subrange(1, 5 + nl as int));
        }
    }
}

/// The sender channel after `s`: the next number modulo 32, skipping 0.
pub open spec fn next_sender(s: u32) -> u32 {
    let n = (if s == u32::MAX { 0 } else { s + 1 }) % 32;
    if n == 0 { 1 } else { n as u32 }
}

/// The sender channel after `k` channel opens starting from `s`.
pub open spec fn sender_after(s: u32, k: nat) -> u32
    decreases k,
{
    if k == 0 { s } else { next_sender(sender_after(s, (k - 1) as nat)) }
}

proof fn lemma_sender_after_add(s: u32, a: nat, b: nat)
    ensures
        sender_after(s, a + b) == sender_after(sender_after(s, a), b),
    decreases b,
{
    if b > 0 {
        lemma_sender_after_add(s, a, (b - 1) as nat);
        assert((a + b - 1) as nat == a + (b - 1) as nat);
    }
}

proof fn lemma_sender_steps(x: u32, j: nat)
    requires
        1 <= x <= 31,
    ensures
        sender_after(x, j) == ((x - 1 + j) % 31) + 1,
    decreases j,
{
    if j > 0 {
        lemma_sender_steps(x, (j - 1) as nat);
        let a = x - 1 + j - 1;
        assert(((a % 31) + 1) % 31 == (a + 1) % 31) by {
            vstd::arithmetic::div_mod::lemma_add_mod_noop(a, 1, 31);
        }
    }
}

/// After the first open, the sender channel is one of 1 to 31, and opens
/// cycle through all of them, coming back after 31.
pub proof fn law_sender_channels_cycle(s: u32, k: nat)
    requires
        k > 0,
    ensures
        1 <= sender_after(s, k) <= 31,
        sender_after(s, k + 31) == sender_after(s, k),
        sender_after(s, k + 1) == sender_after(s, k) % 31 + 1,
{
    let x = sender_after(s, k);
    assert(sender_after(s, k) == next_sender(sender_after(s, (k - 1) as nat)));
    lemma_sender_after_add(s, k, 31);
    lemma_sender_steps(x, 31);
    lemma_sender_after_add(s, k, 1);
    lemma_sender_steps(x, 1);
}

/// The payload of a CHANNEL_DATA frame.
pub open spec fn data_payload(frame: Seq<u8>) -> Seq<u8> {
    frame.subrange(9, 9 + be32_at(frame, 5) as int)
}

/// A CHANNEL_DATA frame is read back as the data it was encoded from.
pub proof fn law_channel_data_payload(recipient: u32, data: Seq<u8>)
    requires
        data.len() <= u32::MAX,
    ensures
        data_payload(channel_data_frame(recipient, data)) == data,
{
    let f = channel_data_frame(recipient, data);
    lemma_be32_roundtrip(data.len() as u32);
    lemma_be32_roundtrip(recipient);
    assert(f.subrange(5, 9) =~= be32(data.len() as u32));
    assert(f.subrange(9, 9 + data.len() as int) =~= data);
}

/// The bytes that the CHANNEL_DATA frames among `rs`, addressed from
/// `me`/`host`, carry, in order.
pub open spec fn stream_of(rs: Seq<Received>, me: u8, host: u8) -> Seq<u8>
    decreases rs.len(),
{
    if rs.len() == 0 {
        seq![]
    } else {
        let r = rs.last();
        stream_of(rs.drop_last(), me, host) + if r.me == me && r.host == host && r.frame.len() > 0
            && r.frame[0] == APF_CHANNEL_DATA {
            data_payload(r.frame)
        } else {
            seq![]
        }
    }
}

/// Where reading frames for `recv_bytes` stands.
pub enum RecvState {
    /// Reading goes on.
    Running,
    /// The ME closed the channel.
    Closed,
    /// A frame was malformed or would overflow the receive buffer.
    Failed(ApfError),
}

/// What the frame `f`, taken after the frames `prefix`, does to a read
/// that is going on, for the addresses `me`/`host`. Frames from other
/// addresses, and empty frames, are skipped.
pub open spec fn recv_step(prefix: Seq<Received>, f: Received, me: u8, host: u8) -> RecvState {
    if f.me != me || f.host != host || f.frame.len() == 0 {
        RecvState::Running
    } else if f.frame[0] == APF_CHANNEL_DATA {
        if f.frame.len() < 9 {
            RecvState::Failed(ApfError::Protocol("CHANNEL_DATA too short"))
        } else if f.frame.len() < 9 + be32_at(f.frame, 5) {
            RecvState::Failed(ApfError::Protocol("CHANNEL_DATA truncated"))
        } else if stream_of(prefix, me, host).len() + be32_at(f.frame, 5) > RX_BUF_SIZE {
            RecvState::Failed(ApfError::BufferTooSmall)
        } else {
            RecvState::Running
        }
    } else if f.frame[0] == APF_CHANNEL_CLOSE {
        RecvState::Closed
    } else {
        RecvState::Running
    }
}

/// Where reading the frames `rs` in order leaves a read; once it has
/// closed or failed, later frames change nothing.
pub open spec fn recv_state(rs: Seq<Received>, me: u8, host: u8) -> RecvState
    decreases rs.len(),
{
    if rs.len() == 0 {
        RecvState::Running
    } else {
        let p = rs.drop_last();
        match recv_state(p, me, host) {
            RecvState::Running => recv_step(p, rs.last(), me, host),
            other => other,
        }
    }
}

/// Where the handshake stands.
pub enum Handshake {
    /// Still reading: whether a PROTOCOL_VERSION has been taken, and how
    /// many receives have failed since the last message from the ME.
    Going { version: bool, misses: nat },
    /// Finished with this result.
    Done(Result<(), ApfError>),
}

/// How the handshake ends when it runs out of attempts.
pub open spec fn handshake_end(version: bool, forward: bool) -> Result<(), ApfError> {
    if !version {
        Err(ApfError::Protocol("protocol version not received"))
    } else if !forward {
        Err(ApfError::Timeout("tcpip-forward"))
    } else {
        Ok(())
    }
}

/// What one receive `ev` does to a handshake that is going on, with port
/// 16992 forwarded already when `forward`.
pub open spec fn handshake_step(version: bool, misses: nat, forward: bool, ev: Result<Received, HeciError>, me: u8, host: u8) -> Handshake {
    match ev {
        Err(_) => if forward {
            Handshake::Done(Ok(()))
        } else if misses + 1 >= 2 {
            Handshake::Done(if version {
                Err(ApfError::Timeout("tcpip-forward"))
            } else {
                Err(ApfError::Protocol("protocol version not received"))
            })
        } else {
            Handshake::Going { version, misses: misses + 1 }
        },
        Ok(f) => if f.me != me || f.host != host {
            Handshake::Going { version, misses }
        } else {
            match apf_action(f.frame) {
                ApfAction::Invalid(m) => Handshake::Done(Err(ApfError::Protocol(m))),
                ApfAction::ReplyTooLong => Handshake::Done(Err(ApfError::BufferTooSmall)),
                ApfAction::Handled { mt, forward: fw, .. } => if forward || fw {
                    Handshake::Done(Ok(()))
                } else {
                    Handshake::Going { version: version || mt == APF_PROTOCOLVERSION, misses: 0 }
                },
            }
        },
    }
}

/// The receive `ev` is a message from the ME that tells that port 16992 is
/// forwarded.
pub open spec fn handshake_forward(ev: Result<Received, HeciError>, me: u8, host: u8) -> bool {
    ev matches Ok(f) && f.me == me && f.host == host
        && apf_action(f.frame) matches ApfAction::Handled { forward: true, .. }
}

/// The answer sent to the receive `ev` during the handshake, if any.
pub open spec fn handshake_reply(ev: Result<Received, HeciError>, me: u8, host: u8) -> Seq<Seq<u8>> {
    match ev {
        Ok(f) => if f.me == me && f.host == host {
            match apf_action(f.frame) {
                ApfAction::Handled { reply: Some(x), .. } => seq![x],
                _ => seq![],
            }
        } else {
            seq![]
        },
        Err(_) => seq![],
    }
}

/// Where the receives `evs` leave a handshake that started with port 16992
/// forwarded when `fw0`.
pub open spec fn handshake_state(evs: Seq<Result<Received, HeciError>>, me: u8, host: u8, fw0: bool) -> Handshake
    decreases evs.len(), 1int,
{
    if evs.len() == 0 {
        Handshake::Going { version: false, misses: 0 }
    } else {
        let p = evs.drop_last();
        match handshake_state(p, me, host, fw0) {
            Handshake::Going { version, misses } => handshake_step(
                version,
                misses,
                fw0 || handshake_forwards(p, me, host, fw0),
                evs.last(),
                me,
                host,
            ),
            d => d,
        }
    }
}

/// Some receive among `evs`, taken while the handshake went on, tells that
/// port 16992 is forwarded.
pub open spec fn handshake_forwards(evs: Seq<Result<Received, HeciError>>, me: u8, host: u8, fw0: bool) -> bool
    decreases evs.len(), 0int,
{
    if evs.len() == 0 {
        false
    } else {
        let p = evs.drop_last();
        if handshake_state(p, me, host, fw0) is Going {
            handshake_forwards(p, me, host, fw0) || handshake_forward(evs.last(), me, host)
        } else {
            handshake_forwards(p, me, host, fw0)
        }
    }
}

/// The answers sent during a handshake, for the receives `evs`.
pub open spec fn handshake_replies(evs: Seq<Result<Received, HeciError>>, me: u8, host: u8, fw0: bool) -> Seq<Seq<u8>>
    decreases evs.len(),
{
    if evs.len() == 0 {
        seq![]
    } else {
        let p = evs.drop_last();
        if handshake_state(p, me, host, fw0) is Going {
            handshake_replies(p, me, host, fw0) + handshake_reply(evs.last(), me, host)
        } else {
            handshake_replies(p, me, host, fw0)
        }
    }
}

/// Taking one more receive `ev` into a handshake that goes on after `evs`.
pub proof fn lemma_handshake_push(evs: Seq<Result<Received, HeciError>>, ev: Result<Received, HeciError>, me: u8, host: u8, fw0: bool)
    requires
        handshake_state(evs, me, host, fw0) is Going,
    ensures
        handshake_state(evs.push(ev), me, host, fw0) == handshake_step(
            handshake_state(evs, me, host, fw0)->version,
            handshake_state(evs, me, host, fw0)->misses,
            fw0 || handshake_forwards(evs, me, host, fw0),
            ev,
            me,
            host,
        ),
        handshake_forwards(evs.push(ev), me, host, fw0) == (handshake_forwards(evs, me, host, fw0) || handshake_forward(ev, me, host)),
        handshake_replies(evs.push(ev), me, host, fw0) == handshake_replies(evs, me, host, fw0) + handshake_reply(ev, me, host),
{
    let t = evs.push(ev);
    assert(t.drop_last() =~= evs);
    assert(t.last() == ev);
}

/// Where waiting for the answer to a CHANNEL_OPEN stands.
pub enum OpenState {
    /// Still waiting.
    Waiting,
    /// A CONFIRMATION arrived.
    Confirmed,
    /// The wait ended with this error.
    Failed(ApfError),
}

/// What the frame `f` does to a wait for the answer to a CHANNEL_OPEN, for
/// the addresses `me`/`host`: frames from other addresses are skipped, a
/// CONFIRMATION or FAILURE answers, and any other message is handled as
/// `process_apf` handles it.
pub open spec fn open_step(f: Received, me: u8, host: u8) -> OpenState {
    if f.me != me || f.host != host {
        OpenState::Waiting
    } else if f.frame.len() == 0 {
        OpenState::Failed(ApfError::Protocol("empty message"))
    } else if f.frame[0] == APF_CHANNEL_OPEN_CONFIRMATION {
        if f.frame.len() < 13 {
            OpenState::Failed(ApfError::Protocol("CONFIRMATION too short"))
        } else {
            OpenState::Confirmed
        }
    } else if f.frame[0] == APF_CHANNEL_OPEN_FAILURE {
        OpenState::Failed(ApfError::OpenRejected(if f.frame.len() >= 9 { be32_at(f.frame, 5) } else { 0 }))
    } else {
        match apf_action(f.frame) {
            ApfAction::Invalid(m) => OpenState::Failed(ApfError::Protocol(m)),
            ApfAction::ReplyTooLong => OpenState::Failed(ApfError::BufferTooSmall),
            ApfAction::Handled { .. } => OpenState::Waiting,
        }
    }
}

/// The message `f` is one the wait hands to `process_apf`, which takes it.
pub open spec fn open_handled(f: Received, me: u8, host: u8) -> bool {
    &&& f.me == me && f.host == host && f.frame.len() > 0
    &&& f.frame[0] != APF_CHANNEL_OPEN_CONFIRMATION && f.frame[0] != APF_CHANNEL_OPEN_FAILURE
    &&& apf_action(f.frame) is Handled
}

/// The answer the session sends to `f` while waiting, if any.
pub open spec fn open_reply(f: Received, me: u8, host: u8) -> Seq<Seq<u8>> {
    if open_handled(f, me, host) {
        match apf_action(f.frame) {
            ApfAction::Handled { reply: Some(x), .. } => seq![x],
            _ => seq![],
        }
    } else {
        seq![]
    }
}

/// `f`, taken while waiting, tells that port 16992 is forwarded.
pub open spec fn open_forward(f: Received, me: u8, host: u8) -> bool {
    open_handled(f, me, host) && apf_action(f.frame) matches ApfAction::Handled { forward: true, .. }
}

/// Where waiting leaves after the frames `rs`; an answer or an error is final.
pub open spec fn open_state(rs: Seq<Received>, me: u8, host: u8) -> OpenState
    decreases rs.len(),
{
    if rs.len() == 0 {
        OpenState::Waiting
    } else {
        match open_state(rs.drop_last(), me, host) {
            OpenState::Waiting => open_step(rs.last(), me, host),
            other => other,
        }
    }
}

/// The answers sent while waiting, for the frames `rs`.
pub open spec fn open_replies(rs: Seq<Received>, me: u8, host: u8) -> Seq<Seq<u8>>
    decreases rs.len(),
{
    if rs.len() == 0 {
        seq![]
    } else if open_state(rs.drop_last(), me, host) is Waiting {
        open_replies(rs.drop_last(), me, host) + open_reply(rs.last(), me, host)
    } else {
        open_replies(rs.drop_last(), me, host)
    }
}

/// Some frame among `rs`, taken while waiting, tells that port 16992 is
/// forwarded.
pub open spec fn open_forwards(rs: Seq<Received>, me: u8, host: u8) -> bool
    decreases rs.len(),
{
    if rs.len() == 0 {
        false
    } else if open_state(rs.drop_last(), me, host) is Waiting {
        open_forwards(rs.drop_last(), me, host) || open_forward(rs.last(), me, host)
    } else {
        open_forwards(rs.drop_last(), me, host)
    }
}

/// Taking one more frame `f` while waiting after `rs`.
pub proof fn lemma_open_push(rs: Seq<Received>, f: Received, me: u8, host: u8)
    requires
        open_state(rs, me, host) is Waiting,
    ensures
        open_state(rs.push(f), me, host) == open_step(f, me, host),
        open_replies(rs.push(f), me, host) == open_replies(rs, me, host) + open_reply(f, me, host),
        open_forwards(rs.push(f), me, host) == (open_forwards(rs, me, host) || open_forward(f, me, host)),
{
    let t = rs.push(f);
    assert(t.drop_last() =~= rs);
    assert(t.last() == f);
}

/// The number of frames `channel_open` waits for at most.
pub const OPEN_ATTEMPTS: usize = 30;

/// The frames the session sends in answer to the frame `f`, taken while a
/// read goes on after the frames `prefix`, on a channel to `recipient` that
/// is open when `active`: a WINDOW_ADJUST for each well-formed data frame, a
/// CHANNEL_CLOSE for a close of an open channel, a KEEPALIVE_REPLY for a
/// keep-alive.
pub open spec fn recv_reply(prefix: Seq<Received>, f: Received, me: u8, host: u8, recipient: u32, active: bool) -> Seq<Seq<u8>> {
    if f.me != me || f.host != host || f.frame.len() == 0 {
        seq![]
    } else if f.frame[0] == APF_CHANNEL_DATA {
        if recv_step(prefix, f, me, host) is Running {
            seq![window_adjust_frame(recipient, be32_at(f.frame, 5))]
        } else {
            seq![]
        }
    } else if f.frame[0] == APF_CHANNEL_CLOSE {
        if active { seq![channel_close_frame(recipient)] } else { seq![] }
    } else if f.frame[0] == APF_KEEPALIVE_REQUEST && f.frame.len() >= 5 {
        seq![keepalive_reply_frame(be32_at(f.frame, 1))]
    } else {
        seq![]
    }
}

/// Every frame the session sends in answer to the frames `rs` of a read.
pub open spec fn recv_replies(rs: Seq<Received>, me: u8, host: u8, recipient: u32, active: bool) -> Seq<Seq<u8>>
    decreases rs.len(),
{
    if rs.len() == 0 {
        seq![]
    } else {
        let p = rs.drop_last();
        if recv_state(p, me, host) is Running {
            recv_replies(p, me, host, recipient, active) + recv_reply(p, rs.last(), me, host, recipient, active)
        } else {
            recv_replies(p, me, host, recipient, active)
        }
    }
}

/// `w + a`, saturating at `u32::MAX`.
pub open spec fn saturating_add_u32(w: u32, a: u32) -> u32 {
    if w + a > u32::MAX { u32::MAX } else { (w + a) as u32 }
}

/// The send window after a read of the frames `rs` that started with
/// window `w`: each WINDOW_ADJUST adds its amount.
pub open spec fn recv_window(rs: Seq<Received>, me: u8, host: u8, w: u32) -> u32
    decreases rs.len(),
{
    if rs.len() == 0 {
        w
    } else {
        let p = rs.drop_last();
        let f = rs.last();
        let before = recv_window(p, me, host, w);
        if recv_state(p, me, host) is Running && f.me == me && f.host == host && f.frame.len() >= 9
            && f.frame[0] == APF_CHANNEL_WINDOW_ADJUST {
            saturating_add_u32(before, be32_at(f.frame, 5))
        } else {
            before
        }
    }
}

/// Taking one more frame `f` into a read that goes on after `rs`.
pub proof fn lemma_recv_push(rs: Seq<Received>, f: Received, me: u8, host: u8, recipient: u32, active: bool, w: u32)
    requires
        recv_state(rs, me, host) is Running,
    ensures
        recv_state(rs.push(f), me, host) == recv_step(rs, f, me, host),
        recv_replies(rs.push(f), me, host, recipient, active) == recv_replies(rs, me, host, recipient, active)
            + recv_reply(rs, f, me, host, recipient, active),
        recv_window(rs.push(f), me, host, w) == if f.me == me && f.host == host && f.frame.len() >= 9
            && f.frame[0] == APF_CHANNEL_WINDOW_ADJUST {
            saturating_add_u32(recv_window(rs, me, host, w), be32_at(f.frame, 5))
        } else {
            recv_window(rs, me, host, w)
        },
{
    let t = rs.push(f);
    assert(t.drop_last() =~= rs);
    assert(t.last() == f);
}

/// A read never shrinks the send window: whatever frames it takes, the
/// window it ends with is at least the one it started with.
pub proof fn law_window_never_shrinks(rs: Seq<Received>, me: u8, host: u8, w: u32)
    ensures
        recv_window(rs, me, host, w) >= w,
    decreases rs.len(),
{
    if rs.len() > 0 {
        law_window_never_shrinks(rs.drop_last(), me, host, w);
    }
}

/// A WINDOW_ADJUST from the ME, taken while a read goes on, adds its amount
/// (the big-endian `u32` at offset 5) to the send window, which stops at
/// `u32::MAX`.
pub proof fn law_window_adjust_adds(rs: Seq<Received>, f: Received, me: u8, host: u8, w: u32)
    requires
        recv_state(rs, me, host) is Running,
        f.me == me && f.host == host,
        f.frame.len() >= 9 && f.frame[0] == APF_CHANNEL_WINDOW_ADJUST,
    ensures
        recv_window(rs, me, host, w) + be32_at(f.frame, 5) <= u32::MAX ==>
            recv_window(rs.push(f), me, host, w) == recv_window(rs, me, host, w) + be32_at(f.frame, 5),
        recv_window(rs, me, host, w) + be32_at(f.frame, 5) > u32::MAX ==>
            recv_window(rs.push(f), me, host, w) == u32::MAX,
{
    lemma_recv_push(rs, f, me, host, 0, false, w);
}

/// The number of frames `recv_bytes` takes at most.
pub const RECV_ATTEMPTS: usize = 100;

/// The receive events of a run that took the frames `rs`, one after the
/// other, with no failure of the link.
pub open spec fn taken_events(rs: Seq<Received>) -> Seq<Result<Received, HeciError>> {
    Seq::new(rs.len(), |i: int| Ok(rs[i]))
}

/// The link took every frame whose send results are `sr`.
pub open spec fn all_sent(sr: Seq<Option<HeciError>>) -> bool {
    forall|i: int| 0 <= i < sr.len() ==> sr[i] is None
}

/// `n` copies of the address pair `(me, host)`.
pub open spec fn addressed(n: nat, me: u8, host: u8) -> Seq<(u8, u8)> {
    Seq::new(n, |i: int| (me, host))
}

/// `a`, or `b` where that is smaller.
pub open spec fn min_nat(a: nat, b: nat) -> nat {
    if a <= b { a } else { b }
}

pub struct ApfSession<T: HeciTransport, H: HeciHooks> {
    heci: T,
    hooks: H,
    me_addr: u8,
    host_addr: u8,
    sender_channel: u32,
    recipient_channel: u32,
    tx_window: u32,
    channel_active: bool,
    rx_buf: [u8; 4096],
    rx_len: usize,
    port_forward_ok: bool,
    sent: Ghost<Seq<Seq<u8>>>,
    received: Ghost<Seq<Received>>,
    hook_marks: Ghost<Seq<(nat, nat)>>,
    reconnects: Ghost<Seq<Option<HeciError>>>,
    recv_events: Ghost<Seq<Result<Received, HeciError>>>,
    sent_to: Ghost<Seq<(u8, u8)>>,
    send_log: Ghost<Seq<Option<HeciError>>>,
    marks: Ghost<Seq<nat>>,
}

impl<T: HeciTransport, H: HeciHooks> ApfSession<T, H> {
    pub closed spec fn me(&self) -> u8 {
        self.me_addr
    }

    pub closed spec fn host(&self) -> u8 {
        self.host_addr
    }

    pub closed spec fn sender(&self) -> u32 {
        self.sender_channel
    }

    pub closed spec fn recipient(&self) -> u32 {
        self.recipient_channel
    }

    pub closed spec fn window(&self) -> u32 {
        self.tx_window
    }

    pub closed spec fn active(&self) -> bool {
        self.channel_active
    }

    pub closed spec fn forward_ok(&self) -> bool {
        self.port_forward_ok
    }

    pub closed spec fn hooks_of(&self) -> H {
        self.hooks
    }

    /// Every frame handed to the HECI link, in order.
    pub closed spec fn sent(&self) -> Seq<Seq<u8>> {
        self.sent@
    }

    /// Every frame taken from the HECI link, in order.
    pub closed spec fn received(&self) -> Seq<Received> {
        self.received@
    }

    /// How many times the session has called `post_channel_open_send`.
    pub closed spec fn open_hook_calls(&self) -> nat {
        self.hook_marks@.len()
    }

    /// For each call of `post_channel_open_send`, in order: how many frames
    /// had been handed to the link (`sent().len()`) and how many receives
    /// had been made (`recv_log().len()`) when it was called.
    pub closed spec fn open_hook_log(&self) -> Seq<(nat, nat)> {
        self.hook_marks@
    }

    /// Each receive from the HECI link, in order: the frame taken, or the
    /// error where the link failed.
    pub closed spec fn recv_log(&self) -> Seq<Result<Received, HeciError>> {
        self.recv_events@
    }

    /// The (ME, host) addresses each frame of `sent()` was handed over to,
    /// in order.
    pub closed spec fn sent_to(&self) -> Seq<(u8, u8)> {
        self.sent_to@
    }

    /// What the HECI link answered to each frame of `sent()`, in order:
    /// `None` where it took the frame, the error where it failed.
    pub closed spec fn send_results(&self) -> Seq<Option<HeciError>> {
        self.send_log@
    }

    /// For each frame of `sent()`, in order: how many frames `received()`
    /// held when it was handed to the link.
    pub closed spec fn sent_marks(&self) -> Seq<nat> {
        self.marks@
    }

    /// The transport the session runs over.
    pub closed spec fn heci_of(&self) -> T {
        self.heci
    }

    /// What each call of `reconnect_heci` the session has made gave back:
    /// `None` where it succeeded, the error where it failed.
    pub closed spec fn reconnect_log(&self) -> Seq<Option<HeciError>> {
        self.reconnects@
    }

    /// The same channel state and addresses in `self` and `other`.
    pub open spec fn same_channel(&self, other: &Self) -> bool {
        &&& self.me() == other.me()
        &&& self.host() == other.host()
        &&& self.sender() == other.sender()
        &&& self.recipient() == other.recipient()
        &&& self.window() == other.window()
        &&& self.active() == other.active()
    }

    pub fn new(heci: T, hooks: H, me_addr: u8, host_addr: u8) -> (s: Self)
        ensures
            s.me() == me_addr,
            s.host() == host_addr,
            s.sender() == 0,
            s.recipient() == 0,
            s.window() == 0,
            !s.active(),
            !s.forward_ok(),
            s.hooks_of() == hooks,
            s.heci_of() == heci,
            s.sent() == Seq::<Seq<u8>>::empty(),
            s.received() == Seq::<Received>::empty(),
            s.send_results() == Seq::<Option<HeciError>>::empty(),
            s.recv_log() == Seq::<Result<Received, HeciError>>::empty(),
            s.sent_marks() == Seq::<nat>::empty(),
    {
        Self {
            heci,
            hooks,
            me_addr,
            host_addr,
            sender_channel: 0,
            recipient_channel: 0,
            tx_window: 0,
            channel_active: false,
            rx_buf: [0u8; 4096],
            rx_len: 0,
            port_forward_ok: false,
            sent: Ghost(Seq::empty()),
            received: Ghost(Seq::empty()),
            hook_marks: Ghost(Seq::empty()),
            reconnects: Ghost(Seq::empty()),
            recv_events: Ghost(Seq::empty()),
            sent_to: Ghost(Seq::empty()),
            send_log: Ghost(Seq::empty()),
            marks: Ghost(Seq::empty()),
        }
    }

    pub fn port_forwarding_established(&self) -> (r: bool)
        ensures
            r == self.forward_ok(),
    {
        self.port_forward_ok
    }

    pub fn channel_active(&self) -> (r: bool)
        ensures
            r == self.active(),
    {
        self.channel_active
    }

    pub fn recipient_channel(&self) -> (r: u32)
        ensures
            r == self.recipient(),
    {
        self.recipient_channel
    }

    pub fn tx_window(&self) -> (r: u32)
        ensures
            r == self.window(),
    {
        self.tx_window
    }

    pub fn hooks_ref(&self) -> (r: &H)
        ensures
            *r == self.hooks_of(),
    {
        &self.hooks
    }

    /// Test-only: bypass the handshake when unit-testing downstream operations.
    pub fn force_port_forward_ok(&mut self)
        ensures
            final(self).forward_ok(),
            final(self).same_channel(old(self)),
            final(self).sent() == old(self).sent(),
            final(self).received() == old(self).received(),
            final(self).hooks_of() == old(self).hooks_of(),
            final(self).open_hook_log() == old(self).open_hook_log(),
            final(self).reconnect_log() == old(self).reconnect_log(),
            final(self).recv_log() == old(self).recv_log(),
            final(self).sent_marks() == old(self).sent_marks(),
    {
        self.port_forward_ok = true;
    }

    /// Test-only: mark a channel as open with the given recipient and
    /// window, without the exchange that opens one.
    pub fn force_channel_state(&mut self, recipient_channel: u32, tx_window: u32)
        ensures
            final(self).active(),
            final(self).recipient() == recipient_channel,
            final(self).window() == tx_window,
            final(self).me() == old(self).me(),
            final(self).host() == old(self).host(),
            final(self).sender() == old(self).sender(),
            final(self).forward_ok() == old(self).forward_ok(),
            final(self).sent() == old(self).sent(),
            final(self).received() == old(self).received(),
    {
        self.channel_active = true;
        self.recipient_channel = recipient_channel;
        self.tx_window = tx_window;
    }

    /// Hands `data` to the HECI link.
    fn raw_send(&mut self, data: &[u8]) -> (r: Result<(), ApfError>)
        ensures
            final(self).sent() == old(self).sent().push(data@),
            final(self).received() == old(self).received(),
            final(self).same_channel(old(self)),
            final(self).forward_ok() == old(self).forward_ok(),
            final(self).hooks_of() == old(self).hooks_of(),
            final(self).rx_len == old(self).rx_len,
            final(self).rx_buf == old(self).rx_buf,
            r matches Err(e) ==> e is Heci,
            final(self).open_hook_log() == old(self).open_hook_log(),
            final(self).reconnect_log() == old(self).reconnect_log(),
            final(self).recv_log() == old(self).recv_log(),
            final(self).sent_to() == old(self).sent_to().push((old(self).me(), old(self).host())),
            final(self).send_results() == old(self).send_results().push(match r {
                Err(ApfError::Heci(e)) => Some(e),
                _ => None,
            }),
            final(self).sent_marks() == old(self).sent_marks().push(old(self).received().len()),
    {
        self.sent = Ghost(self.sent@.push(data@));
        self.marks = Ghost(self.marks@.push(self.received@.len()));
        self.sent_to = Ghost(self.sent_to@.push((self.me_addr, self.host_addr)));
        match self.heci.send(self.me_addr, self.host_addr, data) {
            Ok(()) => {
                self.send_log = Ghost(self.send_log@.push(None));
                Ok(())
            },
            Err(e) => {
                self.send_log = Ghost(self.send_log@.push(Some(e)));
                Err(ApfError::Heci(e))
            },
        }
    }

    /// Takes one frame from the HECI link into `buf`; a frame longer than
    /// `buf` counts as a HECI `BufferTooSmall` error.
    fn raw_recv(&mut self, buf: &mut [u8]) -> (r: Result<(usize, u8, u8), HeciError>)
        ensures
            match r {
                Ok((len, me, host)) => {
                    &&& len <= final(buf)@.len()
                    &&& final(self).received() == old(self).received().push(
                        Received { frame: final(buf)@.take(len as int), me, host },
                    )
                },
                Err(_) => final(self).received() == old(self).received(),
            },
            final(self).sent() == old(self).sent(),
            final(self).same_channel(old(self)),
            final(self).forward_ok() == old(self).forward_ok(),
            final(self).hooks_of() == old(self).hooks_of(),
            final(self).rx_len == old(self).rx_len,
            final(self).rx_buf == old(self).rx_buf,
            final(self).open_hook_log() == old(self).open_hook_log(),
            final(self).reconnect_log() == old(self).reconnect_log(),
            final(self).recv_log() == old(self).recv_log().push(match r {
                Ok((len, me, host)) => Ok(Received { frame: final(buf)@.take(len as int), me, host }),
                Err(e) => Err(e),
            }),
            final(self).sent_to() == old(self).sent_to(),
            final(self).send_results() == old(self).send_results(),
            final(self).sent_marks() == old(self).sent_marks(),
    {
        let r = self.heci.recv(buf);
        match r {
            Ok((len, me, host)) => {
                if len > buf.len() {
                    self.recv_events = Ghost(self.recv_events@.push(Err(HeciError::BufferTooSmall)));
                    return Err(HeciError::BufferTooSmall);
                }
                self.received = Ghost(self.received@.push(Received { frame: buf@.take(len as int), me, host }));
                self.recv_events = Ghost(self.recv_events@.push(Ok(Received { frame: buf@.take(len as int), me, host })));
                Ok((len, me, host))
            },
            Err(e) => {
                self.recv_events = Ghost(self.recv_events@.push(Err(e)));
                Err(e)
            },
        }
    }

    /// What opening a channel does to the session `before`, leaving it
    /// `after` with result `r`.
    pub open spec fn open_outcome(before: Self, after: Self, r: Result<(), ApfError>) -> bool {
        let me = before.me();
        let host = before.host();
        let open = channel_open_frame(next_sender(before.sender()), LME_RX_WINDOW_SIZE, APF_AMT_HTTP_PORT);
        let rs = after.received().skip(before.received().len() as int);
        let evs = after.recv_log().skip(before.recv_log().len() as int);
        let sr = after.send_results().skip(before.send_results().len() as int);
        let st = open_state(rs, me, host);
        &&& after.me() == me
        &&& after.host() == host
        &&& after.sender() == next_sender(before.sender())
        &&& after.received().len() >= before.received().len()
        &&& after.received().take(before.received().len() as int) =~= before.received()
        &&& after.recv_log().len() >= before.recv_log().len()
        &&& after.recv_log().take(before.recv_log().len() as int) =~= before.recv_log()
        &&& after.send_results().len() >= before.send_results().len()
        &&& after.send_results().take(before.send_results().len() as int) =~= before.send_results()
        // The CHANNEL_OPEN goes first, then the answers to what arrives while waiting.
        &&& after.sent() =~= before.sent().push(open) + open_replies(rs, me, host)
        &&& sr.len() == after.sent().len() - before.sent().len()
        &&& after.sent_marks().len() - before.sent_marks().len() == after.sent().len() - before.sent().len()
        &&& after.sent_marks().take(before.sent_marks().len() as int) =~= before.sent_marks()
        &&& after.sent_to() =~= before.sent_to() + addressed((after.sent().len() - before.sent().len()) as nat, me, host)
        // The hook runs once the link took the CHANNEL_OPEN, before the first receive.
        &&& after.open_hook_log() == if sr[0] is None {
            before.open_hook_log().push((before.sent().len() + 1, before.recv_log().len()))
        } else {
            before.open_hook_log()
        }
        &&& r is Ok ==> {
            let f = after.received().last();
            &&& after.received().len() > before.received().len()
            &&& after.active()
            &&& f.me == me && f.host == host
            &&& f.frame.len() >= 13 && f.frame[0] == APF_CHANNEL_OPEN_CONFIRMATION
            &&& after.recipient() == be32_at(f.frame, 5)
            &&& after.window() == be32_at(f.frame, 9)
        }
        &&& r matches Err(ApfError::OpenRejected(reason)) ==> {
            let f = after.received().last();
            &&& after.received().len() > before.received().len()
            &&& f.me == me && f.host == host
            &&& f.frame.len() > 0 && f.frame[0] == APF_CHANNEL_OPEN_FAILURE
            &&& reason == if f.frame.len() >= 9 { be32_at(f.frame, 5) } else { 0 }
        }
        &&& r is Err ==> after.active() == before.active() && after.recipient() == 0 && after.window() == 0
        &&& evs.len() <= OPEN_ATTEMPTS
        &&& evs == taken_events(rs) || (evs.len() == rs.len() + 1 && evs.drop_last() == taken_events(rs) && evs.last() is Err)
        // A receive failed: the wait ends with the link's error.
        &&& evs.len() > rs.len() ==> all_sent(sr) && (evs.last() matches Err(e) && r == Err::<(), ApfError>(ApfError::Heci(e)))
        // A send failed: the wait ends at once with the link's error.
        &&& forall|i: int| 0 <= i < sr.len() && (#[trigger] sr[i]) is Some ==> {
            &&& i == sr.len() - 1
            &&& r == Err::<(), ApfError>(ApfError::Heci(sr[i]->0))
            &&& evs == taken_events(rs)
        }
        // Every send and every receive went through.
        &&& evs == taken_events(rs) && all_sent(sr) ==> {
            &&& if st is Waiting {
                rs.len() == OPEN_ATTEMPTS && r == Err::<(), ApfError>(ApfError::Timeout("CHANNEL_OPEN_CONFIRMATION"))
            } else {
                rs.len() > 0 && open_state(rs.drop_last(), me, host) is Waiting
            }
            &&& st is Confirmed ==> r is Ok
            &&& st matches OpenState::Failed(e) ==> r == Err::<(), ApfError>(e)
            &&& after.forward_ok() == (before.forward_ok() || open_forwards(rs, me, host))
        }
        &&& after.reconnect_log() == before.reconnect_log()
        &&& before.forward_ok() ==> after.forward_ok()
    }

    /// Opens a `forwarded-tcpip` channel to AMT's HTTP port.
    #[verifier::rlimit(100)]
    #[verifier::spinoff_prover]
    pub fn channel_open(&mut self) -> (r: Result<(), ApfError>)
        ensures
            Self::open_outcome(*old(self), *final(self), r),
    {
        self.sender_channel = self.sender_channel.wrapping_add(1) % 32;
        if self.sender_channel == 0 {
            self.sender_channel = 1;
        }
        self.recipient_channel = 0;
        self.tx_window = 0;
        let mut msg = [0u8; 72];
        let n = match encode_channel_open(&mut msg, self.sender_channel, LME_RX_WINDOW_SIZE, APF_AMT_HTTP_PORT) {
            Ok(n) => n,
            Err(e) => return Err(e),
        };
        assert(msg@.subrange(0, n as int) =~= channel_open_frame(self.sender_channel, LME_RX_WINDOW_SIZE, APF_AMT_HTTP_PORT));
        let ghost s0: int = old(self).sent@.len() as int;
        let ghost r0: int = old(self).received@.len() as int;
        let ghost e0: int = old(self).recv_events@.len() as int;
        let ghost q0: int = old(self).send_log@.len() as int;
        let ghost me0 = self.me_addr;
        let ghost host0 = self.host_addr;
        let ghost open = channel_open_frame(next_sender(old(self).sender_channel), LME_RX_WINDOW_SIZE, APF_AMT_HTTP_PORT);
        let res = self.raw_send(&msg[0..n]);
        proof {
            assert(self.received@.skip(r0) =~= Seq::<Received>::empty());
            assert(self.recv_events@.skip(e0) =~= taken_events(Seq::<Received>::empty()));
            assert(self.recv_events@.take(e0) =~= old(self).recv_events@);
            assert(self.received@.take(r0) =~= old(self).received@);
            assert(self.send_log@.take(q0) =~= old(self).send_log@);
            assert(self.send_log@.skip(q0) =~= seq![self.send_log@.last()]);
            assert(self.marks@.take(old(self).marks@.len() as int) =~= old(self).marks@);
            assert(self.sent@ =~= old(self).sent@.push(open) + open_replies(self.received@.skip(r0), me0, host0));
            assert(self.sent_to@ =~= old(self).sent_to@ + addressed(1, me0, host0));
        }
        match res {
            Ok(()) => {},
            Err(e) => return Err(e),
        }
        self.hooks.post_channel_open_send();
        self.hook_marks = Ghost(self.hook_marks@.push((self.sent@.len(), self.recv_events@.len())));
        let mut attempt: usize = 0;
        while attempt < 30
            invariant
                attempt <= 30,
                s0 == old(self).sent@.len(),
                r0 == old(self).received@.len(),
                e0 == old(self).recv_events@.len(),
                q0 == old(self).send_log@.len(),
                me0 == old(self).me_addr && host0 == old(self).host_addr,
                open == channel_open_frame(next_sender(old(self).sender_channel), LME_RX_WINDOW_SIZE, APF_AMT_HTTP_PORT),
                self.received@.len() - r0 == attempt,
                self.received@.len() >= r0,
                self.received@.take(r0) == old(self).received@,
                self.recv_events@.len() >= e0,
                self.recv_events@.take(e0) == old(self).recv_events@,
                self.recv_events@.skip(e0) == taken_events(self.received@.skip(r0)),
                self.send_log@.len() > q0,
                self.send_log@.take(q0) == old(self).send_log@,
                self.send_log@.len() - q0 == self.sent@.len() - s0,
                self.marks@.len() - old(self).marks@.len() == self.sent@.len() - s0,
                self.marks@.take(old(self).marks@.len() as int) == old(self).marks@,
                all_sent(self.send_log@.skip(q0)),
                open_state(self.received@.skip(r0), me0, host0) is Waiting,
                self.hook_marks@ == old(self).hook_marks@.push(((s0 + 1) as nat, e0 as nat)),
                self.reconnects@ == old(self).reconnects@,
                self.sent@ == old(self).sent@.push(open) + open_replies(self.received@.skip(r0), me0, host0),
                self.sent_to@ == old(self).sent_to@ + addressed((self.sent@.len() - s0) as nat, me0, host0),
                self.port_forward_ok == (old(self).port_forward_ok || open_forwards(self.received@.skip(r0), me0, host0)),
                self.me_addr == me0,
                self.host_addr == host0,
                self.sender_channel == next_sender(old(self).sender_channel),
                self.recipient_channel == 0,
                self.tx_window == 0,
                self.channel_active == old(self).channel_active,
            decreases 30 - attempt,
        {
            attempt = attempt + 1;
            let mut buf = [0u8; 512];
            let ghost sent_before = self.sent@;
            let ghost recv_before = self.received@;
            let ghost evs_before = self.recv_events@;
            let ghost log_before = self.send_log@;
            let ghost to_before = self.sent_to@;
            let ghost marks_before = self.marks@;
            let got = self.raw_recv(&mut buf);
            let (len, me, host) = match got {
                Ok(v) => v,
                Err(e) => {
                    proof {
                        assert(self.recv_events@.take(e0) =~= evs_before.take(e0));
                        assert(self.recv_events@.skip(e0).drop_last() =~= evs_before.skip(e0));
                    }
                    return Err(ApfError::Heci(e));
                },
            };
            let ghost rec = self.received@.last();
            let ghost rs_before = recv_before.skip(r0);
            proof {
                assert(self.received@.take(r0) =~= recv_before.take(r0));
                assert(self.received@.skip(r0) =~= rs_before.push(rec));
                assert(self.received@.skip(r0).drop_last() =~= rs_before);
                assert(self.recv_events@.take(e0) =~= evs_before.take(e0));
                assert(self.recv_events@.skip(e0) =~= evs_before.skip(e0).push(Ok(rec)));
                assert(taken_events(rs_before.push(rec)) =~= taken_events(rs_before).push(Ok(rec)));
                lemma_open_push(rs_before, rec, me0, host0);
            }
            if me != self.me_addr || host != self.host_addr {
                assert(open_reply(rec, me0, host0) =~= Seq::<Seq<u8>>::empty());
                assert(self.sent@ =~= old(self).sent@.push(open) + open_replies(self.received@.skip(r0), me0, host0));
                continue;
            }
            let frame = &buf[0..len];
            assert(frame@ == self.received@.last().frame);
            proof {
                if !open_handled(rec, me0, host0) {
                    assert(open_reply(rec, me0, host0) =~= Seq::<Seq<u8>>::empty());
                    assert(self.sent@ =~= old(self).sent@.push(open) + open_replies(self.received@.skip(r0), me0, host0));
                }
            }
            let mt = match data_first_byte(frame) {
                Ok(m) => m,
                Err(e) => return Err(e),
            };
            if mt == APF_CHANNEL_OPEN_CONFIRMATION {
                if len < 13 {
                    return Err(ApfError::Protocol("CONFIRMATION too short"));
                }
                self.recipient_channel = read_be32(&buf[5..9]);
                self.tx_window = read_be32(&buf[9..13]);
                assert(buf@.subrange(5, 9) =~= frame@.subrange(5, 9));
                assert(buf@.subrange(9, 13) =~= frame@.subrange(9, 13));
                self.channel_active = true;
                return Ok(());
            } else if mt == APF_CHANNEL_OPEN_FAILURE {
                let reason = if len >= 9 {
                    assert(buf@.subrange(5, 9) =~= frame@.subrange(5, 9));
                    read_be32(&buf[5..9])
                } else {
                    0
                };
                return Err(ApfError::OpenRejected(reason));
            } else {
                let pres = self.process_apf(frame);
                proof {
                    if open_handled(rec, me0, host0) {
                        assert(self.sent@ =~= old(self).sent@.push(open) + open_replies(self.received@.skip(r0), me0, host0));
                    }
                    assert(self.send_log@.take(q0) =~= log_before.take(q0));
                    assert(self.send_log@.skip(q0).take(log_before.len() - q0) =~= log_before.skip(q0));
                    assert(self.marks@.take(old(self).marks@.len() as int) =~= marks_before.take(old(self).marks@.len() as int));
                    if self.sent@.len() > sent_before.len() {
                        assert(self.sent_to@ =~= old(self).sent_to@ + addressed((self.sent@.len() - s0) as nat, me0, host0));
                    }
                }
                match pres {
                    Ok(_) => {
                        proof {
                            let sr = self.send_log@.skip(q0);
                            assert forall|i: int| 0 <= i < sr.len() implies (#[trigger] sr[i]) is None by {
                                if q0 + i < log_before.len() {
                                    assert(sr[i] == log_before.skip(q0)[i]);
                                } else {
                                    assert(sr[i] == self.send_log@.skip(log_before.len() as int)[q0 + i - log_before.len()]);
                                }
                            }
                        }
                    },
                    Err(e) => {
                        proof {
                            let sr = self.send_log@.skip(q0);
                            if e is Heci {
                                assert(self.sent@.len() == sent_before.len() + 1);
                                assert(sr[sr.len() - 1] is Some);
                                assert forall|i: int| 0 <= i < sr.len() - 1 implies (#[trigger] sr[i]) is None by {
                                    assert(sr[i] == log_before.skip(q0)[i]);
                                }
                            } else {
                                assert(self.send_log@ =~= log_before);
                            }
                        }
                        return Err(e);
                    },
                }
            }
        }
        Err(ApfError::Timeout("CHANNEL_OPEN_CONFIRMATION"))
    }

    /// Reads one or more CHANNEL_DATA frames into `out`. Returns the number
    /// of bytes copied. Stops on CHANNEL_CLOSE if any data has been
    /// received; returns `Err(Aborted)` if closed before any data arrives.
    #[verifier::rlimit(100)]
    #[verifier::spinoff_prover]
    pub fn recv_bytes(&mut self, out: &mut [u8]) -> (r: Result<usize, ApfError>)
        ensures
            final(self).me() == old(self).me(),
            final(self).host() == old(self).host(),
            final(self).sender() == old(self).sender(),
            final(self).recipient() == old(self).recipient(),
            final(self).forward_ok() == old(self).forward_ok(),
            final(self).received().len() >= old(self).received().len(),
            final(self).received().take(old(self).received().len() as int) == old(self).received(),
            final(self).recv_log().len() >= old(self).recv_log().len(),
            final(self).recv_log().take(old(self).recv_log().len() as int) == old(self).recv_log(),
            final(self).send_results().len() >= old(self).send_results().len(),
            final(self).send_results().take(old(self).send_results().len() as int) == old(self).send_results(),
            r is Err ==> final(out)@ == old(out)@,
            final(self).sent_marks().len() - old(self).sent_marks().len() == final(self).sent().len() - old(self).sent().len(),
            final(self).sent_marks().take(old(self).sent_marks().len() as int) == old(self).sent_marks(),
            ({
                let me = old(self).me();
                let host = old(self).host();
                let rs = final(self).received().skip(old(self).received().len() as int);
                let evs = final(self).recv_log().skip(old(self).recv_log().len() as int);
                let sr = final(self).send_results().skip(old(self).send_results().len() as int);
                let st = recv_state(rs, me, host);
                let data = stream_of(rs, me, host);
                let replies = recv_replies(rs, me, host, old(self).recipient(), old(self).active());
                let n = min_nat(data.len(), old(out)@.len());
                &&& final(self).sent() == old(self).sent() + replies
                &&& sr.len() == replies.len()
                &&& final(self).window() == recv_window(rs, me, host, old(self).window())
                &&& final(self).active() == (old(self).active() && !(st is Closed))
                &&& r matches Ok(k) ==> {
                    &&& data.len() > 0
                    &&& k == n
                    &&& final(out)@ == splice(old(out)@, 0, data.take(n as int))
                }
                &&& evs.len() <= RECV_ATTEMPTS
                &&& evs == taken_events(rs) || (evs.len() == rs.len() + 1 && evs.drop_last() == taken_events(rs) && evs.last() is Err)
                // A receive failed: the read ends there, with the data so far,
                // or with the link's error where there is none.
                &&& evs.len() > rs.len() ==> {
                    &&& st is Running
                    &&& all_sent(sr)
                    &&& if data.len() > 0 {
                        r == Ok::<usize, ApfError>(n as usize)
                    } else {
                        evs.last() matches Err(e) && r == Err::<usize, ApfError>(ApfError::Heci(e))
                    }
                }
                // A send other than the answer to a CHANNEL_CLOSE failed: the
                // read ends at once with the link's error.
                &&& forall|i: int| 0 <= i < sr.len() && (#[trigger] sr[i]) is Some
                    && replies[i] != channel_close_frame(old(self).recipient()) ==> {
                    &&& i == sr.len() - 1
                    &&& r == Err::<usize, ApfError>(ApfError::Heci(sr[i]->0))
                    &&& evs == taken_events(rs)
                    &&& st is Running
                }
                // Every receive and every other send went through.
                &&& evs == taken_events(rs) && (forall|i: int| 0 <= i < sr.len() && (#[trigger] sr[i]) is Some
                    ==> replies[i] == channel_close_frame(old(self).recipient())) ==> {
                    &&& if st is Running {
                        rs.len() == RECV_ATTEMPTS
                    } else {
                        rs.len() > 0 && recv_state(rs.drop_last(), me, host) is Running
                    }
                    &&& match st {
                        RecvState::Failed(e) => r == Err::<usize, ApfError>(e),
                        _ => if data.len() == 0 {
                            r == Err::<usize, ApfError>(ApfError::Aborted)
                        } else {
                            r == Ok::<usize, ApfError>(n as usize)
                        },
                    }
                }
            }),
    {
        self.rx_len = 0;
        let ghost r0: int = self.received@.len() as int;
        let ghost s0: int = self.sent@.len() as int;
        let ghost e0: int = self.recv_events@.len() as int;
        let ghost q0: int = self.send_log@.len() as int;
        let ghost me0 = self.me_addr;
        let ghost host0 = self.host_addr;
        let ghost rcp = self.recipient_channel;
        let ghost act0 = old(self).channel_active;
        assert(self.received@.skip(r0) =~= Seq::<Received>::empty());
        assert(self.received@.take(r0) =~= old(self).received@);
        assert(self.sent@.take(s0) =~= old(self).sent@);
        assert(self.recv_events@.skip(e0) =~= taken_events(Seq::<Received>::empty()));
        assert(self.recv_events@.take(e0) =~= old(self).recv_events@);
        assert(self.send_log@.skip(q0) =~= Seq::<Option<HeciError>>::empty());
        assert(self.send_log@.take(q0) =~= old(self).send_log@);
        assert(self.marks@.take(old(self).marks@.len() as int) =~= old(self).marks@);
        assert(self.sent@ =~= old(self).sent@ + recv_replies(self.received@.skip(r0), me0, host0, rcp, act0));
        let mut attempt: usize = 0;
        while attempt < 100
            invariant_except_break
                self.received@.len() - r0 == attempt,
                recv_state(self.received@.skip(r0), me0, host0) is Running,
                self.recv_events@.skip(e0) == taken_events(self.received@.skip(r0)),
                all_sent(self.send_log@.skip(q0)),
                self.channel_active == act0,
            invariant
                attempt <= 100,
                r0 == old(self).received@.len(),
                s0 == old(self).sent@.len(),
                e0 == old(self).recv_events@.len(),
                q0 == old(self).send_log@.len(),
                me0 == self.me_addr && host0 == self.host_addr && rcp == self.recipient_channel,
                act0 == old(self).channel_active,
                self.rx_len <= 4096,
                self.received@.len() >= r0,
                self.received@.take(r0) == old(self).received@,
                self.recv_events@.len() >= e0,
                self.recv_events@.len() - e0 <= attempt,
                self.recv_events@.take(e0) == old(self).recv_events@,
                self.send_log@.len() >= q0,
                self.send_log@.take(q0) == old(self).send_log@,
                self.sent@ == old(self).sent@ + recv_replies(self.received@.skip(r0), me0, host0, rcp, act0),
                self.send_log@.len() - q0 == self.sent@.len() - s0,
                self.marks@.len() - old(self).marks@.len() == self.sent@.len() - s0,
                self.marks@.take(old(self).marks@.len() as int) == old(self).marks@,
                self.tx_window == recv_window(self.received@.skip(r0), me0, host0, old(self).tx_window),
                self.channel_active == (act0 && !(recv_state(self.received@.skip(r0), me0, host0) is Closed)),
                self.rx_buf@.take(self.rx_len as int) == stream_of(self.received@.skip(r0), me0, host0),
                self.me_addr == old(self).me_addr,
                self.host_addr == old(self).host_addr,
                self.sender_channel == old(self).sender_channel,
                self.recipient_channel == old(self).recipient_channel,
                self.port_forward_ok == old(self).port_forward_ok,
            ensures
                ({
                    let rs = self.received@.skip(r0);
                    let evs = self.recv_events@.skip(e0);
                    let sr = self.send_log@.skip(q0);
                    let st = recv_state(rs, me0, host0);
                    let replies = recv_replies(rs, me0, host0, rcp, act0);
                    ||| evs == taken_events(rs) && all_sent(sr) && st is Running && rs.len() == RECV_ATTEMPTS
                    ||| evs == taken_events(rs) && st is Closed && rs.len() > 0
                        && recv_state(rs.drop_last(), me0, host0) is Running
                        && (forall|i: int| 0 <= i < sr.len() && (#[trigger] sr[i]) is Some
                            ==> replies[i] == channel_close_frame(rcp))
                    ||| evs.len() == rs.len() + 1 && evs.drop_last() == taken_events(rs) && evs.last() is Err
                        && all_sent(sr) && st is Running && self.rx_len > 0
                }),
            decreases 100 - attempt,
        {
            attempt = attempt + 1;
            let mut buf = [0u8; 2048];
            let ghost recv_before = self.received@;
            let ghost sent_before = self.sent@;
            let ghost evs_before = self.recv_events@;
            let ghost log_before = self.send_log@;
            let ghost marks_before = self.marks@;
            let got = self.raw_recv(&mut buf);
            let (len, me, host) = match got {
                Ok(v) => v,
                Err(e) => {
                    proof {
                        assert(self.recv_events@.take(e0) =~= evs_before.take(e0));
                        assert(self.recv_events@.skip(e0).drop_last() =~= evs_before.skip(e0));
                    }
                    if self.rx_len > 0 {
                        break;
                    }
                    return Err(ApfError::Heci(e));
                },
            };
            let ghost rec = self.received@.last();
            let ghost rs_before = recv_before.skip(r0);
            proof {
                assert(self.received@.take(r0) =~= recv_before.take(r0));
                assert(self.received@.skip(r0) =~= recv_before.skip(r0).push(rec));
                assert(self.received@.skip(r0).drop_last() =~= recv_before.skip(r0));
                assert(self.recv_events@.take(e0) =~= evs_before.take(e0));
                assert(self.recv_events@.skip(e0) =~= evs_before.skip(e0).push(Ok(rec)));
                assert(taken_events(rs_before.push(rec)) =~= taken_events(rs_before).push(Ok(rec)));
                assert(self.recv_events@.skip(e0) =~= taken_events(self.received@.skip(r0)));
                lemma_recv_push(rs_before, rec, me0, host0, rcp, act0, old(self).tx_window);
            }
            if me != self.me_addr || host != self.host_addr {
                assert(recv_reply(rs_before, rec, me0, host0, rcp, act0) =~= Seq::<Seq<u8>>::empty());
                assert(self.sent@ =~= old(self).sent@ + recv_replies(self.received@.skip(r0), me0, host0, rcp, act0));
                assert(stream_of(self.received@.skip(r0), me0, host0) =~= stream_of(recv_before.skip(r0), me0, host0));
                continue;
            }
            let mt = if len > 0 { buf[0] } else { 0 };
            assert(rec.frame.len() > 0 ==> rec.frame[0] == mt);
            proof {
                let rs = self.received@.skip(r0);
                assert(rs.drop_last() =~= recv_before.skip(r0));
                assert(rs.last() == rec);
            }
            if mt == APF_CHANNEL_DATA {
                if len < 9 {
                    return Err(ApfError::Protocol("CHANNEL_DATA too short"));
                }
                let data_len = read_be32(&buf[5..9]);
                assert(buf@.subrange(5, 9) =~= rec.frame.subrange(5, 9));
                if (len as u64) < 9 + data_len as u64 {
                    return Err(ApfError::Protocol("CHANNEL_DATA truncated"));
                }
                let dl = data_len as usize;
                if self.rx_len + dl > 4096 {
                    return Err(ApfError::BufferTooSmall);
                }
                let payload = &buf[9..9 + dl];
                assert(payload@ =~= data_payload(rec.frame));
                let ghost rx_before = self.rx_buf@;
                let start = self.rx_len;
                copy_into(&mut self.rx_buf, start, payload);
                self.rx_len = start + dl;
                assert(self.rx_buf@.take(self.rx_len as int) =~= rx_before.take(start as int) + payload@);
                let mut wa = [0u8; 9];
                match encode_window_adjust(&mut wa, self.recipient_channel, data_len) {
                    Ok(_) => {},
                    Err(e) => return Err(e),
                }
                assert(wa@ =~= window_adjust_frame(rcp, be32_at(rec.frame, 5)));
                assert(recv_step(rs_before, rec, me0, host0) is Running);
                assert(recv_reply(rs_before, rec, me0, host0, rcp, act0) =~= seq![window_adjust_frame(rcp, be32_at(rec.frame, 5))]);
                let sent_res = self.raw_send(&wa);
                proof {
                    assert(self.sent@.take(s0) =~= sent_before.take(s0));
                    assert(self.sent@ =~= old(self).sent@ + recv_replies(self.received@.skip(r0), me0, host0, rcp, act0));
                    assert(self.send_log@.take(q0) =~= log_before.take(q0));
                        assert(self.marks@.take(old(self).marks@.len() as int) =~= marks_before.take(old(self).marks@.len() as int));
                    assert(self.send_log@.skip(q0) =~= log_before.skip(q0).push(self.send_log@.last()));
                    assert(wa@[0] != channel_close_frame(rcp)[0]);
                }
                match sent_res {
                    Ok(()) => {},
                    Err(e) => {
                        proof {
                            let sr = self.send_log@.skip(q0);
                            let replies = recv_replies(self.received@.skip(r0), me0, host0, rcp, act0);
                            assert(replies[sr.len() - 1] == wa@);
                            assert(sr[sr.len() - 1] is Some && replies[sr.len() - 1] != channel_close_frame(rcp));
                        }
                        return Err(e);
                    },
                }
            } else if mt == APF_CHANNEL_WINDOW_ADJUST {
                assert(stream_of(self.received@.skip(r0), me0, host0) =~= stream_of(recv_before.skip(r0), me0, host0));
                assert(recv_reply(rs_before, rec, me0, host0, rcp, act0) =~= Seq::<Seq<u8>>::empty());
                assert(self.sent@ =~= old(self).sent@ + recv_replies(self.received@.skip(r0), me0, host0, rcp, act0));
                if len >= 9 {
                    assert(buf@.subrange(5, 9) =~= rec.frame.subrange(5, 9));
                    self.tx_window = self.tx_window.saturating_add(read_be32(&buf[5..9]));
                }
            } else if mt == APF_CHANNEL_CLOSE {
                assert(stream_of(self.received@.skip(r0), me0, host0) =~= stream_of(recv_before.skip(r0), me0, host0));
                if self.channel_active {
                    let mut close = [0u8; 5];
                    match encode_channel_close(&mut close, self.recipient_channel) {
                        Ok(_) => {},
                        Err(e) => return Err(e),
                    }
                    assert(close@ =~= channel_close_frame(rcp));
                    assert(recv_reply(rs_before, rec, me0, host0, rcp, act0) =~= seq![channel_close_frame(rcp)]);
                    let _ = self.raw_send(&close);
                    proof {
                        assert(self.sent@.take(s0) =~= sent_before.take(s0));
                        assert(self.sent@ =~= old(self).sent@ + recv_replies(self.received@.skip(r0), me0, host0, rcp, act0));
                        assert(self.send_log@.take(q0) =~= log_before.take(q0));
                        assert(self.marks@.take(old(self).marks@.len() as int) =~= marks_before.take(old(self).marks@.len() as int));
                        assert(self.send_log@.skip(q0) =~= log_before.skip(q0).push(self.send_log@.last()));
                        let replies = recv_replies(self.received@.skip(r0), me0, host0, rcp, act0);
                        assert(replies.last() == channel_close_frame(rcp));
                    }
                    self.channel_active = false;
                } else {
                    assert(recv_reply(rs_before, rec, me0, host0, rcp, act0) =~= Seq::<Seq<u8>>::empty());
                    assert(self.sent@ =~= old(self).sent@ + recv_replies(self.received@.skip(r0), me0, host0, rcp, act0));
                }
                break;
            } else if mt == APF_KEEPALIVE_REQUEST {
                assert(stream_of(self.received@.skip(r0), me0, host0) =~= stream_of(recv_before.skip(r0), me0, host0));
                if len >= 5 {
                    assert(buf@.subrange(1, 5) =~= rec.frame.subrange(1, 5));
                    let cookie = read_be32(&buf[1..5]);
                    let mut reply = [0u8; 5];
                    match encode_keepalive_reply(&mut reply, cookie) {
                        Ok(_) => {},
                        Err(e) => return Err(e),
                    }
                    assert(reply@ =~= keepalive_reply_frame(be32_at(rec.frame, 1)));
                    assert(recv_reply(rs_before, rec, me0, host0, rcp, act0) =~= seq![keepalive_reply_frame(be32_at(rec.frame, 1))]);
                    let sent_res = self.raw_send(&reply);
                    proof {
                        assert(self.sent@.take(s0) =~= sent_before.take(s0));
                        assert(self.sent@ =~= old(self).sent@ + recv_replies(self.received@.skip(r0), me0, host0, rcp, act0));
                        assert(self.send_log@.take(q0) =~= log_before.take(q0));
                        assert(self.marks@.take(old(self).marks@.len() as int) =~= marks_before.take(old(self).marks@.len() as int));
                        assert(self.send_log@.skip(q0) =~= log_before.skip(q0).push(self.send_log@.last()));
                        assert(reply@[0] != channel_close_frame(rcp)[0]);
                    }
                    match sent_res {
                        Ok(()) => {},
                        Err(e) => {
                            proof {
                                let sr = self.send_log@.skip(q0);
                                let replies = recv_replies(self.received@.skip(r0), me0, host0, rcp, act0);
                                assert(replies[sr.len() - 1] == reply@);
                                assert(sr[sr.len() - 1] is Some && replies[sr.len() - 1] != channel_close_frame(rcp));
                            }
                            return Err(e);
                        },
                    }
                } else {
                    assert(recv_reply(rs_before, rec, me0, host0, rcp, act0) =~= Seq::<Seq<u8>>::empty());
                    assert(self.sent@ =~= old(self).sent@ + recv_replies(self.received@.skip(r0), me0, host0, rcp, act0));
                }
            } else {
                assert(stream_of(self.received@.skip(r0), me0, host0) =~= stream_of(recv_before.skip(r0), me0, host0));
                assert(recv_reply(rs_before, rec, me0, host0, rcp, act0) =~= Seq::<Seq<u8>>::empty());
                assert(self.sent@ =~= old(self).sent@ + recv_replies(self.received@.skip(r0), me0, host0, rcp, act0));
            }
        }
        if self.rx_len == 0 {
            return Err(ApfError::Aborted);
        }
        let copy = if self.rx_len <= out.len() { self.rx_len } else { out.len() };
        copy_into(out, 0, &self.rx_buf[0..copy]);
        assert(self.rx_buf@.subrange(0, copy as int) =~= self.rx_buf@.take(self.rx_len as int).take(copy as int));
        Ok(copy)
    }

    /// APF init: send protocol version, consume incoming messages until
    /// the ME has forwarded port 16992 (or we time out).
    #[verifier::rlimit(100)]
    pub fn handshake(&mut self) -> (r: Result<(), ApfError>)
        ensures
            final(self).same_channel(old(self)),
            final(self).sent().len() > old(self).sent().len(),
            final(self).sent().take(old(self).sent().len() + 1int) == old(self).sent().push(protocol_version_frame(1, 0)),
            final(self).received().len() >= old(self).received().len(),
            final(self).received().take(old(self).received().len() as int) == old(self).received(),
            r is Ok ==> final(self).forward_ok(),
            old(self).forward_ok() ==> final(self).forward_ok(),
            final(self).send_results().len() - old(self).send_results().len() == final(self).sent().len() - old(self).sent().len(),
            final(self).send_results().take(old(self).send_results().len() as int) == old(self).send_results(),
            // A send failed: the handshake ends at once with the link's error.
            ({
                let sr = final(self).send_results().skip(old(self).send_results().len() as int);
                forall|i: int| 0 <= i < sr.len() && (#[trigger] sr[i]) is Some ==> {
                    &&& i == sr.len() - 1
                    &&& r == Err::<(), ApfError>(ApfError::Heci(sr[i]->0))
                }
            }),
            // Every send went through.
            all_sent(final(self).send_results().skip(old(self).send_results().len() as int)) ==> {
                let evs = final(self).recv_log().skip(old(self).recv_log().len() as int);
                let st = handshake_state(evs, old(self).me(), old(self).host(), old(self).forward_ok());
                let fw = old(self).forward_ok() || handshake_forwards(evs, old(self).me(), old(self).host(), old(self).forward_ok());
                &&& match st {
                    Handshake::Done(res) => r == res && evs.len() > 0
                        && handshake_state(evs.drop_last(), old(self).me(), old(self).host(), old(self).forward_ok()) is Going,
                    Handshake::Going { version, .. } => evs.len() == INIT_ATTEMPTS && r == handshake_end(version, fw),
                }
                &&& final(self).sent() =~= old(self).sent().push(protocol_version_frame(1, 0))
                    + handshake_replies(evs, old(self).me(), old(self).host(), old(self).forward_ok())
                &&& final(self).forward_ok() == fw
            },
    {
        let mut out = [0u8; 93];
        match encode_protocol_version(&mut out, 1, 0) {
            Ok(_) => {},
            Err(e) => return Err(e),
        }
        assert(out@ =~= protocol_version_frame(1, 0));
        let ghost s0: int = self.sent@.len() as int;
        let ghost r0: int = self.received@.len() as int;
        let ghost q0: int = self.send_log@.len() as int;
        let res = self.raw_send(&out);
        assert(self.sent@.take(s0 + 1int) =~= old(self).sent@.push(protocol_version_frame(1, 0)));
        assert(self.send_log@.take(q0) =~= old(self).send_log@);
        assert(self.send_log@.skip(q0) =~= seq![self.send_log@.last()]);
        match res {
            Ok(()) => {},
            Err(e) => {
                assert(self.send_log@.skip(q0)[0] is Some);
                return Err(e);
            },
        }
        assert(self.received@.take(r0) =~= old(self).received@);
        assert(self.received@.skip(r0) =~= Seq::<Received>::empty());
        let ghost e0: int = self.recv_events@.len() as int;
        let ghost me0 = self.me_addr;
        let ghost host0 = self.host_addr;
        let ghost fw0 = old(self).port_forward_ok;
        assert(self.recv_events@.skip(e0) =~= Seq::<Result<Received, HeciError>>::empty());
        assert(self.recv_events@.take(e0) =~= old(self).recv_events@);
        assert(self.sent@ =~= old(self).sent@.push(protocol_version_frame(1, 0)) + handshake_replies(self.recv_events@.skip(e0), me0, host0, fw0));

        let mut version_seen = false;
        let mut timeout_count: u32 = 0;
        let mut attempt: usize = 0;
        while attempt < INIT_ATTEMPTS
            invariant
                attempt <= INIT_ATTEMPTS,
                timeout_count <= attempt,
                s0 == old(self).sent@.len(),
                r0 == old(self).received@.len(),
                self.same_channel(old(self)),
                self.sent@.len() > s0,
                self.sent@.take(s0 + 1int) == old(self).sent@.push(protocol_version_frame(1, 0)),
                self.received@.len() >= r0,
                self.received@.take(r0) == old(self).received@,
                q0 == old(self).send_log@.len(),
                self.send_log@.len() - q0 == self.sent@.len() - s0,
                self.send_log@.take(q0) == old(self).send_log@,
                all_sent(self.send_log@.skip(q0)),
                e0 == old(self).recv_events@.len(),
                self.recv_events@.len() - e0 == attempt,
                self.recv_events@.take(e0) == old(self).recv_events@,
                me0 == self.me_addr && host0 == self.host_addr && fw0 == old(self).port_forward_ok,
                handshake_state(self.recv_events@.skip(e0), me0, host0, fw0)
                    == (Handshake::Going { version: version_seen, misses: timeout_count as nat }),
                self.sent@ == old(self).sent@.push(protocol_version_frame(1, 0)) + handshake_replies(self.recv_events@.skip(e0), me0, host0, fw0),
                self.port_forward_ok == (fw0 || handshake_forwards(self.recv_events@.skip(e0), me0, host0, fw0)),
            decreases INIT_ATTEMPTS - attempt,
        {
            attempt = attempt + 1;
            let mut buf = [0u8; 512];
            let ghost recv_before = self.received@;
            let ghost sent_before = self.sent@;
            let ghost log_before = self.send_log@;
            let ghost evs_before = self.recv_events@.skip(e0);
            let got = self.raw_recv(&mut buf);
            let ghost ev = self.recv_events@.last();
            proof {
                assert(self.recv_events@.take(e0) =~= old(self).recv_events@);
                assert(self.recv_events@.skip(e0) =~= evs_before.push(ev));
                assert(self.recv_events@.skip(e0).drop_last() =~= evs_before);
                lemma_handshake_push(evs_before, ev, me0, host0, fw0);
            }
            match got {
                Ok((len, me, host)) => {
                    let ghost rec = self.received@.last();
                    proof {
                        assert(self.received@.take(r0) =~= recv_before.take(r0));
                        assert(self.received@.skip(r0) =~= recv_before.skip(r0).push(rec));
                    }
                    if !(me == self.me_addr && host == self.host_addr) {
                        assert(handshake_reply(ev, me0, host0) =~= Seq::<Seq<u8>>::empty());
                        assert(self.sent@ =~= old(self).sent@.push(protocol_version_frame(1, 0)) + handshake_replies(self.recv_events@.skip(e0), me0, host0, fw0));
                    }
                    if me == self.me_addr && host == self.host_addr {
                        timeout_count = 0;
                        let frame = &buf[0..len];
                        assert(frame@ == rec.frame);
                        let pres = self.process_apf(frame);
                        proof {
                            if pres is Ok {
                                assert(ev == Ok::<Received, HeciError>(rec));
                                match apf_action(frame@) {
                                    ApfAction::Handled { reply, .. } => {
                                        match reply {
                                            Some(x) => {
                                                assert(handshake_reply(ev, me0, host0) =~= seq![x]);
                                            },
                                            None => {
                                                assert(handshake_reply(ev, me0, host0) =~= Seq::<Seq<u8>>::empty());
                                            },
                                        }
                                    },
                                    _ => {},
                                }
                                assert(self.sent@ =~= old(self).sent@.push(protocol_version_frame(1, 0)) + handshake_replies(self.recv_events@.skip(e0), me0, host0, fw0));
                            }
                        }
                        proof {
                            assert(self.send_log@.take(q0) =~= log_before.take(q0));
                        }
                        let mt = match pres {
                            Ok(mt) => {
                                proof {
                                    let sr = self.send_log@.skip(q0);
                                    assert forall|i: int| 0 <= i < sr.len() implies (#[trigger] sr[i]) is None by {
                                        if q0 + i < log_before.len() {
                                            assert(sr[i] == log_before.skip(q0)[i]);
                                        } else {
                                            assert(sr[i] == self.send_log@.skip(log_before.len() as int)[q0 + i - log_before.len()]);
                                        }
                                    }
                                }
                                mt
                            },
                            Err(e) => {
                                proof {
                                    let sr = self.send_log@.skip(q0);
                                    if e is Heci {
                                        assert(self.sent@.len() == sent_before.len() + 1);
                                        assert(sr[sr.len() - 1] is Some);
                                        assert forall|i: int| 0 <= i < sr.len() - 1 implies (#[trigger] sr[i]) is None by {
                                            assert(sr[i] == log_before.skip(q0)[i]);
                                        }
                                    } else {
                                        assert(self.send_log@ =~= log_before);
                                    }
                                }
                                return Err(e);
                            },
                        };
                        assert(self.sent@.take(s0 + 1int) =~= sent_before.take(s0 + 1int));
                        if mt == APF_PROTOCOLVERSION {
                            version_seen = true;
                        }
                        if self.port_forward_ok {
                            return Ok(());
                        }
                    }
                },
                Err(_) => {
                    assert(handshake_reply(ev, me0, host0) =~= Seq::<Seq<u8>>::empty());
                    assert(self.sent@ =~= old(self).sent@.push(protocol_version_frame(1, 0)) + handshake_replies(self.recv_events@.skip(e0), me0, host0, fw0));
                    timeout_count = timeout_count + 1;
                    if self.port_forward_ok {
                        return Ok(());
                    }
                    if timeout_count >= 2 {
                        return if version_seen {
                            Err(ApfError::Timeout("tcpip-forward"))
                        } else {
                            Err(ApfError::Protocol("protocol version not received"))
                        };
                    }
                },
            }
        }
        if !version_seen {
            return Err(ApfError::Protocol("protocol version not received"));
        }
        if !self.port_forward_ok {
            return Err(ApfError::Timeout("tcpip-forward"));
        }
        Ok(())
    }

    /// Reopen a channel after the previous one was closed.
    ///
    /// If `channel_open` fails with a HECI error or `Aborted` (some ME
    /// firmware drops the client instead of confirming a reopen), invoke
    /// `HeciHooks::reconnect_heci` and retry exactly once.
    pub fn reopen_channel(&mut self) -> (r: Result<(), ApfError>)
        ensures
            final(self).me() == old(self).me(),
            final(self).host() == old(self).host(),
            final(self).sent().len() > old(self).sent().len(),
            final(self).sent().take(old(self).sent().len() + 1int) == old(self).sent().push(
                channel_open_frame(next_sender(old(self).sender()), LME_RX_WINDOW_SIZE, APF_AMT_HTTP_PORT),
            ),
            final(self).sender() == next_sender(old(self).sender())
                || final(self).sender() == next_sender(next_sender(old(self).sender())),
            final(self).received().len() >= old(self).received().len(),
            final(self).received().take(old(self).received().len() as int) == old(self).received(),
            r is Ok ==> {
                let f = final(self).received().last();
                &&& final(self).received().len() > old(self).received().len()
                &&& final(self).active()
                &&& f.me == old(self).me() && f.host == old(self).host()
                &&& f.frame.len() >= 13 && f.frame[0] == APF_CHANNEL_OPEN_CONFIRMATION
                &&& final(self).recipient() == be32_at(f.frame, 5)
                &&& final(self).window() == be32_at(f.frame, 9)
            },
            r is Err ==> final(self).recipient() == 0 && final(self).window() == 0,
            final(self).sent_marks().len() - old(self).sent_marks().len() == final(self).sent().len() - old(self).sent().len(),
            final(self).sent_marks().take(old(self).sent_marks().len() as int) == old(self).sent_marks(),
            // The first attempt did not end in a HECI error or `Aborted`: no
            // reconnect, and its outcome is the result.
            final(self).reconnect_log() == old(self).reconnect_log() ==> {
                &&& Self::open_outcome(*old(self), *final(self), r)
                &&& !(r matches Err(e) && (e is Heci || e is Aborted))
            },
            final(self).reconnect_log() != old(self).reconnect_log() ==> {
                &&& final(self).reconnect_log().len() == old(self).reconnect_log().len() + 1
                &&& final(self).reconnect_log().drop_last() == old(self).reconnect_log()
            },
            // The reconnect failed with `h`: no second CHANNEL_OPEN, and `h`
            // is the error.
            forall|h: HeciError| final(self).reconnect_log() == #[trigger] old(self).reconnect_log().push(Some(h)) ==> {
                &&& r == Err::<(), ApfError>(ApfError::Heci(h))
                &&& !final(self).forward_ok()
                &&& !final(self).active()
                &&& exists|mid: Self, e: ApfError| (e is Heci || e is Aborted)
                    && #[trigger] Self::open_outcome(*old(self), mid, Err::<(), ApfError>(e))
                    && final(self).sent() == mid.sent()
                    && final(self).received() == mid.received()
                    && final(self).sender() == mid.sender()
            },
            // The reconnect succeeded: a second attempt on a session marked
            // as forwarding, whose outcome is the result.
            final(self).reconnect_log() == old(self).reconnect_log().push(None) ==> exists|m1: Self, m2: Self, e: ApfError|
                (e is Heci || e is Aborted)
                && #[trigger] Self::open_outcome(*old(self), m1, Err::<(), ApfError>(e))
                && #[trigger] Self::open_outcome(m2, *final(self), r)
                && m2.sent() == m1.sent()
                && m2.received() == m1.received()
                && m2.forward_ok()
                && !m2.active()
                && m2.me() == old(self).me()
                && m2.host() == old(self).host()
                && m2.sender() == m1.sender()
                && m2.reconnect_log() == final(self).reconnect_log(),
            old(self).forward_ok() && final(self).reconnect_log() == old(self).reconnect_log() ==> final(self).forward_ok(),
            final(self).reconnect_log() == old(self).reconnect_log().push(None) ==> final(self).forward_ok(),
    {
        let ghost s0 = *self;
        let first = self.channel_open();
        match first {
            Ok(()) => Ok(()),
            Err(e) => {
                match e {
                    ApfError::Heci(_) | ApfError::Aborted => {
                        let ghost s1 = *self;
                        assert(Self::open_outcome(s0, s1, Err::<(), ApfError>(e)));
                        self.channel_active = false;
                        self.recipient_channel = 0;
                        self.tx_window = 0;
                        self.port_forward_ok = false;
                        let rc = self.hooks.reconnect_heci(&mut self.heci);
                        match rc {
                            Ok(()) => {
                                self.reconnects = Ghost(self.reconnects@.push(None));
                                assert(self.reconnects@.drop_last() =~= old(self).reconnects@);
                            },
                            Err(h) => {
                                self.reconnects = Ghost(self.reconnects@.push(Some(h)));
                                proof {
                                    assert(self.reconnects@.drop_last() =~= old(self).reconnects@);
                                    assert(self.reconnects@.len() == old(self).reconnects@.len() + 1);
                                    assert forall|h2: HeciError| self.reconnects@ == #[trigger] old(self).reconnects@.push(Some(h2))
                                        implies h2 == h by {
                                        assert(self.reconnects@.last() == old(self).reconnects@.push(Some(h2)).last());
                                    }
                                    assert(self.reconnects@ != old(self).reconnects@.push(None)) by {
                                        assert(self.reconnects@.last() != old(self).reconnects@.push(None).last());
                                    }
                                    assert(self.sent@ == s1.sent@ && self.received@ == s1.received@);
                                }
                                return Err(ApfError::Heci(h));
                            },
                        }
                        self.force_port_forward_ok();
                        let ghost s2 = *self;
                        let second = self.channel_open();
                        assert(Self::open_outcome(s2, *self, second));
                        assert(self.reconnects@ =~= old(self).reconnects@.push(None));
                        assert(self.reconnects@.len() == old(self).reconnects@.len() + 1);
                        proof {
                            assert forall|h2: HeciError| self.reconnects@ != #[trigger] old(self).reconnects@.push(Some(h2)) by {
                                assert(self.reconnects@.last() != old(self).reconnects@.push(Some(h2)).last());
                            }
                        }
                        second
                    },
                    _ => Err(e),
                }
            },
        }
    }

    /// Answers an incoming APF message outside the channel-data path and
    /// returns its type.
    pub fn process_apf(&mut self, data: &[u8]) -> (r: Result<u8, ApfError>)
        ensures
            final(self).same_channel(old(self)),
            final(self).received() == old(self).received(),
            final(self).hooks_of() == old(self).hooks_of(),
            match apf_action(data@) {
                ApfAction::Invalid(msg) => {
                    &&& r == Err::<u8, ApfError>(ApfError::Protocol(msg))
                    &&& final(self).sent() == old(self).sent()
                    &&& final(self).forward_ok() == old(self).forward_ok()
                },
                ApfAction::ReplyTooLong => {
                    &&& r == Err::<u8, ApfError>(ApfError::BufferTooSmall)
                    &&& final(self).sent() == old(self).sent()
                    &&& final(self).forward_ok() == old(self).forward_ok()
                },
                ApfAction::Handled { mt, reply, forward } => {
                    &&& final(self).sent() == match reply {
                        Some(f) => old(self).sent().push(f),
                        None => old(self).sent(),
                    }
                    &&& match r {
                        Ok(t) => t == mt && final(self).forward_ok() == (old(self).forward_ok() || forward),
                        Err(e) => reply is Some && e is Heci && final(self).forward_ok() == old(self).forward_ok(),
                    }
                },
            },
            final(self).open_hook_log() == old(self).open_hook_log(),
            final(self).reconnect_log() == old(self).reconnect_log(),
            final(self).recv_log() == old(self).recv_log(),
            final(self).sent_to() == if final(self).sent().len() > old(self).sent().len() {
                old(self).sent_to().push((old(self).me(), old(self).host()))
            } else {
                old(self).sent_to()
            },
            final(self).send_results().len() - old(self).send_results().len() == final(self).sent().len() - old(self).sent().len(),
            final(self).send_results().take(old(self).send_results().len() as int) == old(self).send_results(),
            r is Ok ==> all_sent(final(self).send_results().skip(old(self).send_results().len() as int)),
            r matches Err(ApfError::Heci(h)) ==> final(self).send_results().last() == Some(h),
            final(self).sent_marks().len() - old(self).sent_marks().len() == final(self).sent().len() - old(self).sent().len(),
            final(self).sent_marks().take(old(self).sent_marks().len() as int) == old(self).sent_marks(),
    {
        reveal(apf_action);
        if data.len() == 0 {
            return Err(ApfError::Protocol("empty APF message"));
        }
        let mt = data[0];
        if mt == APF_SERVICE_REQUEST {
            if data.len() < 5 {
                return Err(ApfError::Protocol("SERVICE_REQUEST too short"));
            }
            let name_len = read_be32(&data[1..5]);
            if (data.len() as u64) < 5 + name_len as u64 {
                return Err(ApfError::Protocol("SERVICE_REQUEST truncated"));
            }
            let end = 5 + name_len as usize;
            let name = &data[5..end];
            let mut out = [0u8; 128];
            let n = match encode_service_accept(&mut out, name) {
                Ok(n) => n,
                Err(e) => return Err(e),
            };
            assert(name@ =~= data@.subrange(5, 5 + be32_at(data@, 1) as int));
            assert(out@.subrange(0, n as int) =~= service_accept_frame(name@));
            self.raw_send(&out[0..n])?;
        } else if mt == APF_GLOBAL_REQUEST {
            if data.len() < 5 {
                return Err(ApfError::Protocol("GLOBAL_REQUEST short"));
            }
            let name_len = read_be32(&data[1..5]);
            if (data.len() as u64) < 6 + name_len as u64 {
                return Err(ApfError::Protocol("GLOBAL_REQUEST truncated"));
            }
            let nl = name_len as usize;
            let want_reply = data[5 + nl];
            let offset = 6 + nl;
            let mut port: u32 = 0;
            if (offset as u64) + 4 <= data.len() as u64 {
                let addr_len = read_be32(&data[offset..offset + 4]);
                let offset2 = offset as u64 + 4 + addr_len as u64;
                if offset2 + 4 <= data.len() as u64 {
                    let o2 = offset2 as usize;
                    port = read_be32(&data[o2..o2 + 4]);
                }
            }
            assert(port == global_request_port(data@, nl as int));
            if want_reply != 0 {
                let mut out = [0u8; 5];
                let n = match encode_request_success(&mut out, port) {
                    Ok(n) => n,
                    Err(e) => return Err(e),
                };
                assert(out@ =~= request_success_frame(port));
                self.raw_send(&out)?;
            }
            if port == APF_AMT_HTTP_PORT {
                self.port_forward_ok = true;
            }
        }
        Ok(mt)
    }

    pub fn send_bytes(&mut self, data: &[u8]) -> (r: Result<(), ApfError>)
        ensures
            final(self).same_channel(old(self)),
            final(self).forward_ok() == old(self).forward_ok(),
            final(self).received() == old(self).received(),
            final(self).hooks_of() == old(self).hooks_of(),
            !old(self).active() ==> r == Err::<(), ApfError>(ApfError::ChannelClosed) && final(self).sent() == old(self).sent(),
            old(self).active() && data@.len() + 9 > 2048 ==> r == Err::<(), ApfError>(ApfError::BufferTooSmall)
                && final(self).sent() == old(self).sent(),
            old(self).active() && data@.len() + 9 <= 2048 ==> {
                &&& final(self).sent() == old(self).sent().push(channel_data_frame(old(self).recipient(), data@))
                &&& final(self).send_results().len() == old(self).send_results().len() + 1
                &&& final(self).send_results().drop_last() == old(self).send_results()
                &&& match final(self).send_results().last() {
                    None => r is Ok,
                    Some(e) => r == Err::<(), ApfError>(ApfError::Heci(e)),
                }
            },
            !(old(self).active() && data@.len() + 9 <= 2048) ==> final(self).send_results() == old(self).send_results(),
            final(self).sent_marks() == if final(self).sent().len() > old(self).sent().len() {
                old(self).sent_marks().push(old(self).received().len())
            } else {
                old(self).sent_marks()
            },
            final(self).sent_to() == if final(self).sent().len() > old(self).sent().len() {
                old(self).sent_to().push((old(self).me(), old(self).host()))
            } else {
                old(self).sent_to()
            },
    {
        if !self.channel_active {
            return Err(ApfError::ChannelClosed);
        }
        let mut frame = [0u8; 2048];
        if data.len() > 2048 - 9 {
            return Err(ApfError::BufferTooSmall);
        }
        let n = match encode_channel_data(&mut frame, self.recipient_channel, data) {
            Ok(n) => n,
            Err(e) => return Err(e),
        };
        assert(frame@.take(n as int) =~= channel_data_frame(self.recipient_channel, data@));
        self.raw_send(&frame[0..n])
    }

    pub fn close_channel(&mut self)
        ensures
            final(self).me() == old(self).me(),
            final(self).host() == old(self).host(),
            final(self).sender() == old(self).sender(),
            final(self).forward_ok() == old(self).forward_ok(),
            final(self).received() == old(self).received(),
            final(self).hooks_of() == old(self).hooks_of(),
            old(self).active() ==> {
                &&& final(self).sent() == old(self).sent().push(channel_close_frame(old(self).recipient()))
                &&& !final(self).active()
                &&& final(self).recipient() == 0
                &&& final(self).window() == 0
            },
            !old(self).active() ==> final(self).same_channel(old(self)) && final(self).sent() == old(self).sent(),
            final(self).sent_to() == if old(self).active() {
                old(self).sent_to().push((old(self).me(), old(self).host()))
            } else {
                old(self).sent_to()
            },
    {
        if self.channel_active {
            let mut msg = [0u8; 5];
            if encode_channel_close(&mut msg, self.recipient_channel).is_ok() {
                assert(msg@ =~= channel_close_frame(self.recipient_channel));
                let _ = self.raw_send(&msg);
            }
            self.channel_active = false;
            self.recipient_channel = 0;
            self.tx_window = 0;
        }
    }

    pub fn close(&mut self)
        ensures
            final(self).me() == old(self).me(),
            final(self).host() == old(self).host(),
            final(self).sender() == old(self).sender(),
            final(self).forward_ok() == old(self).forward_ok(),
            !final(self).active(),
            old(self).active() ==> final(self).sent() == old(self).sent().push(channel_close_frame(old(self).recipient())),
            !old(self).active() ==> final(self).sent() == old(self).sent(),
    {
        self.close_channel();
        self.heci.close();
    }
}

/// The type of an APF message: its first byte.
fn data_first_byte(data: &[u8]) -> (r: Result<u8, ApfError>)
    ensures
        data@.len() > 0 ==> r == Ok::<u8, ApfError>(data@[0]),
        data@.len() == 0 ==> r == Err::<u8, ApfError>(ApfError::Protocol("empty message")),
{
    if data.len() == 0 {
        Err(ApfError::Protocol("empty message"))
    } else {
        Ok(data[0])
    }
}

} // verus!
