//! APF (AMT Port Forwarding) message layouts: opcodes, big-endian fields and
//! the encoders of the frames that the host sends to the ME.

use vstd::prelude::*;
use crate::error::ApfError;
use crate::text::{splice, copy_into};

verus! {

pub const APF_DISCONNECT: u8 = 1;
pub const APF_SERVICE_REQUEST: u8 = 5;
pub const APF_SERVICE_ACCEPT: u8 = 6;
pub const APF_GLOBAL_REQUEST: u8 = 80;
pub const APF_REQUEST_SUCCESS: u8 = 81;
pub const APF_REQUEST_FAILURE: u8 = 82;
pub const APF_CHANNEL_OPEN: u8 = 90;
pub const APF_CHANNEL_OPEN_CONFIRMATION: u8 = 91;
pub const APF_CHANNEL_OPEN_FAILURE: u8 = 92;
pub const APF_CHANNEL_WINDOW_ADJUST: u8 = 93;
pub const APF_CHANNEL_DATA: u8 = 94;
pub const APF_CHANNEL_CLOSE: u8 = 97;
pub const APF_PROTOCOLVERSION: u8 = 192;
pub const APF_KEEPALIVE_REQUEST: u8 = 208;
pub const APF_KEEPALIVE_REPLY: u8 = 209;

pub const APF_AMT_HTTP_PORT: u32 = 16992;
pub const LME_RX_WINDOW_SIZE: u32 = 4096;

/// `pfwd@amt.intel.com`
pub const APF_SERVICE_PFWD: [u8; 18] = [
    112, 102, 119, 100, 64, 97, 109, 116, 46, 105, 110, 116, 101, 108, 46, 99, 111, 109,
];

/// `forwarded-tcpip`
pub const APF_OPEN_CHANNEL_REQUEST_FORWARDED: [u8; 15] = [
    102, 111, 114, 119, 97, 114, 100, 101, 100, 45, 116, 99, 112, 105, 112,
];

/// `127.0.0.1`
pub const LOOPBACK_ADDR: [u8; 9] = [49, 50, 55, 46, 48, 46, 48, 46, 49];

/// LME client UUID: {6733A4DB-0476-4E7B-B3AF-BCFC29BEE7A7}
pub const LME_UUID: [u8; 16] = [
    0xdb, 0xa4, 0x33, 0x67, 0x76, 0x04, 0x7b, 0x4e, 0xb3, 0xaf, 0xbc, 0xfc, 0x29, 0xbe, 0xe7, 0xa7,
];

/// The big-endian bytes of `v`.
pub open spec fn be32(v: u32) -> Seq<u8> {
    seq![
        (v / 0x1000000) as u8,
        ((v / 0x10000) % 0x100) as u8,
        ((v / 0x100) % 0x100) as u8,
        (v % 0x100) as u8,
    ]
}

/// The value of the first four bytes of `b`, read big-endian.
pub open spec fn be32_value(b: Seq<u8>) -> u32
    recommends
        b.len() >= 4,
{
    (b[0] as int * 0x1000000 + b[1] as int * 0x10000 + b[2] as int * 0x100 + b[3] as int) as u32
}

/// Reading back what was written gives the value written.
pub proof fn lemma_be32_roundtrip(v: u32)
    ensures
        be32(v).len() == 4,
        be32_value(be32(v)) == v,
{
}

/// Writing back what was read gives the bytes read.
pub proof fn lemma_be32_value_bytes(b: Seq<u8>)
    requires
        b.len() >= 4,
    ensures
        be32(be32_value(b)) == b.take(4),
{
    assert(be32(be32_value(b)) =~= b.take(4));
}

/// Reads a big-endian `u32` from the first four bytes of `p`.
pub fn read_be32(p: &[u8]) -> (r: u32)
    requires
        p@.len() >= 4,
    ensures
        r == be32_value(p@),
{
    (p[0] as u32) * 0x1000000 + (p[1] as u32) * 0x10000 + (p[2] as u32) * 0x100 + (p[3] as u32)
}

/// Writes `val` big-endian at `pos`.
pub fn put_be32(buf: &mut [u8], pos: usize, val: u32)
    requires
        pos + 4 <= old(buf)@.len(),
    ensures
        final(buf)@ == splice(old(buf)@, pos as int, be32(val)),
{
    buf[pos] = (val / 0x1000000) as u8;
    buf[pos + 1] = ((val / 0x10000) % 0x100) as u8;
    buf[pos + 2] = ((val / 0x100) % 0x100) as u8;
    buf[pos + 3] = (val % 0x100) as u8;
    assert(buf@ =~= splice(old(buf)@, pos as int, be32(val)));
}

/// Writes `val` big-endian into the first four bytes of `buf`.
pub fn write_be32(buf: &mut [u8], val: u32)
    requires
        old(buf)@.len() >= 4,
    ensures
        final(buf)@ == splice(old(buf)@, 0, be32(val)),
{
    put_be32(buf, 0, val);
}

/// What an encoder leaves behind: on success the frame at the start of the
/// buffer and its length returned, the rest untouched; when the buffer is
/// shorter than the frame, `BufferTooSmall` and the buffer untouched.
pub open spec fn encoded(
    r: Result<usize, ApfError>,
    before: Seq<u8>,
    after: Seq<u8>,
    frame: Seq<u8>,
) -> bool {
    match r {
        Ok(n) => {
            &&& n == frame.len()
            &&& frame.len() <= before.len()
            &&& after == frame + before.skip(frame.len() as int)
        },
        Err(e) => {
            &&& e is BufferTooSmall
            &&& before.len() < frame.len()
            &&& after == before
        },
    }
}

/// `n` zero bytes.
pub open spec fn zeros(n: nat) -> Seq<u8> {
    Seq::new(n, |i: int| 0u8)
}

/// PROTOCOL_VERSION: opcode, major, minor, then zero padding to 93 bytes.
pub open spec fn protocol_version_frame(major: u32, minor: u32) -> Seq<u8> {
    seq![APF_PROTOCOLVERSION] + be32(major) + be32(minor) + zeros(84)
}

/// SERVICE_ACCEPT: opcode, name length, name.
pub open spec fn service_accept_frame(name: Seq<u8>) -> Seq<u8> {
    seq![APF_SERVICE_ACCEPT] + be32(name.len() as u32) + name
}

/// REQUEST_SUCCESS: opcode, port.
pub open spec fn request_success_frame(port: u32) -> Seq<u8> {
    seq![APF_REQUEST_SUCCESS] + be32(port)
}

/// CHANNEL_OPEN of type `forwarded-tcpip` from and to `127.0.0.1:port`.
pub open spec fn channel_open_frame(sender_channel: u32, initial_window: u32, port: u32) -> Seq<u8> {
    seq![APF_CHANNEL_OPEN] + be32(15) + APF_OPEN_CHANNEL_REQUEST_FORWARDED@ + be32(sender_channel)
        + be32(initial_window) + be32(0xFFFF_FFFF) + be32(9) + LOOPBACK_ADDR@ + be32(port) + be32(
        9,
    ) + LOOPBACK_ADDR@ + be32(port)
}

/// CHANNEL_DATA: opcode, recipient channel, data length, data.
pub open spec fn channel_data_frame(recipient: u32, data: Seq<u8>) -> Seq<u8> {
    seq![APF_CHANNEL_DATA] + be32(recipient) + be32(data.len() as u32) + data
}

/// CHANNEL_WINDOW_ADJUST: opcode, recipient channel, bytes to add.
pub open spec fn window_adjust_frame(recipient: u32, bytes_to_add: u32) -> Seq<u8> {
    seq![APF_CHANNEL_WINDOW_ADJUST] + be32(recipient) + be32(bytes_to_add)
}

/// CHANNEL_CLOSE: opcode, recipient channel.
pub open spec fn channel_close_frame(recipient: u32) -> Seq<u8> {
    seq![APF_CHANNEL_CLOSE] + be32(recipient)
}

/// KEEPALIVE_REPLY: opcode, cookie.
pub open spec fn keepalive_reply_frame(cookie: u32) -> Seq<u8> {
    seq![APF_KEEPALIVE_REPLY] + be32(cookie)
}

fn require(buf: &[u8], need: usize) -> (r: Result<(), ApfError>)
    ensures
        r is Ok <==> buf@.len() >= need,
        r matches Err(e) ==> e is BufferTooSmall,
{
    if buf.len() < need {
        Err(ApfError::BufferTooSmall)
    } else {
        Ok(())
    }
}

pub fn encode_protocol_version(buf: &mut [u8], major: u32, minor: u32) -> (r: Result<usize, ApfError>)
    ensures
        encoded(r, old(buf)@, final(buf)@, protocol_version_frame(major, minor)),
{
    let ghost frame = protocol_version_frame(major, minor);
    assert(frame.len() == 93);
    require(buf, 93)?;
    let mut i: usize = 0;
    while i < 93
        invariant
            i <= 93 <= buf@.len() == old(buf)@.len(),
            forall|j: int| 0 <= j < buf@.len() ==> #[trigger] buf@[j] == if j < i { 0u8 } else { old(buf)@[j] },
        decreases 93 - i,
    {
        buf[i] = 0;
        i = i + 1;
    }
    buf[0] = APF_PROTOCOLVERSION;
    put_be32(buf, 1, major);
    put_be32(buf, 5, minor);
    assert(buf@ =~= frame + old(buf)@.skip(93));
    Ok(93)
}

pub fn encode_service_accept(buf: &mut [u8], name: &[u8]) -> (r: Result<usize, ApfError>)
    requires
        name@.len() + 5 <= usize::MAX,
    ensures
        encoded(r, old(buf)@, final(buf)@, service_accept_frame(name@)),
{
    let total = 5 + name.len();
    require(buf, total)?;
    buf[0] = APF_SERVICE_ACCEPT;
    put_be32(buf, 1, name.len() as u32);
    copy_into(buf, 5, name);
    assert(buf@ =~= service_accept_frame(name@) + old(buf)@.skip(total as int));
    Ok(total)
}

pub fn encode_request_success(buf: &mut [u8], port: u32) -> (r: Result<usize, ApfError>)
    ensures
        encoded(r, old(buf)@, final(buf)@, request_success_frame(port)),
{
    require(buf, 5)?;
    buf[0] = APF_REQUEST_SUCCESS;
    put_be32(buf, 1, port);
    assert(buf@ =~= request_success_frame(port) + old(buf)@.skip(5));
    Ok(5)
}

/// Builds a `CHANNEL_OPEN` message for `forwarded-tcpip` targeting
/// `127.0.0.1:port`: 66 bytes.
pub fn encode_channel_open(
    buf: &mut [u8],
    sender_channel: u32,
    initial_window: u32,
    port: u32,
) -> (r: Result<usize, ApfError>)
    ensures
        encoded(r, old(buf)@, final(buf)@, channel_open_frame(sender_channel, initial_window, port)),
{
    let ghost frame = channel_open_frame(sender_channel, initial_window, port);
    assert(frame.len() == 66);
    require(buf, 66)?;
    let forwarded = APF_OPEN_CHANNEL_REQUEST_FORWARDED;
    let loopback = LOOPBACK_ADDR;
    buf[0] = APF_CHANNEL_OPEN;
    put_be32(buf, 1, 15);
    copy_into(buf, 5, forwarded.as_slice());
    put_be32(buf, 20, sender_channel);
    put_be32(buf, 24, initial_window);
    put_be32(buf, 28, 0xFFFF_FFFF);
    put_be32(buf, 32, 9);
    copy_into(buf, 36, loopback.as_slice());
    put_be32(buf, 45, port);
    put_be32(buf, 49, 9);
    copy_into(buf, 53, loopback.as_slice());
    put_be32(buf, 62, port);
    assert(buf@ =~= frame + old(buf)@.skip(66));
    Ok(66)
}

pub fn encode_channel_data(buf: &mut [u8], recipient: u32, data: &[u8]) -> (r: Result<usize, ApfError>)
    requires
        data@.len() + 9 <= usize::MAX,
    ensures
        encoded(r, old(buf)@, final(buf)@, channel_data_frame(recipient, data@)),
{
    let total = 9 + data.len();
    require(buf, total)?;
    buf[0] = APF_CHANNEL_DATA;
    put_be32(buf, 1, recipient);
    put_be32(buf, 5, data.len() as u32);
    copy_into(buf, 9, data);
    assert(buf@ =~= channel_data_frame(recipient, data@) + old(buf)@.skip(total as int));
    Ok(total)
}

pub fn encode_window_adjust(buf: &mut [u8], recipient: u32, bytes_to_add: u32) -> (r: Result<usize, ApfError>)
    ensures
        encoded(r, old(buf)@, final(buf)@, window_adjust_frame(recipient, bytes_to_add)),
{
    require(buf, 9)?;
    buf[0] = APF_CHANNEL_WINDOW_ADJUST;
    put_be32(buf, 1, recipient);
    put_be32(buf, 5, bytes_to_add);
    assert(buf@ =~= window_adjust_frame(recipient, bytes_to_add) + old(buf)@.skip(9));
    Ok(9)
}

pub fn encode_channel_close(buf: &mut [u8], recipient: u32) -> (r: Result<usize, ApfError>)
    ensures
        encoded(r, old(buf)@, final(buf)@, channel_close_frame(recipient)),
{
    require(buf, 5)?;
    buf[0] = APF_CHANNEL_CLOSE;
    put_be32(buf, 1, recipient);
    assert(buf@ =~= channel_close_frame(recipient) + old(buf)@.skip(5));
    Ok(5)
}

pub fn encode_keepalive_reply(buf: &mut [u8], cookie: u32) -> (r: Result<usize, ApfError>)
    ensures
        encoded(r, old(buf)@, final(buf)@, keepalive_reply_frame(cookie)),
{
    require(buf, 5)?;
    buf[0] = APF_KEEPALIVE_REPLY;
    put_be32(buf, 1, cookie);
    assert(buf@ =~= keepalive_reply_frame(cookie) + old(buf)@.skip(5));
    Ok(5)
}

} // verus!
