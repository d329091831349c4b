//! SOAP envelope builders for the WS-Management operations. Each builder
//! renders the whole envelope and writes its UTF-8 bytes into a
//! caller-owned buffer.

use vstd::prelude::*;
use vstd::string::StringExecFns;
use vstd::utf8::*;
use crate::error::WsmanError;
use crate::schema::{Action, action_uri, DEFAULT_TIMEOUT, WSA_ANONYMOUS};
use crate::selector::{Selector, selector_set};
use crate::text::{copy_into, decimal, lemma_encode_utf8_concat, push_decimal, splice, str_from_utf8};

verus! {

pub const XML_PROLOG_OPEN_ENVELOPE: &'static str = "<?xml version=\"1.0\" encoding=\"utf-8\"?><Envelope xmlns:xsi=\"http://www.w3.org/2001/XMLSchema-instance\" xmlns:xsd=\"http://www.w3.org/2001/XMLSchema\" xmlns:a=\"http://schemas.xmlsoap.org/ws/2004/08/addressing\" xmlns:w=\"http://schemas.dmtf.org/wbem/wsman/1/wsman.xsd\" xmlns=\"http://www.w3.org/2003/05/soap-envelope\">";

pub const ENVELOPE_END: &'static str = "</Envelope>";

pub const ENUMERATE_BODY: &'static str = "<Body><Enumerate xmlns=\"http://schemas.xmlsoap.org/ws/2004/09/enumeration\" /></Body>";

/// The operation timeout that goes into the header: the one given, else
/// the default.
pub open spec fn timeout_of(timeout: Option<&str>) -> Seq<char> {
    match timeout {
        Some(t) => t@,
        None => DEFAULT_TIMEOUT@,
    }
}

/// The `<Header>` element of a request.
pub open spec fn header_text(
    action: Seq<char>,
    resource_uri: Seq<char>,
    message_id: u64,
    selectors: Seq<Selector>,
    timeout: Seq<char>,
) -> Seq<char> {
    "<Header>"@ + "<a:Action>"@ + action + "</a:Action>"@ + "<a:To>/wsman</a:To>"@
        + "<w:ResourceURI>"@ + resource_uri + "</w:ResourceURI>"@ + "<a:MessageID>"@ + decimal(
        message_id as nat,
    ) + "</a:MessageID>"@ + "<a:ReplyTo><a:Address>"@ + WSA_ANONYMOUS@
        + "</a:Address></a:ReplyTo>"@ + "<w:OperationTimeout>"@ + timeout
        + "</w:OperationTimeout>"@ + selector_set(selectors) + "</Header>"@
}

/// A whole envelope around `header` and `body`.
pub open spec fn envelope_text(header: Seq<char>, body: Seq<char>) -> Seq<char> {
    XML_PROLOG_OPEN_ENVELOPE@ + header + body + ENVELOPE_END@
}

/// The Pull body that asks for the next items of `context`.
pub open spec fn pull_body(context: Seq<char>) -> Seq<char> {
    "<Body><Pull xmlns=\"http://schemas.xmlsoap.org/ws/2004/09/enumeration\"><EnumerationContext>"@
        + context
        + "</EnumerationContext><MaxElements>999</MaxElements><MaxCharacters>99999</MaxCharacters></Pull></Body>"@
}

/// `body` between `<Body>` and `</Body>`.
pub open spec fn wrapped_body(body: Seq<char>) -> Seq<char> {
    "<Body>"@ + body + "</Body>"@
}

/// What a builder leaves in `out` for the envelope `text`: its UTF-8 bytes at
/// the start and their count returned when they fit; else `BufferTooSmall`
/// naming what was needed (capped at `usize::MAX`) and what there was, with
/// `out` untouched.
pub open spec fn written(r: Result<usize, WsmanError>, before: Seq<u8>, after: Seq<u8>, text: Seq<char>) -> bool {
    let bytes = encode_utf8(text);
    match r {
        Ok(n) => {
            &&& n == bytes.len()
            &&& bytes.len() <= before.len()
            &&& after == splice(before, 0, bytes)
        },
        Err(e) => {
            &&& bytes.len() > before.len()
            &&& e == WsmanError::BufferTooSmall {
                need: if bytes.len() <= usize::MAX { bytes.len() as usize } else { usize::MAX },
                have: before.len() as usize,
            }
            &&& after == before
        },
    }
}

/// The error of a builder whose envelope `text` does not fit a buffer of
/// `have` bytes.
pub open spec fn too_small_error(text: Seq<char>, have: nat) -> WsmanError {
    let n = encode_utf8(text).len();
    WsmanError::BufferTooSmall { need: if n <= usize::MAX { n as usize } else { usize::MAX }, have: have as usize }
}

fn render_header(
    action: Action,
    resource_uri: &str,
    message_id: u64,
    selectors: &[Selector<'_>],
    timeout: Option<&str>,
) -> (s: String)
    ensures
        s@ == header_text(action_uri(action), resource_uri@, message_id, selectors@, timeout_of(timeout)),
{
    let mut s = String::from_str("<Header>");
    s.append("<a:Action>");
    s.append(action.uri());
    s.append("</a:Action>");
    s.append("<a:To>/wsman</a:To>");
    s.append("<w:ResourceURI>");
    s.append(resource_uri);
    s.append("</w:ResourceURI>");
    s.append("<a:MessageID>");
    push_decimal(&mut s, message_id);
    s.append("</a:MessageID>");
    s.append("<a:ReplyTo><a:Address>");
    s.append(WSA_ANONYMOUS);
    s.append("</a:Address></a:ReplyTo>");
    s.append("<w:OperationTimeout>");
    let t = match timeout {
        Some(t) => t,
        None => DEFAULT_TIMEOUT,
    };
    s.append(t);
    s.append("</w:OperationTimeout>");
    let sel = Selector::render_set(selectors);
    s.append(sel.as_str());
    s.append("</Header>");
    assert(s@ =~= header_text(action_uri(action), resource_uri@, message_id, selectors@, timeout_of(timeout)));
    s
}

fn finish(header: &str, body: &str, out: &mut [u8]) -> (r: Result<usize, WsmanError>)
    ensures
        written(r, old(out)@, final(out)@, envelope_text(header@, body@)),
{
    let p1 = XML_PROLOG_OPEN_ENVELOPE.as_bytes();
    let p2 = header.as_bytes();
    let p3 = body.as_bytes();
    let p4 = ENVELOPE_END.as_bytes();
    let ghost text = envelope_text(header@, body@);
    proof {
        lemma_encode_utf8_concat(XML_PROLOG_OPEN_ENVELOPE@, header@);
        lemma_encode_utf8_concat(XML_PROLOG_OPEN_ENVELOPE@ + header@, body@);
        lemma_encode_utf8_concat(XML_PROLOG_OPEN_ENVELOPE@ + header@ + body@, ENVELOPE_END@);
        assert(encode_utf8(text) == p1@ + p2@ + p3@ + p4@);
    }
    let total: u128 = p1.len() as u128 + p2.len() as u128 + p3.len() as u128 + p4.len() as u128;
    if total > out.len() as u128 {
        let need = if total > usize::MAX as u128 { usize::MAX } else { total as usize };
        return Err(WsmanError::BufferTooSmall { need, have: out.len() });
    }
    let mut p: usize = 0;
    copy_into(out, p, p1);
    p = p + p1.len();
    copy_into(out, p, p2);
    p = p + p2.len();
    copy_into(out, p, p3);
    p = p + p3.len();
    copy_into(out, p, p4);
    p = p + p4.len();
    assert(out@ =~= splice(old(out)@, 0, encode_utf8(text)));
    Ok(p)
}

/// The Get request for the instance that `selectors` pick.
pub open spec fn get_envelope(
    resource_uri: Seq<char>,
    selectors: Seq<Selector>,
    message_id: u64,
    timeout: Seq<char>,
) -> Seq<char> {
    envelope_text(
        header_text(action_uri(Action::Get), resource_uri, message_id, selectors, timeout),
        "<Body></Body>"@,
    )
}

/// The Put request carrying `body` as the new instance.
pub open spec fn put_envelope(
    resource_uri: Seq<char>,
    body: Seq<char>,
    selectors: Seq<Selector>,
    message_id: u64,
    timeout: Seq<char>,
) -> Seq<char> {
    envelope_text(
        header_text(action_uri(Action::Put), resource_uri, message_id, selectors, timeout),
        wrapped_body(body),
    )
}

/// The Enumerate request.
pub open spec fn enumerate_envelope(resource_uri: Seq<char>, message_id: u64, timeout: Seq<char>) -> Seq<char> {
    envelope_text(
        header_text(action_uri(Action::Enumerate), resource_uri, message_id, seq![], timeout),
        ENUMERATE_BODY@,
    )
}

/// The Pull request for the enumeration `context`.
pub open spec fn pull_envelope(
    resource_uri: Seq<char>,
    context: Seq<char>,
    message_id: u64,
    timeout: Seq<char>,
) -> Seq<char> {
    envelope_text(
        header_text(action_uri(Action::Pull), resource_uri, message_id, seq![], timeout),
        pull_body(context),
    )
}

/// The method invocation `action` carrying `input` as its arguments.
pub open spec fn invoke_envelope(
    action: Seq<char>,
    resource_uri: Seq<char>,
    input: Seq<char>,
    selectors: Seq<Selector>,
    message_id: u64,
    timeout: Seq<char>,
) -> Seq<char> {
    envelope_text(
        header_text(action, resource_uri, message_id, selectors, timeout),
        wrapped_body(input),
    )
}

pub fn build_get(
    resource_uri: &str,
    selectors: &[Selector<'_>],
    message_id: u64,
    timeout: Option<&str>,
    out: &mut [u8],
) -> (r: Result<usize, WsmanError>)
    ensures
        written(r, old(out)@, final(out)@, get_envelope(resource_uri@, selectors@, message_id, timeout_of(timeout))),
{
    let h = render_header(Action::Get, resource_uri, message_id, selectors, timeout);
    finish(h.as_str(), "<Body></Body>", out)
}

pub fn build_put(
    resource_uri: &str,
    body_xml: &[u8],
    selectors: &[Selector<'_>],
    message_id: u64,
    timeout: Option<&str>,
    out: &mut [u8],
) -> (r: Result<usize, WsmanError>)
    ensures
        !valid_utf8(body_xml@) ==> r == Err::<usize, WsmanError>(WsmanError::Builder("body_xml is not UTF-8")) && final(out)@ == old(out)@,
        valid_utf8(body_xml@) ==> written(r, old(out)@, final(out)@,
            put_envelope(resource_uri@, decode_utf8(body_xml@), selectors@, message_id, timeout_of(timeout))),
{
    let h = render_header(Action::Put, resource_uri, message_id, selectors, timeout);
    let body_str = match str_from_utf8(body_xml) {
        Some(s) => s,
        None => return Err(WsmanError::Builder("body_xml is not UTF-8")),
    };
    let mut body = String::from_str("<Body>");
    body.append(body_str);
    body.append("</Body>");
    finish(h.as_str(), body.as_str(), out)
}

pub fn build_enumerate(
    resource_uri: &str,
    message_id: u64,
    timeout: Option<&str>,
    out: &mut [u8],
) -> (r: Result<usize, WsmanError>)
    ensures
        written(r, old(out)@, final(out)@, enumerate_envelope(resource_uri@, message_id, timeout_of(timeout))),
{
    let none: [Selector; 0] = [];
    let h = render_header(Action::Enumerate, resource_uri, message_id, none.as_slice(), timeout);
    assert(none@ =~= Seq::<Selector>::empty());
    finish(h.as_str(), ENUMERATE_BODY, out)
}

pub fn build_pull(
    resource_uri: &str,
    enumeration_context: &str,
    message_id: u64,
    timeout: Option<&str>,
    out: &mut [u8],
) -> (r: Result<usize, WsmanError>)
    ensures
        written(r, old(out)@, final(out)@, pull_envelope(resource_uri@, enumeration_context@, message_id, timeout_of(timeout))),
{
    let none: [Selector; 0] = [];
    let h = render_header(Action::Pull, resource_uri, message_id, none.as_slice(), timeout);
    assert(none@ =~= Seq::<Selector>::empty());
    let mut body = String::from_str("<Body><Pull xmlns=\"http://schemas.xmlsoap.org/ws/2004/09/enumeration\"><EnumerationContext>");
    body.append(enumeration_context);
    body.append("</EnumerationContext><MaxElements>999</MaxElements><MaxCharacters>99999</MaxCharacters></Pull></Body>");
    finish(h.as_str(), body.as_str(), out)
}

pub fn build_invoke(
    action_uri: &'static str,
    resource_uri: &str,
    input_xml: &[u8],
    selectors: &[Selector<'_>],
    message_id: u64,
    timeout: Option<&str>,
    out: &mut [u8],
) -> (r: Result<usize, WsmanError>)
    ensures
        !valid_utf8(input_xml@) ==> r == Err::<usize, WsmanError>(WsmanError::Builder("input_xml is not UTF-8")) && final(out)@ == old(out)@,
        valid_utf8(input_xml@) ==> written(r, old(out)@, final(out)@,
            invoke_envelope(action_uri@, resource_uri@, decode_utf8(input_xml@), selectors@, message_id, timeout_of(timeout))),
{
    let h = render_header(Action::Invoke(action_uri), resource_uri, message_id, selectors, timeout);
    let input_str = match str_from_utf8(input_xml) {
        Some(s) => s,
        None => return Err(WsmanError::Builder("input_xml is not UTF-8")),
    };
    let mut body = String::from_str("<Body>");
    body.append(input_str);
    body.append("</Body>");
    finish(h.as_str(), body.as_str(), out)
}

/// The body bytes a caller hands to a Put or an Invoke stand verbatim
/// between `<Body>` and `</Body>` in the bytes of the envelope.
pub proof fn law_body_spliced_verbatim(
    action: Seq<char>,
    resource_uri: Seq<char>,
    body: Seq<u8>,
    selectors: Seq<Selector>,
    message_id: u64,
    timeout: Seq<char>,
)
    requires
        valid_utf8(body),
    ensures
        encode_utf8(put_envelope(resource_uri, decode_utf8(body), selectors, message_id, timeout))
            == encode_utf8(XML_PROLOG_OPEN_ENVELOPE@ + header_text(action_uri(Action::Put), resource_uri, message_id, selectors, timeout) + "<Body>"@)
            + body + encode_utf8("</Body>"@ + ENVELOPE_END@),
        encode_utf8(invoke_envelope(action, resource_uri, decode_utf8(body), selectors, message_id, timeout))
            == encode_utf8(XML_PROLOG_OPEN_ENVELOPE@ + header_text(action, resource_uri, message_id, selectors, timeout) + "<Body>"@)
            + body + encode_utf8("</Body>"@ + ENVELOPE_END@),
{
    let m = decode_utf8(body);
    let z = "</Body>"@ + ENVELOPE_END@;
    decode_utf8_encode_utf8(body);
    let hp = header_text(action_uri(Action::Put), resource_uri, message_id, selectors, timeout);
    let ap = XML_PROLOG_OPEN_ENVELOPE@ + hp + "<Body>"@;
    assert(put_envelope(resource_uri, m, selectors, message_id, timeout) =~= ap + m + z);
    lemma_encode_utf8_concat(ap + m, z);
    lemma_encode_utf8_concat(ap, m);
    let hi = header_text(action, resource_uri, message_id, selectors, timeout);
    let ai = XML_PROLOG_OPEN_ENVELOPE@ + hi + "<Body>"@;
    assert(invoke_envelope(action, resource_uri, m, selectors, message_id, timeout) =~= ai + m + z);
    lemma_encode_utf8_concat(ai + m, z);
    lemma_encode_utf8_concat(ai, m);
}

} // verus!
