//! WS-Management over APF: HTTP/1.1 framing of requests onto the APF
//! channel and parsing of the replies that come back on it.

use vstd::prelude::*;
use vstd::string::StringExecFns;
use vstd::utf8::*;
use crate::client::headers_view;
use crate::error::{ApfError, WsmanError, apf_error_text};
use crate::heci::{HeciHooks, HeciTransport};
use crate::message::{channel_data_frame, encoded};
use crate::parse::parse_decimal_chars;
use crate::parse::parse_decimal;
use crate::scan::has_prefix;
use crate::session::{ApfSession, Received, stream_of, recv_replies};
use crate::text::{chars_of, copy_into, decimal, find_bytes, find_from, lemma_find_from, push_decimal, splice, str_from_utf8, trim, trim_bounds};
use crate::transport::{ResponseBuf, ResponseMeta, Transport};

verus! {

pub const HOST_HEADER_HOST: &'static str = "127.0.0.1:16992";
pub const FRAMING_BUF_SIZE: usize = 3072;
pub const STREAM_BUF_SIZE: usize = 8192;

/// `name: value\r\n` for each header, in order.
pub open spec fn header_lines(h: Seq<(Seq<char>, Seq<char>)>) -> Seq<char>
    decreases h.len(),
{
    if h.len() == 0 {
        seq![]
    } else {
        header_lines(h.drop_last()) + h.last().0 + ": "@ + h.last().1 + "\r\n"@
    }
}

/// The head of the HTTP request that carries a body of `body_len` bytes.
pub open spec fn http_request_head(h: Seq<(Seq<char>, Seq<char>)>, body_len: nat) -> Seq<char> {
    "POST /wsman HTTP/1.1\r\n"@ + "Host: "@ + HOST_HEADER_HOST@ + "\r\n"@ + header_lines(h)
        + "Content-Length: "@ + decimal(body_len) + "\r\n"@ + "\r\n"@
}

/// The whole HTTP request: its head in UTF-8, then the body.
pub open spec fn http_request(h: Seq<(Seq<char>, Seq<char>)>, body: Seq<u8>) -> Seq<u8> {
    encode_utf8(http_request_head(h, body.len())) + body
}

/// Frames an HTTP POST of `body` to `/wsman` with `extra_headers` into `out`.
pub fn build_http_request(
    out: &mut [u8],
    extra_headers: &[(&str, &str)],
    body: &[u8],
) -> (r: Result<usize, ApfError>)
    ensures
        encoded(r, old(out)@, final(out)@, http_request(headers_view(extra_headers@), body@)),
{
    let mut s = String::from_str("POST /wsman HTTP/1.1\r\n");
    s.append("Host: ");
    s.append(HOST_HEADER_HOST);
    s.append("\r\n");
    let mut i: usize = 0;
    while i < extra_headers.len()
        invariant
            i <= extra_headers@.len(),
            s@ == "POST /wsman HTTP/1.1\r\n"@ + "Host: "@ + HOST_HEADER_HOST@ + "\r\n"@ + header_lines(
                headers_view(extra_headers@.take(i as int)),
            ),
        decreases extra_headers@.len() - i,
    {
        let (k, v) = extra_headers[i];
        s.append(k);
        s.append(": ");
        s.append(v);
        s.append("\r\n");
        proof {
            let t = headers_view(extra_headers@.take(i + 1));
            assert(t.drop_last() =~= headers_view(extra_headers@.take(i as int)));
            assert(t.last() == (k@, v@));
        }
        i = i + 1;
        assert(s@ =~= "POST /wsman HTTP/1.1\r\n"@ + "Host: "@ + HOST_HEADER_HOST@ + "\r\n"@ + header_lines(
            headers_view(extra_headers@.take(i as int))));
    }
    assert(extra_headers@.take(extra_headers@.len() as int) =~= extra_headers@);
    s.append("Content-Length: ");
    push_decimal(&mut s, body.len() as u64);
    s.append("\r\n");
    s.append("\r\n");
    assert(s@ =~= http_request_head(headers_view(extra_headers@), body@.len()));
    let header_bytes = s.as_str().as_bytes();
    let total: u128 = header_bytes.len() as u128 + body.len() as u128;
    if total > out.len() as u128 {
        return Err(ApfError::BufferTooSmall);
    }
    copy_into(out, 0, header_bytes);
    copy_into(out, header_bytes.len(), body);
    let n = header_bytes.len() + body.len();
    assert(out@ =~= http_request(headers_view(extra_headers@), body@) + old(out)@.skip(n as int));
    Ok(n)
}

/// `HTTP/1.1 `
pub open spec fn http11_prefix() -> Seq<u8> {
    seq![72u8, 84, 84, 80, 47, 49, 46, 49, 32]
}

/// `HTTP/1.0 `
pub open spec fn http10_prefix() -> Seq<u8> {
    seq![72u8, 84, 84, 80, 47, 49, 46, 48, 32]
}

/// `raw` starts with an HTTP/1.x status-line prefix.
pub open spec fn status_line(raw: Seq<u8>) -> bool {
    has_prefix(raw, http11_prefix()) || has_prefix(raw, http10_prefix())
}

pub open spec fn is_ascii_digit(b: u8) -> bool {
    48 <= b <= 57
}

/// The three status digits after the prefix are digits.
pub open spec fn status_digits(raw: Seq<u8>) -> bool {
    is_ascii_digit(raw[9]) && is_ascii_digit(raw[10]) && is_ascii_digit(raw[11])
}

/// The status code the three digits spell.
pub open spec fn status_value(raw: Seq<u8>) -> u16 {
    ((raw[9] - 48) * 100 + (raw[10] - 48) * 10 + (raw[11] - 48)) as u16
}

/// `\r\n\r\n`
pub open spec fn header_terminator() -> Seq<u8> {
    seq![13u8, 10, 13, 10]
}

/// `\r\n`
pub open spec fn crlf() -> Seq<u8> {
    seq![13u8, 10]
}

/// `b` with ASCII upper-case letters made lower-case.
pub open spec fn ascii_lower(b: u8) -> u8 {
    if 65 <= b <= 90 { (b + 32) as u8 } else { b }
}

pub open spec fn lower_bytes(s: Seq<u8>) -> Seq<u8> {
    s.map_values(|b: u8| ascii_lower(b))
}

/// Space or tab.
pub open spec fn is_blank(b: u8) -> bool {
    b == 32 || b == 9
}

/// `s` without leading and trailing spaces and tabs.
pub open spec fn trim_blank(s: Seq<u8>) -> Seq<u8>
    decreases s.len(),
{
    if s.len() > 0 && is_blank(s[0]) {
        trim_blank(s.drop_first())
    } else if s.len() > 0 && is_blank(s.last()) {
        trim_blank(s.drop_last())
    } else {
        s
    }
}

/// Where the trimmed part of `s` starts and ends.
proof fn trim_blank_bounds(s: Seq<u8>) -> (ab: (int, int))
    ensures
        0 <= ab.0 <= ab.1 <= s.len(),
        trim_blank(s) == s.subrange(ab.0, ab.1),
        forall|i: int| 0 <= i < ab.0 ==> (#[trigger] s[i] == 32 || s[i] == 9),
        forall|i: int| ab.1 <= i < s.len() ==> (#[trigger] s[i] == 32 || s[i] == 9),
        ab.0 < ab.1 ==> s[ab.0] != 32 && s[ab.0] != 9 && s[ab.1 - 1] != 32 && s[ab.1 - 1] != 9,
    decreases s.len(),
{
    if s.len() > 0 && is_blank(s[0]) {
        let (a, b) = trim_blank_bounds(s.drop_first());
        assert(s.drop_first().subrange(a, b) =~= s.subrange(a + 1, b + 1));
        assert forall|i: int| 0 <= i < a + 1 implies (#[trigger] s[i] == 32 || s[i] == 9) by {
            if i > 0 {
                assert(s[i] == s.drop_first()[i - 1]);
            }
        }
        assert forall|i: int| b + 1 <= i < s.len() implies (#[trigger] s[i] == 32 || s[i] == 9) by {
            assert(s[i] == s.drop_first()[i - 1]);
        }
        (a + 1, b + 1)
    } else if s.len() > 0 && is_blank(s.last()) {
        let (a, b) = trim_blank_bounds(s.drop_last());
        assert(s.drop_last().subrange(a, b) =~= s.subrange(a, b));
        assert forall|i: int| 0 <= i < a implies (#[trigger] s[i] == 32 || s[i] == 9) by {
            assert(s[i] == s.drop_last()[i]);
        }
        assert forall|i: int| b <= i < s.len() implies (#[trigger] s[i] == 32 || s[i] == 9) by {
            if i < s.len() - 1 {
                assert(s[i] == s.drop_last()[i]);
            }
        }
        (a, b)
    } else {
        assert(s.subrange(0, s.len() as int) =~= s);
        (0, s.len() as int)
    }
}

/// Trimming a header value drops exactly the spaces and tabs at its two
/// ends: what is left is a stretch of the value that starts and ends with
/// neither, and everything cut away is a space or a tab.
pub proof fn law_trim_blank_cuts_only_blanks(s: Seq<u8>)
    ensures
        exists|a: int, b: int| {
            &&& 0 <= a <= b <= s.len()
            &&& #[trigger] s.subrange(a, b) == trim_blank(s)
            &&& forall|i: int| 0 <= i < a ==> (#[trigger] s[i] == 32 || s[i] == 9)
            &&& forall|i: int| b <= i < s.len() ==> (#[trigger] s[i] == 32 || s[i] == 9)
            &&& a < b ==> s[a] != 32 && s[a] != 9 && s[b - 1] != 32 && s[b - 1] != 9
        },
{
    let (a, b) = trim_blank_bounds(s);
    assert(s.subrange(a, b) == trim_blank(s));
}

/// The value of the header whose lower-case name with colon is `name`:
/// the rest of its line after the first case-insensitive match, with spaces
/// and tabs trimmed.
pub open spec fn header_value(headers: Seq<u8>, name: Seq<u8>) -> Option<Seq<u8>> {
    match find_from(lower_bytes(headers), name, 0) {
        None => None,
        Some(p) => {
            let vs = p + name.len();
            let le = match find_from(headers, crlf(), vs) {
                Some(e) => e,
                None => headers.len() as int,
            };
            Some(trim_blank(headers.subrange(vs, le)))
        },
    }
}

/// `crlf()` first occurs at `e` when searched from `j`, when no CR
/// comes between.
proof fn lemma_find_crlf(h: Seq<u8>, j: int, e: int)
    requires
        0 <= j <= e,
        e + 2 <= h.len(),
        h[e] == 13 && h[e + 1] == 10,
        forall|k: int| j <= k < e ==> h[k] != 13,
    ensures
        find_from(h, crlf(), j) == Some(e),
    decreases e - j,
{
    if j < e {
        assert(h.subrange(j, j + 2)[0] == h[j]);
        assert(h.subrange(j, j + 2) != crlf());
        lemma_find_crlf(h, j + 1, e);
    } else {
        assert(h.subrange(j, j + 2) =~= crlf());
    }
}

/// Header names match whatever their letter case: a header line whose name
/// spells the lower-case `name` with any of its letters in upper case
/// (`A`..`Z` standing for `a`..`z`) gives its value, trimmed.
pub proof fn law_header_name_any_case(name: Seq<u8>, line_name: Seq<u8>, v: Seq<u8>, rest: Seq<u8>)
    requires
        line_name.len() == name.len(),
        forall|i: int| 0 <= i < name.len() ==> !(65 <= #[trigger] name[i] <= 90),
        forall|i: int| 0 <= i < name.len() ==> (#[trigger] line_name[i] == name[i]
            || (97 <= name[i] <= 122 && line_name[i] == name[i] - 32)),
        forall|i: int| 0 <= i < v.len() ==> #[trigger] v[i] != 13,
    ensures
        header_value(line_name + v + crlf() + rest, name) == Some(trim_blank(v)),
{
    let h = line_name + v + crlf() + rest;
    let lh = lower_bytes(h);
    assert(lh.subrange(0, name.len() as int) =~= name) by {
        assert forall|i: int| 0 <= i < name.len() implies lh.subrange(0, name.len() as int)[i] == name[i] by {
            assert(h[i] == line_name[i]);
        }
    }
    assert(find_from(lh, name, 0) == Some(0int));
    let e: int = (name.len() + v.len()) as int;
    assert forall|k: int| name.len() <= k < e implies h[k] != 13 by {
        assert(h[k] == v[k - name.len()]);
    }
    assert(h[e] == 13 && h[e + 1] == 10);
    lemma_find_crlf(h, name.len() as int, e);
    assert(h.subrange(name.len() as int, e) =~= v);
}

/// `www-authenticate:`
pub open spec fn www_authenticate_name() -> Seq<u8> {
    seq![119u8, 119, 119, 45, 97, 117, 116, 104, 101, 110, 116, 105, 99, 97, 116, 101, 58]
}

/// `content-length:`
pub open spec fn content_length_name() -> Seq<u8> {
    seq![99u8, 111, 110, 116, 101, 110, 116, 45, 108, 101, 110, 103, 116, 104, 58]
}

/// The Content-Length the headers declare: `None` when there is no such
/// header, `Some(None)` when its value is not a decimal `usize`.
pub open spec fn content_length(headers: Seq<u8>) -> Option<Option<usize>> {
    match header_value(headers, content_length_name()) {
        None => None,
        Some(v) => if valid_utf8(v) {
            match parse_decimal(trim(decode_utf8(v)), usize::MAX as nat) {
                Some(n) => Some(Some(n as usize)),
                None => Some(None),
            }
        } else {
            Some(None)
        },
    }
}

/// The body of the reply: the bytes after the head, cut to the declared
/// length when that is no longer than what is there.
pub open spec fn reply_body(raw: Seq<u8>, body_start: int, cl: Option<Option<usize>>) -> Seq<u8> {
    let full = raw.skip(body_start);
    match cl {
        Some(Some(n)) => if n <= full.len() { full.take(n as int) } else { full },
        _ => full,
    }
}

fn find_subslice(haystack: &[u8], needle: &[u8]) -> (r: Option<usize>)
    ensures
        match r {
            Some(k) => find_from(haystack@, needle@, 0) == Some(k as int),
            None => find_from(haystack@, needle@, 0) is None,
        },
{
    find_bytes(haystack, needle, 0)
}

fn to_ascii_lower(b: u8) -> (r: u8)
    ensures
        r == ascii_lower(b),
{
    if 65 <= b && b <= 90 { b + 32 } else { b }
}

/// Finds the case-insensitive `name_colon_lower` in `raw`; returns the
/// position just after it.
fn find_header(raw: &[u8], name_colon_lower: &[u8]) -> (r: Option<usize>)
    ensures
        match r {
            Some(k) => find_from(lower_bytes(raw@), name_colon_lower@, 0) matches Some(p) && k == p + name_colon_lower@.len(),
            None => find_from(lower_bytes(raw@), name_colon_lower@, 0) is None,
        },
        r matches Some(k) ==> k <= raw@.len(),
{
    let mut lower: Vec<u8> = Vec::new();
    let mut i: usize = 0;
    while i < raw.len()
        invariant
            i <= raw@.len(),
            lower@ == lower_bytes(raw@.take(i as int)),
        decreases raw@.len() - i,
    {
        lower.push(to_ascii_lower(raw[i]));
        i = i + 1;
        assert(lower@ =~= lower_bytes(raw@.take(i as int)));
    }
    assert(raw@.take(raw@.len() as int) =~= raw@);
    let start = find_subslice(lower.as_slice(), name_colon_lower)?;
    proof {
        lemma_find_from(lower@, name_colon_lower@, 0);
    }
    Some(start + name_colon_lower.len())
}

/// `s` without leading and trailing spaces and tabs.
fn trim_bytes(s: &[u8]) -> (r: &[u8])
    ensures
        r@ == trim_blank(s@),
{
    let mut lo: usize = 0;
    let mut hi: usize = s.len();
    assert(s@.subrange(0, hi as int) =~= s@);
    while lo < hi && (s[lo] == 32 || s[lo] == 9)
        invariant
            lo <= hi == s@.len(),
            trim_blank(s@) == trim_blank(s@.subrange(lo as int, hi as int)),
        decreases hi - lo,
    {
        assert(s@.subrange(lo as int, hi as int).drop_first() =~= s@.subrange(lo + 1, hi as int));
        lo = lo + 1;
    }
    while hi > lo && (s[hi - 1] == 32 || s[hi - 1] == 9)
        invariant
            lo <= hi <= s@.len(),
            lo == hi || !is_blank(s@[lo as int]),
            trim_blank(s@) == trim_blank(s@.subrange(lo as int, hi as int)),
        decreases hi,
    {
        assert(s@.subrange(lo as int, hi as int).drop_last() =~= s@.subrange(lo as int, hi - 1));
        hi = hi - 1;
    }
    &s[lo..hi]
}

/// The value bounds `(start, end)` of the header `name` within `headers`.
fn header_bounds(headers: &[u8], name: &[u8]) -> (r: Option<(usize, usize)>)
    ensures
        match r {
            Some((a, b)) => a <= b <= headers@.len() && header_value(headers@, name@) == Some(
                trim_blank(headers@.subrange(a as int, b as int)),
            ),
            None => header_value(headers@, name@) is None,
        },
{
    let value_start = find_header(headers, name)?;
    let crlf_bytes: [u8; 2] = [13, 10];
    assert(crlf_bytes@ =~= crlf());
    let line_end = match find_bytes(headers, crlf_bytes.as_slice(), value_start) {
        Some(p) => {
            proof {
                lemma_find_from(headers@, crlf(), value_start as int);
            }
            p
        },
        None => headers.len(),
    };
    Some((value_start, line_end))
}

/// Reads the Content-Length header of `headers`.
fn read_content_length(headers: &[u8]) -> (r: Result<Option<usize>, WsmanError>)
    ensures
        match content_length(headers@) {
            None => r == Ok::<Option<usize>, WsmanError>(None),
            Some(Some(n)) => r == Ok::<Option<usize>, WsmanError>(Some(n)),
            Some(None) => r == Err::<Option<usize>, WsmanError>(WsmanError::Parse("bad content-length")),
        },
{
    let name: [u8; 15] = [99, 111, 110, 116, 101, 110, 116, 45, 108, 101, 110, 103, 116, 104, 58];
    assert(name@ =~= content_length_name());
    let (a, b) = match header_bounds(headers, name.as_slice()) {
        Some(p) => p,
        None => return Ok(None),
    };
    let value = trim_bytes(&headers[a..b]);
    let s = match str_from_utf8(value) {
        Some(s) => s,
        None => return Err(WsmanError::Parse("bad content-length")),
    };
    let chars = chars_of(s);
    let (lo, hi) = trim_bounds(&chars);
    assert(chars@.subrange(lo as int, hi as int) == trim(decode_utf8(value@)));
    match parse_decimal_chars(&chars, lo, hi, usize::MAX as u64) {
        Some(n) => Ok(Some(n as usize)),
        None => Err(WsmanError::Parse("bad content-length")),
    }
}

/// The raw reply is long enough to read its status line from, or does not
/// start like one.
pub open spec fn status_readable(raw: Seq<u8>) -> bool {
    status_line(raw) ==> raw.len() >= 12
}

/// What reading the HTTP reply `raw` into the buffers `before` gives: the
/// result `r` and the buffers `after`.
pub open spec fn http_reply(raw: Seq<u8>, before: ResponseBuf, after: ResponseBuf, r: Result<ResponseMeta, WsmanError>) -> bool {
    if !status_line(raw) {
        r == Err::<ResponseMeta, WsmanError>(WsmanError::Parse("no HTTP status line")) && after == before
    } else if !status_digits(raw) {
        r == Err::<ResponseMeta, WsmanError>(WsmanError::Parse("bad status digits")) && after == before
    } else if find_from(raw, header_terminator(), 0) is None {
        r == Err::<ResponseMeta, WsmanError>(WsmanError::Parse("no header terminator")) && after == before
    } else {
        let he = find_from(raw, header_terminator(), 0)->0;
        let headers = raw.take(he);
        let www = header_value(headers, www_authenticate_name());
        let cl = content_length(headers);
        let body = reply_body(raw, he + 4, cl);
        match www {
            Some(v) if v.len() > before.www_authenticate@.len() => {
                &&& r == Err::<ResponseMeta, WsmanError>(WsmanError::BufferTooSmall {
                    need: v.len() as usize,
                    have: before.www_authenticate@.len() as usize,
                })
                &&& after == before
            },
            _ => {
                &&& match www {
                    Some(v) => after.www_authenticate@ == splice(before.www_authenticate@, 0, v)
                        && after.www_authenticate_len == v.len(),
                    None => after.www_authenticate@ == before.www_authenticate@
                        && after.www_authenticate_len == before.www_authenticate_len,
                }
                &&& if cl == Some(None::<usize>) {
                    &&& r == Err::<ResponseMeta, WsmanError>(WsmanError::Parse("bad content-length"))
                    &&& after.body@ == before.body@ && after.body_len == before.body_len
                } else if body.len() > before.body@.len() {
                    &&& r == Err::<ResponseMeta, WsmanError>(WsmanError::BufferTooSmall {
                        need: body.len() as usize,
                        have: before.body@.len() as usize,
                    })
                    &&& after.body@ == before.body@ && after.body_len == before.body_len
                } else {
                    &&& r == Ok::<ResponseMeta, WsmanError>(ResponseMeta { status: status_value(raw) })
                    &&& after.body@ == splice(before.body@, 0, body)
                    &&& after.body_len == body.len()
                }
            },
        }
    }
}

/// What reading the raw reply `raw` gives the client: a reply too short to
/// hold the status digits it starts to announce is refused as such,
/// anything else is read as `http_reply` says.
pub open spec fn checked_reply(raw: Seq<u8>, before: ResponseBuf, after: ResponseBuf, r: Result<ResponseMeta, WsmanError>) -> bool {
    if status_readable(raw) {
        http_reply(raw, before, after, r)
    } else {
        r == Err::<ResponseMeta, WsmanError>(WsmanError::Parse("bad status digits")) && after == before
    }
}

/// What the client is handed for the channel data that the frames `rs`
/// from `me`/`host` carry: their first `STREAM_BUF_SIZE` bytes read as an
/// HTTP reply into `before`.
pub open spec fn reply_read(rs: Seq<Received>, me: u8, host: u8, before: ResponseBuf, after: ResponseBuf, r: Result<ResponseMeta, WsmanError>) -> bool {
    let data = stream_of(rs, me, host);
    let n = if data.len() <= STREAM_BUF_SIZE { data.len() as int } else { STREAM_BUF_SIZE as int };
    checked_reply(data.take(n), before, after, r)
}

/// The session `s` handed the request `req` over as its frame `k`, when it
/// had received `j` frames; everything after is the read of the reply: the
/// frames received since, the answers sent to them, and the reply the
/// client is handed.
pub open spec fn request_then_reply<T: HeciTransport, H: HeciHooks>(
    s: ApfSession<T, H>,
    k: int,
    j: nat,
    req: Seq<u8>,
    before: ResponseBuf,
    after: ResponseBuf,
    r: Result<ResponseMeta, WsmanError>,
) -> bool {
    &&& s.sent()[k] == channel_data_frame(s.recipient(), req)
    &&& j <= s.received().len()
    &&& s.sent().skip(k + 1) == recv_replies(s.received().skip(j as int), s.me(), s.host(), s.recipient(), true)
    &&& reply_read(s.received().skip(j as int), s.me(), s.host(), before, after, r)
}

/// Parses the HTTP reply in `raw` into `out`.
pub fn parse_http_response(raw: &[u8], out: &mut ResponseBuf<'_>) -> (r: Result<ResponseMeta, WsmanError>)
    requires
        status_readable(raw@),
    ensures
        http_reply(raw@, *old(out), *final(out), r),
{
    let p11: [u8; 9] = [72, 84, 84, 80, 47, 49, 46, 49, 32];
    let p10: [u8; 9] = [72, 84, 84, 80, 47, 49, 46, 48, 32];
    assert(p11@ =~= http11_prefix());
    assert(p10@ =~= http10_prefix());
    if !(crate::scan::starts_with(raw, p11.as_slice()) || crate::scan::starts_with(raw, p10.as_slice())) {
        return Err(WsmanError::Parse("no HTTP status line"));
    }
    let d0 = raw[9];
    let d1 = raw[10];
    let d2 = raw[11];
    if !(48 <= d0 && d0 <= 57) || !(48 <= d1 && d1 <= 57) || !(48 <= d2 && d2 <= 57) {
        return Err(WsmanError::Parse("bad status digits"));
    }
    let status: u16 = (d0 - 48) as u16 * 100 + (d1 - 48) as u16 * 10 + (d2 - 48) as u16;
    let term: [u8; 4] = [13, 10, 13, 10];
    assert(term@ =~= header_terminator());
    let header_end = match find_subslice(raw, term.as_slice()) {
        Some(p) => p,
        None => return Err(WsmanError::Parse("no header terminator")),
    };
    proof {
        lemma_find_from(raw@, header_terminator(), 0);
    }
    let headers = &raw[0..header_end];
    assert(headers@ =~= raw@.take(header_end as int));
    let body_start = header_end + 4;

    let www_name: [u8; 17] = [119, 119, 119, 45, 97, 117, 116, 104, 101, 110, 116, 105, 99, 97, 116, 101, 58];
    assert(www_name@ =~= www_authenticate_name());
    match header_bounds(headers, www_name.as_slice()) {
        Some((a, b)) => {
            let value = trim_bytes(&headers[a..b]);
            if value.len() > out.www_authenticate.len() {
                return Err(WsmanError::BufferTooSmall { need: value.len(), have: out.www_authenticate.len() });
            }
            copy_into(out.www_authenticate, 0, value);
            out.www_authenticate_len = value.len();
        },
        None => {},
    }

    let declared = match read_content_length(headers) {
        Ok(c) => c,
        Err(e) => return Err(e),
    };
    let body_full = &raw[body_start..raw.len()];
    let body = match declared {
        Some(n) => if n <= body_full.len() { &body_full[0..n] } else { body_full },
        None => body_full,
    };
    assert(body@ =~= reply_body(raw@, body_start as int, content_length(headers@)));
    if body.len() > out.body.len() {
        return Err(WsmanError::BufferTooSmall { need: body.len(), have: out.body.len() });
    }
    copy_into(out.body, 0, body);
    out.body_len = body.len();
    Ok(ResponseMeta { status })
}

/// An APF error as a transport error of the WS-Management client.
pub fn apf_to_wsman(e: ApfError) -> (r: WsmanError)
    ensures
        r matches WsmanError::Transport(s) && s@ == apf_error_text(e),
{
    WsmanError::Transport(e.message())
}

/// A WS-Management transport over an APF session.
pub struct ApfTransport<T: HeciTransport, H: HeciHooks> {
    session: ApfSession<T, H>,
}

impl<T: HeciTransport, H: HeciHooks> ApfTransport<T, H> {
    /// The session the transport runs over.
    pub closed spec fn session_of(&self) -> ApfSession<T, H> {
        self.session
    }

    pub fn new(session: ApfSession<T, H>) -> (r: Self)
        ensures
            r.session_of() == session,
    {
        Self { session }
    }

    pub fn session_mut(&mut self) -> (r: &mut ApfSession<T, H>)
        ensures
            *r == old(self).session_of(),
            final(self).session_of() == *final(r),
    {
        &mut self.session
    }
}

impl<T: HeciTransport, H: HeciHooks> Transport for ApfTransport<T, H> {
    #[verifier::rlimit(80)]
    #[verifier::spinoff_prover]
    fn post(
        &mut self,
        headers: &[(&str, &str)],
        body: &[u8],
        resp: &mut ResponseBuf<'_>,
    ) -> (r: Result<ResponseMeta, WsmanError>)
        ensures
            ({
                let req = http_request(headers_view(headers@), body@);
                let s = final(self).session_of();
                &&& req.len() > FRAMING_BUF_SIZE ==> {
                    &&& r matches Err(WsmanError::Transport(t)) && t@ == apf_error_text(ApfError::BufferTooSmall)
                    &&& s == old(self).session_of()
                }
                &&& old(self).session_of().active() && req.len() + 9 <= 2048 ==> {
                    let s0 = old(self).session_of().sent();
                    &&& s.sent().len() > s0.len()
                    &&& s.sent()[s0.len() as int] == channel_data_frame(old(self).session_of().recipient(), req)
                }
                // Unless the link or the session failed, the request went out
                // as frame `k`, and the reply is read from the frames
                // received from then on.
                &&& !(r matches Err(WsmanError::Transport(_))) ==> {
                    let o = old(self).session_of();
                    &&& req.len() <= FRAMING_BUF_SIZE
                    &&& exists|k: int| o.sent().len() <= k < s.sent().len()
                        && o.sent_marks().len() + (k - o.sent().len()) < s.sent_marks().len()
                        && #[trigger] request_then_reply(s, k, s.sent_marks()[o.sent_marks().len() + (k - o.sent().len())],
                            req, *old(resp), *final(resp), r)
                }
            }),
    {
        let mut frame = [0u8; 3072];
        let req_len = match build_http_request(&mut frame, headers, body) {
            Ok(n) => n,
            Err(e) => return Err(apf_to_wsman(e)),
        };
        if !self.session.channel_active() {
            match self.session.reopen_channel() {
                Ok(()) => {},
                Err(e) => return Err(apf_to_wsman(e)),
            }
        }
        assert(frame@.take(req_len as int) =~= http_request(headers_view(headers@), body@));
        let ghost recipient = self.session.recipient();
        let ghost req = http_request(headers_view(headers@), body@);
        let ghost was_active = old(self).session_of().active();
        let ghost s0 = old(self).session_of().sent().len() as int;
        let ghost k = self.session.sent().len() as int;
        let ghost mi: int = self.session.sent_marks().len() as int;
        let ghost o = old(self).session_of();
        assert(mi - o.sent_marks().len() == k - o.sent().len());
        assert(was_active ==> k == s0 && recipient == old(self).session_of().recipient());
        let sres = self.session.send_bytes(&frame[0..req_len]);
        assert(req.len() + 9 <= 2048 && self.session.sent().len() > k ==> self.session.sent()[k] == channel_data_frame(recipient, req));
        match sres {
            Ok(()) => {},
            Err(e) => return Err(apf_to_wsman(e)),
        }
        assert(self.session.sent()[k] == channel_data_frame(recipient, http_request(headers_view(headers@), body@)));
        let mut stream = [0u8; 8192];
        let ghost j0 = self.session.received().len();
        let ghost sent_mid = self.session.sent();
        let ghost marks_mid = self.session.sent_marks();
        assert(marks_mid[mi] == j0);
        assert(self.session.active());
        let rres = self.session.recv_bytes(&mut stream);
        proof {
            let ss = self.session;
            assert(ss.sent()[k] == ss.sent().take(k + 1)[k]);
            assert(ss.sent().take(sent_mid.len() as int)[k] == sent_mid[k]);
            assert(ss.sent_marks()[mi] == ss.sent_marks().take(marks_mid.len() as int)[mi]);
            assert(ss.sent().skip(k + 1) =~= recv_replies(ss.received().skip(j0 as int), ss.me(), ss.host(), ss.recipient(), true));
        }
        let n = match rres {
            Ok(n) => n,
            Err(e) => return Err(apf_to_wsman(e)),
        };
        assert(self.session.sent()[k] == channel_data_frame(self.session.recipient(), http_request(headers_view(headers@), body@)));
        let raw = &stream[0..n];
        let ghost before = *resp;
        proof {
            let data = stream_of(self.session.received().skip(j0 as int), self.session.me(), self.session.host());
            assert(raw@ =~= data.take(n as int));
        }
        if !status_readable_exec(raw) {
            proof {
                let ss = self.session;
                assert(self.session_of() == ss);
                assert(request_then_reply(ss, k, ss.sent_marks()[o.sent_marks().len() + (k - o.sent().len())], req, before, *resp,
                    Err::<ResponseMeta, WsmanError>(WsmanError::Parse("bad status digits"))));
            }
            return Err(WsmanError::Parse("bad status digits"));
        }
        let r = parse_http_response(raw, resp);
        proof {
            let ss = self.session;
            assert(before == *old(resp));
            assert(self.session_of() == ss);
            assert(request_then_reply(ss, k, ss.sent_marks()[o.sent_marks().len() + (k - o.sent().len())], req, before, *resp, r));
            assert(was_active && req.len() + 9 <= 2048 ==> ss.sent().len() > s0 && ss.sent()[s0] == channel_data_frame(old(self).session_of().recipient(), req));
        }
        r
    }
}

fn status_readable_exec(raw: &[u8]) -> (r: bool)
    ensures
        r == status_readable(raw@),
{
    let p11: [u8; 9] = [72, 84, 84, 80, 47, 49, 46, 49, 32];
    let p10: [u8; 9] = [72, 84, 84, 80, 47, 49, 46, 48, 32];
    assert(p11@ =~= http11_prefix());
    assert(p10@ =~= http10_prefix());
    !(crate::scan::starts_with(raw, p11.as_slice()) || crate::scan::starts_with(raw, p10.as_slice())) || raw.len() >= 12
}

} // verus!
