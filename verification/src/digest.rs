//! HTTP Digest authentication (RFC 2617 as AMT speaks it): parsing the
//! server's challenge and computing the `Authorization` header.

use vstd::prelude::*;
use vstd::string::{StringExecFns, StrSliceExecFns};
use vstd::utf8::*;
use md5::{Digest, Md5};
use crate::error::WsmanError;
use crate::envelope::written;
use crate::text::{
    chars_of, copy_into, digit_str, digit_char, find_chars, find_from, lemma_find_from, hex_fixed,
    push_bytes, push_hex, str_from_utf8, trim, trim_bounds, lemma_encode_utf8_concat,
};

verus! {

/// The parameters of a Digest challenge, as the server sent them.
#[derive(Debug, Clone)]
pub struct Challenge {
    realm: String,
    nonce: String,
    qop: String,
    opaque: String,
}

/// The parameters of a challenge as character sequences.
pub struct ChallengeView {
    pub realm: Seq<char>,
    pub nonce: Seq<char>,
    pub qop: Seq<char>,
    pub opaque: Seq<char>,
}

impl View for Challenge {
    type V = ChallengeView;

    closed spec fn view(&self) -> ChallengeView {
        ChallengeView { realm: self.realm@, nonce: self.nonce@, qop: self.qop@, opaque: self.opaque@ }
    }
}

/// The first position `k >= j` in `s` holding a character that ends an
/// unquoted parameter value (`,`, space, CR, LF), or the length of `s`.
pub open spec fn value_end(s: Seq<char>, j: int) -> int
    decreases s.len() - j,
{
    if j < 0 || j >= s.len() {
        j
    } else if s[j] == ',' || s[j] == ' ' || s[j] == '\r' || s[j] == '\n' {
        j
    } else {
        value_end(s, j + 1)
    }
}

/// The value of parameter `name` in `s`: the text between the quotes of the
/// first `name="...`, when that occurs (nothing when its closing quote is
/// missing); else the text after the first `name=` up to a comma, space, CR,
/// LF or the end.
pub open spec fn field_value(s: Seq<char>, name: Seq<char>) -> Option<Seq<char>> {
    let nq = name + seq!['=', '"'];
    match find_from(s, nq, 0) {
        Some(start) => {
            let begin = start + nq.len();
            match find_from(s, seq!['"'], begin) {
                Some(end) => Some(s.subrange(begin, end)),
                None => None,
            }
        },
        None => {
            let nd = name + seq!['='];
            match find_from(s, nd, 0) {
                Some(start) => {
                    let begin = start + nd.len();
                    Some(s.subrange(begin, value_end(s, begin)))
                },
                None => None,
            }
        },
    }
}

/// The value of parameter `name`, empty when it is absent.
pub open spec fn field_or_empty(s: Seq<char>, name: Seq<char>) -> Seq<char> {
    match field_value(s, name) {
        Some(v) => v,
        None => seq![],
    }
}

/// `s` starts with `p`.
pub open spec fn starts_with_chars(s: Seq<char>, p: Seq<char>) -> bool {
    p.len() <= s.len() && s.take(p.len() as int) == p
}

/// The parameter list of a challenge header: the header decoded as UTF-8,
/// trimmed, with its `Digest ` (or `digest `) scheme word removed; or the
/// reason it is not one.
pub open spec fn challenge_params(header: Seq<u8>) -> Result<Seq<char>, &'static str> {
    if !valid_utf8(header) {
        Err("challenge not UTF-8")
    } else {
        let t = trim(decode_utf8(header));
        if starts_with_chars(t, "Digest "@) || starts_with_chars(t, "digest "@) {
            Ok(t.skip(7))
        } else {
            Err("not a Digest challenge")
        }
    }
}

/// The challenge whose parameter list is `params`.
pub open spec fn challenge_of(params: Seq<char>) -> ChallengeView {
    ChallengeView {
        realm: field_or_empty(params, "realm"@),
        nonce: field_or_empty(params, "nonce"@),
        qop: field_or_empty(params, "qop"@),
        opaque: field_or_empty(params, "opaque"@),
    }
}

fn has_prefix_chars(s: &Vec<char>, lo: usize, hi: usize, p: &str) -> (r: bool)
    requires
        lo <= hi <= s@.len(),
    ensures
        r == starts_with_chars(s@.subrange(lo as int, hi as int), p@),
{
    let pc = chars_of(p);
    if pc.len() > hi - lo {
        return false;
    }
    let mut i: usize = 0;
    while i < pc.len()
        invariant
            i <= pc@.len() <= hi - lo,
            pc@ == p@,
            lo <= hi <= s@.len(),
            forall|k: int| 0 <= k < i ==> s@[lo + k] == pc@[k],
        decreases pc@.len() - i,
    {
        if s[lo + i] != pc[i] {
            assert(s@.subrange(lo as int, hi as int).take(pc@.len() as int)[i as int] != p@[i as int]);
            return false;
        }
        i = i + 1;
    }
    assert(s@.subrange(lo as int, hi as int).take(pc@.len() as int) =~= p@);
    true
}

fn value_end_exec(s: &Vec<char>, j: usize) -> (r: usize)
    requires
        j <= s@.len(),
    ensures
        r == value_end(s@, j as int),
        j <= r <= s@.len(),
{
    let mut k = j;
    while k < s.len() && !(s[k] == ',' || s[k] == ' ' || s[k] == '\r' || s[k] == '\n')
        invariant
            j <= k <= s@.len(),
            value_end(s@, j as int) == value_end(s@, k as int),
        decreases s@.len() - k,
    {
        k = k + 1;
    }
    k
}

fn extract_field(s: &str, name: &str) -> (r: Option<String>)
    ensures
        match r {
            Some(v) => field_value(s@, name@) == Some(v@),
            None => field_value(s@, name@) is None,
        },
{
    let sc = chars_of(s);
    let sc_len = sc.len();
    let mut nq = chars_of(name);
    nq.push('=');
    nq.push('"');
    assert(nq@ =~= name@ + seq!['=', '"']);
    if let Some(start) = find_chars(&sc, &nq, 0) {
        proof {
            lemma_find_from(sc@, nq@, 0);
            assert(find_from(sc@, nq@, 0) == Some(start as int));
            assert(start + nq@.len() <= sc@.len());
        }
        let begin = start + nq.len();
        let mut quote: Vec<char> = Vec::new();
        quote.push('"');
        assert(quote@ =~= seq!['"']);
        match find_chars(&sc, &quote, begin) {
            Some(end) => {
                proof {
                    lemma_find_from(sc@, quote@, begin as int);
                }
                return Some(String::from_str(s.substring_char(begin, end)));
            },
            None => {
                return None;
            },
        }
    }
    let mut nd = chars_of(name);
    nd.push('=');
    assert(nd@ =~= name@ + seq!['=']);
    let start = find_chars(&sc, &nd, 0)?;
    proof {
        lemma_find_from(sc@, nd@, 0);
        assert(find_from(sc@, nd@, 0) == Some(start as int));
        assert(start + nd@.len() <= sc@.len());
    }
    let begin = start + nd.len();
    let end = value_end_exec(&sc, begin);
    Some(String::from_str(s.substring_char(begin, end)))
}

fn field_string(s: &str, name: &str) -> (r: String)
    ensures
        r@ == field_or_empty(s@, name@),
{
    match extract_field(s, name) {
        Some(v) => v,
        None => String::new(),
    }
}

impl Challenge {
    pub fn realm(&self) -> (r: &str)
        ensures
            r@ == self@.realm,
    {
        self.realm.as_str()
    }

    pub fn nonce(&self) -> (r: &str)
        ensures
            r@ == self@.nonce,
    {
        self.nonce.as_str()
    }

    pub fn qop(&self) -> (r: &str)
        ensures
            r@ == self@.qop,
    {
        self.qop.as_str()
    }

    pub fn opaque(&self) -> (r: &str)
        ensures
            r@ == self@.opaque,
    {
        self.opaque.as_str()
    }

    /// Parses the value of a `WWW-Authenticate` header carrying a Digest
    /// challenge. Absent parameters come out empty.
    pub fn parse(header_value: &[u8]) -> (r: Result<Self, WsmanError>)
        ensures
            match challenge_params(header_value@) {
                Ok(params) => r matches Ok(c) && c@ == challenge_of(params),
                Err(msg) => r == Err::<Challenge, WsmanError>(WsmanError::Auth(msg)),
            },
    {
        let s = match str_from_utf8(header_value) {
            Some(s) => s,
            None => return Err(WsmanError::Auth("challenge not UTF-8")),
        };
        let sc = chars_of(s);
        let (lo, hi) = trim_bounds(&sc);
        let rest = if has_prefix_chars(&sc, lo, hi, "Digest ") || has_prefix_chars(&sc, lo, hi, "digest ") {
            proof {
                reveal_strlit("Digest ");
                reveal_strlit("digest ");
            }
            s.substring_char(lo + 7, hi)
        } else {
            return Err(WsmanError::Auth("not a Digest challenge"));
        };
        assert(rest@ =~= trim(decode_utf8(header_value@)).skip(7));
        Ok(Self {
            realm: field_string(rest, "realm"),
            nonce: field_string(rest, "nonce"),
            qop: field_string(rest, "qop"),
            opaque: field_string(rest, "opaque"),
        })
    }
}

/// The MD5 digest of `data`.
pub uninterp spec fn md5(data: Seq<u8>) -> Seq<u8>;

/// Wraps `<md5::Md5 as md5::Digest>::digest`. Claimed: the result is the MD5
/// digest of `data`, named `md5`, and it is 16 bytes long.
#[verifier::external_body]
fn md5_digest(data: &[u8]) -> (r: Vec<u8>)
    ensures
        r@ == md5(data@),
        r@.len() == 16,
{
    Md5::digest(data).to_vec()
}

/// The lower-case hexadecimal rendering of `b`, two digits per byte.
pub open spec fn hex_bytes(b: Seq<u8>) -> Seq<char>
    decreases b.len(),
{
    if b.len() == 0 {
        seq![]
    } else {
        hex_bytes(b.drop_last()) + seq![digit_char((b.last() / 16) as nat), digit_char((b.last() % 16) as nat)]
    }
}

/// The hexadecimal MD5 digest of `data`.
pub open spec fn md5_hex_of(data: Seq<u8>) -> Seq<char> {
    hex_bytes(md5(data))
}

/// `c` is a lower-case hexadecimal digit.
pub open spec fn is_lower_hex_digit(c: char) -> bool {
    ('0' <= c && c <= '9') || ('a' <= c && c <= 'f')
}

/// `s` is `n` lower-case hexadecimal digits.
pub open spec fn lower_hex(s: Seq<char>, n: nat) -> bool {
    &&& s.len() == n
    &&& forall|i: int| 0 <= i < s.len() ==> is_lower_hex_digit(#[trigger] s[i])
}

fn md5_hex(data: &[u8]) -> (s: String)
    ensures
        s@ == md5_hex_of(data@),
        lower_hex(s@, 32),
{
    let digest = md5_digest(data);
    let mut s = String::new();
    let mut i: usize = 0;
    while i < digest.len()
        invariant
            i <= digest@.len(),
            digest@.len() == 16,
            s@ == hex_bytes(digest@.take(i as int)),
            s@.len() == 2 * i,
            forall|j: int| 0 <= j < s@.len() ==> is_lower_hex_digit(#[trigger] s@[j]),
        decreases digest@.len() - i,
    {
        let b = digest[i];
        let ghost before = s@;
        s.append(digit_str(b / 16));
        s.append(digit_str(b % 16));
        proof {
            assert(s@ =~= before + seq![digit_char((b / 16) as nat), digit_char((b % 16) as nat)]);
            assert(is_lower_hex_digit(digit_char((b / 16) as nat)));
            assert(is_lower_hex_digit(digit_char((b % 16) as nat)));
            assert forall|j: int| 0 <= j < s@.len() implies is_lower_hex_digit(#[trigger] s@[j]) by {
                if j < before.len() {
                    assert(s@[j] == before[j]);
                }
            }
        }
        proof {
            let t = digest@.take(i + 1);
            assert(t.drop_last() =~= digest@.take(i as int));
            assert(t.last() == b);
        }
        i = i + 1;
        assert(s@ =~= hex_bytes(digest@.take(i as int)));
    }
    assert(digest@.take(digest@.len() as int) =~= digest@);
    s
}

fn format_nc(nc: u32) -> (s: String)
    ensures
        s@ == hex_fixed(nc as nat, 8),
{
    let mut s = String::new();
    push_hex(&mut s, nc as u64, 8);
    assert(s@ =~= hex_fixed(nc as nat, 8));
    s
}

/// The request digest: MD5 over HA1, the nonce, (with a qop: the nonce
/// count, the client nonce and the qop,) and HA2, joined by colons.
pub open spec fn response_digest(
    c: ChallengeView,
    username: Seq<char>,
    password: Seq<char>,
    method: Seq<char>,
    uri: Seq<char>,
    nc: u32,
    cnonce: Seq<char>,
) -> Seq<char> {
    let colon = seq![58u8];
    let ha1 = md5_hex_of(encode_utf8(username) + colon + encode_utf8(c.realm) + colon + encode_utf8(password));
    let ha2 = md5_hex_of(encode_utf8(method) + colon + encode_utf8(uri));
    if c.qop.len() == 0 {
        md5_hex_of(encode_utf8(ha1) + colon + encode_utf8(c.nonce) + colon + encode_utf8(ha2))
    } else {
        md5_hex_of(encode_utf8(ha1) + colon + encode_utf8(c.nonce) + colon + encode_utf8(hex_fixed(nc as nat, 8))
            + colon + encode_utf8(cnonce) + colon + encode_utf8(c.qop) + colon + encode_utf8(ha2))
    }
}

/// A colon, joining two texts, is the byte 58 between their encodings.
proof fn lemma_encode_colon_join(a: Seq<char>, b: Seq<char>)
    ensures
        encode_utf8(a + seq![':'] + b) == encode_utf8(a) + seq![58u8] + encode_utf8(b),
{
    assert(encode_utf8(seq![':']) =~= seq![58u8]) by {
        let c = seq![':'];
        assert(is_ascii_chars(c));
        is_ascii_chars_encode_utf8(c);
        assert(c[0] as u8 == 58u8);
    }
    lemma_encode_utf8_concat(a, seq![':']);
    lemma_encode_utf8_concat(a + seq![':'], b);
}

/// The Digest response is the one RFC 2617 prescribes, with
/// HA1 = MD5(username ":" realm ":" password) and HA2 = MD5(method ":" uri)
/// in lower-case hex: MD5(HA1 ":" nonce ":" HA2) for a challenge without a
/// qop (the RFC 2069 form), and MD5(HA1 ":" nonce ":" nc ":" cnonce ":" qop
/// ":" HA2) for one with a qop, `nc` being eight hex digits.
pub proof fn law_digest_response(
    c: ChallengeView,
    username: Seq<char>,
    password: Seq<char>,
    method: Seq<char>,
    uri: Seq<char>,
    nc: u32,
    cnonce: Seq<char>,
)
    ensures
        ({
            let colon = seq![':'];
            let ha1 = md5_hex_of(encode_utf8(username + colon + c.realm + colon + password));
            let ha2 = md5_hex_of(encode_utf8(method + colon + uri));
            &&& c.qop.len() == 0 ==> response_digest(c, username, password, method, uri, nc, cnonce)
                == md5_hex_of(encode_utf8(ha1 + colon + c.nonce + colon + ha2))
            &&& c.qop.len() > 0 ==> response_digest(c, username, password, method, uri, nc, cnonce)
                == md5_hex_of(encode_utf8(ha1 + colon + c.nonce + colon + hex_fixed(nc as nat, 8) + colon + cnonce
                    + colon + c.qop + colon + ha2))
        }),
{
    let colon = seq![':'];
    let cb = seq![58u8];
    lemma_encode_colon_join(username + colon + c.realm, password);
    lemma_encode_colon_join(username, c.realm);
    lemma_encode_colon_join(method, uri);
    let ha1 = md5_hex_of(encode_utf8(username + colon + c.realm + colon + password));
    let ha2 = md5_hex_of(encode_utf8(method + colon + uri));
    assert(encode_utf8(username + colon + c.realm + colon + password) =~= encode_utf8(username) + cb
        + encode_utf8(c.realm) + cb + encode_utf8(password));
    assert(encode_utf8(method + colon + uri) =~= encode_utf8(method) + cb + encode_utf8(uri));
    lemma_encode_colon_join(ha1, c.nonce);
    lemma_encode_colon_join(ha1 + colon + c.nonce, ha2);
    assert(encode_utf8(ha1 + colon + c.nonce + colon + ha2) =~= encode_utf8(ha1) + cb + encode_utf8(c.nonce) + cb
        + encode_utf8(ha2));
    let x1 = ha1 + colon + c.nonce;
    let x2 = x1 + colon + hex_fixed(nc as nat, 8);
    let x3 = x2 + colon + cnonce;
    let x4 = x3 + colon + c.qop;
    lemma_encode_colon_join(x1, hex_fixed(nc as nat, 8));
    lemma_encode_colon_join(x2, cnonce);
    lemma_encode_colon_join(x3, c.qop);
    lemma_encode_colon_join(x4, ha2);
    assert(encode_utf8(x4 + colon + ha2) =~= encode_utf8(ha1) + cb + encode_utf8(c.nonce) + cb
        + encode_utf8(hex_fixed(nc as nat, 8)) + cb + encode_utf8(cnonce) + cb + encode_utf8(c.qop) + cb
        + encode_utf8(ha2));
}

/// The `Authorization` header value (without the header name).
pub open spec fn authorization_text(
    c: ChallengeView,
    username: Seq<char>,
    password: Seq<char>,
    method: Seq<char>,
    uri: Seq<char>,
    nc: u32,
    cnonce: Seq<char>,
) -> Seq<char> {
    "Digest username=\""@ + username + "\",realm=\""@ + c.realm + "\",nonce=\""@ + c.nonce + "\",uri=\""@
        + uri + "\",response=\""@ + response_digest(c, username, password, method, uri, nc, cnonce)
        + "\""@ + (if c.opaque.len() == 0 { seq![] } else { ",opaque=\""@ + c.opaque + "\""@ }) + (
    if c.qop.len() == 0 {
        seq![]
    } else {
        ",qop=\""@ + c.qop + "\",nc=\""@ + hex_fixed(nc as nat, 8) + "\",cnonce=\""@ + cnonce + "\""@
    })
}

fn join2(a: &[u8], b: &[u8]) -> (v: Vec<u8>)
    ensures
        v@ == a@ + seq![58u8] + b@,
{
    let mut v: Vec<u8> = Vec::new();
    push_bytes(&mut v, a);
    v.push(58);
    push_bytes(&mut v, b);
    assert(v@ =~= a@ + seq![58u8] + b@);
    v
}

fn response_hex(
    challenge: &Challenge,
    username: &str,
    password: &str,
    method: &str,
    uri: &str,
    nc: u32,
    cnonce: &str,
) -> (s: String)
    ensures
        s@ == response_digest(challenge@, username@, password@, method@, uri@, nc, cnonce@),
        lower_hex(s@, 32),
{
    let ghost colon = seq![58u8];
    let u_r = join2(username.as_bytes(), challenge.realm.as_str().as_bytes());
    let d1 = join2(u_r.as_slice(), password.as_bytes());
    let ha1 = md5_hex(d1.as_slice());
    let d2 = join2(method.as_bytes(), uri.as_bytes());
    let ha2 = md5_hex(d2.as_slice());
    let h_n = join2(ha1.as_str().as_bytes(), challenge.nonce.as_str().as_bytes());
    if challenge.qop.as_str().is_empty() {
        let d3 = join2(h_n.as_slice(), ha2.as_str().as_bytes());
        assert(d3@ =~= encode_utf8(ha1@) + colon + encode_utf8(challenge@.nonce) + colon + encode_utf8(ha2@));
        md5_hex(d3.as_slice())
    } else {
        let nc_str = format_nc(nc);
        let a = join2(h_n.as_slice(), nc_str.as_str().as_bytes());
        let b = join2(a.as_slice(), cnonce.as_bytes());
        let c = join2(b.as_slice(), challenge.qop.as_str().as_bytes());
        let d3 = join2(c.as_slice(), ha2.as_str().as_bytes());
        assert(d3@ =~= encode_utf8(ha1@) + colon + encode_utf8(challenge@.nonce) + colon
            + encode_utf8(nc_str@) + colon + encode_utf8(cnonce@) + colon + encode_utf8(challenge@.qop)
            + colon + encode_utf8(ha2@));
        md5_hex(d3.as_slice())
    }
}

fn render_authorization(
    challenge: &Challenge,
    username: &str,
    uri: &str,
    response: &str,
    nc: u32,
    cnonce: &str,
) -> (rendered: String)
    ensures
        rendered@ == "Digest username=\""@ + username@ + "\",realm=\""@ + challenge@.realm + "\",nonce=\""@ + challenge@.nonce + "\",uri=\""@
            + uri@ + "\",response=\""@ + response@
            + "\""@ + (if challenge@.opaque.len() == 0 { seq![] } else { ",opaque=\""@ + challenge@.opaque + "\""@ }) + (
            if challenge@.qop.len() == 0 {
                seq![]
            } else {
                ",qop=\""@ + challenge@.qop + "\",nc=\""@ + hex_fixed(nc as nat, 8) + "\",cnonce=\""@ + cnonce@ + "\""@
            }),
{
    let mut rendered = String::from_str("Digest username=\"");
    rendered.append(username);
    rendered.append("\",realm=\"");
    rendered.append(challenge.realm.as_str());
    rendered.append("\",nonce=\"");
    rendered.append(challenge.nonce.as_str());
    rendered.append("\",uri=\"");
    rendered.append(uri);
    rendered.append("\",response=\"");
    rendered.append(response);
    rendered.append("\"");
    let ghost base = rendered@;
    if !challenge.opaque.as_str().is_empty() {
        rendered.append(",opaque=\"");
        rendered.append(challenge.opaque.as_str());
        rendered.append("\"");
    }
    let ghost with_opaque = rendered@;
    assert(with_opaque =~= base + (if challenge@.opaque.len() == 0 { seq![] } else { ",opaque=\""@ + challenge@.opaque + "\""@ }));
    if !challenge.qop.as_str().is_empty() {
        let nc_str = format_nc(nc);
        rendered.append(",qop=\"");
        rendered.append(challenge.qop.as_str());
        rendered.append("\",nc=\"");
        rendered.append(nc_str.as_str());
        rendered.append("\",cnonce=\"");
        rendered.append(cnonce);
        rendered.append("\"");
    }
    assert(rendered@ =~= with_opaque + (
        if challenge@.qop.len() == 0 {
            seq![]
        } else {
            ",qop=\""@ + challenge@.qop + "\",nc=\""@ + hex_fixed(nc as nat, 8) + "\",cnonce=\""@ + cnonce@ + "\""@
        }));
    rendered
}

/// Computes the `Authorization: Digest ...` header value (without the
/// leading `Authorization: `) and writes it into `out`. Returns the
/// number of bytes written.
pub fn build_authorization_header(
    challenge: &Challenge,
    username: &str,
    password: &str,
    method: &str,
    uri: &str,
    nc: u32,
    cnonce: &str,
    out: &mut [u8],
) -> (r: Result<usize, WsmanError>)
    ensures
        written(r, old(out)@, final(out)@,
            authorization_text(challenge@, username@, password@, method@, uri@, nc, cnonce@)),
        lower_hex(response_digest(challenge@, username@, password@, method@, uri@, nc, cnonce@), 32),
{
    let response = response_hex(challenge, username, password, method, uri, nc, cnonce);
    let rendered = render_authorization(challenge, username, uri, response.as_str(), nc, cnonce);
    assert(rendered@ == authorization_text(challenge@, username@, password@, method@, uri@, nc, cnonce@));
    let bytes = rendered.as_str().as_bytes();
    if bytes.len() > out.len() {
        return Err(WsmanError::BufferTooSmall { need: bytes.len(), have: out.len() });
    }
    copy_into(out, 0, bytes);
    Ok(bytes.len())
}

/// The `nc`-derived client nonce: the eight hexadecimal digits of `nc`,
/// then `uefiboot`.
pub open spec fn cnonce_text(nc: u32) -> Seq<char> {
    hex_fixed(nc as nat, 8) + "uefiboot"@
}

/// Deterministic cnonce derived from the nc counter. Not cryptographic;
/// AMT doesn't require one to be, and there is no clock to draw on.
pub fn cnonce_from(nc: u32) -> (s: String)
    ensures
        s@ == cnonce_text(nc),
{
    let mut s = String::new();
    push_hex(&mut s, nc as u64, 8);
    s.append("uefiboot");
    assert(s@ =~= cnonce_text(nc));
    s
}

} // verus!
