//! The WS-Management client: sends a request over a transport and, when the
//! server answers 401, retries once with Digest credentials.

use vstd::prelude::*;
use vstd::string::StringExecFns;
use vstd::utf8::*;
use crate::digest::{Challenge, build_authorization_header, challenge_params, challenge_of, authorization_text, cnonce_from, cnonce_text, response_digest, lower_hex};
use crate::error::WsmanError;
use crate::transport::{ResponseBuf, ResponseMeta, Transport};
use crate::text::str_from_utf8;

verus! {

/// The credentials the client answers a challenge with.
#[derive(Debug, Clone)]
pub enum Credentials {
    Digest { username: String, password: String },
}

impl Credentials {
    pub fn digest(username: &str, password: &str) -> (r: Self)
        ensures
            r matches Credentials::Digest { username: u, password: p } && u@ == username@ && p@ == password@,
    {
        Credentials::Digest { username: String::from_str(username), password: String::from_str(password) }
    }
}

/// The user name and password of credentials, as character sequences.
pub open spec fn credential_texts(c: Credentials) -> (Seq<char>, Seq<char>) {
    match c {
        Credentials::Digest { username, password } => (username@, password@),
    }
}

/// One request handed to the transport, and what came back.
pub struct PostRecord {
    /// The headers handed over, as (name, value) texts.
    pub headers: Seq<(Seq<char>, Seq<char>)>,
    /// The request body handed over.
    pub body: Seq<u8>,
    /// The status the transport reported; `None` when it failed.
    pub status: Option<u16>,
    /// The reply buffers as the transport left them.
    pub resp_body: Seq<u8>,
    pub resp_body_len: usize,
    pub www: Seq<u8>,
    pub www_len: usize,
}

/// `(name, value)` pairs as texts.
pub open spec fn headers_view(h: Seq<(&str, &str)>) -> Seq<(Seq<char>, Seq<char>)> {
    h.map_values(|p: (&str, &str)| (p.0@, p.1@))
}

/// The headers of every request.
pub open spec fn base_headers() -> Seq<(Seq<char>, Seq<char>)> {
    seq![("Content-Type"@, "application/soap+xml; charset=utf-8"@), ("Connection"@, "close"@)]
}

/// The headers of a retry carrying the `Authorization` value `auth`.
pub open spec fn auth_headers(auth: Seq<char>) -> Seq<(Seq<char>, Seq<char>)> {
    base_headers().push(("Authorization"@, auth))
}

/// The text of an error reply body: its bytes decoded when they are UTF-8
/// and lie within the buffer, else empty.
pub open spec fn http_body_text(body: Seq<u8>, len: usize) -> Seq<char> {
    if len <= body.len() && valid_utf8(body.take(len as int)) {
        decode_utf8(body.take(len as int))
    } else {
        seq![]
    }
}

/// What the client returns for a reply it does not retry.
pub open spec fn reply_outcome(r: Result<usize, WsmanError>, rec: PostRecord) -> bool {
    match rec.status {
        None => r is Err,
        Some(s) => if s == 200 {
            r == Ok::<usize, WsmanError>(rec.resp_body_len)
        } else {
            r matches Err(WsmanError::Http { status, body }) && status == s && body@ == http_body_text(
                rec.resp_body,
                rec.resp_body_len,
            )
        },
    }
}

/// The body of the last reply in `log`, when it was answered 200 and its
/// length lies within its buffer.
pub open spec fn last_reply(log: Seq<PostRecord>) -> Option<Seq<u8>> {
    let last = log.last();
    if log.len() > 0 && last.status == Some(200u16) && last.resp_body_len <= last.resp_body.len() {
        Some(last.resp_body.take(last.resp_body_len as int))
    } else {
        None
    }
}

/// What a 401 reply leads to.
pub enum RetryPlan {
    /// The retry is given up with this error, before (`false`) or after
    /// (`true`) the nonce count was advanced.
    Fail(WsmanError, bool),
    /// The retry is sent with this `Authorization` value.
    Send(Seq<char>),
}

/// The nonce count after `nc`.
pub open spec fn next_nc(nc: u32) -> u32 {
    if nc == u32::MAX { 0 } else { (nc + 1) as u32 }
}

/// The message id after `id`.
pub open spec fn next_id_after(id: u64) -> u64 {
    if id == u64::MAX { 0 } else { (id + 1) as u64 }
}

/// The message id after `k` requests starting from `id`.
pub open spec fn id_after(id: u64, k: nat) -> u64
    decreases k,
{
    if k == 0 { id } else { next_id_after(id_after(id, (k - 1) as nat)) }
}

/// Message ids count up by one per request, wrapping around at 2^64.
pub proof fn law_message_ids_count_up(id: u64, k: nat)
    ensures
        id_after(id, k) == (id + k) % 0x1_0000_0000_0000_0000,
    decreases k,
{
    if k > 0 {
        law_message_ids_count_up(id, (k - 1) as nat);
        let a = id + k - 1;
        vstd::arithmetic::div_mod::lemma_add_mod_noop(a, 1, 0x1_0000_0000_0000_0000);
        assert(1int % 0x1_0000_0000_0000_0000 == 1);
        assert(a + 1 == id + k);
    }
}

/// The nonce count after `k` challenges answered starting from `nc`.
pub open spec fn nc_after(nc: u32, k: nat) -> u32
    decreases k,
{
    if k == 0 { nc } else { next_nc(nc_after(nc, (k - 1) as nat)) }
}

/// The Digest nonce count goes up by one per challenge answered, wrapping
/// around at 2^32.
pub proof fn law_nonce_count_counts_up(nc: u32, k: nat)
    ensures
        nc_after(nc, k) == (nc + k) % 0x1_0000_0000,
    decreases k,
{
    if k > 0 {
        law_nonce_count_counts_up(nc, (k - 1) as nat);
        let a = nc + k - 1;
        vstd::arithmetic::div_mod::lemma_add_mod_noop(a, 1, 0x1_0000_0000);
        assert(1int % 0x1_0000_0000 == 1);
        assert(a + 1 == nc + k);
    }
}

/// The size of the buffer the `Authorization` value is rendered into.
pub const AUTH_HEADER_BUF: usize = 1024;

/// What a 401 reply whose `WWW-Authenticate` buffer holds `www` (its first
/// `www_len` bytes being the header) leads to, for credentials
/// `username`/`password` and current nonce count `nc`.
pub open spec fn retry_plan(www: Seq<u8>, www_len: usize, username: Seq<char>, password: Seq<char>, nc: u32) -> RetryPlan {
    if www_len > www.len() {
        RetryPlan::Fail(WsmanError::BufferTooSmall { need: www_len, have: www.len() as usize }, false)
    } else if www_len == 0 {
        RetryPlan::Fail(WsmanError::Auth("401 without WWW-Authenticate"), false)
    } else {
        match challenge_params(www.take(www_len as int)) {
            Err(msg) => RetryPlan::Fail(WsmanError::Auth(msg), false),
            Ok(params) => {
                let n = next_nc(nc);
                let text = authorization_text(challenge_of(params), username, password, "POST"@, "/wsman"@, n, cnonce_text(n));
                let len = encode_utf8(text).len();
                if len > AUTH_HEADER_BUF {
                    RetryPlan::Fail(
                        WsmanError::BufferTooSmall { need: if len <= usize::MAX { len as usize } else { usize::MAX }, have: AUTH_HEADER_BUF },
                        true,
                    )
                } else {
                    RetryPlan::Send(text)
                }
            },
        }
    }
}

pub struct Client<T: Transport> {
    transport: T,
    credentials: Credentials,
    message_id: u64,
    nc: u32,
    posts: Ghost<Seq<PostRecord>>,
}

/// The WS-Management path every request goes to.
pub const REQUEST_URI: &'static str = "/wsman";

impl<T: Transport> Client<T> {
    /// The message id the next request gets.
    pub closed spec fn next_id(&self) -> u64 {
        self.message_id
    }

    /// The Digest nonce count last used.
    pub closed spec fn nonce_count(&self) -> u32 {
        self.nc
    }

    /// The credentials, as texts.
    pub closed spec fn creds(&self) -> (Seq<char>, Seq<char>) {
        credential_texts(self.credentials)
    }

    /// Every request handed to the transport so far, in order.
    pub closed spec fn posts(&self) -> Seq<PostRecord> {
        self.posts@
    }

    /// The transport.
    pub closed spec fn transport_of(&self) -> T {
        self.transport
    }

    pub fn new(transport: T, credentials: Credentials) -> (r: Self)
        ensures
            r.next_id() == 0,
            r.nonce_count() == 0,
            r.creds() == credential_texts(credentials),
            r.posts() == Seq::<PostRecord>::empty(),
            r.transport_of() == transport,
    {
        Self { transport, credentials, message_id: 0, nc: 0, posts: Ghost(Seq::empty()) }
    }

    /// Gives the transport back.
    pub fn into_transport(self) -> (t: T)
        ensures
            t == self.transport_of(),
    {
        self.transport
    }

    /// Returns and increments the next message id.
    pub fn next_message_id(&mut self) -> (id: u64)
        ensures
            id == old(self).next_id(),
            final(self).next_id() == next_id_after(id),
            final(self).nonce_count() == old(self).nonce_count(),
            final(self).creds() == old(self).creds(),
            final(self).posts() == old(self).posts(),
    {
        let id = self.message_id;
        self.message_id = self.message_id.wrapping_add(1);
        id
    }

    fn post_logged(
        &mut self,
        headers: &[(&str, &str)],
        body: &[u8],
        resp: &mut ResponseBuf<'_>,
    ) -> (r: Result<ResponseMeta, WsmanError>)
        ensures
            final(self).posts() == old(self).posts().push(PostRecord {
                headers: headers_view(headers@),
                body: body@,
                status: match r { Ok(m) => Some(m.status), Err(_) => None },
                resp_body: final(resp).body@,
                resp_body_len: final(resp).body_len,
                www: final(resp).www_authenticate@,
                www_len: final(resp).www_authenticate_len,
            }),
            final(self).next_id() == old(self).next_id(),
            final(self).nonce_count() == old(self).nonce_count(),
            final(self).creds() == old(self).creds(),
    {
        let r = self.transport.post(headers, body, resp);
        let ghost rec = PostRecord {
            headers: headers_view(headers@),
            body: body@,
            status: match r { Ok(m) => Some(m.status), Err(_) => None },
            resp_body: resp.body@,
            resp_body_len: resp.body_len,
            www: resp.www_authenticate@,
            www_len: resp.www_authenticate_len,
        };
        self.posts = Ghost(self.posts@.push(rec));
        r
    }

    /// Sends `xml`, handles one 401 -> Digest retry, returns the body length.
    pub fn execute(&mut self, xml: &[u8], resp: &mut ResponseBuf<'_>) -> (r: Result<usize, WsmanError>)
        ensures
            final(self).next_id() == old(self).next_id(),
            final(self).creds() == old(self).creds(),
            final(self).posts().len() > old(self).posts().len(),
            final(self).posts().take(old(self).posts().len() as int) == old(self).posts(),
            r is Ok ==> final(self).posts().last().resp_body == final(resp).body@
                && final(self).posts().last().resp_body_len == final(resp).body_len,
            r is Ok <==> final(self).posts().last().status == Some(200u16),
            r matches Ok(n) ==> n == final(self).posts().last().resp_body_len,
            ({
                let p0 = old(self).posts().len() as int;
                let log = final(self).posts();
                let first = log[p0];
                &&& first.headers == base_headers()
                &&& first.body == xml@
                &&& if first.status == Some(401u16) {
                    match retry_plan(first.www, first.www_len, old(self).creds().0, old(self).creds().1, old(self).nonce_count()) {
                        RetryPlan::Fail(e, bumped) => {
                            &&& log.len() == p0 + 1
                            &&& r == Err::<usize, WsmanError>(e)
                            &&& final(self).nonce_count() == if bumped { next_nc(old(self).nonce_count()) } else { old(self).nonce_count() }
                        },
                        RetryPlan::Send(auth) => {
                            &&& log.len() == p0 + 2
                            &&& log[p0 + 1].headers == auth_headers(auth)
                            &&& log[p0 + 1].body == xml@
                            &&& reply_outcome(r, log[p0 + 1])
                            &&& final(self).nonce_count() == next_nc(old(self).nonce_count())
                        },
                    }
                } else {
                    &&& log.len() == p0 + 1
                    &&& reply_outcome(r, first)
                    &&& final(self).nonce_count() == old(self).nonce_count()
                }
            }),
            // The Digest response of a retry is 32 lower-case hexadecimal digits.
            ({
                let first = final(self).posts()[old(self).posts().len() as int];
                let n = next_nc(old(self).nonce_count());
                first.status == Some(401u16) && 0 < first.www_len <= first.www.len() ==>
                    match challenge_params(first.www.take(first.www_len as int)) {
                        Ok(params) => lower_hex(response_digest(challenge_of(params), old(self).creds().0,
                            old(self).creds().1, "POST"@, "/wsman"@, n, cnonce_text(n)), 32),
                        Err(_) => true,
                    }
            }),
    {
        let headers: [(&str, &str); 2] = [
            ("Content-Type", "application/soap+xml; charset=utf-8"),
            ("Connection", "close"),
        ];
        assert(headers_view(headers@) =~= base_headers());
        let meta = self.post_logged(headers.as_slice(), xml, resp);
        let meta = match meta {
            Ok(m) => m,
            Err(e) => return Err(e),
        };
        match meta.status {
            200 => {
                let n = resp.body_len;
                assert(self.posts().last().resp_body_len == n);
                assert(self.posts().last().status == Some(200u16));
                Ok(n)
            },
            401 => self.retry_with_digest(xml, resp),
            status => Err(http_err(status, resp)),
        }
    }

    fn retry_with_digest(&mut self, xml: &[u8], resp: &mut ResponseBuf<'_>) -> (r: Result<usize, WsmanError>)
        ensures
            final(self).next_id() == old(self).next_id(),
            final(self).creds() == old(self).creds(),
            match retry_plan(old(resp).www_authenticate@, old(resp).www_authenticate_len, old(self).creds().0, old(self).creds().1, old(self).nonce_count()) {
                RetryPlan::Fail(e, bumped) => {
                    &&& final(self).posts() == old(self).posts()
                    &&& r == Err::<usize, WsmanError>(e)
                    &&& final(self).nonce_count() == if bumped { next_nc(old(self).nonce_count()) } else { old(self).nonce_count() }
                },
                RetryPlan::Send(auth) => {
                    let log = final(self).posts();
                    &&& r is Ok ==> log.last().resp_body == final(resp).body@ && log.last().resp_body_len == final(resp).body_len
                    &&& log.len() == old(self).posts().len() + 1
                    &&& log.take(old(self).posts().len() as int) == old(self).posts()
                    &&& log.last().headers == auth_headers(auth)
                    &&& log.last().body == xml@
                    &&& reply_outcome(r, log.last())
                    &&& final(self).nonce_count() == next_nc(old(self).nonce_count())
                },
            },
            ({
                let www = old(resp).www_authenticate@;
                let len = old(resp).www_authenticate_len;
                let n = next_nc(old(self).nonce_count());
                0 < len <= www.len() ==> match challenge_params(www.take(len as int)) {
                    Ok(params) => lower_hex(response_digest(challenge_of(params), old(self).creds().0,
                        old(self).creds().1, "POST"@, "/wsman"@, n, cnonce_text(n)), 32),
                    Err(_) => true,
                }
            }),
    {
        if resp.www_authenticate_len > resp.www_authenticate.len() {
            return Err(WsmanError::BufferTooSmall { need: resp.www_authenticate_len, have: resp.www_authenticate.len() });
        }
        let www = resp.www_authenticate_slice();
        if www.len() == 0 {
            return Err(WsmanError::Auth("401 without WWW-Authenticate"));
        }
        let challenge = Challenge::parse(www)?;
        self.nc = self.nc.wrapping_add(1);
        let cnonce = cnonce_from(self.nc);
        let (username, password) = match &self.credentials {
            Credentials::Digest { username, password } => (username, password),
        };
        let mut auth_buf = [0u8; 1024];
        proof {
            reveal_strlit("POST");
            reveal_strlit("/wsman");
        }
        let n = build_authorization_header(
            &challenge,
            username.as_str(),
            password.as_str(),
            "POST",
            REQUEST_URI,
            self.nc,
            cnonce.as_str(),
            &mut auth_buf,
        )?;
        let ghost text = authorization_text(challenge@, username@, password@, "POST"@, "/wsman"@, self.nc, cnonce@);
        proof {
            encode_utf8_valid_utf8(text);
            encode_utf8_decode_utf8(text);
            assert(auth_buf@.take(n as int) =~= encode_utf8(text));
        }
        let auth_str = match str_from_utf8(&auth_buf[0..n]) {
            Some(s) => s,
            None => return Err(WsmanError::Auth("auth header not UTF-8")),
        };
        let headers: [(&str, &str); 3] = [
            ("Content-Type", "application/soap+xml; charset=utf-8"),
            ("Connection", "close"),
            ("Authorization", auth_str),
        ];
        assert(headers_view(headers@) =~= auth_headers(text));
        resp.body_len = 0;
        resp.www_authenticate_len = 0;
        let meta = self.post_logged(headers.as_slice(), xml, resp);
        let meta = match meta {
            Ok(m) => m,
            Err(e) => return Err(e),
        };
        match meta.status {
            200 => Ok(resp.body_len),
            status => Err(http_err(status, resp)),
        }
    }
}

impl<T: Transport> Client<T> {
    /// Executes `xml` with reply buffers of the sizes the class services
    /// use, and returns the reply body.
    pub(crate) fn execute_reply(&mut self, xml: &[u8]) -> (r: Result<Vec<u8>, WsmanError>)
        ensures
            final(self).next_id() == old(self).next_id(),
            final(self).creds() == old(self).creds(),
            final(self).posts().len() > old(self).posts().len(),
            final(self).posts().take(old(self).posts().len() as int) == old(self).posts(),
            final(self).posts()[old(self).posts().len() as int].body == xml@,
            r is Ok <==> last_reply(final(self).posts()) is Some,
            r matches Ok(v) ==> last_reply(final(self).posts()) == Some(v@),
    {
        let mut body = [0u8; 4096];
        let mut auth = [0u8; 1024];
        let mut rb = ResponseBuf::new(&mut body, &mut auth);
        let n = self.execute(xml, &mut rb)?;
        if n > rb.body.len() {
            return Err(WsmanError::BufferTooSmall { need: n, have: rb.body.len() });
        }
        let mut v: Vec<u8> = Vec::new();
        crate::text::push_bytes(&mut v, &rb.body[0..n]);
        Ok(v)
    }
}

/// The error for an unexpected status, carrying the reply body as text.
pub fn http_err(status: u16, resp: &ResponseBuf<'_>) -> (e: WsmanError)
    ensures
        e matches WsmanError::Http { status: s, body } && s == status && body@ == http_body_text(
            old(resp.body)@,
            resp.body_len,
        ),
{
    if resp.body_len > resp.body.len() {
        return WsmanError::Http { status, body: String::new() };
    }
    let body = match str_from_utf8(resp.body_slice()) {
        Some(s) => String::from_str(s),
        None => String::new(),
    };
    WsmanError::Http { status, body }
}

} // verus!
