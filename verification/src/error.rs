//! Error types of the WS-Management runtime and of the APF/HECI link.

use vstd::prelude::*;
use vstd::string::StringExecFns;
use crate::text::{decimal, push_decimal};

verus! {

/// Errors of the WS-Management client, envelope builder and parsers.
#[derive(Debug)]
pub enum WsmanError {
    /// The byte transport failed; the text describes why.
    Transport(String),
    /// Digest authentication could not proceed.
    Auth(&'static str),
    /// The server answered with a status other than the one expected.
    Http { status: u16, body: String },
    /// A response could not be parsed.
    Parse(&'static str),
    /// The server answered with a SOAP fault; the text is the fault reason.
    SoapFault(String),
    /// A caller-owned buffer is too small for what had to be written into it.
    BufferTooSmall { need: usize, have: usize },
    /// A request could not be built from the inputs given.
    Builder(&'static str),
}

/// Errors of the HECI byte link.
#[derive(Debug, Clone)]
pub enum HeciError {
    Io(String),
    Busy,
    BufferTooSmall,
}

/// Errors of the APF session layer.
#[derive(Debug)]
pub enum ApfError {
    Heci(HeciError),
    Protocol(&'static str),
    OpenRejected(u32),
    Timeout(&'static str),
    ChannelClosed,
    Aborted,
    BufferTooSmall,
}

impl From<HeciError> for ApfError {
    fn from(e: HeciError) -> (r: ApfError)
        ensures r == ApfError::Heci(e),
    {
        ApfError::Heci(e)
    }
}

impl vstd::std_specs::convert::FromSpecImpl<HeciError> for ApfError {
    open spec fn obeys_from_spec() -> bool {
        true
    }

    open spec fn from_spec(e: HeciError) -> ApfError {
        ApfError::Heci(e)
    }
}

/// The text of a WS-Management error.
pub open spec fn wsman_error_text(e: WsmanError) -> Seq<char> {
    match e {
        WsmanError::Transport(s) => "transport: "@ + s@,
        WsmanError::Auth(m) => "auth: "@ + m@,
        WsmanError::Http { status, body } => "HTTP "@ + decimal(status as nat) + ": "@ + body@,
        WsmanError::Parse(m) => "malformed XML: "@ + m@,
        WsmanError::SoapFault(s) => "SOAP fault: "@ + s@,
        WsmanError::BufferTooSmall { need, have } => "buffer too small: need "@ + decimal(need as nat)
            + ", have "@ + decimal(have as nat),
        WsmanError::Builder(m) => "builder: "@ + m@,
    }
}

/// The text of a HECI error.
pub open spec fn heci_error_text(e: HeciError) -> Seq<char> {
    match e {
        HeciError::Io(s) => "heci: "@ + s@,
        HeciError::Busy => "heci: device busy"@,
        HeciError::BufferTooSmall => "heci: buffer too small"@,
    }
}

/// The text of an APF error.
pub open spec fn apf_error_text(e: ApfError) -> Seq<char> {
    match e {
        ApfError::Heci(h) => "heci: "@ + heci_error_text(h),
        ApfError::Protocol(m) => "apf protocol: "@ + m@,
        ApfError::OpenRejected(n) => "apf channel open rejected (reason="@ + decimal(n as nat) + ")"@,
        ApfError::Timeout(m) => "apf timeout waiting for "@ + m@,
        ApfError::ChannelClosed => "apf channel not active"@,
        ApfError::Aborted => "apf aborted by ME"@,
        ApfError::BufferTooSmall => "apf buffer too small"@,
    }
}

impl WsmanError {
    /// The error as text, the way it is displayed.
    pub fn message(&self) -> (s: String)
        ensures
            s@ == wsman_error_text(*self),
    {
        let mut s = String::new();
        match self {
            WsmanError::Transport(t) => {
                s.append("transport: ");
                s.append(t.as_str());
            },
            WsmanError::Auth(m) => {
                s.append("auth: ");
                s.append(m);
            },
            WsmanError::Http { status, body } => {
                s.append("HTTP ");
                push_decimal(&mut s, *status as u64);
                s.append(": ");
                s.append(body.as_str());
            },
            WsmanError::Parse(m) => {
                s.append("malformed XML: ");
                s.append(m);
            },
            WsmanError::SoapFault(t) => {
                s.append("SOAP fault: ");
                s.append(t.as_str());
            },
            WsmanError::BufferTooSmall { need, have } => {
                s.append("buffer too small: need ");
                push_decimal(&mut s, *need as u64);
                s.append(", have ");
                push_decimal(&mut s, *have as u64);
            },
            WsmanError::Builder(m) => {
                s.append("builder: ");
                s.append(m);
            },
        }
        assert(s@ =~= wsman_error_text(*self));
        s
    }
}

impl HeciError {
    /// The error as text, the way it is displayed.
    pub fn message(&self) -> (s: String)
        ensures
            s@ == heci_error_text(*self),
    {
        let mut s = String::new();
        match self {
            HeciError::Io(t) => {
                s.append("heci: ");
                s.append(t.as_str());
            },
            HeciError::Busy => s.append("heci: device busy"),
            HeciError::BufferTooSmall => s.append("heci: buffer too small"),
        }
        assert(s@ =~= heci_error_text(*self));
        s
    }
}

impl ApfError {
    /// The error as text, the way it is displayed.
    pub fn message(&self) -> (s: String)
        ensures
            s@ == apf_error_text(*self),
    {
        let mut s = String::new();
        match self {
            ApfError::Heci(h) => {
                s.append("heci: ");
                let inner = h.message();
                s.append(inner.as_str());
            },
            ApfError::Protocol(m) => {
                s.append("apf protocol: ");
                s.append(m);
            },
            ApfError::OpenRejected(n) => {
                s.append("apf channel open rejected (reason=");
                push_decimal(&mut s, *n as u64);
                s.append(")");
            },
            ApfError::Timeout(m) => {
                s.append("apf timeout waiting for ");
                s.append(m);
            },
            ApfError::ChannelClosed => s.append("apf channel not active"),
            ApfError::Aborted => s.append("apf aborted by ME"),
            ApfError::BufferTooSmall => s.append("apf buffer too small"),
        }
        assert(s@ =~= apf_error_text(*self));
        s
    }
}

} // verus!
