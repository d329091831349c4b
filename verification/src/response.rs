//! The reply to an Enumerate: the enumeration context a Pull continues
//! from, read from the reply with the `quick_xml` event reader.

use vstd::prelude::*;
use vstd::utf8::*;
use quick_xml::events::Event;
use quick_xml::Reader;
use crate::error::WsmanError;
use crate::parse::local_name_matches;
use crate::scan::local_part;
use crate::text::str_from_utf8;

verus! {

#[verifier::external_type_specification]
#[verifier::external_body]
#[verifier::reject_recursive_types(R)]
pub struct ExXmlReader<R>(Reader<R>);

/// What the reader produced for one call, as plain values.
pub enum XmlEvent {
    /// A start tag, with its qualified name.
    Start(Vec<u8>),
    /// An end tag, with its qualified name.
    End(Vec<u8>),
    /// Character data, still escaped.
    Text(Vec<u8>),
    /// The end of the document.
    Eof,
    /// The reader found the document malformed.
    Failed,
    /// Anything else: empty-element tags, comments, declarations, CDATA.
    Other,
}

/// An `XmlEvent` as a mathematical value.
pub enum XmlEventView {
    Start(Seq<u8>),
    End(Seq<u8>),
    Text(Seq<u8>),
    Eof,
    Failed,
    Other,
}

impl View for XmlEvent {
    type V = XmlEventView;

    open spec fn view(&self) -> XmlEventView {
        match self {
            XmlEvent::Start(n) => XmlEventView::Start(n@),
            XmlEvent::End(n) => XmlEventView::End(n@),
            XmlEvent::Text(t) => XmlEventView::Text(t@),
            XmlEvent::Eof => XmlEventView::Eof,
            XmlEvent::Failed => XmlEventView::Failed,
            XmlEvent::Other => XmlEventView::Other,
        }
    }
}

/// The events `evs` as values.
pub open spec fn events_view(evs: Seq<XmlEvent>) -> Seq<XmlEventView> {
    evs.map_values(|e: XmlEvent| e@)
}

/// The event, as `xml_next_event` converts it, that `read_event_into`
/// returns on its `k`-th call (counting from 0) on a
/// `quick_xml::Reader::from_str(xml)`, after `trim_text(true)` when
/// `trimmed`.
pub uninterp spec fn xml_event_at(xml: Seq<char>, trimmed: bool, k: nat) -> XmlEventView;

/// What `buffer_position` returns on such a reader after `k` calls of
/// `read_event_into`.
pub uninterp spec fn xml_position_at(xml: Seq<char>, trimmed: bool, k: nat) -> nat;

/// A `quick_xml` reader over a string, with the string it reads, whether
/// text trimming is on, and how many events it has handed out.
pub struct XmlReader<'a> {
    reader: Reader<&'a [u8]>,
    source: Ghost<Seq<char>>,
    trimmed: Ghost<bool>,
    read: Ghost<nat>,
}

impl<'a> XmlReader<'a> {
    pub closed spec fn source(&self) -> Seq<char> {
        self.source@
    }

    pub closed spec fn trimmed(&self) -> bool {
        self.trimmed@
    }

    pub closed spec fn events_read(&self) -> nat {
        self.read@
    }
}

/// What `quick_xml::escape::unescape` gives for `s`: the text with its
/// entity and character references replaced, or `None` where it reports an
/// error.
pub uninterp spec fn xml_unescaped(s: Seq<char>) -> Option<Seq<char>>;

/// `quick_xml::Reader::from_str`: a fresh event reader over `xml`, which
/// has handed out no event and does not trim text.
#[verifier::external_body]
fn xml_reader(xml: &str) -> (r: XmlReader)
    ensures
        r.source() == xml@,
        !r.trimmed(),
        r.events_read() == 0,
{
    XmlReader { reader: Reader::from_str(xml), source: Ghost(xml@), trimmed: Ghost(false), read: Ghost(0) }
}

/// `quick_xml::Reader::trim_text(true)` on a reader that has handed out no
/// event yet: leading and trailing white space of character data is
/// dropped, and white-space-only data is skipped.
#[verifier::external_body]
fn xml_trim_text(r: &mut XmlReader)
    requires
        old(r).events_read() == 0,
    ensures
        final(r).source() == old(r).source(),
        final(r).trimmed(),
        final(r).events_read() == 0,
{
    r.reader.trim_text(true);
    r.trimmed = Ghost(true);
}

/// `quick_xml::Reader::read_event_into`: the next event, converted to an
/// `XmlEvent`; it is the one the name `xml_event_at` gives for the reader's
/// string, trimming and count.
#[verifier::external_body]
fn xml_next_event(r: &mut XmlReader, buf: &mut Vec<u8>) -> (e: XmlEvent)
    ensures
        e@ == xml_event_at(old(r).source(), old(r).trimmed(), old(r).events_read()),
        final(r).source() == old(r).source(),
        final(r).trimmed() == old(r).trimmed(),
        final(r).events_read() == old(r).events_read() + 1,
{
    r.read = Ghost(r.read@ + 1);
    match r.reader.read_event_into(buf) {
        Ok(Event::Start(e)) => XmlEvent::Start(e.name().as_ref().to_vec()),
        Ok(Event::End(e)) => XmlEvent::End(e.name().as_ref().to_vec()),
        Ok(Event::Text(t)) => XmlEvent::Text(t.into_inner().into_owned()),
        Ok(Event::Eof) => XmlEvent::Eof,
        Ok(_) => XmlEvent::Other,
        Err(_) => XmlEvent::Failed,
    }
}

/// `quick_xml::Reader::buffer_position`: how many bytes of the input the
/// reader has consumed; it is the one the name `xml_position_at` gives for
/// the reader's string, trimming and count.
#[verifier::external_body]
fn xml_position(r: &XmlReader) -> (p: usize)
    ensures
        p == xml_position_at(r.source(), r.trimmed(), r.events_read()),
{
    r.reader.buffer_position()
}

/// `quick_xml::escape::unescape`: `s` with its references replaced, or
/// `None` on an error; the result is the name `xml_unescaped` of `s`.
#[verifier::external_body]
fn xml_unescape(s: &str) -> (r: Option<String>)
    ensures
        match r {
            Some(t) => xml_unescaped(s@) == Some(t@),
            None => xml_unescaped(s@) is None,
        },
{
    match quick_xml::escape::unescape(s) {
        Ok(t) => Some(t.into_owned()),
        Err(_) => None,
    }
}

/// `EnumerationContext`, the local name of the element read.
pub open spec fn context_name() -> Seq<u8> {
    seq![69u8, 110, 117, 109, 101, 114, 97, 116, 105, 111, 110, 67, 111, 110, 116, 101, 120, 116]
}

/// Character data as text: decoded as UTF-8, then unescaped.
pub open spec fn text_value(raw: Seq<u8>) -> Option<Seq<char>> {
    if valid_utf8(raw) {
        xml_unescaped(decode_utf8(raw))
    } else {
        None
    }
}

/// How reading a run of events ends.
pub enum ContextScan {
    /// The events ran out or the document ended; the text last seen inside
    /// an `EnumerationContext` element, if any.
    Found(Option<Seq<char>>),
    /// The reader reported a malformed document.
    ReaderFailed,
    /// Character data inside the element could not be decoded or unescaped.
    BadText,
}

/// Reads `evs` from `i` on, inside an `EnumerationContext` element or not,
/// with the context text seen so far.
pub open spec fn context_scan(evs: Seq<XmlEventView>, i: int, inside: bool, ctx: Option<Seq<char>>) -> ContextScan
    decreases evs.len() - i,
{
    if i < 0 || i >= evs.len() {
        ContextScan::Found(ctx)
    } else {
        match evs[i] {
            XmlEventView::Start(n) => context_scan(evs, i + 1, if local_part(n) == context_name() { true } else { inside }, ctx),
            XmlEventView::End(n) => context_scan(evs, i + 1, if local_part(n) == context_name() { false } else { inside }, ctx),
            XmlEventView::Text(raw) => if inside {
                match text_value(raw) {
                    Some(t) => context_scan(evs, i + 1, inside, Some(t)),
                    None => ContextScan::BadText,
                }
            } else {
                context_scan(evs, i + 1, inside, ctx)
            },
            XmlEventView::Eof => ContextScan::Found(ctx),
            XmlEventView::Failed => ContextScan::ReaderFailed,
            XmlEventView::Other => context_scan(evs, i + 1, inside, ctx),
        }
    }
}

#[derive(Debug, Clone, PartialEq, Eq)]
pub struct EnumerateResponse {
    pub context: String,
}

/// What reading the events `evs` of a reply gives.
pub open spec fn enumerate_reply(evs: Seq<XmlEventView>, r: Result<EnumerateResponse, WsmanError>) -> bool {
    match context_scan(evs, 0, false, None) {
        ContextScan::Found(Some(c)) => r matches Ok(e) && e.context@ == c,
        ContextScan::Found(None) => r == Err::<EnumerateResponse, WsmanError>(WsmanError::Parse("no EnumerationContext in response")),
        ContextScan::ReaderFailed => r == Err::<EnumerateResponse, WsmanError>(WsmanError::Parse("xml: malformed document")),
        ContextScan::BadText => r == Err::<EnumerateResponse, WsmanError>(WsmanError::Parse("xml: undecodable text")),
    }
}

/// The event is the end of the document or a failure.
pub open spec fn terminal(e: XmlEventView) -> bool {
    e is Eof || e is Failed
}

/// The first `n` events a trimming reader hands out for `xml`.
pub open spec fn xml_events(xml: Seq<char>, n: nat) -> Seq<XmlEventView> {
    Seq::new(n, |k: int| xml_event_at(xml, true, k as nat))
}

/// Where a trimming reader over `xml` stands after `k` events: the start
/// before the first.
pub open spec fn position_after(xml: Seq<char>, k: nat) -> nat {
    if k == 0 { 0 } else { xml_position_at(xml, true, k) }
}

/// The reader moved forward over `xml`, staying within it, with its event
/// number `k` (counting from 0).
pub open spec fn advanced(xml: Seq<char>, k: nat) -> bool {
    position_after(xml, k) < position_after(xml, k + 1) <= encode_utf8(xml).len()
}

/// Reading `xml` ends at event `n - 1`: that event is the end or a
/// failure, every earlier one is neither, and moved the reader forward.
pub open spec fn complete_read(xml: Seq<char>, n: nat) -> bool {
    &&& n > 0
    &&& terminal(xml_event_at(xml, true, (n - 1) as nat))
    &&& forall|k: nat| k < n - 1 ==> !terminal(#[trigger] xml_event_at(xml, true, k)) && advanced(xml, k)
}

impl EnumerateResponse {
    /// Reads the enumeration context from the events of a reply.
    pub fn from_events(evs: &[XmlEvent]) -> (r: Result<Self, WsmanError>)
        ensures
            enumerate_reply(events_view(evs@), r),
    {
        let name: [u8; 18] = [69, 110, 117, 109, 101, 114, 97, 116, 105, 111, 110, 67, 111, 110, 116, 101, 120, 116];
        assert(name@ =~= context_name());
        let mut inside = false;
        let mut ctx: Option<String> = None;
        let mut i: usize = 0;
        while i < evs.len()
            invariant
                i <= evs@.len(),
                name@ == context_name(),
                context_scan(events_view(evs@), 0, false, None) == context_scan(
                    events_view(evs@),
                    i as int,
                    inside,
                    match ctx { Some(s) => Some(s@), None => None },
                ),
            decreases evs.len() - i,
        {
            match &evs[i] {
                XmlEvent::Start(n) => {
                    if local_name_matches(n.as_slice(), name.as_slice()) {
                        inside = true;
                    }
                },
                XmlEvent::End(n) => {
                    if local_name_matches(n.as_slice(), name.as_slice()) {
                        inside = false;
                    }
                },
                XmlEvent::Text(raw) => {
                    if inside {
                        let s = match str_from_utf8(raw.as_slice()) {
                            Some(s) => s,
                            None => return Err(WsmanError::Parse("xml: undecodable text")),
                        };
                        match xml_unescape(s) {
                            Some(t) => ctx = Some(t),
                            None => return Err(WsmanError::Parse("xml: undecodable text")),
                        }
                    }
                },
                XmlEvent::Eof => {
                    return match ctx {
                        Some(c) => Ok(EnumerateResponse { context: c }),
                        None => Err(WsmanError::Parse("no EnumerationContext in response")),
                    };
                },
                XmlEvent::Failed => return Err(WsmanError::Parse("xml: malformed document")),
                XmlEvent::Other => {},
            }
            i = i + 1;
        }
        match ctx {
            Some(c) => Ok(EnumerateResponse { context: c }),
            None => Err(WsmanError::Parse("no EnumerationContext in response")),
        }
    }

    /// Reads the enumeration context from an Enumerate reply: the text of
    /// its last `EnumerationContext` element. The reader's events are
    /// taken up to the end of the document or a failure; should the reader
    /// stop moving forward before that, the read is given up.
    pub fn from_envelope(xml: &str) -> (r: Result<Self, WsmanError>)
        ensures
            forall|n: nat| #[trigger] complete_read(xml@, n) ==> enumerate_reply(xml_events(xml@, n), r),
            r == Err::<Self, WsmanError>(WsmanError::Parse("xml: reader made no progress"))
                <==> !(exists|n: nat| #[trigger] complete_read(xml@, n)),
    {
        let len = xml.as_bytes().len();
        let mut reader = xml_reader(xml);
        xml_trim_text(&mut reader);
        let mut buf: Vec<u8> = Vec::new();
        let mut events: Vec<XmlEvent> = Vec::new();
        let mut pos: usize = 0;
        loop
            invariant_except_break
                pos <= len,
                len == encode_utf8(xml@).len(),
                reader.source() == xml@,
                reader.trimmed(),
                reader.events_read() == events@.len(),
                pos == position_after(xml@, events@.len() as nat),
                events_view(events@) =~= xml_events(xml@, events@.len() as nat),
                forall|k: nat| k < events@.len() ==> !terminal(#[trigger] xml_event_at(xml@, true, k)) && advanced(xml@, k),
            ensures
                complete_read(xml@, events@.len() as nat),
                events_view(events@) =~= xml_events(xml@, events@.len() as nat),
            decreases len - pos,
        {
            let ghost k = events@.len() as nat;
            let ev = xml_next_event(&mut reader, &mut buf);
            let done = match ev {
                XmlEvent::Eof => true,
                XmlEvent::Failed => true,
                _ => false,
            };
            let ghost ev_view = ev@;
            let ghost old_events = events@;
            events.push(ev);
            assert(events_view(events@) =~= xml_events(xml@, events@.len() as nat)) by {
                assert forall|j: int| 0 <= j < events@.len() implies events_view(events@)[j] == xml_events(xml@, events@.len() as nat)[j] by {
                    assert(events_view(events@)[j] == events@[j]@);
                    if j < k {
                        assert(events@[j] == old_events[j]);
                        assert(events_view(old_events)[j] == old_events[j]@);
                        assert(events_view(old_events)[j] == xml_events(xml@, k)[j]);
                    } else {
                        assert(events@[j]@ == ev_view);
                    }
                }
            }
            if done {
                assert(complete_read(xml@, events@.len() as nat));
                break;
            }
            let now = xml_position(&reader);
            if now <= pos || now > len {
                proof {
                    assert(!advanced(xml@, k));
                    assert forall|n: nat| !complete_read(xml@, n) by {
                        if complete_read(xml@, n) {
                            if k < n - 1 {
                                assert(advanced(xml@, k));
                            } else if k == n - 1 {
                                assert(terminal(xml_event_at(xml@, true, k)));
                            } else {
                                assert(!terminal(xml_event_at(xml@, true, (n - 1) as nat)));
                            }
                        }
                    }
                }
                return Err(WsmanError::Parse("xml: reader made no progress"));
            }
            pos = now;
            buf.clear();
        }
        let r = Self::from_events(events.as_slice());
        proof {
            let n0 = events@.len() as nat;
            assert forall|n: nat| #[trigger] complete_read(xml@, n) implies n == n0 by {
                if n < n0 {
                    assert(terminal(xml_event_at(xml@, true, (n - 1) as nat)));
                } else if n > n0 {
                    assert(!terminal(xml_event_at(xml@, true, (n0 - 1) as nat)));
                }
            }
            assert(r != Err::<Self, WsmanError>(WsmanError::Parse("xml: reader made no progress")));
        }
        r
    }
}

} // verus!
