//! Hand-rolled XML tag extraction.
//!
//! WSMAN AMT responses are small and structurally predictable, so the bytes
//! are walked directly. Elements are matched by local name (namespace
//! prefixes ignored) and a minimal set of XML entity escapes in text content
//! is handled (`&amp;`, `&lt;`, `&gt;`, `&quot;`, `&apos;`).

use vstd::prelude::*;
use vstd::utf8::*;
use crate::scan::{Stop, scan_from, lemma_scan_from, scan, local_part, has_prefix, starts_with, bytes_eq};
use crate::text::{decimal, digit_char, str_from_utf8, chars_of, trim_bounds, trim, push_bytes};

verus! {

/// `/`, `?` or `!`: after `<` these open a closing tag, a declaration or a
/// comment, none of which is an element start.
pub open spec fn not_element_start(b: u8) -> bool {
    b == 47 || b == 63 || b == 33
}

/// The first `>` at or after `j` that stands outside a quoted attribute
/// value, where `q` is the quote (`"` or `'`) open at `j`, or 0 when none is;
/// the length of `xml` when there is none.
pub open spec fn tag_close(xml: Seq<u8>, j: int, q: u8) -> int
    decreases xml.len() - j,
{
    if j < 0 || j >= xml.len() {
        xml.len() as int
    } else if q == 0 {
        if xml[j] == 62 {
            j
        } else if xml[j] == 34 || xml[j] == 39 {
            tag_close(xml, j + 1, xml[j])
        } else {
            tag_close(xml, j + 1, 0)
        }
    } else if xml[j] == q {
        tag_close(xml, j + 1, 0)
    } else {
        tag_close(xml, j + 1, q)
    }
}

/// Scans `xml` from `i` for the first element start whose local name is
/// `local` and returns its raw text content: `None` when there is none, when
/// the tag runs to the end of the input, when it is self-closing (a `/`
/// right before the `>` that closes it, outside attribute values), or when
/// its content is empty. Attributes are otherwise ignored.
pub open spec fn text_scan(xml: Seq<u8>, local: Seq<u8>, i: int) -> Option<Seq<u8>>
    decreases xml.len() - i,
{
    if i < 0 || i >= xml.len() {
        None
    } else if xml[i] != 60 {
        text_scan(xml, local, i + 1)
    } else if i + 1 < xml.len() && not_element_start(xml[i + 1]) {
        text_scan(xml, local, i + 1)
    } else {
        let te = scan_from(xml, i + 1, Stop::NameEnd);
        proof {
            lemma_scan_from(xml, i + 1, Stop::NameEnd);
        }
        if te >= xml.len() {
            None
        } else if local_part(xml.subrange(i + 1, te)) == local {
            let gt = tag_close(xml, te, 0);
            if gt >= xml.len() {
                None
            } else if xml[gt - 1] == 47 {
                None
            } else {
                let ce = scan_from(xml, gt + 1, Stop::Lt);
                if ce == gt + 1 {
                    None
                } else {
                    Some(xml.subrange(gt + 1, ce))
                }
            }
        } else {
            text_scan(xml, local, te)
        }
    }
}

/// True when `xml`, scanned from `i`, has an element start whose local name
/// is `Fault`.
pub open spec fn fault_scan(xml: Seq<u8>, i: int) -> bool
    decreases xml.len() - i,
{
    if i < 0 || i >= xml.len() {
        false
    } else if xml[i] != 60 {
        fault_scan(xml, i + 1)
    } else if i + 1 < xml.len() && not_element_start(xml[i + 1]) {
        fault_scan(xml, i + 1)
    } else {
        let te = scan_from(xml, i + 1, Stop::NameEnd);
        proof {
            lemma_scan_from(xml, i + 1, Stop::NameEnd);
        }
        if local_part(xml.subrange(i + 1, te)) == fault_name() {
            true
        } else if te >= xml.len() {
            false
        } else {
            fault_scan(xml, te)
        }
    }
}

/// An element start tag begins at `i`: a `<` not followed by `/`, `?` or
/// `!`.
pub open spec fn element_start_at(xml: Seq<u8>, i: int) -> bool {
    0 <= i < xml.len() && xml[i] == 60 && !(i + 1 < xml.len() && not_element_start(xml[i + 1]))
}

/// Where the name of a tag that begins at `i` ends.
pub open spec fn name_end(xml: Seq<u8>, i: int) -> int {
    scan_from(xml, i + 1, Stop::NameEnd)
}

/// An element start tag whose local name is `local` begins at `i`.
pub open spec fn element_named_at(xml: Seq<u8>, i: int, local: Seq<u8>) -> bool {
    element_start_at(xml, i) && local_part(xml.subrange(i + 1, name_end(xml, i))) == local
}

/// No tag name holds a `<`: true of well-formed XML.
pub open spec fn names_well_formed(xml: Seq<u8>) -> bool {
    forall|i: int, k: int| #[trigger] element_start_at(xml, i) && i < k < name_end(xml, i) ==> #[trigger] xml[k] != 60
}

/// The text of the element whose start tag begins at `i`: `None` when the
/// tag runs to the end of the input, is self-closing, or is followed
/// directly by another tag.
pub open spec fn element_text(xml: Seq<u8>, i: int) -> Option<Seq<u8>> {
    let te = name_end(xml, i);
    if te >= xml.len() {
        None
    } else {
        let gt = tag_close(xml, te, 0);
        if gt >= xml.len() || xml[gt - 1] == 47 {
            None
        } else {
            let ce = scan_from(xml, gt + 1, Stop::Lt);
            if ce == gt + 1 { None } else { Some(xml.subrange(gt + 1, ce)) }
        }
    }
}

proof fn lemma_fault_scan_plain(xml: Seq<u8>, j: int)
    requires
        0 <= j,
        names_well_formed(xml),
    ensures
        fault_scan(xml, j) <==> exists|i: int| j <= i && #[trigger] element_named_at(xml, i, fault_name()),
    decreases xml.len() - j,
{
    if j >= xml.len() {
    } else if xml[j] != 60 || (j + 1 < xml.len() && not_element_start(xml[j + 1])) {
        lemma_fault_scan_plain(xml, j + 1);
        if exists|i: int| j <= i && #[trigger] element_named_at(xml, i, fault_name()) {
            let i = choose|i: int| j <= i && #[trigger] element_named_at(xml, i, fault_name());
            assert(i != j);
        }
    } else {
        lemma_scan_from(xml, j + 1, Stop::NameEnd);
        let te = name_end(xml, j);
        if local_part(xml.subrange(j + 1, te)) == fault_name() {
            assert(element_named_at(xml, j, fault_name()));
        } else {
            if te < xml.len() {
                lemma_fault_scan_plain(xml, te);
            }
            if exists|i: int| j <= i && #[trigger] element_named_at(xml, i, fault_name()) {
                let i = choose|i: int| j <= i && #[trigger] element_named_at(xml, i, fault_name());
                assert(i != j);
                if i < te {
                    assert(element_start_at(xml, j) && j < i < name_end(xml, j));
                    assert(xml[i] != 60);
                }
            }
        }
    }
}

/// On XML whose tag names hold no `<`, `has_fault` finds exactly the
/// documents with an element start tag whose local name is `Fault`.
pub proof fn law_has_fault_plain(xml: Seq<u8>)
    requires
        names_well_formed(xml),
    ensures
        fault_scan(xml, 0) <==> exists|i: int| #[trigger] element_named_at(xml, i, fault_name()),
{
    lemma_fault_scan_plain(xml, 0);
    if exists|i: int| #[trigger] element_named_at(xml, i, fault_name()) {
        let i = choose|i: int| #[trigger] element_named_at(xml, i, fault_name());
        assert(0 <= i && element_named_at(xml, i, fault_name()));
    }
}

proof fn lemma_text_scan_plain(xml: Seq<u8>, local: Seq<u8>, j: int)
    requires
        0 <= j,
        names_well_formed(xml),
    ensures
        (forall|i: int| j <= i ==> !#[trigger] element_named_at(xml, i, local)) ==> text_scan(xml, local, j) is None,
        forall|i: int| j <= i && #[trigger] element_named_at(xml, i, local)
            && (forall|h: int| j <= h < i ==> !element_named_at(xml, h, local))
            ==> text_scan(xml, local, j) == element_text(xml, i),
    decreases xml.len() - j,
{
    if j >= xml.len() {
    } else if xml[j] != 60 || (j + 1 < xml.len() && not_element_start(xml[j + 1])) {
        lemma_text_scan_plain(xml, local, j + 1);
        assert(!element_named_at(xml, j, local));
        assert forall|i: int| j <= i && #[trigger] element_named_at(xml, i, local)
            && (forall|h: int| j <= h < i ==> !element_named_at(xml, h, local))
            implies text_scan(xml, local, j) == element_text(xml, i) by {
            assert(i != j);
        }
    } else {
        lemma_scan_from(xml, j + 1, Stop::NameEnd);
        let te = name_end(xml, j);
        if te >= xml.len() {
            assert forall|i: int| j < i implies !#[trigger] element_named_at(xml, i, local) by {
                if element_named_at(xml, i, local) {
                    if i < te {
                        assert(element_start_at(xml, j) && j < i < name_end(xml, j));
                    }
                }
            }
        } else if local_part(xml.subrange(j + 1, te)) == local {
            assert(element_named_at(xml, j, local));
            assert forall|i: int| j <= i && #[trigger] element_named_at(xml, i, local)
                && (forall|h: int| j <= h < i ==> !element_named_at(xml, h, local))
                implies text_scan(xml, local, j) == element_text(xml, i) by {
                if i != j {
                    assert(!element_named_at(xml, j, local));
                }
            }
        } else {
            lemma_text_scan_plain(xml, local, te);
            assert forall|i: int| j <= i < te implies !#[trigger] element_named_at(xml, i, local) by {
                if i != j && element_named_at(xml, i, local) {
                    assert(element_start_at(xml, j) && j < i < name_end(xml, j));
                }
            }
            assert forall|i: int| j <= i && #[trigger] element_named_at(xml, i, local)
                && (forall|h: int| j <= h < i ==> !element_named_at(xml, h, local))
                implies text_scan(xml, local, j) == element_text(xml, i) by {
                assert(i >= te);
                assert forall|h: int| te <= h < i implies !element_named_at(xml, h, local) by {
                }
            }
        }
    }
}

/// On XML whose tag names hold no `<`, `extract_text` reads the first
/// element start tag whose local name is the one asked for: the raw text
/// that follows it up to the next `<` (unescaped), and `None` when there is
/// no such element or it has no text.
pub proof fn law_extract_text_plain(xml: Seq<u8>, local: Seq<u8>)
    requires
        names_well_formed(xml),
    ensures
        (forall|i: int| !#[trigger] element_named_at(xml, i, local)) ==> text_scan(xml, local, 0) is None,
        forall|i: int| #[trigger] element_named_at(xml, i, local)
            && (forall|h: int| 0 <= h < i ==> !element_named_at(xml, h, local))
            ==> text_scan(xml, local, 0) == element_text(xml, i),
{
    lemma_text_scan_plain(xml, local, 0);
    assert forall|i: int| #[trigger] element_named_at(xml, i, local)
        && (forall|h: int| 0 <= h < i ==> !element_named_at(xml, h, local))
        implies text_scan(xml, local, 0) == element_text(xml, i) by {
        assert(0 <= i);
    }
}

/// `Fault`
pub open spec fn fault_name() -> Seq<u8> {
    seq![70u8, 97, 117, 108, 116]
}

/// The entity that `t` starts with, as the byte it stands for and its length.
pub open spec fn entity(t: Seq<u8>) -> Option<(u8, int)> {
    if has_prefix(t, seq![38u8, 97, 109, 112, 59]) {
        Some((38u8, 5))
    } else if has_prefix(t, seq![38u8, 108, 116, 59]) {
        Some((60u8, 4))
    } else if has_prefix(t, seq![38u8, 103, 116, 59]) {
        Some((62u8, 4))
    } else if has_prefix(t, seq![38u8, 113, 117, 111, 116, 59]) {
        Some((34u8, 6))
    } else if has_prefix(t, seq![38u8, 97, 112, 111, 115, 59]) {
        Some((39u8, 6))
    } else {
        None
    }
}

/// The length of the UTF-8 sequence that a byte announces, when it is the
/// first byte of one; 1 for ASCII and for stray continuation bytes.
pub open spec fn char_len(first: u8) -> int {
    if first < 0xC0 {
        1
    } else if first < 0xE0 {
        2
    } else if first < 0xF0 {
        3
    } else {
        4
    }
}

/// The UTF-8 bytes of U+FFFD, the replacement character.
pub open spec fn replacement_bytes() -> Seq<u8> {
    encode_utf8(seq!['\u{FFFD}'])
}

/// The UTF-8 bytes of the text of `t` with the five entities replaced,
/// well-formed characters kept, and each malformed sequence replaced by
/// U+FFFD.
pub open spec fn unescape_bytes(t: Seq<u8>) -> Seq<u8>
    decreases t.len(),
{
    if t.len() == 0 {
        seq![]
    } else if t[0] == 38 && entity(t) is Some {
        let (c, k) = entity(t)->0;
        seq![c] + unescape_bytes(t.skip(k))
    } else {
        let n = if char_len(t[0]) <= t.len() { char_len(t[0]) } else { t.len() as int };
        let chunk = t.take(n);
        (if valid_utf8(chunk) { chunk } else { replacement_bytes() }) + unescape_bytes(t.skip(n))
    }
}

/// What unescaping gives is well-formed UTF-8.
pub proof fn lemma_unescape_valid(t: Seq<u8>)
    ensures
        valid_utf8(unescape_bytes(t)),
    decreases t.len(),
{
    if t.len() == 0 {
    } else if t[0] == 38 && entity(t) is Some {
        let (c, k) = entity(t)->0;
        lemma_unescape_valid(t.skip(k));
        assert(c < 0x80);
        lemma_ascii_valid(seq![c]);
        valid_utf8_concat(seq![c], unescape_bytes(t.skip(k)));
    } else {
        let n = if char_len(t[0]) <= t.len() { char_len(t[0]) } else { t.len() as int };
        let chunk = t.take(n);
        lemma_unescape_valid(t.skip(n));
        encode_utf8_valid_utf8(seq!['\u{FFFD}']);
        let piece = if valid_utf8(chunk) { chunk } else { replacement_bytes() };
        valid_utf8_concat(piece, unescape_bytes(t.skip(n)));
    }
}

/// The first character of well-formed UTF-8 is taken whole: its bytes
/// are well-formed UTF-8 on their own, and so is what follows them.
proof fn lemma_first_char_whole(t: Seq<u8>)
    requires
        t.len() > 0,
        valid_utf8(t),
    ensures
        char_len(t[0]) <= t.len(),
        valid_utf8(t.take(char_len(t[0]))),
        t.skip(char_len(t[0])) == pop_first_scalar(t),
        valid_utf8(t.skip(char_len(t[0]))),
{
    let n = char_len(t[0]);
    assert(n == length_of_first_scalar(t));
    let c = t.take(n);
    assert(forall|i: int| 0 <= i < n ==> c[i] == t[i]);
    assert(valid_leading_and_continuation_bytes_first_codepoint(c));
    assert(decode_first_codepoint(c) == decode_first_codepoint(t));
    assert(valid_first_scalar(c));
    assert(pop_first_scalar(c) =~= Seq::<u8>::empty());
    assert(valid_utf8(Seq::<u8>::empty()));
    assert(valid_utf8(c));
    assert(t.skip(n) =~= pop_first_scalar(t));
}

/// Unescaping keeps text that is well-formed UTF-8 and holds no `&` as it
/// is: multi-byte characters come out whole.
pub proof fn law_unescape_keeps_plain_utf8(t: Seq<u8>)
    requires
        valid_utf8(t),
        forall|i: int| 0 <= i < t.len() ==> #[trigger] t[i] != 38,
    ensures
        unescape_bytes(t) == t,
    decreases t.len(),
{
    if t.len() > 0 {
        lemma_first_char_whole(t);
        let n = char_len(t[0]);
        let rest = t.skip(n);
        assert forall|i: int| 0 <= i < rest.len() implies #[trigger] rest[i] != 38 by {
            assert(rest[i] == t[i + n]);
        }
        law_unescape_keeps_plain_utf8(rest);
        assert(t.take(n) + rest =~= t);
    }
}

/// The five XML entities are replaced by the characters they stand for:
/// `&amp;` by `&`, `&lt;` by `<`, `&gt;` by `>`, `&quot;` by `"` and
/// `&apos;` by `'`; the text after them is unescaped in turn.
pub proof fn law_unescape_entities(t: Seq<u8>)
    ensures
        unescape_bytes(seq![38u8, 97, 109, 112, 59] + t) == seq![38u8] + unescape_bytes(t),
        unescape_bytes(seq![38u8, 108, 116, 59] + t) == seq![60u8] + unescape_bytes(t),
        unescape_bytes(seq![38u8, 103, 116, 59] + t) == seq![62u8] + unescape_bytes(t),
        unescape_bytes(seq![38u8, 113, 117, 111, 116, 59] + t) == seq![34u8] + unescape_bytes(t),
        unescape_bytes(seq![38u8, 97, 112, 111, 115, 59] + t) == seq![39u8] + unescape_bytes(t),
{
    let a = seq![38u8, 97, 109, 112, 59] + t;
    assert(a.take(5) =~= seq![38u8, 97, 109, 112, 59]);
    assert(a.skip(5) =~= t);
    let b = seq![38u8, 108, 116, 59] + t;
    assert(b.take(4) =~= seq![38u8, 108, 116, 59]);
    assert(!has_prefix(b, seq![38u8, 97, 109, 112, 59])) by { if 5 <= b.len() { assert(b.take(5)[1] != 97u8); } }
    assert(b.skip(4) =~= t);
    let c = seq![38u8, 103, 116, 59] + t;
    assert(c.take(4) =~= seq![38u8, 103, 116, 59]);
    assert(!has_prefix(c, seq![38u8, 97, 109, 112, 59])) by { if 5 <= c.len() { assert(c.take(5)[1] != 97u8); } }
    assert(!has_prefix(c, seq![38u8, 108, 116, 59])) by { if 4 <= c.len() { assert(c.take(4)[1] != 108u8); } }
    assert(c.skip(4) =~= t);
    let d = seq![38u8, 113, 117, 111, 116, 59] + t;
    assert(d.take(6) =~= seq![38u8, 113, 117, 111, 116, 59]);
    assert(!has_prefix(d, seq![38u8, 97, 109, 112, 59])) by { if 5 <= d.len() { assert(d.take(5)[1] != 97u8); } }
    assert(!has_prefix(d, seq![38u8, 108, 116, 59])) by { if 4 <= d.len() { assert(d.take(4)[1] != 108u8); } }
    assert(!has_prefix(d, seq![38u8, 103, 116, 59])) by { if 4 <= d.len() { assert(d.take(4)[1] != 103u8); } }
    assert(d.skip(6) =~= t);
    let e = seq![38u8, 97, 112, 111, 115, 59] + t;
    assert(e.take(6) =~= seq![38u8, 97, 112, 111, 115, 59]);
    assert(!has_prefix(e, seq![38u8, 97, 109, 112, 59])) by { if 5 <= e.len() { assert(e.take(5)[2] != 109u8); } }
    assert(!has_prefix(e, seq![38u8, 108, 116, 59])) by { if 4 <= e.len() { assert(e.take(4)[1] != 108u8); } }
    assert(!has_prefix(e, seq![38u8, 103, 116, 59])) by { if 4 <= e.len() { assert(e.take(4)[1] != 103u8); } }
    assert(!has_prefix(e, seq![38u8, 113, 117, 111, 116, 59])) by { if 6 <= e.len() { assert(e.take(6)[1] != 113u8); } }
    assert(e.skip(6) =~= t);
}

/// Bytes below 0x80 are well-formed UTF-8.
pub proof fn lemma_ascii_valid(b: Seq<u8>)
    requires
        forall|i: int| 0 <= i < b.len() ==> b[i] < 0x80,
    ensures
        valid_utf8(b),
{
    assert(b.subrange(0, 0) =~= Seq::<u8>::empty());
    assert(partial_valid_utf8(b, 0));
    partial_valid_utf8_extend_ascii_block(b, 0, b.len() as int);
    assert(b.subrange(0, b.len() as int) =~= b);
}

/// The text content of the first element named `local`, unescaped.
pub open spec fn extracted_text(xml: Seq<u8>, local: Seq<u8>) -> Option<Seq<char>> {
    match text_scan(xml, local, 0) {
        Some(c) => Some(decode_utf8(unescape_bytes(c))),
        None => None,
    }
}

pub open spec fn string_opt_view(r: Option<String>) -> Option<Seq<char>> {
    match r {
        Some(s) => Some(s@),
        None => None,
    }
}

/// True if `qname`'s local name (after any `:`) equals `local`.
pub(crate) fn local_name_matches(qname: &[u8], local: &[u8]) -> (r: bool)
    ensures
        r == (local_part(qname@) == local@),
{
    let c = scan(qname, 0, Stop::Colon);
    proof {
        lemma_scan_from(qname@, 0, Stop::Colon);
    }
    if c < qname.len() {
        bytes_eq(&qname[c + 1..qname.len()], local)
    } else {
        bytes_eq(qname, local)
    }
}

/// If `bytes` starts with a known entity, the byte it stands for and its length.
fn match_entity(bytes: &[u8]) -> (r: Option<(u8, usize)>)
    ensures
        match r {
            Some((c, n)) => entity(bytes@) == Some((c, n as int)),
            None => entity(bytes@) is None,
        },
{
    let amp: [u8; 5] = [38, 97, 109, 112, 59];
    let lt: [u8; 4] = [38, 108, 116, 59];
    let gt: [u8; 4] = [38, 103, 116, 59];
    let quot: [u8; 6] = [38, 113, 117, 111, 116, 59];
    let apos: [u8; 6] = [38, 97, 112, 111, 115, 59];
    assert(amp@ =~= seq![38u8, 97, 109, 112, 59]);
    assert(lt@ =~= seq![38u8, 108, 116, 59]);
    assert(gt@ =~= seq![38u8, 103, 116, 59]);
    assert(quot@ =~= seq![38u8, 113, 117, 111, 116, 59]);
    assert(apos@ =~= seq![38u8, 97, 112, 111, 115, 59]);
    if starts_with(bytes, amp.as_slice()) {
        return Some((38, 5));
    }
    if starts_with(bytes, lt.as_slice()) {
        return Some((60, 4));
    }
    if starts_with(bytes, gt.as_slice()) {
        return Some((62, 4));
    }
    if starts_with(bytes, quot.as_slice()) {
        return Some((34, 6));
    }
    if starts_with(bytes, apos.as_slice()) {
        return Some((39, 6));
    }
    None
}

fn utf8_char_len(first_byte: u8) -> (r: usize)
    ensures
        r == char_len(first_byte),
{
    // < 0x80: ASCII. 0x80..0xC0: stray continuation byte (invalid as first); advance by 1.
    if first_byte < 0xC0 {
        1
    } else if first_byte < 0xE0 {
        2
    } else if first_byte < 0xF0 {
        3
    } else {
        4
    }
}

/// Minimal XML entity unescape: `&amp;` `&lt;` `&gt;` `&quot;` `&apos;`.
/// Unknown entities pass through verbatim. Preserves multi-byte UTF-8 and
/// replaces malformed sequences with U+FFFD.
fn unescape(text: &[u8]) -> (r: String)
    ensures
        r@ == decode_utf8(unescape_bytes(text@)),
{
    let mut out: Vec<u8> = Vec::new();
    let mut i: usize = 0;
    let n = text.len();
    assert(text@.skip(0) =~= text@);
    while i < n
        invariant
            n == text@.len(),
            i <= n,
            unescape_bytes(text@) == out@ + unescape_bytes(text@.skip(i as int)),
        decreases n - i,
    {
        let ghost t = text@.skip(i as int);
        if text[i] == 38 {
            let rest = &text[i..n];
            assert(rest@ =~= t);
            if let Some((c, k)) = match_entity(rest) {
                out.push(c);
                proof {
                    assert(t.skip(k as int) =~= text@.skip(i + k));
                    assert(out@ + unescape_bytes(text@.skip(i + k)) =~= out@.drop_last() + (seq![c]
                        + unescape_bytes(t.skip(k as int))));
                }
                i = i + k;
                continue;
            }
        }
        let cl = utf8_char_len(text[i]);
        let end = if cl <= n - i { i + cl } else { n };
        let chunk = &text[i..end];
        assert(chunk@ =~= t.take(end - i));
        match str_from_utf8(chunk) {
            Some(s) => {
                proof {
                    decode_utf8_encode_utf8(chunk@);
                }
                push_bytes(&mut out, s.as_bytes());
            },
            None => {
                let repl = "\u{FFFD}";
                push_bytes(&mut out, repl.as_bytes());
                proof {
                    reveal_strlit("\u{FFFD}");
                    assert(repl@ =~= seq!['\u{FFFD}']);
                }
            },
        }
        proof {
            assert(t.skip(end - i) =~= text@.skip(end as int));
        }
        i = end;
    }
    proof {
        assert(text@.skip(n as int) =~= Seq::<u8>::empty());
        assert(out@ =~= unescape_bytes(text@));
        lemma_unescape_valid(text@);
    }
    let s = str_from_utf8(out.as_slice());
    match s {
        Some(s) => String::from_str(s),
        None => String::new(),
    }
}

/// Returns the text content of the first element whose local name matches
/// `local`. Returns `None` if not found or the element is self-closing or
/// empty. Ignores attributes. Strips XML entity escapes in the returned text.
pub fn extract_text(xml: &[u8], local: &str) -> (r: Option<String>)
    ensures
        string_opt_view(r) == extracted_text(xml@, encode_utf8(local@)),
{
    let local_bytes = local.as_bytes();
    let len = xml.len();
    let mut i: usize = 0;
    while i < len
        invariant
            len == xml@.len(),
            i <= len,
            local_bytes@ == encode_utf8(local@),
            text_scan(xml@, local_bytes@, 0) == text_scan(xml@, local_bytes@, i as int),
        decreases len - i,
    {
        if xml[i] != 60 {
            i = i + 1;
            continue;
        }
        // Skip comments, CDATA, and closing/decl tags.
        if i + 1 < len && (xml[i + 1] == 47 || xml[i + 1] == 63 || xml[i + 1] == 33) {
            i = i + 1;
            continue;
        }
        let tag_start = i + 1;
        let tag_end = scan(xml, tag_start, Stop::NameEnd);
        proof {
            lemma_scan_from(xml@, tag_start as int, Stop::NameEnd);
        }
        if tag_end >= len {
            return None;
        }
        if local_name_matches(&xml[tag_start..tag_end], local_bytes) {
            assert(xml@.subrange(tag_start as int, tag_end as int) == xml@.subrange(i + 1, tag_end as int));
            let mut gt = tag_end;
            let mut quote: u8 = 0;
            while gt < len && !(quote == 0 && xml[gt] == 62)
                invariant
                    tag_end <= gt <= len == xml@.len(),
                    tag_close(xml@, tag_end as int, 0) == tag_close(xml@, gt as int, quote),
                decreases len - gt,
            {
                let b = xml[gt];
                if quote == 0 {
                    if b == 34 || b == 39 {
                        quote = b;
                    }
                } else if b == quote {
                    quote = 0;
                }
                gt = gt + 1;
            }
            if gt >= len {
                return None;
            }
            if xml[gt - 1] == 47 {
                return None;
            }
            let content_start = gt + 1;
            let content_end = scan(xml, content_start, Stop::Lt);
            proof {
                lemma_scan_from(xml@, content_start as int, Stop::Lt);
            }
            if content_end == content_start {
                return None;
            }
            let content = &xml[content_start..content_end];
            return Some(unescape(content));
        }
        i = tag_end;
    }
    None
}

/// `s` as a decimal number no larger than `max`: an optional `+`, then one
/// or more ASCII digits. This is what `from_str` of the unsigned integer
/// types accepts.
pub open spec fn parse_decimal(s: Seq<char>, max: nat) -> Option<nat> {
    let d = if s.len() > 0 && s[0] == '+' { s.drop_first() } else { s };
    if d.len() > 0 && all_digits(d) && digits_value(d) <= max {
        Some(digits_value(d))
    } else {
        None
    }
}

/// `s` read as a `u32`, as `u32::from_str` reads it.
pub open spec fn parse_u32(s: Seq<char>) -> Option<u32> {
    match parse_decimal(s, u32::MAX as nat) {
        Some(v) => Some(v as u32),
        None => None,
    }
}

pub open spec fn is_digit(c: char) -> bool {
    '0' <= c <= '9'
}

pub open spec fn all_digits(d: Seq<char>) -> bool {
    forall|k: int| 0 <= k < d.len() ==> is_digit(#[trigger] d[k])
}

/// The value of the decimal digits `d`.
pub open spec fn digits_value(d: Seq<char>) -> nat
    decreases d.len(),
{
    if d.len() == 0 {
        0
    } else {
        digits_value(d.drop_last()) * 10 + (d.last() as nat - 48) as nat
    }
}

/// A digit below ten renders as the character whose code is 48 above it.
proof fn lemma_digit_char_value(k: nat)
    requires
        k < 10,
    ensures
        is_digit(digit_char(k)),
        digit_char(k) as nat == k + 48,
{
    if k == 0 { assert(digit_char(0) == '0'); }
    else if k == 1 { assert(digit_char(1) == '1'); }
    else if k == 2 { assert(digit_char(2) == '2'); }
    else if k == 3 { assert(digit_char(3) == '3'); }
    else if k == 4 { assert(digit_char(4) == '4'); }
    else if k == 5 { assert(digit_char(5) == '5'); }
    else if k == 6 { assert(digit_char(6) == '6'); }
    else if k == 7 { assert(digit_char(7) == '7'); }
    else if k == 8 { assert(digit_char(8) == '8'); }
    else { assert(digit_char(9) == '9'); }
}

/// Every number renders as a nonempty run of decimal digits whose value is
/// the number.
pub proof fn law_decimal_value(n: nat)
    ensures
        decimal(n).len() > 0,
        all_digits(decimal(n)),
        digits_value(decimal(n)) == n,
    decreases n,
{
    if n < 10 {
        lemma_digit_char_value(n);
        let d = decimal(n);
        assert(d.drop_last() =~= Seq::<char>::empty());
        assert(digits_value(Seq::<char>::empty()) == 0);
        assert(d.last() == digit_char(n));
    } else {
        law_decimal_value(n / 10);
        lemma_digit_char_value(n % 10);
        let d = decimal(n);
        assert(d.drop_last() =~= decimal(n / 10));
        assert forall|k: int| 0 <= k < d.len() implies is_digit(#[trigger] d[k]) by {
            if k < d.len() - 1 {
                assert(d[k] == decimal(n / 10)[k]);
            }
        }
        assert(d.last() == digit_char(n % 10));
        assert(digits_value(d) == digits_value(d.drop_last()) * 10 + (d.last() as nat - 48) as nat);
        assert(n == (n / 10) * 10 + n % 10) by (nonlinear_arith);
    }
}

/// A `u32` reads back from its decimal rendering.
pub proof fn law_u32_decimal_reads_back(n: u32)
    ensures
        parse_u32(decimal(n as nat)) == Some(n),
{
    law_decimal_value(n as nat);
    let d = decimal(n as nat);
    assert(is_digit(d[0]));
}

/// Parses `s[lo..hi]` as `parse_decimal` describes, with bound `max`.
pub fn parse_decimal_chars(s: &Vec<char>, lo: usize, hi: usize, max: u64) -> (r: Option<u64>)
    requires
        lo <= hi <= s@.len(),
    ensures
        match r {
            Some(v) => parse_decimal(s@.subrange(lo as int, hi as int), max as nat) == Some(v as nat),
            None => parse_decimal(s@.subrange(lo as int, hi as int), max as nat) is None,
        },
{
    let ghost whole = s@.subrange(lo as int, hi as int);
    let mut start = lo;
    if lo < hi && s[lo] == '+' {
        start = lo + 1;
    }
    let ghost d = s@.subrange(start as int, hi as int);
    assert(d =~= if whole.len() > 0 && whole[0] == '+' { whole.drop_first() } else { whole });
    if start == hi {
        return None;
    }
    let mut value: u128 = 0;
    let mut k = start;
    while k < hi
        invariant
            lo <= start <= k <= hi <= s@.len(),
            start < hi,
            whole == s@.subrange(lo as int, hi as int),
            d == s@.subrange(start as int, hi as int),
            d == if whole.len() > 0 && whole[0] == '+' { whole.drop_first() } else { whole },
            all_digits(s@.subrange(start as int, k as int)),
            value == digits_value(s@.subrange(start as int, k as int)),
            value <= max,
        decreases hi - k,
    {
        let c = s[k];
        if !('0' <= c && c <= '9') {
            assert(!is_digit(d[k - start]));
            return None;
        }
        let dv = (c as u32 - 48) as u128;
        let next = value * 10 + dv;
        let ghost pre = s@.subrange(start as int, k as int);
        let ghost post = s@.subrange(start as int, k + 1);
        assert(post.drop_last() =~= pre);
        assert(post.last() == c);
        if next > max as u128 {
            proof {
                lemma_digits_value_prefix_grows(d, (k + 1 - start) as int);
                assert(d.take((k + 1 - start) as int) =~= post);
            }
            return None;
        }
        value = next;
        k = k + 1;
    }
    assert(s@.subrange(start as int, hi as int) =~= d);
    Some(value as u64)
}

/// The value of a prefix of the digits bounds the value of the whole when
/// every later character is a digit.
proof fn lemma_digits_value_prefix_grows(d: Seq<char>, k: int)
    requires
        0 <= k <= d.len(),
    ensures
        all_digits(d) ==> digits_value(d.take(k)) <= digits_value(d),
    decreases d.len() - k,
{
    if k < d.len() {
        lemma_digits_value_prefix_grows(d, k + 1);
        assert(d.take(k + 1).drop_last() =~= d.take(k));
    } else {
        assert(d.take(k) =~= d);
    }
}

/// The text of the first element named `local`, trimmed of white space and
/// read as a decimal `u32`.
pub open spec fn extracted_u32(xml: Seq<u8>, local: Seq<u8>) -> Option<u32> {
    match extracted_text(xml, local) {
        Some(t) => parse_u32(trim(t)),
        None => None,
    }
}

/// Parse the text content of the first element with local name `local` as
/// a decimal `u32`. Strips leading/trailing white space.
pub fn extract_u32(xml: &[u8], local: &str) -> (r: Option<u32>)
    ensures
        r == extracted_u32(xml@, encode_utf8(local@)),
{
    let s = extract_text(xml, local)?;
    let chars = chars_of(s.as_str());
    let (lo, hi) = trim_bounds(&chars);
    match parse_decimal_chars(&chars, lo, hi, 0xFFFF_FFFF) {
        Some(v) => Some(v as u32),
        None => None,
    }
}

/// True if the document contains any element whose local name is `Fault`
/// (SOAP 1.2 fault indicator).
pub fn has_fault(xml: &[u8]) -> (r: bool)
    ensures
        r == fault_scan(xml@, 0),
{
    let needle: [u8; 5] = [70, 97, 117, 108, 116];
    assert(needle@ =~= fault_name());
    let len = xml.len();
    let mut i: usize = 0;
    while i < len
        invariant
            len == xml@.len(),
            i <= len,
            needle@ == fault_name(),
            fault_scan(xml@, 0) == fault_scan(xml@, i as int),
        decreases len - i,
    {
        if xml[i] != 60 {
            i = i + 1;
            continue;
        }
        if i + 1 < len && (xml[i + 1] == 47 || xml[i + 1] == 63 || xml[i + 1] == 33) {
            i = i + 1;
            continue;
        }
        let tag_start = i + 1;
        let tag_end = scan(xml, tag_start, Stop::NameEnd);
        proof {
            lemma_scan_from(xml@, tag_start as int, Stop::NameEnd);
        }
        if local_name_matches(&xml[tag_start..tag_end], needle.as_slice()) {
            return true;
        }
        if tag_end >= len {
            return false;
        }
        i = tag_end;
    }
    false
}

} // verus!
