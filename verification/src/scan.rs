//! Forward scans over byte sequences: the first position at or after a
//! start at which a byte of a given class occurs.

use vstd::prelude::*;

verus! {

/// Byte classes that a scan stops at.
pub enum Stop {
    /// The end of a tag name: `>`, space, `/`, tab, carriage return, line feed.
    NameEnd,
    /// `<`
    Lt,
    /// `:`
    Colon,
}

pub open spec fn stops(stop: Stop, b: u8) -> bool {
    match stop {
        Stop::NameEnd => b == 62 || b == 32 || b == 47 || b == 9 || b == 13 || b == 10,
        Stop::Lt => b == 60,
        Stop::Colon => b == 58,
    }
}

/// The first position `k >= j` holding a byte of class `stop`, or the
/// length of `s` when there is none.
pub open spec fn scan_from(s: Seq<u8>, j: int, stop: Stop) -> int
    decreases s.len() - j,
{
    if j >= s.len() {
        j
    } else if stop_at(s, j, stop) {
        j
    } else {
        scan_from(s, j + 1, stop)
    }
}

pub open spec fn stop_at(s: Seq<u8>, j: int, stop: Stop) -> bool {
    stops(stop, s[j])
}

pub proof fn lemma_scan_from(s: Seq<u8>, j: int, stop: Stop)
    requires
        0 <= j <= s.len(),
    ensures
        j <= scan_from(s, j, stop) <= s.len(),
        scan_from(s, j, stop) < s.len() ==> stops(stop, s[scan_from(s, j, stop)]),
        forall|k: int| j <= k < scan_from(s, j, stop) ==> !stops(stop, #[trigger] s[k]),
    decreases s.len() - j,
{
    if j < s.len() && !stop_at(s, j, stop) {
        lemma_scan_from(s, j + 1, stop);
    }
}

pub fn is_stop(stop: &Stop, b: u8) -> (r: bool)
    ensures
        r == stops(*stop, b),
{
    match stop {
        Stop::NameEnd => b == 62 || b == 32 || b == 47 || b == 9 || b == 13 || b == 10,
        Stop::Lt => b == 60,
        Stop::Colon => b == 58,
    }
}

/// Finds `scan_from(s, j, stop)`.
pub fn scan(s: &[u8], j: usize, stop: Stop) -> (r: usize)
    requires
        j <= s@.len(),
    ensures
        r == scan_from(s@, j as int, stop),
{
    let mut k = j;
    while k < s.len() && !is_stop(&stop, s[k])
        invariant
            j <= k <= s@.len(),
            scan_from(s@, j as int, stop) == scan_from(s@, k as int, stop),
        decreases s@.len() - k,
    {
        k = k + 1;
    }
    k
}

/// `q` after its first colon, or all of `q` when it has none: the local
/// part of a qualified XML name.
pub open spec fn local_part(q: Seq<u8>) -> Seq<u8> {
    let c = scan_from(q, 0, Stop::Colon);
    if c < q.len() {
        q.skip(c + 1)
    } else {
        q
    }
}

/// `s` starts with `p`.
pub open spec fn has_prefix(s: Seq<u8>, p: Seq<u8>) -> bool {
    p.len() <= s.len() && s.take(p.len() as int) == p
}

pub fn starts_with(s: &[u8], p: &[u8]) -> (r: bool)
    ensures
        r == has_prefix(s@, p@),
{
    if p.len() > s.len() {
        return false;
    }
    let mut i: usize = 0;
    while i < p.len()
        invariant
            i <= p@.len() <= s@.len(),
            forall|k: int| 0 <= k < i ==> s@[k] == p@[k],
        decreases p@.len() - i,
    {
        if s[i] != p[i] {
            return false;
        }
        i = i + 1;
    }
    assert(s@.take(p@.len() as int) =~= p@);
    true
}

/// True when `a` and `b` hold the same bytes.
pub fn bytes_eq(a: &[u8], b: &[u8]) -> (r: bool)
    ensures
        r == (a@ == b@),
{
    if a.len() != b.len() {
        return false;
    }
    let r = starts_with(a, b);
    assert(a@ =~= a@.take(b@.len() as int));
    r
}

} // verus!
