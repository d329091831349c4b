//! Text and byte utilities shared by the builders and parsers: UTF-8 facts,
//! decimal and hexadecimal rendering, Unicode whitespace trimming and
//! byte copying into caller-owned buffers.

use vstd::prelude::*;
use vstd::string::StringExecFns;
use vstd::string::StrSliceExecFns;
use vstd::utf8::*;

verus! {

/// `s` with the bytes from `pos` on replaced by `t`.
pub open spec fn splice(s: Seq<u8>, pos: int, t: Seq<u8>) -> Seq<u8> {
    s.take(pos) + t + s.skip(pos + t.len())
}

/// UTF-8 encoding distributes over concatenation.
pub proof fn lemma_encode_utf8_concat(a: Seq<char>, b: Seq<char>)
    ensures
        encode_utf8(a + b) == encode_utf8(a) + encode_utf8(b),
    decreases a.len(),
{
    if a.len() == 0 {
        assert(a + b =~= b);
        assert(encode_utf8(a) =~= Seq::<u8>::empty());
        assert(encode_utf8(a) + encode_utf8(b) =~= encode_utf8(b));
    } else {
        assert((a + b).drop_first() =~= a.drop_first() + b);
        assert((a + b)[0] == a[0]);
        lemma_encode_utf8_concat(a.drop_first(), b);
        let h = encode_scalar(a[0] as u32);
        assert(h + (encode_utf8(a.drop_first()) + encode_utf8(b)) =~= (h + encode_utf8(
            a.drop_first(),
        )) + encode_utf8(b));
    }
}

/// The character of the hexadecimal digit `d` (lower case for 10..15).
pub open spec fn digit_char(d: nat) -> char {
    if d < 10 {
        (d + 48) as char
    } else {
        (d + 87) as char
    }
}

/// The decimal rendering of `n`, without leading zeros.
pub open spec fn decimal(n: nat) -> Seq<char>
    decreases n,
{
    if n < 10 {
        seq![digit_char(n)]
    } else {
        decimal(n / 10).push(digit_char(n % 10))
    }
}

/// The `k` lowest hexadecimal digits of `n`, most significant first, lower case.
pub open spec fn hex_fixed(n: nat, k: nat) -> Seq<char>
    decreases k,
{
    if k == 0 {
        seq![]
    } else {
        hex_fixed(n / 16, (k - 1) as nat).push(digit_char(n % 16))
    }
}

/// The one-character string of the hexadecimal digit `d`.
pub fn digit_str(d: u8) -> (s: &'static str)
    requires
        d < 16,
    ensures
        s@ == seq![digit_char(d as nat)],
{
    match d {
        0 => { proof { reveal_strlit("0"); } "0" },
        1 => { proof { reveal_strlit("1"); } "1" },
        2 => { proof { reveal_strlit("2"); } "2" },
        3 => { proof { reveal_strlit("3"); } "3" },
        4 => { proof { reveal_strlit("4"); } "4" },
        5 => { proof { reveal_strlit("5"); } "5" },
        6 => { proof { reveal_strlit("6"); } "6" },
        7 => { proof { reveal_strlit("7"); } "7" },
        8 => { proof { reveal_strlit("8"); } "8" },
        9 => { proof { reveal_strlit("9"); } "9" },
        10 => { proof { reveal_strlit("a"); } "a" },
        11 => { proof { reveal_strlit("b"); } "b" },
        12 => { proof { reveal_strlit("c"); } "c" },
        13 => { proof { reveal_strlit("d"); } "d" },
        14 => { proof { reveal_strlit("e"); } "e" },
        _ => { proof { reveal_strlit("f"); } "f" },
    }
}

/// Appends the decimal rendering of `n` to `s`.
pub fn push_decimal(s: &mut String, n: u64)
    ensures
        final(s)@ == old(s)@ + decimal(n as nat),
    decreases n,
{
    if n >= 10 {
        push_decimal(s, n / 10);
        let ghost mid = s@;
        s.append(digit_str((n % 10) as u8));
        assert(s@ =~= old(s)@ + decimal(n as nat));
    } else {
        s.append(digit_str(n as u8));
    }
}

/// The decimal rendering of `n`.
pub fn decimal_string(n: u64) -> (s: String)
    ensures
        s@ == decimal(n as nat),
{
    let mut s = String::new();
    push_decimal(&mut s, n);
    assert(s@ =~= decimal(n as nat));
    s
}

/// Appends the `k` lowest hexadecimal digits of `n` to `s`.
pub fn push_hex(s: &mut String, n: u64, k: u32)
    ensures
        final(s)@ == old(s)@ + hex_fixed(n as nat, k as nat),
    decreases k,
{
    if k > 0 {
        push_hex(s, n / 16, k - 1);
        s.append(digit_str((n % 16) as u8));
        assert(s@ =~= old(s)@ + hex_fixed(n as nat, k as nat));
    } else {
        assert(s@ =~= old(s)@ + hex_fixed(n as nat, k as nat));
    }
}

/// Wraps `core::str::from_utf8`. Claimed: it succeeds exactly on valid UTF-8,
/// and then the string holds the characters those bytes encode.
#[verifier::external_body]
pub(crate) fn str_from_utf8(v: &[u8]) -> (r: Option<&str>)
    ensures
        r is Some <==> valid_utf8(v@),
        r matches Some(s) ==> s@ == decode_utf8(v@),
{
    core::str::from_utf8(v).ok()
}

/// Copies `src` into `out` starting at `pos`.
pub fn copy_into(out: &mut [u8], pos: usize, src: &[u8])
    requires
        pos + src@.len() <= old(out)@.len(),
    ensures
        final(out)@ == splice(old(out)@, pos as int, src@),
{
    let out_len = out.len();
    let mut i: usize = 0;
    while i < src.len()
        invariant
            0 <= i <= src@.len(),
            out_len == out@.len(),
            pos + src@.len() <= old(out)@.len(),
            out@.len() == old(out)@.len(),
            forall|j: int|
                0 <= j < out@.len() ==> #[trigger] out@[j] == if pos <= j < pos + i {
                    src@[j - pos]
                } else {
                    old(out)@[j]
                },
        decreases src@.len() - i,
    {
        out[pos + i] = src[i];
        i = i + 1;
    }
    assert(out@ =~= splice(old(out)@, pos as int, src@));
}

/// True for the characters with the Unicode `White_Space` property, the set
/// that `char::is_whitespace` and `str::trim` go by.
pub open spec fn is_white_space(c: char) -> bool {
    let v = c as u32;
    ||| 0x09 <= v <= 0x0d
    ||| v == 0x20
    ||| v == 0x85
    ||| v == 0xa0
    ||| v == 0x1680
    ||| 0x2000 <= v <= 0x200a
    ||| v == 0x2028
    ||| v == 0x2029
    ||| v == 0x202f
    ||| v == 0x205f
    ||| v == 0x3000
}

pub fn white_space(c: char) -> (r: bool)
    ensures
        r == is_white_space(c),
{
    let v = c as u32;
    (0x09 <= v && v <= 0x0d) || v == 0x20 || v == 0x85 || v == 0xa0 || v == 0x1680 || (0x2000
        <= v && v <= 0x200a) || v == 0x2028 || v == 0x2029 || v == 0x202f || v == 0x205f || v
        == 0x3000
}

/// `s` without its leading white space.
pub open spec fn trim_start(s: Seq<char>) -> Seq<char>
    decreases s.len(),
{
    if s.len() > 0 && is_white_space(s[0]) {
        trim_start(s.drop_first())
    } else {
        s
    }
}

/// `s` without its trailing white space.
pub open spec fn trim_end(s: Seq<char>) -> Seq<char>
    decreases s.len(),
{
    if s.len() > 0 && is_white_space(s.last()) {
        trim_end(s.drop_last())
    } else {
        s
    }
}

/// `s` without leading and trailing white space, as `str::trim` gives it.
pub open spec fn trim(s: Seq<char>) -> Seq<char> {
    trim_end(trim_start(s))
}

/// The characters of `s`, in order.
pub fn chars_of(s: &str) -> (v: Vec<char>)
    ensures
        v@ == s@,
{
    let n = s.unicode_len();
    let mut v: Vec<char> = Vec::new();
    let mut i: usize = 0;
    while i < n
        invariant
            n == s@.len(),
            i <= n,
            v@ == s@.take(i as int),
        decreases n - i,
    {
        v.push(s.get_char(i));
        i = i + 1;
        assert(v@ =~= s@.take(i as int));
    }
    assert(s@.take(n as int) =~= s@);
    v
}

/// Bounds `lo..hi` of `s` with the white space at both ends cut off.
pub fn trim_bounds(s: &Vec<char>) -> (r: (usize, usize))
    ensures
        r.0 <= r.1 <= s@.len(),
        s@.subrange(r.0 as int, r.1 as int) == trim(s@),
{
    let n = s.len();
    let mut lo: usize = 0;
    assert(s@.subrange(0, n as int) =~= s@);
    while lo < n && white_space(s[lo])
        invariant
            lo <= n == s@.len(),
            trim_start(s@) == trim_start(s@.subrange(lo as int, n as int)),
        decreases n - lo,
    {
        assert(s@.subrange(lo as int, n as int).drop_first() =~= s@.subrange(lo + 1, n as int));
        lo = lo + 1;
    }
    assert(trim_start(s@) == s@.subrange(lo as int, n as int));
    let mut hi: usize = n;
    while hi > lo && white_space(s[hi - 1])
        invariant
            lo <= hi <= n == s@.len(),
            trim(s@) == trim_end(s@.subrange(lo as int, hi as int)),
        decreases hi,
    {
        assert(s@.subrange(lo as int, hi as int).drop_last() =~= s@.subrange(lo as int, hi - 1));
        hi = hi - 1;
    }
    (lo, hi)
}

/// True when `a` and `b` hold the same characters.
pub fn str_eq(a: &str, b: &str) -> (r: bool)
    ensures
        r == (a@ == b@),
{
    let n = a.unicode_len();
    if n != b.unicode_len() {
        return false;
    }
    let mut i: usize = 0;
    while i < n
        invariant
            n == a@.len() == b@.len(),
            i <= n,
            a@.take(i as int) == b@.take(i as int),
        decreases n - i,
    {
        if a.get_char(i) != b.get_char(i) {
            assert(a@[i as int] != b@[i as int]);
            return false;
        }
        i = i + 1;
        assert(a@.take(i as int) =~= b@.take(i as int)) by {
            assert forall|k: int| 0 <= k < i implies a@.take(i as int)[k] == b@.take(i as int)[k] by {
                if k < i - 1 {
                    assert(a@.take(i - 1)[k] == b@.take(i - 1)[k]);
                }
            }
        }
    }
    assert(a@ =~= a@.take(n as int));
    assert(b@ =~= b@.take(n as int));
    true
}

/// Appends the bytes `b` to `out`.
pub fn push_bytes(out: &mut Vec<u8>, b: &[u8])
    ensures
        final(out)@ == old(out)@ + b@,
{
    let mut i: usize = 0;
    while i < b.len()
        invariant
            i <= b@.len(),
            out@ == old(out)@ + b@.take(i as int),
        decreases b@.len() - i,
    {
        out.push(b[i]);
        i = i + 1;
        assert(out@ =~= old(out)@ + b@.take(i as int));
    }
    assert(b@.take(b@.len() as int) =~= b@);
}

/// The first position `k >= j` at which `needle` occurs in `s`.
pub open spec fn find_from<A>(s: Seq<A>, needle: Seq<A>, j: int) -> Option<int>
    decreases s.len() + 1 - j,
{
    if j < 0 || j + needle.len() > s.len() {
        None
    } else if s.subrange(j, j + needle.len()) == needle {
        Some(j)
    } else {
        find_from(s, needle, j + 1)
    }
}

pub proof fn lemma_find_from<A>(s: Seq<A>, needle: Seq<A>, j: int)
    requires
        0 <= j,
    ensures
        find_from(s, needle, j) matches Some(k) ==> j <= k && k + needle.len() <= s.len()
            && s.subrange(k, k + needle.len()) == needle,
    decreases s.len() + 1 - j,
{
    if j + needle.len() <= s.len() && s.subrange(j, j + needle.len()) != needle {
        lemma_find_from(s, needle, j + 1);
    }
}

/// Finds `find_from(s, needle, j)`.
pub fn find_chars(s: &Vec<char>, needle: &Vec<char>, j: usize) -> (r: Option<usize>)
    ensures
        match r {
            Some(k) => find_from(s@, needle@, j as int) == Some(k as int),
            None => find_from(s@, needle@, j as int) is None,
        },
{
    let n = s.len();
    let m = needle.len();
    let mut k = j;
    while k <= n && m <= n - k
        invariant
            n == s@.len(),
            m == needle@.len(),
            j <= k,
            find_from(s@, needle@, j as int) == find_from(s@, needle@, k as int),
        decreases n + 1 - k,
    {
        let mut i: usize = 0;
        let mut same = true;
        while i < m
            invariant
                i <= m,
                k + m <= n,
                n == s@.len(),
                m == needle@.len(),
                same <==> forall|t: int| 0 <= t < i ==> s@[k + t] == needle@[t],
            decreases m - i,
        {
            if s[k + i] != needle[i] {
                same = false;
            }
            i = i + 1;
        }
        if same {
            assert(s@.subrange(k as int, k + m) =~= needle@);
            return Some(k);
        }
        assert(s@.subrange(k as int, k + m) != needle@) by {
            let t = choose|t: int| 0 <= t < m && s@[k + t] != needle@[t];
            assert(s@.subrange(k as int, k + m)[t] != needle@[t]);
        }
        k = k + 1;
    }
    None
}

/// Finds `find_from(s, needle, j)` over bytes.
pub fn find_bytes(s: &[u8], needle: &[u8], j: usize) -> (r: Option<usize>)
    ensures
        match r {
            Some(k) => find_from(s@, needle@, j as int) == Some(k as int),
            None => find_from(s@, needle@, j as int) is None,
        },
{
    let n = s.len();
    let m = needle.len();
    let mut k = j;
    while k <= n && m <= n - k
        invariant
            n == s@.len(),
            m == needle@.len(),
            j <= k,
            find_from(s@, needle@, j as int) == find_from(s@, needle@, k as int),
        decreases n + 1 - k,
    {
        let mut i: usize = 0;
        let mut same = true;
        while i < m
            invariant
                i <= m,
                k + m <= n,
                n == s@.len(),
                m == needle@.len(),
                same <==> forall|t: int| 0 <= t < i ==> s@[k + t] == needle@[t],
            decreases m - i,
        {
            if s[k + i] != needle[i] {
                same = false;
            }
            i = i + 1;
        }
        if same {
            assert(s@.subrange(k as int, k + m) =~= needle@);
            return Some(k);
        }
        assert(s@.subrange(k as int, k + m) != needle@) by {
            let t = choose|t: int| 0 <= t < m && s@[k + t] != needle@[t];
            assert(s@.subrange(k as int, k + m)[t] != needle@[t]);
        }
        k = k + 1;
    }
    None
}

} // verus!
