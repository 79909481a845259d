//! Byte- and char-level text helpers shared by the parsers.
//!
//! Text arrives as `&str`; scanning happens on its UTF-8 bytes. Every cut point
//! used by the parsers lies next to an ASCII byte, which is always a character
//! boundary in valid UTF-8, so slices taken there are again valid `&str`s.

use vstd::prelude::*;
use vstd::utf8::*;
use vstd::string::*;

verus! {

broadcast use vstd::seq::group_seq_axioms, vstd::slice::group_slice_axioms;

/// A byte below 0x80: a whole character on its own.
pub open spec fn is_ascii_byte(b: u8) -> bool {
    b < 128
}

/// An index at which a parser may cut: an end of the text, or next to an ASCII byte.
pub open spec fn cut_ok(bytes: Seq<u8>, k: int) -> bool {
    ||| k == 0
    ||| k == bytes.len()
    ||| (0 <= k < bytes.len() && is_ascii_byte(bytes[k]))
    ||| (0 < k <= bytes.len() && is_ascii_byte(bytes[k - 1]))
}

proof fn lemma_ascii_leading_len(bytes: Seq<u8>)
    requires
        valid_utf8(bytes),
        bytes.len() > 0,
        is_ascii_byte(bytes[0]),
    ensures
        length_of_first_scalar(bytes) == 1,
        valid_utf8(pop_first_scalar(bytes)),
        pop_first_scalar(bytes) =~= bytes.subrange(1, bytes.len() as int),
{
    reveal_with_fuel(valid_utf8, 2);
}

/// After an ASCII byte that starts a character, the next index is a boundary too.
proof fn lemma_boundary_after_ascii(bytes: Seq<u8>, i: int)
    requires
        valid_utf8(bytes),
        0 <= i < bytes.len(),
        is_ascii_byte(bytes[i]),
        is_char_boundary(bytes, i),
    ensures
        is_char_boundary(bytes, i + 1),
    decreases bytes.len(),
{
    if i == 0 {
        lemma_ascii_leading_len(bytes);
        reveal_with_fuel(is_char_boundary, 2);
        assert(is_char_boundary(pop_first_scalar(bytes), 0));
    } else {
        reveal_with_fuel(valid_utf8, 2);
        let l = length_of_first_scalar(bytes);
        let tail = pop_first_scalar(bytes);
        assert(is_char_boundary(tail, i - l));
        assert(l >= 1) by {
            reveal_with_fuel(is_char_boundary, 2);
        }
        assert(tail =~= bytes.subrange(l, bytes.len() as int)) by {
            reveal_with_fuel(valid_utf8, 2);
        }
        assert(0 <= i - l) by {
            reveal_with_fuel(is_char_boundary, 2);
            if i - l < 0 {
                assert(!is_char_boundary(tail, i - l));
            }
        }
        assert(tail[i - l] == bytes[i]);
        lemma_boundary_after_ascii(tail, i - l);
        assert(is_char_boundary(bytes, i + 1)) by {
            reveal_with_fuel(is_char_boundary, 2);
        }
    }
}

/// Every cut point allowed by `cut_ok` is a character boundary.
pub proof fn lemma_cut_ok_boundary(bytes: Seq<u8>, k: int)
    requires
        valid_utf8(bytes),
        cut_ok(bytes, k),
    ensures
        is_char_boundary(bytes, k),
{
    is_char_boundary_start_end_of_seq(bytes);
    if k == 0 || k == bytes.len() {
    } else if 0 <= k < bytes.len() && is_ascii_byte(bytes[k]) {
        is_char_boundary_iff_not_is_continuation_byte(bytes, k);
    } else {
        is_char_boundary_iff_not_is_continuation_byte(bytes, k - 1);
        lemma_boundary_after_ascii(bytes, k - 1);
    }
}

/// Boundaries of a valid sequence stay boundaries in its suffix.
proof fn lemma_boundary_in_suffix(bytes: Seq<u8>, a: int, b: int)
    requires
        valid_utf8(bytes),
        0 <= a <= b <= bytes.len(),
        is_char_boundary(bytes, a),
        is_char_boundary(bytes, b),
    ensures
        valid_utf8(bytes.subrange(a, bytes.len() as int)),
        is_char_boundary(bytes.subrange(a, bytes.len() as int), b - a),
{
    valid_utf8_split(bytes, a);
    let rest = bytes.subrange(a, bytes.len() as int);
    is_char_boundary_start_end_of_seq(rest);
    if b < bytes.len() {
        is_char_boundary_iff_not_is_continuation_byte(bytes, b);
        is_char_boundary_iff_not_is_continuation_byte(rest, b - a);
    }
}

/// The UTF-8 encoding of a concatenation is the concatenation of the encodings.
pub proof fn lemma_encode_concat(a: Seq<char>, b: Seq<char>)
    ensures
        encode_utf8(a + b) =~= encode_utf8(a) + encode_utf8(b),
    decreases a.len(),
{
    if a.len() == 0 {
        assert(a + b =~= b);
    } else {
        assert((a + b).drop_first() =~= a.drop_first() + b);
        lemma_encode_concat(a.drop_first(), b);
    }
}

/// The characters whose UTF-8 encoding is `bytes`.
pub open spec fn chars_of(bytes: Seq<u8>) -> Seq<char> {
    decode_utf8(bytes)
}

/// `s[a..b]` as a `&str`, for two character boundaries.
pub fn substr_at_boundaries(s: &str, a: usize, b: usize) -> (r: &str)
    requires
        a <= b <= s.spec_bytes().len(),
        is_char_boundary(s.spec_bytes(), a as int),
        is_char_boundary(s.spec_bytes(), b as int),
    ensures
        r.spec_bytes() == s.spec_bytes().subrange(a as int, b as int),
        r@ == chars_of(s.spec_bytes().subrange(a as int, b as int)),
{
    let ghost bytes = s.spec_bytes();
    proof {
        encode_utf8_valid_utf8(s@);
        lemma_boundary_in_suffix(bytes, a as int, b as int);
    }
    let (_, rest) = s.split_at(a);
    assert(rest.spec_bytes() =~= bytes.subrange(a as int, bytes.len() as int));
    let (mid, _) = rest.split_at(b - a);
    assert(mid.spec_bytes() =~= bytes.subrange(a as int, b as int));
    proof {
        encode_utf8_decode_utf8(mid@);
    }
    mid
}

/// `s[a..b]` as a `&str`, for cut points next to ASCII bytes.
pub fn substr(s: &str, a: usize, b: usize) -> (r: &str)
    requires
        a <= b <= s.spec_bytes().len(),
        cut_ok(s.spec_bytes(), a as int),
        cut_ok(s.spec_bytes(), b as int),
    ensures
        r.spec_bytes() == s.spec_bytes().subrange(a as int, b as int),
        r@ == chars_of(s.spec_bytes().subrange(a as int, b as int)),
{
    let ghost bytes = s.spec_bytes();
    proof {
        encode_utf8_valid_utf8(s@);
        lemma_cut_ok_boundary(bytes, a as int);
        lemma_cut_ok_boundary(bytes, b as int);
        lemma_boundary_in_suffix(bytes, a as int, b as int);
    }
    let (_, rest) = s.split_at(a);
    assert(rest.spec_bytes() =~= bytes.subrange(a as int, bytes.len() as int));
    let (mid, _) = rest.split_at(b - a);
    assert(mid.spec_bytes() =~= bytes.subrange(a as int, b as int));
    proof {
        encode_utf8_decode_utf8(mid@);
    }
    mid
}

} // verus!

verus! {

/// Index just past the run of `c` bytes that starts at `from` (bounded by `end`).
pub open spec fn run_end(b: Seq<u8>, from: int, end: int, c: u8) -> int
    decreases end - from,
{
    if 0 <= from < end && from < b.len() && b[from] == c {
        run_end(b, from + 1, end, c)
    } else {
        from
    }
}

/// End index of `b[..end]` once trailing `c` bytes are removed.
pub open spec fn rtrim_end(b: Seq<u8>, end: int, c: u8) -> int
    decreases end,
{
    if 0 < end <= b.len() && b[end - 1] == c {
        rtrim_end(b, end - 1, c)
    } else {
        end
    }
}

/// Whether `b[from..end]` holds the byte `c`.
pub open spec fn has_byte(b: Seq<u8>, from: int, end: int, c: u8) -> bool {
    exists|i: int| from <= i < end && b[i] == c
}

/// Whether every byte of `b[from..end]` is a space or a tab.
pub open spec fn all_blank(b: Seq<u8>, from: int, end: int) -> bool {
    forall|i: int| from <= i < end ==> (b[i] == 32u8 || b[i] == 9u8)
}

pub proof fn lemma_run_end_bounds(b: Seq<u8>, from: int, end: int, c: u8)
    requires
        0 <= from <= end <= b.len(),
    ensures
        from <= run_end(b, from, end, c) <= end,
        forall|i: int| from <= i < run_end(b, from, end, c) ==> b[i] == c,
        run_end(b, from, end, c) < end ==> b[run_end(b, from, end, c)] != c,
    decreases end - from,
{
    if from < end && b[from] == c {
        lemma_run_end_bounds(b, from + 1, end, c);
    }
}

pub proof fn lemma_rtrim_end_bounds(b: Seq<u8>, end: int, c: u8)
    requires
        0 <= end <= b.len(),
    ensures
        0 <= rtrim_end(b, end, c) <= end,
        forall|i: int| rtrim_end(b, end, c) <= i < end ==> b[i] == c,
        rtrim_end(b, end, c) > 0 ==> b[rtrim_end(b, end, c) - 1] != c,
    decreases end,
{
    if 0 < end && b[end - 1] == c {
        lemma_rtrim_end_bounds(b, end - 1, c);
    }
}

/// Index past the run of `c` bytes starting at `from`, not beyond `end`.
pub fn run_end_exec(b: &[u8], from: usize, end: usize, c: u8) -> (r: usize)
    requires
        from <= end <= b@.len(),
    ensures
        r as int == run_end(b@, from as int, end as int, c),
        from <= r <= end,
{
    proof {
        lemma_run_end_bounds(b@, from as int, end as int, c);
    }
    let mut i = from;
    while i < end && b[i] == c
        invariant
            from <= i <= end <= b@.len(),
            run_end(b@, i as int, end as int, c) == run_end(b@, from as int, end as int, c),
        decreases end - i,
    {
        i = i + 1;
    }
    i
}

/// End of `b[..end]` with trailing `c` bytes removed.
pub fn rtrim_end_exec(b: &[u8], end: usize, c: u8) -> (r: usize)
    requires
        end <= b@.len(),
    ensures
        r as int == rtrim_end(b@, end as int, c),
        r <= end,
{
    proof {
        lemma_rtrim_end_bounds(b@, end as int, c);
    }
    let mut e = end;
    while e > 0 && b[e - 1] == c
        invariant
            e <= end <= b@.len(),
            rtrim_end(b@, e as int, c) == rtrim_end(b@, end as int, c),
        decreases e,
    {
        e = e - 1;
    }
    e
}

/// Whether `b[from..end]` holds the byte `c`.
pub fn has_byte_exec(b: &[u8], from: usize, end: usize, c: u8) -> (r: bool)
    requires
        from <= end <= b@.len(),
    ensures
        r == has_byte(b@, from as int, end as int, c),
{
    let mut i = from;
    while i < end
        invariant
            from <= i <= end <= b@.len(),
            forall|j: int| from <= j < i ==> b@[j] != c,
        decreases end - i,
    {
        if b[i] == c {
            return true;
        }
        i = i + 1;
    }
    false
}

/// Whether every byte of `b[from..end]` is a space or a tab.
pub fn all_blank_exec(b: &[u8], from: usize, end: usize) -> (r: bool)
    requires
        from <= end <= b@.len(),
    ensures
        r == all_blank(b@, from as int, end as int),
{
    let mut i = from;
    while i < end
        invariant
            from <= i <= end <= b@.len(),
            all_blank(b@, from as int, i as int),
        decreases end - i,
    {
        if b[i] != 32u8 && b[i] != 9u8 {
            return false;
        }
        i = i + 1;
    }
    true
}

} // verus!

verus! {

/// First index in `[from, end)` holding `c`, or `end` when there is none.
pub open spec fn find_byte(b: Seq<u8>, from: int, end: int, c: u8) -> int
    decreases end - from,
{
    if from >= end || from < 0 || from >= b.len() {
        end
    } else if b[from] == c {
        from
    } else {
        find_byte(b, from + 1, end, c)
    }
}

pub proof fn lemma_find_byte(b: Seq<u8>, from: int, end: int, c: u8)
    requires
        0 <= from <= end <= b.len(),
    ensures
        from <= find_byte(b, from, end, c) <= end,
        forall|i: int| from <= i < find_byte(b, from, end, c) ==> b[i] != c,
        find_byte(b, from, end, c) < end ==> b[find_byte(b, from, end, c)] == c,
    decreases end - from,
{
    if from < end && b[from] != c {
        lemma_find_byte(b, from + 1, end, c);
    }
}

/// First index in `[from, end)` holding `c`, or `end`.
pub fn find_byte_exec(b: &[u8], from: usize, end: usize, c: u8) -> (r: usize)
    requires
        from <= end <= b@.len(),
    ensures
        r as int == find_byte(b@, from as int, end as int, c),
        from <= r <= end,
{
    proof {
        lemma_find_byte(b@, from as int, end as int, c);
    }
    let mut i = from;
    while i < end && b[i] != c
        invariant
            from <= i <= end <= b@.len(),
            find_byte(b@, i as int, end as int, c) == find_byte(b@, from as int, end as int, c),
        decreases end - i,
    {
        i = i + 1;
    }
    i
}

/// End of `b[lo..end]` with trailing `c` bytes removed (never below `lo`).
pub open spec fn rtrim_to(b: Seq<u8>, lo: int, end: int, c: u8) -> int
    decreases end - lo,
{
    if lo < end && 0 < end <= b.len() && b[end - 1] == c {
        rtrim_to(b, lo, end - 1, c)
    } else {
        end
    }
}

pub proof fn lemma_rtrim_to(b: Seq<u8>, lo: int, end: int, c: u8)
    requires
        0 <= lo <= end <= b.len(),
    ensures
        lo <= rtrim_to(b, lo, end, c) <= end,
        forall|i: int| rtrim_to(b, lo, end, c) <= i < end ==> b[i] == c,
        rtrim_to(b, lo, end, c) > lo ==> b[rtrim_to(b, lo, end, c) - 1] != c,
    decreases end - lo,
{
    if lo < end && b[end - 1] == c {
        lemma_rtrim_to(b, lo, end - 1, c);
    }
}

/// End of `b[lo..end]` with trailing `c` bytes removed.
pub fn rtrim_to_exec(b: &[u8], lo: usize, end: usize, c: u8) -> (r: usize)
    requires
        lo <= end <= b@.len(),
    ensures
        r as int == rtrim_to(b@, lo as int, end as int, c),
        lo <= r <= end,
{
    proof {
        lemma_rtrim_to(b@, lo as int, end as int, c);
    }
    let mut e = end;
    while e > lo && b[e - 1] == c
        invariant
            lo <= e <= end <= b@.len(),
            rtrim_to(b@, lo as int, e as int, c) == rtrim_to(b@, lo as int, end as int, c),
        decreases e,
    {
        e = e - 1;
    }
    e
}

/// Whether `b[lo..hi]` begins with the bytes `pat`.
pub open spec fn has_prefix(b: Seq<u8>, lo: int, hi: int, pat: Seq<u8>) -> bool {
    &&& hi - lo >= pat.len()
    &&& forall|k: int| 0 <= k < pat.len() ==> b[lo + k] == pat[k]
}

/// Whether `b[lo..hi]` begins with the bytes `pat`.
pub fn has_prefix_exec(b: &[u8], lo: usize, hi: usize, pat: &[u8]) -> (r: bool)
    requires
        lo <= hi <= b@.len(),
    ensures
        r == has_prefix(b@, lo as int, hi as int, pat@),
{
    if hi - lo < pat.len() {
        return false;
    }
    let mut k: usize = 0;
    while k < pat.len()
        invariant
            lo + pat@.len() <= hi <= b@.len(),
            0 <= k <= pat@.len(),
            forall|j: int| 0 <= j < k ==> b@[lo + j] == pat@[j],
        decreases pat@.len() - k,
    {
        if b[lo + k] != pat[k] {
            return false;
        }
        k = k + 1;
    }
    true
}

/// Whether `b[lo..hi]` ends with the bytes `pat`.
pub open spec fn has_suffix(b: Seq<u8>, lo: int, hi: int, pat: Seq<u8>) -> bool {
    &&& hi - lo >= pat.len()
    &&& forall|k: int| 0 <= k < pat.len() ==> b[hi - pat.len() + k] == pat[k]
}

/// Whether `b[lo..hi]` ends with the bytes `pat`.
pub fn has_suffix_exec(b: &[u8], lo: usize, hi: usize, pat: &[u8]) -> (r: bool)
    requires
        lo <= hi <= b@.len(),
    ensures
        r == has_suffix(b@, lo as int, hi as int, pat@),
{
    if hi - lo < pat.len() {
        return false;
    }
    let start = hi - pat.len();
    let mut k: usize = 0;
    while k < pat.len()
        invariant
            lo + pat@.len() <= hi <= b@.len(),
            start == hi - pat@.len(),
            0 <= k <= pat@.len(),
            forall|j: int| 0 <= j < k ==> b@[start + j] == pat@[j],
        decreases pat@.len() - k,
    {
        if b[start + k] != pat[k] {
            return false;
        }
        k = k + 1;
    }
    true
}

/// The bytes of `"http://"`.
pub open spec fn pat_http() -> Seq<u8> {
    seq![104u8, 116u8, 116u8, 112u8, 58u8, 47u8, 47u8]
}

/// The bytes of `"https://"`.
pub open spec fn pat_https() -> Seq<u8> {
    seq![104u8, 116u8, 116u8, 112u8, 115u8, 58u8, 47u8, 47u8]
}

/// The bytes of `"mailto:"`.
pub open spec fn pat_mailto() -> Seq<u8> {
    seq![109u8, 97u8, 105u8, 108u8, 116u8, 111u8, 58u8]
}

/// The bytes of `"//"`.
pub open spec fn pat_slashes() -> Seq<u8> {
    seq![47u8, 47u8]
}

/// The bytes of `".md"`.
pub open spec fn pat_md() -> Seq<u8> {
    seq![46u8, 109u8, 100u8]
}

pub fn starts_with_http(b: &[u8], lo: usize, hi: usize) -> (r: bool)
    requires
        lo <= hi <= b@.len(),
    ensures
        r == has_prefix(b@, lo as int, hi as int, pat_http()),
{
    let p: [u8; 7] = [104u8, 116u8, 116u8, 112u8, 58u8, 47u8, 47u8];
    assert(p@ =~= pat_http());
    has_prefix_exec(b, lo, hi, p.as_slice())
}

pub fn starts_with_https(b: &[u8], lo: usize, hi: usize) -> (r: bool)
    requires
        lo <= hi <= b@.len(),
    ensures
        r == has_prefix(b@, lo as int, hi as int, pat_https()),
{
    let p: [u8; 8] = [104u8, 116u8, 116u8, 112u8, 115u8, 58u8, 47u8, 47u8];
    assert(p@ =~= pat_https());
    has_prefix_exec(b, lo, hi, p.as_slice())
}

pub fn starts_with_mailto(b: &[u8], lo: usize, hi: usize) -> (r: bool)
    requires
        lo <= hi <= b@.len(),
    ensures
        r == has_prefix(b@, lo as int, hi as int, pat_mailto()),
{
    let p: [u8; 7] = [109u8, 97u8, 105u8, 108u8, 116u8, 111u8, 58u8];
    assert(p@ =~= pat_mailto());
    has_prefix_exec(b, lo, hi, p.as_slice())
}

pub fn starts_with_slashes(b: &[u8], lo: usize, hi: usize) -> (r: bool)
    requires
        lo <= hi <= b@.len(),
    ensures
        r == has_prefix(b@, lo as int, hi as int, pat_slashes()),
{
    let p: [u8; 2] = [47u8, 47u8];
    assert(p@ =~= pat_slashes());
    has_prefix_exec(b, lo, hi, p.as_slice())
}

pub fn ends_with_md(b: &[u8], lo: usize, hi: usize) -> (r: bool)
    requires
        lo <= hi <= b@.len(),
    ensures
        r == has_suffix(b@, lo as int, hi as int, pat_md()),
{
    let p: [u8; 3] = [46u8, 109u8, 100u8];
    assert(p@ =~= pat_md());
    has_suffix_exec(b, lo, hi, p.as_slice())
}

/// Whether `c` is a Unicode `White_Space` character (what `char::is_whitespace` tests).
pub open spec fn is_ws(c: char) -> bool {
    ||| ('\u{9}' <= c && c <= '\u{d}')
    ||| c == ' '
    ||| c == '\u{85}'
    ||| c == '\u{a0}'
    ||| c == '\u{1680}'
    ||| ('\u{2000}' <= c && c <= '\u{200a}')
    ||| c == '\u{2028}'
    ||| c == '\u{2029}'
    ||| c == '\u{202f}'
    ||| c == '\u{205f}'
    ||| c == '\u{3000}'
}

/// Number of leading whitespace characters of `s`.
pub open spec fn lead_ws(s: Seq<char>) -> nat
    decreases s.len(),
{
    if s.len() > 0 && is_ws(s[0]) {
        1 + lead_ws(s.drop_first())
    } else {
        0
    }
}

/// `s` without its leading characters that have the Unicode `White_Space`
/// property (what `str::trim_start` gives).
pub(crate) fn trim_start(s: &str) -> (r: &str)
    ensures
        r@ == s@.skip(lead_ws(s@) as int),
{
    let n = s.unicode_len();
    let mut i: usize = 0;
    assert(s@.skip(0) =~= s@);
    while i < n && crate::frontmatter::is_whitespace(s.get_char(i))
        invariant
            n == s@.len(),
            i <= n,
            i + lead_ws(s@.skip(i as int)) == lead_ws(s@),
        decreases n - i,
    {
        assert(s@.skip(i as int)[0] == s@[i as int]);
        assert(s@.skip(i as int).drop_first() =~= s@.skip(i + 1));
        i = i + 1;
    }
    if i < n {
        assert(s@.skip(i as int)[0] == s@[i as int]);
    }
    let r = s.substring_char(i, n);
    assert(r@ =~= s@.skip(i as int));
    r
}

/// Calls `String::push`, which appends one character.
#[verifier::external_body]
pub(crate) fn push_char(s: &mut String, c: char)
    ensures
        final(s)@ == old(s)@.push(c),
{
    s.push(c)
}

} // verus!

verus! {

/// Last index in `[0, end)` holding `c`, or `-1`.
pub open spec fn rfind_byte(b: Seq<u8>, end: int, c: u8) -> int
    decreases end,
{
    if end <= 0 || end > b.len() {
        -1
    } else if b[end - 1] == c {
        end - 1
    } else {
        rfind_byte(b, end - 1, c)
    }
}

pub proof fn lemma_rfind_byte(b: Seq<u8>, end: int, c: u8)
    requires
        0 <= end <= b.len(),
    ensures
        -1 <= rfind_byte(b, end, c) < end,
        rfind_byte(b, end, c) >= 0 ==> b[rfind_byte(b, end, c)] == c,
        forall|i: int| rfind_byte(b, end, c) < i < end ==> b[i] != c,
    decreases end,
{
    if end > 0 && b[end - 1] != c {
        lemma_rfind_byte(b, end - 1, c);
    }
}

/// Last index in `[0, end)` holding `c`, if any.
pub fn rfind_byte_exec(b: &[u8], end: usize, c: u8) -> (r: Option<usize>)
    requires
        end <= b@.len(),
    ensures
        match r {
            Some(i) => rfind_byte(b@, end as int, c) == i as int && i < end,
            None => rfind_byte(b@, end as int, c) == -1,
        },
{
    proof {
        lemma_rfind_byte(b@, end as int, c);
    }
    let mut e = end;
    while e > 0 && b[e - 1] != c
        invariant
            e <= end <= b@.len(),
            rfind_byte(b@, e as int, c) == rfind_byte(b@, end as int, c),
        decreases e,
    {
        e = e - 1;
    }
    if e == 0 {
        None
    } else {
        Some(e - 1)
    }
}

/// Whether two byte slices are equal.
pub fn bytes_eq(a: &[u8], b: &[u8]) -> (r: bool)
    ensures
        r == (a@ == b@),
{
    if a.len() != b.len() {
        return false;
    }
    let mut i: usize = 0;
    while i < a.len()
        invariant
            a@.len() == b@.len(),
            0 <= i <= a@.len(),
            forall|j: int| 0 <= j < i ==> a@[j] == b@[j],
        decreases a@.len() - i,
    {
        if a[i] != b[i] {
            return false;
        }
        i = i + 1;
    }
    assert(a@ =~= b@);
    true
}

/// Whether two strings have the same contents.
pub fn str_eq(a: &str, b: &str) -> (r: bool)
    ensures
        r == (a@ == b@),
{
    let r = bytes_eq(a.as_bytes(), b.as_bytes());
    proof {
        vstd::utf8::encode_utf8_decode_utf8(a@);
        vstd::utf8::encode_utf8_decode_utf8(b@);
    }
    r
}

} // verus!

verus! {

/// The characters of `s` as a vector.
pub fn chars_vec(s: &str) -> (r: Vec<char>)
    ensures
        r@ == s@,
{
    let n = s.unicode_len();
    let mut v: Vec<char> = Vec::new();
    let mut i: usize = 0;
    while i < n
        invariant
            n == s@.len(),
            0 <= i <= n,
            v@ =~= s@.take(i as int),
        decreases n - i,
    {
        v.push(s.get_char(i));
        i = i + 1;
    }
    assert(s@.take(n as int) =~= s@);
    v
}

} // verus!

verus! {

/// Number of trailing whitespace characters of `s`.
pub open spec fn trail_ws(s: Seq<char>) -> nat
    decreases s.len(),
{
    if s.len() > 0 && is_ws(s.last()) {
        1 + trail_ws(s.drop_last())
    } else {
        0
    }
}

/// `s` without leading and trailing whitespace.
pub open spec fn trim_spec(s: Seq<char>) -> Seq<char> {
    let t = s.skip(lead_ws(s) as int);
    t.take(t.len() - trail_ws(t))
}

pub proof fn lemma_trail_ws_le(s: Seq<char>)
    ensures
        trail_ws(s) <= s.len(),
    decreases s.len(),
{
    if s.len() > 0 && is_ws(s.last()) {
        lemma_trail_ws_le(s.drop_last());
    }
}

pub proof fn lemma_lead_ws_bound(s: Seq<char>)
    ensures
        lead_ws(s) <= s.len(),
    decreases s.len(),
{
    if s.len() > 0 && is_ws(s[0]) {
        lemma_lead_ws_bound(s.drop_first());
    }
}

/// `s` without its leading and trailing characters that have the Unicode
/// `White_Space` property (what `str::trim` gives).
pub(crate) fn trim(s: &str) -> (r: &str)
    ensures
        r@ == trim_spec(s@),
{
    let t = trim_start(s);
    let n = t.unicode_len();
    let mut j: usize = n;
    assert(t@.take(n as int) =~= t@);
    while j > 0 && crate::frontmatter::is_whitespace(t.get_char(j - 1))
        invariant
            n == t@.len(),
            j <= n,
            (n - j) + trail_ws(t@.take(j as int)) == trail_ws(t@),
        decreases j,
    {
        assert(t@.take(j as int).last() == t@[j - 1]);
        assert(t@.take(j as int).drop_last() =~= t@.take(j - 1));
        j = j - 1;
    }
    if j > 0 {
        assert(t@.take(j as int).last() == t@[j - 1]);
    }
    let r = t.substring_char(0, j);
    assert(r@ =~= t@.take(j as int));
    r
}

/// `s` without one final `\r`.
pub open spec fn strip_cr(s: Seq<char>) -> Seq<char> {
    if s.len() > 0 && s.last() == '\r' {
        s.drop_last()
    } else {
        s
    }
}

/// First index of `c` in `s`, or `s.len()`.
pub open spec fn first_of(s: Seq<char>, c: char) -> int
    decreases s.len(),
{
    if s.len() == 0 {
        0
    } else if s[0] == c {
        0
    } else {
        1 + first_of(s.drop_first(), c)
    }
}

/// The lines of `s` as `str::lines` yields them: split at `\n`, a `\r` right
/// before a `\n` dropped, no empty line after a final `\n`.
pub open spec fn lines_spec(s: Seq<char>) -> Seq<Seq<char>>
    decreases s.len(),
{
    if s.len() == 0 {
        seq![]
    } else {
        let i = first_of(s, '\n');
        if 0 <= i < s.len() {
            seq![strip_cr(s.take(i))] + lines_spec(s.skip(i + 1))
        } else {
            seq![s]
        }
    }
}

pub proof fn lemma_first_of(s: Seq<char>, c: char, k: int)
    requires
        0 <= k <= s.len(),
        forall|j: int| 0 <= j < k ==> s[j] != c,
        k < s.len() ==> s[k] == c,
    ensures
        first_of(s, c) == k,
    decreases k,
{
    if k > 0 {
        assert forall|j: int| 0 <= j < k - 1 implies s.drop_first()[j] != c by {
            assert(s.drop_first()[j] == s[j + 1]);
        }
        lemma_first_of(s.drop_first(), c, k - 1);
    }
}

pub open spec fn string_views(v: Seq<String>) -> Seq<Seq<char>> {
    v.map_values(|s: String| s@)
}

/// The lines of `s`, as `str::lines` yields them.
pub fn lines(s: &str) -> (r: Vec<String>)
    ensures
        string_views(r@) == lines_spec(s@),
{
    let n = s.unicode_len();
    let mut out: Vec<String> = Vec::new();
    let mut cur = String::new();
    let mut start: usize = 0;
    let mut i: usize = 0;
    assert(s@.skip(0) =~= s@);
    assert(string_views(out@) + lines_spec(s@) =~= lines_spec(s@));
    while i < n
        invariant
            n == s@.len(),
            start <= i <= n,
            cur@ == s@.subrange(start as int, i as int),
            forall|j: int| start <= j < i ==> s@[j] != '\n',
            string_views(out@) + lines_spec(s@.skip(start as int)) == lines_spec(s@),
        decreases n - i,
    {
        let c = s.get_char(i);
        if c == '\n' {
            let ghost rest = s@.skip(start as int);
            proof {
                lemma_first_of(rest, '\n', i - start);
                assert(rest.take(i - start) =~= cur@);
                assert(rest.skip(i - start + 1) =~= s@.skip(i + 1));
            }
            let cl = cur.as_str().unicode_len();
            let line = if cl > 0 && cur.as_str().get_char(cl - 1) == '\r' {
                cur.as_str().substring_char(0, cl - 1).to_owned()
            } else {
                cur
            };
            assert(line@ =~= strip_cr(rest.take(i - start)));
            let ghost before = string_views(out@);
            out.push(line);
            assert(string_views(out@) =~= before.push(line@));
            cur = String::new();
            start = i + 1;
        } else {
            push_char(&mut cur, c);
            assert(cur@ =~= s@.subrange(start as int, i + 1));
        }
        i = i + 1;
    }
    proof {
        let rest = s@.skip(start as int);
        lemma_first_of(rest, '\n', n - start);
        assert(cur@ =~= rest);
    }
    if start < n {
        let ghost before = string_views(out@);
        out.push(cur);
        assert(string_views(out@) =~= before.push(s@.skip(start as int)));
    } else {
        assert(s@.skip(start as int) =~= Seq::<char>::empty());
        assert(string_views(out@) + Seq::<Seq<char>>::empty() =~= string_views(out@));
    }
    out
}

/// Whether every character of `s` is whitespace (the Unicode `White_Space`
/// property, as `char::is_whitespace` reads it).
pub open spec fn ws_only(s: Seq<char>) -> bool {
    forall|i: int| 0 <= i < s.len() ==> is_ws(#[trigger] s[i])
}

proof fn lemma_lead_ws_all(s: Seq<char>)
    ensures
        lead_ws(s) <= s.len(),
        (lead_ws(s) == s.len()) == ws_only(s),
    decreases s.len(),
{
    if s.len() > 0 {
        lemma_lead_ws_all(s.drop_first());
        if ws_only(s) {
            assert(ws_only(s.drop_first())) by {
                assert forall|i: int| 0 <= i < s.drop_first().len() implies is_ws(#[trigger] s.drop_first()[i]) by {
                    assert(s.drop_first()[i] == s[i + 1]);
                }
            }
        }
        if is_ws(s[0]) && ws_only(s.drop_first()) {
            assert forall|i: int| 0 <= i < s.len() implies is_ws(#[trigger] s[i]) by {
                if i > 0 {
                    assert(s[i] == s.drop_first()[i - 1]);
                }
            }
        }
    }
}

/// Whether `s` holds only whitespace.
pub fn ws_only_exec(s: &str) -> (r: bool)
    ensures
        r == ws_only(s@),
{
    proof {
        lemma_lead_ws_all(s@);
    }
    trim_start(s).unicode_len() == 0
}

} // verus!
