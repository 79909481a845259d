//! Markdown reference parser.
//!
//! Scans content line by line and reports, with byte spans into the content:
//! standard links `[text](path.md)`, wiki links `[[stem]]` / `[[stem|alias]]`,
//! path-like inline code `` `dir/file` `` and `href="..."` attributes.
//! Lines inside fenced code blocks are skipped, links inside inline code are
//! skipped, and external URLs are skipped.

use vstd::prelude::*;
use vstd::string::*;
use crate::model::{CanonicalPath, RefForm, Reference};
use crate::text::{
    chars_of, cut_ok, ends_with_md, find_byte, find_byte_exec, has_byte, has_byte_exec,
    has_prefix, has_suffix, is_ascii_byte, lead_ws, lemma_find_byte, lemma_rtrim_to, pat_http,
    pat_https, pat_mailto, pat_md, pat_slashes, rtrim_to, rtrim_to_exec, starts_with_http,
    starts_with_https, starts_with_mailto, starts_with_slashes, substr, trim_start,
};

verus! {

broadcast use vstd::seq::group_seq_axioms;

/// A reference found by the parser, as byte positions into the content:
/// `(start, end, form, target_lo, target_hi, anchor range)`.
pub type Shape = (int, int, RefForm, int, int, Option<(int, int)>);

// ───────────────────────── inline code spans ─────────────────────────

/// Backtick-delimited inline code spans of `b[i..hi]`: each opening backtick is
/// paired with the next backtick; an unmatched opener ends the scan.
pub open spec fn bt_spans(b: Seq<u8>, i: int, hi: int) -> Seq<(int, int)>
    decreases hi - i,
{
    if i < 0 || i >= hi || hi > b.len() {
        seq![]
    } else if b[i] == 96u8 {
        let j = find_byte(b, i + 1, hi, 96u8);
        if i < j < hi {
            seq![(i, j + 1)] + bt_spans(b, j + 1, hi)
        } else {
            seq![]
        }
    } else {
        bt_spans(b, i + 1, hi)
    }
}

/// Whether `[s, e)` lies inside one of `spans`.
pub open spec fn in_spans(spans: Seq<(int, int)>, s: int, e: int) -> bool {
    exists|k: int| 0 <= k < spans.len() && spans[k].0 <= s && e <= spans[k].1
}

// ───────────────────────── standard links ─────────────────────────

/// Whether `.md` starts at index `k` of `b`.
pub open spec fn md_at(b: Seq<u8>, k: int) -> bool {
    b[k] == 46u8 && b[k + 1] == 109u8 && b[k + 2] == 100u8
}

/// Whether `b[lo..hi]` holds `.md` with at least one byte before it.
pub open spec fn has_md(b: Seq<u8>, lo: int, hi: int) -> bool {
    exists|k: int| lo + 1 <= k && k + 3 <= hi && #[trigger] md_at(b, k)
}

/// A standard link `[text](path)` starting at `s`, where the path holds `.md`:
/// `(end, path_lo, path_hi)`.
pub open spec fn f1_at(b: Seq<u8>, hi: int, s: int) -> Option<(int, int, int)> {
    if !(0 <= s < hi && hi <= b.len() && b[s] == 91u8) {
        None
    } else {
        let e1 = find_byte(b, s + 1, hi, 93u8);
        if hi - e1 < 2 || b[e1 + 1] != 40u8 {
            None
        } else {
            let e2 = find_byte(b, e1 + 2, hi, 41u8);
            if e2 >= hi || !has_md(b, e1 + 2, e2) {
                None
            } else {
                Some((e2 + 1, e1 + 2, e2))
            }
        }
    }
}

/// Successive leftmost non-overlapping standard links in `b[from..hi]`.
pub open spec fn f1_all(b: Seq<u8>, hi: int, from: int) -> Seq<(int, int, int, int)>
    decreases hi - from,
{
    if from < 0 || from >= hi {
        seq![]
    } else {
        match f1_at(b, hi, from) {
            Some((e, a, c)) => if e > from {
                seq![(from, e, a, c)] + f1_all(b, hi, e)
            } else {
                seq![]
            },
            None => f1_all(b, hi, from + 1),
        }
    }
}

/// Whether `b[lo..hi]` starts like an external URL.
pub open spec fn is_external(b: Seq<u8>, lo: int, hi: int) -> bool {
    ||| has_prefix(b, lo, hi, pat_http())
    ||| has_prefix(b, lo, hi, pat_https())
    ||| has_prefix(b, lo, hi, pat_mailto())
    ||| has_prefix(b, lo, hi, pat_slashes())
}

/// The reference reported for one standard-link match, if any.
pub open spec fn f1_shape(b: Seq<u8>, m: (int, int, int, int), spans: Seq<(int, int)>) -> Seq<Shape> {
    let (s, e, a, c) = m;
    if is_external(b, a, c) || in_spans(spans, s, e) {
        seq![]
    } else {
        let h = find_byte(b, a, c, 35u8);
        if h < c {
            seq![(s, e, RefForm::Standard, a, h, Some((h + 1, c)))]
        } else {
            seq![(s, e, RefForm::Standard, a, c, None)]
        }
    }
}

pub open spec fn f1_shapes(b: Seq<u8>, ms: Seq<(int, int, int, int)>, spans: Seq<(int, int)>) -> Seq<Shape>
    decreases ms.len(),
{
    if ms.len() == 0 {
        seq![]
    } else {
        f1_shapes(b, ms.drop_last(), spans) + f1_shape(b, ms.last(), spans)
    }
}

// ───────────────────────── wiki links ─────────────────────────

/// First index in `[from, hi)` holding `]` or `|`, or `hi`.
pub open spec fn find_close_or_bar(b: Seq<u8>, from: int, hi: int) -> int
    decreases hi - from,
{
    if from >= hi || from < 0 || from >= b.len() {
        hi
    } else if b[from] == 93u8 || b[from] == 124u8 {
        from
    } else {
        find_close_or_bar(b, from + 1, hi)
    }
}

/// A wiki link `[[stem]]` or `[[stem|alias]]` starting at `s`: `(end, stem_lo, stem_hi)`.
pub open spec fn f2_at(b: Seq<u8>, hi: int, s: int) -> Option<(int, int, int)> {
    if !(0 <= s && s + 1 < hi && hi <= b.len() && b[s] == 91u8 && b[s + 1] == 91u8) {
        None
    } else {
        let p = find_close_or_bar(b, s + 2, hi);
        if p >= hi || p == s + 2 {
            None
        } else if b[p] == 124u8 {
            let q = find_byte(b, p + 1, hi, 93u8);
            if hi - q >= 2 && b[q + 1] == 93u8 {
                Some((q + 2, s + 2, p))
            } else {
                None
            }
        } else if p + 1 < hi && b[p + 1] == 93u8 {
            Some((p + 2, s + 2, p))
        } else {
            None
        }
    }
}

/// Successive leftmost non-overlapping wiki links in `b[from..hi]`.
pub open spec fn f2_all(b: Seq<u8>, hi: int, from: int) -> Seq<(int, int, int, int)>
    decreases hi - from,
{
    if from < 0 || from >= hi {
        seq![]
    } else {
        match f2_at(b, hi, from) {
            Some((e, a, c)) => if e > from {
                seq![(from, e, a, c)] + f2_all(b, hi, e)
            } else {
                seq![]
            },
            None => f2_all(b, hi, from + 1),
        }
    }
}

/// The reference reported for one wiki-link match: the stem without a `.md` suffix.
pub open spec fn f2_shape(b: Seq<u8>, m: (int, int, int, int), spans: Seq<(int, int)>) -> Seq<Shape> {
    let (s, e, a, c) = m;
    if in_spans(spans, s, e) {
        seq![]
    } else if has_suffix(b, a, c, pat_md()) {
        seq![(s, e, RefForm::Wiki, a, c - 3, None)]
    } else {
        seq![(s, e, RefForm::Wiki, a, c, None)]
    }
}

pub open spec fn f2_shapes(b: Seq<u8>, ms: Seq<(int, int, int, int)>, spans: Seq<(int, int)>) -> Seq<Shape>
    decreases ms.len(),
{
    if ms.len() == 0 {
        seq![]
    } else {
        f2_shapes(b, ms.drop_last(), spans) + f2_shape(b, ms.last(), spans)
    }
}

// ───────────────────────── path-like inline code ─────────────────────────

/// The reference reported for one inline code span: contents holding `/`,
/// not an external URL, trailing slashes removed.
pub open spec fn bt_shape(b: Seq<u8>, sp: (int, int)) -> Seq<Shape> {
    let (bs, be) = sp;
    let lo = bs + 1;
    let hi = be - 1;
    if !has_byte(b, lo, hi, 47u8) || has_prefix(b, lo, hi, pat_http())
        || has_prefix(b, lo, hi, pat_https()) || has_prefix(b, lo, hi, pat_slashes()) {
        seq![]
    } else {
        seq![(bs, be, RefForm::Backtick, lo, rtrim_to(b, lo, hi, 47u8), None)]
    }
}

pub open spec fn bt_shapes(b: Seq<u8>, spans: Seq<(int, int)>) -> Seq<Shape>
    decreases spans.len(),
{
    if spans.len() == 0 {
        seq![]
    } else {
        bt_shapes(b, spans.drop_last()) + bt_shape(b, spans.last())
    }
}

// ───────────────────────── href attributes ─────────────────────────

/// The bytes of `href=`.
pub open spec fn pat_href() -> Seq<u8> {
    seq![104u8, 114u8, 101u8, 102u8, 61u8]
}

pub open spec fn is_quote(c: u8) -> bool {
    c == 34u8 || c == 39u8
}

/// First index in `[from, hi)` holding a quote, or `hi`.
pub open spec fn find_quote(b: Seq<u8>, from: int, hi: int) -> int
    decreases hi - from,
{
    if from >= hi || from < 0 || from >= b.len() {
        hi
    } else if is_quote(b[from]) {
        from
    } else {
        find_quote(b, from + 1, hi)
    }
}

/// An attribute `href="v"` / `href='v'` starting at `s` (either quote may close it,
/// and the value may not start with a quote or `#`): `(end, value_lo, value_hi)`.
pub open spec fn h_at(b: Seq<u8>, hi: int, s: int) -> Option<(int, int, int)> {
    if !(0 <= s && s + 6 < hi && hi <= b.len() && has_prefix(b, s, hi, pat_href())
        && is_quote(b[s + 5]) && !is_quote(b[s + 6]) && b[s + 6] != 35u8) {
        None
    } else {
        let q = find_quote(b, s + 7, hi);
        if q < hi {
            Some((q + 1, s + 6, q))
        } else {
            None
        }
    }
}

/// Successive leftmost non-overlapping `href` attributes in `b[from..hi]`.
pub open spec fn h_all(b: Seq<u8>, hi: int, from: int) -> Seq<(int, int, int, int)>
    decreases hi - from,
{
    if from < 0 || from >= hi {
        seq![]
    } else {
        match h_at(b, hi, from) {
            Some((e, a, c)) => if e > from {
                seq![(from, e, a, c)] + h_all(b, hi, e)
            } else {
                seq![]
            },
            None => h_all(b, hi, from + 1),
        }
    }
}

pub open spec fn h_shape(b: Seq<u8>, m: (int, int, int, int), spans: Seq<(int, int)>) -> Seq<Shape> {
    let (s, e, a, c) = m;
    if is_external(b, a, c) || in_spans(spans, s, e) {
        seq![]
    } else {
        seq![(s, e, RefForm::HtmlHref, a, c, None)]
    }
}

pub open spec fn h_shapes(b: Seq<u8>, ms: Seq<(int, int, int, int)>, spans: Seq<(int, int)>) -> Seq<Shape>
    decreases ms.len(),
{
    if ms.len() == 0 {
        seq![]
    } else {
        h_shapes(b, ms.drop_last(), spans) + h_shape(b, ms.last(), spans)
    }
}

// ───────────────────────── lines and content ─────────────────────────

/// All references of the line `b[lo..hi]`, in the order standard links, wiki
/// links, inline code paths, href attributes.
pub open spec fn line_shapes(b: Seq<u8>, lo: int, hi: int) -> Seq<Shape> {
    let spans = bt_spans(b, lo, hi);
    f1_shapes(b, f1_all(b, hi, lo), spans) + f2_shapes(b, f2_all(b, hi, lo), spans)
        + bt_shapes(b, spans) + h_shapes(b, h_all(b, hi, lo), spans)
}

/// Whether a line opens or closes a fence for the parser: after leading
/// whitespace it starts with three backticks or three tildes.
pub open spec fn is_fence_line(s: Seq<char>) -> bool {
    let t = s.skip(lead_ws(s) as int);
    &&& t.len() >= 3
    &&& ((t[0] == '`' && t[1] == '`' && t[2] == '`') || (t[0] == '~' && t[1] == '~' && t[2] == '~'))
}

/// References of `b[pos..]`, given whether `pos` starts inside a fence.
pub open spec fn content_shapes(b: Seq<u8>, pos: int, in_fence: bool) -> Seq<Shape>
    decreases b.len() - pos,
{
    if pos < 0 || pos >= b.len() {
        seq![]
    } else {
        let nl = find_byte(b, pos, b.len() as int, 10u8);
        let lend = rtrim_to(b, pos, nl, 13u8);
        let next = if nl < b.len() { nl + 1 } else { b.len() as int };
        let delim = is_fence_line(chars_of(b.subrange(pos, lend)));
        let here = if delim || in_fence { seq![] } else { line_shapes(b, pos, lend) };
        if next > pos {
            here + content_shapes(b, next, if delim { !in_fence } else { in_fence })
        } else {
            here
        }
    }
}

/// `r` is the reference described by `sh` in content `b` of file `src`.
pub open spec fn ref_is(r: Reference, src: Seq<char>, b: Seq<u8>, sh: Shape) -> bool {
    &&& r.source_file@ == src
    &&& r.span.0 as int == sh.0
    &&& r.span.1 as int == sh.1
    &&& r.form == sh.2
    &&& r.target_raw@ == chars_of(b.subrange(sh.3, sh.4))
    &&& match sh.5 {
        None => r.anchor is None,
        Some((a, c)) => r.anchor is Some && r.anchor.unwrap()@ == chars_of(b.subrange(a, c)),
    }
}

pub open spec fn refs_are(v: Seq<Reference>, src: Seq<char>, b: Seq<u8>, shs: Seq<Shape>) -> bool {
    &&& v.len() == shs.len()
    &&& forall|i: int| 0 <= i < v.len() ==> ref_is(#[trigger] v[i], src, b, shs[i])
}

} // verus!

verus! {

pub open spec fn int_pairs(v: Seq<(usize, usize)>) -> Seq<(int, int)> {
    v.map_values(|p: (usize, usize)| (p.0 as int, p.1 as int))
}

proof fn lemma_refs_are_concat(
    v1: Seq<Reference>,
    v2: Seq<Reference>,
    src: Seq<char>,
    b: Seq<u8>,
    s1: Seq<Shape>,
    s2: Seq<Shape>,
)
    requires
        refs_are(v1, src, b, s1),
        refs_are(v2, src, b, s2),
    ensures
        refs_are(v1 + v2, src, b, s1 + s2),
{
    assert forall|i: int| 0 <= i < (v1 + v2).len() implies ref_is(#[trigger] (v1 + v2)[i], src, b, (s1 + s2)[i]) by {
        if i < v1.len() {
            assert((v1 + v2)[i] == v1[i]);
        } else {
            assert((v1 + v2)[i] == v2[i - v1.len()]);
        }
    }
}

/// Build the reference `(start, end, form, target, anchor)` of `content`.
fn make_ref(
    src: &CanonicalPath,
    content: &str,
    start: usize,
    end: usize,
    form: RefForm,
    t_lo: usize,
    t_hi: usize,
    anchor: Option<(usize, usize)>,
) -> (r: Reference)
    requires
        t_lo <= t_hi <= content.spec_bytes().len(),
        cut_ok(content.spec_bytes(), t_lo as int),
        cut_ok(content.spec_bytes(), t_hi as int),
        anchor matches Some((a, c)) ==> a <= c <= content.spec_bytes().len() && cut_ok(
            content.spec_bytes(),
            a as int,
        ) && cut_ok(content.spec_bytes(), c as int),
    ensures
        ref_is(
            r,
            src@,
            content.spec_bytes(),
            (
                start as int,
                end as int,
                form,
                t_lo as int,
                t_hi as int,
                match anchor {
                    Some((a, c)) => Some((a as int, c as int)),
                    None => None,
                },
            ),
        ),
{
    let target = substr(content, t_lo, t_hi).to_owned();
    let anchor_s = match anchor {
        Some((a, c)) => Some(substr(content, a, c).to_owned()),
        None => None,
    };
    Reference { source_file: src.clone(), target_raw: target, span: (start, end), form, anchor: anchor_s }
}

fn bt_spans_exec(b: &[u8], lo: usize, hi: usize) -> (r: Vec<(usize, usize)>)
    requires
        lo <= hi <= b@.len(),
    ensures
        int_pairs(r@) == bt_spans(b@, lo as int, hi as int),
        forall|k: int|
            0 <= k < r@.len() ==> lo <= #[trigger] r@[k].0 < r@[k].1 <= hi && b@[r@[k].0 as int]
                == 96u8 && b@[r@[k].1 - 1] == 96u8 && r@[k].0 + 2 <= r@[k].1,
{
    let mut out: Vec<(usize, usize)> = Vec::new();
    let mut i = lo;
    while i < hi
        invariant
            lo <= i <= hi <= b@.len(),
            int_pairs(out@) + bt_spans(b@, i as int, hi as int) == bt_spans(b@, lo as int, hi as int),
            forall|k: int|
                0 <= k < out@.len() ==> lo <= #[trigger] out@[k].0 < out@[k].1 <= i && b@[out@[k].0 as int]
                    == 96u8 && b@[out@[k].1 - 1] == 96u8 && out@[k].0 + 2 <= out@[k].1,
        decreases hi - i,
    {
        if b[i] == 96u8 {
            let j = find_byte_exec(b, i + 1, hi, 96u8);
            proof {
                lemma_find_byte(b@, i + 1, hi as int, 96u8);
            }
            if j < hi {
                let ghost old_out = out@;
                out.push((i, j + 1));
                assert(int_pairs(out@) =~= int_pairs(old_out) + seq![(i as int, j + 1)]);
                assert(bt_spans(b@, i as int, hi as int) == seq![(i as int, j + 1)] + bt_spans(
                    b@,
                    j + 1,
                    hi as int,
                ));
                assert(int_pairs(out@) + bt_spans(b@, j + 1, hi as int) =~= int_pairs(old_out)
                    + bt_spans(b@, i as int, hi as int));
                i = j + 1;
            } else {
                assert(bt_spans(b@, i as int, hi as int) =~= seq![]);
                assert(int_pairs(out@) + bt_spans(b@, hi as int, hi as int) =~= int_pairs(out@)
                    + bt_spans(b@, i as int, hi as int));
                i = hi;
            }
        } else {
            i = i + 1;
        }
    }
    assert(bt_spans(b@, i as int, hi as int) =~= seq![]);
    assert(int_pairs(out@) =~= int_pairs(out@) + bt_spans(b@, i as int, hi as int));
    out
}

fn in_spans_exec(spans: &Vec<(usize, usize)>, s: usize, e: usize) -> (r: bool)
    ensures
        r == in_spans(int_pairs(spans@), s as int, e as int),
{
    let mut k: usize = 0;
    while k < spans.len()
        invariant
            0 <= k <= spans@.len(),
            forall|j: int| 0 <= j < k ==> !(spans@[j].0 <= s && e <= spans@[j].1),
        decreases spans@.len() - k,
    {
        if spans[k].0 <= s && e <= spans[k].1 {
            assert(int_pairs(spans@)[k as int] == (spans@[k as int].0 as int, spans@[k as int].1 as int));
            return true;
        }
        k = k + 1;
    }
    assert forall|j: int| 0 <= j < int_pairs(spans@).len() implies !(int_pairs(spans@)[j].0 <= s && e
        <= int_pairs(spans@)[j].1) by {
        assert(int_pairs(spans@)[j] == (spans@[j].0 as int, spans@[j].1 as int));
    }
    false
}

fn is_external_exec(b: &[u8], lo: usize, hi: usize) -> (r: bool)
    requires
        lo <= hi <= b@.len(),
    ensures
        r == is_external(b@, lo as int, hi as int),
{
    starts_with_http(b, lo, hi) || starts_with_https(b, lo, hi) || starts_with_mailto(b, lo, hi)
        || starts_with_slashes(b, lo, hi)
}

fn has_md_exec(b: &[u8], lo: usize, hi: usize) -> (r: bool)
    requires
        lo <= hi <= b@.len(),
    ensures
        r == has_md(b@, lo as int, hi as int),
{
    if hi - lo < 4 {
        assert forall|k: int| lo + 1 <= k && k + 3 <= hi implies !md_at(b@, k) by {}
        return false;
    }
    let mut k = lo + 1;
    while hi - k >= 3
        invariant
            lo + 1 <= k <= hi,
            hi <= b@.len(),
            forall|j: int| lo + 1 <= j < k ==> !#[trigger] md_at(b@, j),
        decreases hi - k,
    {
        if b[k] == 46u8 && b[k + 1] == 109u8 && b[k + 2] == 100u8 {
            assert(md_at(b@, k as int));
            return true;
        }
        k = k + 1;
    }
    false
}

fn f1_at_exec(b: &[u8], hi: usize, s: usize) -> (r: Option<(usize, usize, usize)>)
    requires
        s < hi <= b@.len(),
    ensures
        match r {
            None => f1_at(b@, hi as int, s as int) is None,
            Some((e, a, c)) => {
                &&& f1_at(b@, hi as int, s as int) == Some((e as int, a as int, c as int))
                &&& s < a <= c < e <= hi
                &&& e == c + 1
                &&& b@[a - 1] == 40u8
                &&& b@[c as int] == 41u8
            },
        },
{
    if b[s] != 91u8 {
        return None;
    }
    let e1 = find_byte_exec(b, s + 1, hi, 93u8);
    if hi - e1 < 2 || b[e1 + 1] != 40u8 {
        return None;
    }
    let e2 = find_byte_exec(b, e1 + 2, hi, 41u8);
    proof {
        lemma_find_byte(b@, e1 + 2, hi as int, 41u8);
    }
    if e2 >= hi || !has_md_exec(b, e1 + 2, e2) {
        return None;
    }
    Some((e2 + 1, e1 + 2, e2))
}

fn find_close_or_bar_exec(b: &[u8], from: usize, hi: usize) -> (r: usize)
    requires
        from <= hi <= b@.len(),
    ensures
        r as int == find_close_or_bar(b@, from as int, hi as int),
        from <= r <= hi,
        r < hi ==> (b@[r as int] == 93u8 || b@[r as int] == 124u8),
{
    let mut i = from;
    while i < hi && b[i] != 93u8 && b[i] != 124u8
        invariant
            from <= i <= hi <= b@.len(),
            find_close_or_bar(b@, i as int, hi as int) == find_close_or_bar(b@, from as int, hi as int),
        decreases hi - i,
    {
        i = i + 1;
    }
    i
}

fn f2_at_exec(b: &[u8], hi: usize, s: usize) -> (r: Option<(usize, usize, usize)>)
    requires
        s < hi <= b@.len(),
    ensures
        match r {
            None => f2_at(b@, hi as int, s as int) is None,
            Some((e, a, c)) => {
                &&& f2_at(b@, hi as int, s as int) == Some((e as int, a as int, c as int))
                &&& s < a < c < e <= hi
                &&& b@[a - 1] == 91u8
                &&& (b@[c as int] == 93u8 || b@[c as int] == 124u8)
            },
        },
{
    if s + 1 >= hi || b[s] != 91u8 || b[s + 1] != 91u8 {
        return None;
    }
    let p = find_close_or_bar_exec(b, s + 2, hi);
    if p >= hi || p == s + 2 {
        return None;
    }
    if b[p] == 124u8 {
        let q = find_byte_exec(b, p + 1, hi, 93u8);
        if hi - q >= 2 && b[q + 1] == 93u8 {
            Some((q + 2, s + 2, p))
        } else {
            None
        }
    } else if p + 1 < hi && b[p + 1] == 93u8 {
        Some((p + 2, s + 2, p))
    } else {
        None
    }
}

fn find_quote_exec(b: &[u8], from: usize, hi: usize) -> (r: usize)
    requires
        from <= hi <= b@.len(),
    ensures
        r as int == find_quote(b@, from as int, hi as int),
        from <= r <= hi,
        r < hi ==> is_quote(b@[r as int]),
{
    let mut i = from;
    while i < hi && b[i] != 34u8 && b[i] != 39u8
        invariant
            from <= i <= hi <= b@.len(),
            find_quote(b@, i as int, hi as int) == find_quote(b@, from as int, hi as int),
        decreases hi - i,
    {
        i = i + 1;
    }
    i
}

fn h_at_exec(b: &[u8], hi: usize, s: usize) -> (r: Option<(usize, usize, usize)>)
    requires
        s < hi <= b@.len(),
    ensures
        match r {
            None => h_at(b@, hi as int, s as int) is None,
            Some((e, a, c)) => {
                &&& h_at(b@, hi as int, s as int) == Some((e as int, a as int, c as int))
                &&& s < a < c < e <= hi
                &&& e == c + 1
                &&& is_quote(b@[a - 1])
                &&& is_quote(b@[c as int])
            },
        },
{
    if hi - s <= 6 {
        return None;
    }
    let p: [u8; 5] = [104u8, 114u8, 101u8, 102u8, 61u8];
    assert(p@ =~= pat_href());
    if !crate::text::has_prefix_exec(b, s, hi, p.as_slice()) {
        return None;
    }
    let q0 = b[s + 5];
    let c0 = b[s + 6];
    if !(q0 == 34u8 || q0 == 39u8) || c0 == 34u8 || c0 == 39u8 || c0 == 35u8 {
        return None;
    }
    let q = find_quote_exec(b, s + 7, hi);
    if q < hi {
        Some((q + 1, s + 6, q))
    } else {
        None
    }
}

} // verus!

verus! {

proof fn lemma_refs_push(v: Seq<Reference>, r: Reference, src: Seq<char>, b: Seq<u8>, s: Seq<Shape>, sh: Shape)
    requires
        refs_are(v, src, b, s),
        ref_is(r, src, b, sh),
    ensures
        refs_are(v.push(r), src, b, s + seq![sh]),
{
    assert(refs_are(seq![r], src, b, seq![sh]));
    lemma_refs_are_concat(v, seq![r], src, b, s, seq![sh]);
    assert(v + seq![r] =~= v.push(r));
}

proof fn lemma_refs_none(v: Seq<Reference>, src: Seq<char>, b: Seq<u8>, s: Seq<Shape>)
    requires
        refs_are(v, src, b, s),
    ensures
        refs_are(v, src, b, s + seq![]),
{
    assert(s + seq![] =~= s);
}

fn f1_refs(src: &CanonicalPath, content: &str, lo: usize, hi: usize, spans: &Vec<(usize, usize)>) -> (r: Vec<
    Reference,
>)
    requires
        lo <= hi <= content.spec_bytes().len(),
    ensures
        refs_are(
            r@,
            src@,
            content.spec_bytes(),
            f1_shapes(content.spec_bytes(), f1_all(content.spec_bytes(), hi as int, lo as int), int_pairs(spans@)),
        ),
{
    let b = content.as_bytes();
    let ghost bs = content.spec_bytes();
    let ghost sp = int_pairs(spans@);
    let mut out: Vec<Reference> = Vec::new();
    let mut i = lo;
    let ghost mut found: Seq<(int, int, int, int)> = seq![];
    while i < hi
        invariant
            lo <= i <= hi <= bs.len(),
            b@ == bs,
            bs == content.spec_bytes(),
            sp == int_pairs(spans@),
            found + f1_all(bs, hi as int, i as int) == f1_all(bs, hi as int, lo as int),
            refs_are(out@, src@, bs, f1_shapes(bs, found, sp)),
        decreases hi - i,
    {
        match f1_at_exec(b, hi, i) {
            Some((e, a, c)) => {
                let ghost m = (i as int, e as int, a as int, c as int);
                assert(f1_all(bs, hi as int, i as int) == seq![m] + f1_all(bs, hi as int, e as int));
                assert(found.push(m).drop_last() =~= found);
                if !is_external_exec(b, a, c) && !in_spans_exec(spans, i, e) {
                    let h = find_byte_exec(b, a, c, 35u8);
                    proof {
                        lemma_find_byte(bs, a as int, c as int, 35u8);
                    }
                    let rf = if h < c {
                        make_ref(src, content, i, e, RefForm::Standard, a, h, Some((h + 1, c)))
                    } else {
                        make_ref(src, content, i, e, RefForm::Standard, a, c, None)
                    };
                    proof {
                        lemma_refs_push(out@, rf, src@, bs, f1_shapes(bs, found, sp), f1_shape(bs, m, sp)[0]);
                        assert(f1_shape(bs, m, sp) =~= seq![f1_shape(bs, m, sp)[0]]);
                    }
                    out.push(rf);
                } else {
                    proof {
                        lemma_refs_none(out@, src@, bs, f1_shapes(bs, found, sp));
                    }
                }
                proof {
                    found = found.push(m);
                    assert(found + f1_all(bs, hi as int, e as int) =~= (found.drop_last() + seq![m])
                        + f1_all(bs, hi as int, e as int));
                }
                i = e;
            },
            None => {
                i = i + 1;
            },
        }
    }
    assert(found =~= found + f1_all(bs, hi as int, i as int));
    out
}

fn f2_refs(src: &CanonicalPath, content: &str, lo: usize, hi: usize, spans: &Vec<(usize, usize)>) -> (r: Vec<
    Reference,
>)
    requires
        lo <= hi <= content.spec_bytes().len(),
    ensures
        refs_are(
            r@,
            src@,
            content.spec_bytes(),
            f2_shapes(content.spec_bytes(), f2_all(content.spec_bytes(), hi as int, lo as int), int_pairs(spans@)),
        ),
{
    let b = content.as_bytes();
    let ghost bs = content.spec_bytes();
    let ghost sp = int_pairs(spans@);
    let mut out: Vec<Reference> = Vec::new();
    let mut i = lo;
    let ghost mut found: Seq<(int, int, int, int)> = seq![];
    while i < hi
        invariant
            lo <= i <= hi <= bs.len(),
            b@ == bs,
            bs == content.spec_bytes(),
            sp == int_pairs(spans@),
            found + f2_all(bs, hi as int, i as int) == f2_all(bs, hi as int, lo as int),
            refs_are(out@, src@, bs, f2_shapes(bs, found, sp)),
        decreases hi - i,
    {
        match f2_at_exec(b, hi, i) {
            Some((e, a, c)) => {
                let ghost m = (i as int, e as int, a as int, c as int);
                assert(f2_all(bs, hi as int, i as int) == seq![m] + f2_all(bs, hi as int, e as int));
                assert(found.push(m).drop_last() =~= found);
                if !in_spans_exec(spans, i, e) {
                    let rf = if ends_with_md(b, a, c) {
                        make_ref(src, content, i, e, RefForm::Wiki, a, c - 3, None)
                    } else {
                        make_ref(src, content, i, e, RefForm::Wiki, a, c, None)
                    };
                    proof {
                        lemma_refs_push(out@, rf, src@, bs, f2_shapes(bs, found, sp), f2_shape(bs, m, sp)[0]);
                        assert(f2_shape(bs, m, sp) =~= seq![f2_shape(bs, m, sp)[0]]);
                    }
                    out.push(rf);
                } else {
                    proof {
                        lemma_refs_none(out@, src@, bs, f2_shapes(bs, found, sp));
                    }
                }
                proof {
                    found = found.push(m);
                    assert(found + f2_all(bs, hi as int, e as int) =~= (found.drop_last() + seq![m])
                        + f2_all(bs, hi as int, e as int));
                }
                i = e;
            },
            None => {
                i = i + 1;
            },
        }
    }
    assert(found =~= found + f2_all(bs, hi as int, i as int));
    out
}

fn h_refs(src: &CanonicalPath, content: &str, lo: usize, hi: usize, spans: &Vec<(usize, usize)>) -> (r: Vec<
    Reference,
>)
    requires
        lo <= hi <= content.spec_bytes().len(),
    ensures
        refs_are(
            r@,
            src@,
            content.spec_bytes(),
            h_shapes(content.spec_bytes(), h_all(content.spec_bytes(), hi as int, lo as int), int_pairs(spans@)),
        ),
{
    let b = content.as_bytes();
    let ghost bs = content.spec_bytes();
    let ghost sp = int_pairs(spans@);
    let mut out: Vec<Reference> = Vec::new();
    let mut i = lo;
    let ghost mut found: Seq<(int, int, int, int)> = seq![];
    while i < hi
        invariant
            lo <= i <= hi <= bs.len(),
            b@ == bs,
            bs == content.spec_bytes(),
            sp == int_pairs(spans@),
            found + h_all(bs, hi as int, i as int) == h_all(bs, hi as int, lo as int),
            refs_are(out@, src@, bs, h_shapes(bs, found, sp)),
        decreases hi - i,
    {
        match h_at_exec(b, hi, i) {
            Some((e, a, c)) => {
                let ghost m = (i as int, e as int, a as int, c as int);
                assert(h_all(bs, hi as int, i as int) == seq![m] + h_all(bs, hi as int, e as int));
                assert(found.push(m).drop_last() =~= found);
                if !is_external_exec(b, a, c) && !in_spans_exec(spans, i, e) {
                    let rf = make_ref(src, content, i, e, RefForm::HtmlHref, a, c, None);
                    proof {
                        lemma_refs_push(out@, rf, src@, bs, h_shapes(bs, found, sp), h_shape(bs, m, sp)[0]);
                        assert(h_shape(bs, m, sp) =~= seq![h_shape(bs, m, sp)[0]]);
                    }
                    out.push(rf);
                } else {
                    proof {
                        lemma_refs_none(out@, src@, bs, h_shapes(bs, found, sp));
                    }
                }
                proof {
                    found = found.push(m);
                    assert(found + h_all(bs, hi as int, e as int) =~= (found.drop_last() + seq![m])
                        + h_all(bs, hi as int, e as int));
                }
                i = e;
            },
            None => {
                i = i + 1;
            },
        }
    }
    assert(found =~= found + h_all(bs, hi as int, i as int));
    out
}

fn bt_refs(src: &CanonicalPath, content: &str, lo: usize, hi: usize, spans: &Vec<(usize, usize)>) -> (r: Vec<
    Reference,
>)
    requires
        lo <= hi <= content.spec_bytes().len(),
        forall|k: int|
            0 <= k < spans@.len() ==> lo <= #[trigger] spans@[k].0 < spans@[k].1 <= hi
                && content.spec_bytes()[spans@[k].0 as int] == 96u8 && content.spec_bytes()[spans@[k].1
                - 1] == 96u8 && spans@[k].0 + 2 <= spans@[k].1,
    ensures
        refs_are(r@, src@, content.spec_bytes(), bt_shapes(content.spec_bytes(), int_pairs(spans@))),
{
    let b = content.as_bytes();
    let ghost bs = content.spec_bytes();
    let ghost sp = int_pairs(spans@);
    let mut out: Vec<Reference> = Vec::new();
    let mut k: usize = 0;
    while k < spans.len()
        invariant
            0 <= k <= spans@.len(),
            b@ == bs,
            bs == content.spec_bytes(),
            sp == int_pairs(spans@),
            hi <= bs.len(),
            forall|k: int|
                0 <= k < spans@.len() ==> lo <= #[trigger] spans@[k].0 < spans@[k].1 <= hi && bs[spans@[k].0 as int]
                    == 96u8 && bs[spans@[k].1 - 1] == 96u8 && spans@[k].0 + 2 <= spans@[k].1,
            refs_are(out@, src@, bs, bt_shapes(bs, sp.take(k as int))),
        decreases spans@.len() - k,
    {
        let (s, e) = spans[k];
        let ghost m = (s as int, e as int);
        assert(sp.take(k + 1).drop_last() =~= sp.take(k as int));
        assert(sp.take(k + 1).last() == m);
        let lo2 = s + 1;
        let hi2 = e - 1;
        if has_byte_exec(b, lo2, hi2, 47u8) && !starts_with_http(b, lo2, hi2) && !starts_with_https(
            b,
            lo2,
            hi2,
        ) && !starts_with_slashes(b, lo2, hi2) {
            let t = rtrim_to_exec(b, lo2, hi2, 47u8);
            proof {
                lemma_rtrim_to(bs, lo2 as int, hi2 as int, 47u8);
            }
            let rf = make_ref(src, content, s, e, RefForm::Backtick, lo2, t, None);
            proof {
                lemma_refs_push(out@, rf, src@, bs, bt_shapes(bs, sp.take(k as int)), bt_shape(bs, m)[0]);
                assert(bt_shape(bs, m) =~= seq![bt_shape(bs, m)[0]]);
            }
            out.push(rf);
        } else {
            proof {
                lemma_refs_none(out@, src@, bs, bt_shapes(bs, sp.take(k as int)));
            }
        }
        k = k + 1;
    }
    assert(sp.take(k as int) =~= sp);
    out
}

/// All references of the line `content[lo..hi]`.
fn line_refs(src: &CanonicalPath, content: &str, lo: usize, hi: usize) -> (r: Vec<Reference>)
    requires
        lo <= hi <= content.spec_bytes().len(),
    ensures
        refs_are(r@, src@, content.spec_bytes(), line_shapes(content.spec_bytes(), lo as int, hi as int)),
{
    let ghost bs = content.spec_bytes();
    let spans = bt_spans_exec(content.as_bytes(), lo, hi);
    let ghost sp = int_pairs(spans@);
    let mut out = f1_refs(src, content, lo, hi, &spans);
    let mut v2 = f2_refs(src, content, lo, hi, &spans);
    let mut v3 = bt_refs(src, content, lo, hi, &spans);
    let mut v4 = h_refs(src, content, lo, hi, &spans);
    let ghost s1 = f1_shapes(bs, f1_all(bs, hi as int, lo as int), sp);
    let ghost s2 = f2_shapes(bs, f2_all(bs, hi as int, lo as int), sp);
    let ghost s3 = bt_shapes(bs, sp);
    let ghost s4 = h_shapes(bs, h_all(bs, hi as int, lo as int), sp);
    proof {
        lemma_refs_are_concat(out@, v2@, src@, bs, s1, s2);
        lemma_refs_are_concat(out@ + v2@, v3@, src@, bs, s1 + s2, s3);
        lemma_refs_are_concat(out@ + v2@ + v3@, v4@, src@, bs, s1 + s2 + s3, s4);
    }
    out.append(&mut v2);
    out.append(&mut v3);
    out.append(&mut v4);
    out
}

proof fn lemma_lead_ws_le(s: Seq<char>)
    ensures
        lead_ws(s) <= s.len(),
    decreases s.len(),
{
    if s.len() > 0 {
        lemma_lead_ws_le(s.drop_first());
    }
}

/// Whether `line`, after leading whitespace, starts with three backticks or three tildes.
pub fn is_fence_delimiter(line: &str) -> (r: bool)
    ensures
        r == is_fence_line(line@),
{
    proof {
        lemma_lead_ws_le(line@);
    }
    let t = trim_start(line);
    let n = t.unicode_len();
    if n < 3 {
        return false;
    }
    let c0 = t.get_char(0);
    let c1 = t.get_char(1);
    let c2 = t.get_char(2);
    (c0 == '`' && c1 == '`' && c2 == '`') || (c0 == '~' && c1 == '~' && c2 == '~')
}

/// Parse every Markdown reference of `content` (the file `source_file`).
///
/// Lines are split at `\n` (a trailing `\r` is dropped). A line that starts,
/// after whitespace, with three backticks or tildes toggles a fence; lines in a
/// fence and the delimiter lines yield nothing. Spans are byte offsets into
/// `content`. References are not resolved here.
pub fn parse_references(source_file: &CanonicalPath, content: &str) -> (r: Vec<Reference>)
    ensures
        refs_are(r@, source_file@, content.spec_bytes(), content_shapes(content.spec_bytes(), 0, false)),
{
    let b = content.as_bytes();
    let ghost bs = content.spec_bytes();
    let len = b.len();
    let mut out: Vec<Reference> = Vec::new();
    let mut in_fence = false;
    let mut pos: usize = 0;
    let ghost mut done: Seq<Shape> = seq![];
    while pos < len
        invariant
            b@ == bs,
            bs == content.spec_bytes(),
            len == bs.len(),
            0 <= pos <= len,
            pos == 0 || pos == len || bs[pos - 1] == 10u8,
            refs_are(out@, source_file@, bs, done),
            done + content_shapes(bs, pos as int, in_fence) == content_shapes(bs, 0, false),
        decreases len - pos,
    {
        let nl = find_byte_exec(b, pos, len, 10u8);
        proof {
            lemma_find_byte(bs, pos as int, len as int, 10u8);
        }
        let lend = rtrim_to_exec(b, pos, nl, 13u8);
        proof {
            lemma_rtrim_to(bs, pos as int, nl as int, 13u8);
        }
        let line = substr(content, pos, lend);
        let delim = is_fence_delimiter(line);
        let next = if nl < len { nl + 1 } else { len };
        let ghost here = if delim || in_fence { seq![] } else { line_shapes(bs, pos as int, lend as int) };
        assert(content_shapes(bs, pos as int, in_fence) == here + content_shapes(
            bs,
            next as int,
            if delim { !in_fence } else { in_fence },
        ));
        if delim {
            proof {
                lemma_refs_none(out@, source_file@, bs, done);
            }
            in_fence = !in_fence;
        } else if !in_fence {
            let mut v = line_refs(source_file, content, pos, lend);
            proof {
                lemma_refs_are_concat(out@, v@, source_file@, bs, done, here);
            }
            out.append(&mut v);
        } else {
            proof {
                lemma_refs_none(out@, source_file@, bs, done);
            }
        }
        proof {
            assert(done + here + content_shapes(bs, next as int, in_fence) =~= done + (here
                + content_shapes(bs, next as int, in_fence)));
            done = done + here;
        }
        pos = next;
    }
    assert(done + content_shapes(bs, pos as int, in_fence) =~= done);
    out
}

} // verus!
