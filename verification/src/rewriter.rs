//! Span-based rewriting: only parsed spans change, never a global replace.

use vstd::prelude::*;
use vstd::string::*;
use vstd::utf8::{encode_utf8, is_char_boundary};
use crate::model::{CanonicalPath, RewriteEntry};
use crate::resolver::{clean_fold, clean_spec, join_segs, split_segs, stem_bytes, stem_of};
use crate::text::{chars_of, lemma_encode_concat, substr_at_boundaries};

verus! {

broadcast use vstd::seq::group_seq_axioms;

/// A rewrite as `(start, end, replacement bytes)`.
pub type Edit = (int, int, Seq<u8>);

pub open spec fn edit_of(e: RewriteEntry) -> Edit {
    (e.span.0 as int, e.span.1 as int, encode_utf8(e.new_text@))
}

pub open spec fn edits_of(v: Seq<RewriteEntry>) -> Seq<Edit> {
    v.map_values(|e: RewriteEntry| edit_of(e))
}

/// Index of the first edit with the smallest start.
pub open spec fn argmin_start(es: Seq<Edit>) -> int
    decreases es.len(),
{
    if es.len() <= 1 {
        0
    } else {
        let k = argmin_start(es.drop_last());
        if es.last().0 < es[k].0 {
            es.len() - 1
        } else {
            k
        }
    }
}

/// The edits ordered by start.
pub open spec fn sort_by_start(es: Seq<Edit>) -> Seq<Edit>
    decreases es.len(),
{
    if es.len() == 0 {
        seq![]
    } else {
        let k = argmin_start(es);
        if 0 <= k < es.len() {
            seq![es[k]] + sort_by_start(es.remove(k))
        } else {
            seq![]
        }
    }
}

/// `b[pos..]` with the (start-ordered) edits spliced in.
pub open spec fn splice(b: Seq<u8>, es: Seq<Edit>, pos: int) -> Seq<u8>
    decreases es.len(),
{
    if es.len() == 0 {
        b.subrange(pos, b.len() as int)
    } else {
        b.subrange(pos, es[0].0) + es[0].2 + splice(b, es.drop_first(), es[0].1)
    }
}

/// The edits lie within `b`, start and end on character boundaries, and
/// pairwise neither overlap nor share a start.
pub open spec fn edits_ok(b: Seq<u8>, es: Seq<Edit>) -> bool {
    &&& forall|i: int| 0 <= i < es.len() ==> 0 <= #[trigger] es[i].0 <= es[i].1 <= b.len()
        && is_char_boundary(b, es[i].0) && is_char_boundary(b, es[i].1)
    &&& forall|i: int, j: int|
        0 <= i < es.len() && 0 <= j < es.len() && i != j ==> (#[trigger] es[i].1 <= #[trigger] es[j].0
            || es[j].1 <= es[i].0) && es[i].0 != es[j].0
}

proof fn lemma_argmin(es: Seq<Edit>)
    requires
        es.len() > 0,
    ensures
        0 <= argmin_start(es) < es.len(),
        forall|j: int| 0 <= j < es.len() ==> es[argmin_start(es)].0 <= #[trigger] es[j].0,
    decreases es.len(),
{
    if es.len() > 1 {
        lemma_argmin(es.drop_last());
        assert forall|j: int| 0 <= j < es.len() - 1 implies es.drop_last()[j] == es[j] by {}
    }
}

fn edit_view_at(entries: &[RewriteEntry], i: usize) -> (r: (usize, usize))
    requires
        i < entries@.len(),
    ensures
        r == entries@[i as int].span,
{
    entries[i].span
}

/// Apply span rewrites to `content`: each span is replaced by its new text.
/// The spans must not overlap (as the planner guarantees); they are applied
/// from the highest start down, so earlier offsets stay valid.
pub fn apply_rewrites(content: &str, entries: &[RewriteEntry]) -> (r: String)
    requires
        edits_ok(content.spec_bytes(), edits_of(entries@)),
    ensures
        encode_utf8(r@) == splice(content.spec_bytes(), sort_by_start(edits_of(entries@)), 0),
{
    let ghost b = content.spec_bytes();
    let ghost ev = edits_of(entries@);
    let n = entries.len();
    let mut rem: Vec<usize> = Vec::new();
    let mut i: usize = 0;
    while i < n
        invariant
            0 <= i <= n == entries@.len(),
            rem@ =~= Seq::new(i as nat, |j: int| j as usize),
        decreases n - i,
    {
        rem.push(i);
        i = i + 1;
    }
    let mut out = String::new();
    let mut pos: usize = 0;
    proof {
        vstd::utf8::encode_utf8_valid_utf8(content@);
        vstd::utf8::is_char_boundary_start_end_of_seq(b);
    }
    assert(rem@.map_values(|j: usize| ev[j as int]) =~= ev);
    while rem.len() > 0
        invariant
            n == entries@.len(),
            b == content.spec_bytes(),
            ev == edits_of(entries@),
            edits_ok(b, ev),
            forall|k: int| 0 <= k < rem@.len() ==> #[trigger] rem@[k] < n,
            forall|k: int, l: int| 0 <= k < rem@.len() && 0 <= l < rem@.len() && k != l ==> #[trigger] rem@[k] != #[trigger] rem@[l],
            forall|k: int| 0 <= k < rem@.len() ==> pos <= #[trigger] ev[rem@[k] as int].0,
            pos <= b.len(),
            vstd::utf8::valid_utf8(b),
            is_char_boundary(b, pos as int),
            encode_utf8(out@) + splice(b, sort_by_start(rem@.map_values(|j: usize| ev[j as int])), pos as int)
                == splice(b, sort_by_start(ev), 0),
        decreases rem@.len(),
    {
        let ghost rv = rem@.map_values(|j: usize| ev[j as int]);
        let mut k: usize = 0;
        let mut j: usize = 1;
        let ghost mut kk: int = 0;
        while j < rem.len()
            invariant
                1 <= j <= rem@.len(),
                k < j,
                rv == rem@.map_values(|j: usize| ev[j as int]),
                n == entries@.len(),
                ev == edits_of(entries@),
                forall|k: int| 0 <= k < rem@.len() ==> #[trigger] rem@[k] < n,
                k as int == argmin_start(rv.take(j as int)),
            decreases rem@.len() - j,
        {
            assert(rv.take(j + 1).drop_last() =~= rv.take(j as int));
            let sj = edit_view_at(entries, rem[j]);
            let sk = edit_view_at(entries, rem[k]);
            if sj.0 < sk.0 {
                k = j;
            }
            j = j + 1;
        }
        assert(rv.take(rem@.len() as int) =~= rv);
        proof {
            lemma_argmin(rv);
        }
        let ghost old_rem = rem@;
        let idx = rem.remove(k);
        let (s, e) = edit_view_at(entries, idx);
        let ghost m = ev[idx as int];
        assert(rem@.map_values(|j: usize| ev[j as int]) =~= rv.remove(k as int));
        assert(sort_by_start(rv) == seq![m] + sort_by_start(rv.remove(k as int)));
        let piece = substr_at_boundaries(content, pos, s);
        let ghost before = out@;
        out.append(piece);
        out.append(entries[idx].new_text.as_str());
        proof {
            lemma_encode_concat(before, piece@);
            lemma_encode_concat(before + piece@, entries@[idx as int].new_text@);
            assert forall|q: int| 0 <= q < rem@.len() implies e <= #[trigger] ev[rem@[q] as int].0 by {
                let qq = if q < k { q } else { q + 1 };
                assert(old_rem[qq] == rem@[q]);
                let jq = rem@[q] as int;
                assert(jq != idx);
                assert(rv[qq] == ev[jq]);
                assert(rv[k as int] == ev[idx as int]);
                assert(ev[idx as int].0 <= ev[jq].0);
                assert(ev[jq].0 <= ev[jq].1);
            }
            let sv = sort_by_start(rv.remove(k as int));
            assert((seq![m] + sv).drop_first() =~= sv);
            assert((seq![m] + sv)[0] == m);
            assert(m == (s as int, e as int, encode_utf8(entries@[idx as int].new_text@)));
            assert(encode_utf8(out@) + splice(b, sv, e as int)
                =~= encode_utf8(before) + splice(b, sort_by_start(rv), pos as int));
        }
        pos = e;
    }
    proof {
        vstd::utf8::is_char_boundary_start_end_of_seq(b);
    }
    let tail = substr_at_boundaries(content, pos, content.as_bytes().len());
    let ghost before = out@;
    proof {
        lemma_encode_concat(before, tail@);
    }
    out.append(tail);
    assert(rem@.map_values(|j: usize| ev[j as int]) =~= Seq::<Edit>::empty());
    out
}

/// The place of the last `/` before `i` in `s` (-1 when there is none).
pub open spec fn last_sep(s: Seq<char>, i: int) -> int
    decreases i,
{
    if i <= 0 || i > s.len() {
        -1
    } else if s[i - 1] == '/' {
        i - 1
    } else {
        last_sep(s, i - 1)
    }
}

/// Text of the directory holding `source` (before its last `/`, or empty).
pub open spec fn parent_dir(source: Seq<char>) -> Seq<char> {
    let i = last_sep(source, source.len() as int);
    if i >= 0 {
        source.take(i)
    } else {
        seq![]
    }
}

/// The length of the common prefix of `a` and `b` from `i` on.
pub open spec fn common_len(a: Seq<Seq<char>>, b: Seq<Seq<char>>, i: int) -> int
    decreases a.len() - i,
{
    if 0 <= i < a.len() && i < b.len() && a[i] == b[i] {
        common_len(a, b, i + 1)
    } else {
        i
    }
}

/// What `relative_path::RelativePath::relative` returns for `from` and `to`:
/// both are normalised (empty and `.` parts dropped, `..` removing the part
/// before it or kept at the head); past their common prefix, a `..` left in
/// `from` gives the empty path, and otherwise one `..` per part left in
/// `from` is followed by the parts left in `to`, joined with `/`.
pub open spec fn relative_path_result(from: Seq<char>, to: Seq<char>) -> Seq<char> {
    let f = clean_fold(split_segs(from), false);
    let t = clean_fold(split_segs(to), false);
    let k = common_len(f, t, 0);
    if k < f.len() && f[k] == seq!['.', '.'] {
        seq![]
    } else {
        join_segs(Seq::new((f.len() - k) as nat, |i: int| seq!['.', '.']) + t.skip(k))
    }
}

/// Calls `relative_path::RelativePath::relative`: the path leading from directory
/// `from` to `to`, as `relative_path_result` states it.
#[verifier::external_body]
fn relative_between(from: &str, to: &str) -> (r: String)
    ensures
        r@ == relative_path_result(from@, to@),
{
    relative_path::RelativePath::new(from).relative(relative_path::RelativePath::new(to)).into_string()
}

/// `path`, followed by `#anchor` when there is an anchor.
pub open spec fn with_anchor_spec(path: Seq<char>, anchor: Option<Seq<char>>) -> Seq<char> {
    match anchor {
        Some(a) => path + seq!['#'] + a,
        None => path,
    }
}

/// `path`, followed by `#anchor` when there is an anchor.
pub fn with_anchor(path: String, anchor: &Option<String>) -> (r: String)
    ensures
        r@ == with_anchor_spec(
            path@,
            match anchor {
                Some(a) => Some(a@),
                None => None,
            },
        ),
{
    match anchor {
        Some(a) => {
            let mut p = path;
            let h = "#";
            proof {
                reveal_strlit("#");
            }
            assert(h@ =~= seq!['#']);
            p.append(h);
            p.append(a.as_str());
            p
        },
        None => path,
    }
}

/// Directory of `source_file`: the text before its last `/`, or empty.
pub fn parent_of(source_file: &str) -> (r: &str)
    ensures
        r@ == parent_dir(source_file@),
{
    let n = source_file.unicode_len();
    let mut i: usize = n;
    while i > 0 && source_file.get_char(i - 1) != '/'
        invariant
            n == source_file@.len(),
            i <= n,
            last_sep(source_file@, i as int) == last_sep(source_file@, n as int),
        decreases i,
    {
        i = i - 1;
    }
    if i > 0 {
        let r = source_file.substring_char(0, i - 1);
        assert(r@ =~= source_file@.take(i - 1));
        r
    } else {
        let e = "";
        proof {
            reveal_strlit("");
        }
        assert(e@ =~= Seq::<char>::empty());
        e
    }
}

/// The new path text for a standard link in `source_file` that must point at
/// `dst`: the relative path from the source's directory to `dst`, plus the anchor.
pub fn compute_form1_new_text(source_file: &CanonicalPath, dst: &CanonicalPath, anchor: &Option<String>) -> (r: String)
    ensures
        r@ == with_anchor_spec(
            relative_path_result(parent_dir(source_file@), dst@),
            match anchor {
                Some(a) => Some(a@),
                None => None,
            },
        ),
{
    let parent = parent_of(source_file.as_str());
    let rel = relative_between(parent, dst.as_str());
    with_anchor(rel, anchor)
}

/// The new stem for a wiki link that must point at `dst`: its file name without `.md`.
pub fn compute_form2_new_text(dst: &CanonicalPath) -> (r: String)
    ensures
        encode_utf8(r@) == stem_bytes(dst@),
        r@ == chars_of(stem_bytes(dst@)),
{
    stem_of(dst.as_str()).to_owned()
}

} // verus!

verus! {

/// With no rewrites, the content comes back unchanged.
pub proof fn no_rewrites_no_change(b: Seq<u8>)
    ensures
        splice(b, sort_by_start(edits_of(Seq::<RewriteEntry>::empty())), 0) == b,
{
    assert(edits_of(Seq::<RewriteEntry>::empty()) =~= Seq::<Edit>::empty());
    assert(b.subrange(0, b.len() as int) =~= b);
}

/// One rewrite replaces exactly its span and keeps the text around it.
pub proof fn single_rewrite_replaces_its_span(b: Seq<u8>, e: Edit)
    requires
        0 <= e.0 <= e.1 <= b.len(),
    ensures
        splice(b, sort_by_start(seq![e]), 0) == b.subrange(0, e.0) + e.2 + b.subrange(e.1, b.len() as int),
{
    let s = seq![e];
    assert(argmin_start(s) == 0);
    assert(s.remove(0) =~= Seq::<Edit>::empty());
    assert(sort_by_start(Seq::<Edit>::empty()) == Seq::<Edit>::empty());
    assert(sort_by_start(s) =~= seq![e]);
    assert(seq![e].drop_first() =~= Seq::<Edit>::empty());
    assert(splice(b, Seq::<Edit>::empty(), e.1) == b.subrange(e.1, b.len() as int));
}

/// The starts of the edits are pairwise different.
pub open spec fn distinct_starts(es: Seq<Edit>) -> bool {
    forall|i: int, j: int| 0 <= i < es.len() && 0 <= j < es.len() && i != j ==> #[trigger] es[i].0 != #[trigger] es[j].0
}

proof fn lemma_sort_same_edits(es1: Seq<Edit>, es2: Seq<Edit>)
    requires
        es1.to_multiset() == es2.to_multiset(),
        distinct_starts(es1),
    ensures
        sort_by_start(es1) == sort_by_start(es2),
    decreases es1.len(),
{
    broadcast use vstd::seq_lib::to_multiset_len, vstd::seq_lib::to_multiset_contains;

    assert(es1.len() == es2.len()) by {
        vstd::seq_lib::to_multiset_len(es1);
        vstd::seq_lib::to_multiset_len(es2);
    }
    if es1.len() > 0 {
        lemma_argmin(es1);
        lemma_argmin(es2);
        let k1 = argmin_start(es1);
        let k2 = argmin_start(es2);
        let x = es1[k1];
        let y = es2[k2];
        vstd::seq_lib::to_multiset_contains(es1, x);
        vstd::seq_lib::to_multiset_contains(es2, x);
        vstd::seq_lib::to_multiset_contains(es1, y);
        vstd::seq_lib::to_multiset_contains(es2, y);
        assert(es1.contains(x));
        assert(es2.contains(x));
        let j = choose|j: int| 0 <= j < es2.len() && es2[j] == x;
        assert(y.0 <= es2[j].0);
        assert(es1.contains(y));
        let i = choose|i: int| 0 <= i < es1.len() && es1[i] == y;
        assert(x.0 <= es1[i].0);
        assert(es1[i].0 == es1[k1].0);
        assert(i == k1);
        assert(y == x);
        vstd::seq_lib::to_multiset_remove(es1, k1);
        vstd::seq_lib::to_multiset_remove(es2, k2);
        let r1 = es1.remove(k1);
        let r2 = es2.remove(k2);
        assert(distinct_starts(r1)) by {
            assert forall|a: int, b: int| 0 <= a < r1.len() && 0 <= b < r1.len() && a != b implies #[trigger] r1[a].0
                != #[trigger] r1[b].0 by {
                let a1 = if a < k1 { a } else { a + 1 };
                let b1 = if b < k1 { b } else { b + 1 };
                assert(r1[a] == es1[a1]);
                assert(r1[b] == es1[b1]);
            }
        }
        lemma_sort_same_edits(r1, r2);
    }
}

/// The order the rewrites are given in does not matter: two lists holding
/// the same rewrites, whose spans are valid and disjoint, give the same text.
pub proof fn rewrite_order_does_not_matter(b: Seq<u8>, e1: Seq<RewriteEntry>, e2: Seq<RewriteEntry>)
    requires
        edits_ok(b, edits_of(e1)),
        edits_of(e1).to_multiset() == edits_of(e2).to_multiset(),
    ensures
        splice(b, sort_by_start(edits_of(e1)), 0) == splice(b, sort_by_start(edits_of(e2)), 0),
{
    let es = edits_of(e1);
    assert(distinct_starts(es)) by {
        assert forall|i: int, j: int| 0 <= i < es.len() && 0 <= j < es.len() && i != j implies #[trigger] es[i].0
            != #[trigger] es[j].0 by {
            assert(es[i].1 <= es[j].0 || es[j].1 <= es[i].0);
        }
    }
    lemma_sort_same_edits(es, edits_of(e2));
}

/// An anchor only appends itself: the new text of a link with anchor `a` is
/// the new text without it, `#`, and `a`.
pub proof fn anchor_appends_to_new_text(source: Seq<char>, dst: Seq<char>, a: Seq<char>)
    ensures
        with_anchor_spec(relative_path_result(parent_dir(source), dst), Some(a)) == with_anchor_spec(
            relative_path_result(parent_dir(source), dst),
            None,
        ) + seq!['#'] + a,
{
}

} // verus!

verus! {

// ───────────────────────── the round trip of a rewritten link ─────────────────────────

/// Path parts of a canonical path: none empty, `.` or `..`, none holding `/`.
pub open spec fn canon_segs(ss: Seq<Seq<char>>) -> bool {
    forall|i: int|
        0 <= i < ss.len() ==> (#[trigger] ss[i]).len() > 0 && !ss[i].contains('/') && ss[i] != seq!['.'] && ss[i]
            != seq!['.', '.']
}

/// `n` parts `..`.
pub open spec fn up_steps(n: nat) -> Seq<Seq<char>> {
    Seq::new(n, |i: int| seq!['.', '.'])
}

spec fn fold_from(out: Seq<Seq<char>>, segs: Seq<Seq<char>>) -> Seq<Seq<char>>
    decreases segs.len(),
{
    if segs.len() == 0 {
        out
    } else {
        crate::resolver::clean_step(fold_from(out, segs.drop_last()), segs.last(), false)
    }
}

proof fn lemma_cfind_absent(s: Seq<char>)
    requires
        !s.contains('/'),
    ensures
        crate::resolver::cfind(s, '/') == s.len(),
    decreases s.len(),
{
    if s.len() > 0 {
        assert(s[0] != '/');
        assert(!s.drop_first().contains('/')) by {
            if s.drop_first().contains('/') {
                let j = choose|j: int| 0 <= j < s.drop_first().len() && s.drop_first()[j] == '/';
                assert(s[j + 1] == '/');
            }
        }
        lemma_cfind_absent(s.drop_first());
    }
}

proof fn lemma_split_concat(a: Seq<char>, b: Seq<char>)
    ensures
        split_segs(a + seq!['/'] + b) == split_segs(a) + split_segs(b),
    decreases a.len(),
{
    let s = a + seq!['/'] + b;
    let i = crate::resolver::cfind(a, '/');
    lemma_cfind_range(a);
    if 0 <= i < a.len() {
        lemma_cfind_prefix(a, seq!['/'] + b);
        assert(s =~= a + (seq!['/'] + b));
        assert(crate::resolver::cfind(s, '/') == i);
        assert(s.take(i) =~= a.take(i));
        assert(s.skip(i + 1) =~= a.skip(i + 1) + seq!['/'] + b);
        lemma_split_concat(a.skip(i + 1), b);
    } else {
        lemma_cfind_prefix(a, seq!['/'] + b);
        assert(s =~= a + (seq!['/'] + b));
        assert(crate::resolver::cfind(s, '/') == a.len());
        assert(s.take(a.len() as int) =~= a);
        assert(s.skip((a.len() + 1) as int) =~= b);
    }
}

proof fn lemma_cfind_range(s: Seq<char>)
    ensures
        0 <= crate::resolver::cfind(s, '/') <= s.len(),
        crate::resolver::cfind(s, '/') < s.len() ==> s[crate::resolver::cfind(s, '/')] == '/',
        crate::resolver::cfind(s, '/') == s.len() ==> !s.contains('/'),
    decreases s.len(),
{
    if s.len() > 0 && s[0] != '/' {
        lemma_cfind_range(s.drop_first());
        if crate::resolver::cfind(s, '/') == s.len() {
            assert(!s.contains('/')) by {
                if s.contains('/') {
                    let j = choose|j: int| 0 <= j < s.len() && s[j] == '/';
                    assert(s.drop_first()[j - 1] == '/');
                }
            }
        }
    }
}

proof fn lemma_cfind_prefix(a: Seq<char>, b: Seq<char>)
    ensures
        crate::resolver::cfind(a, '/') < a.len() ==> crate::resolver::cfind(a + b, '/') == crate::resolver::cfind(a, '/'),
        crate::resolver::cfind(a, '/') >= a.len() ==> crate::resolver::cfind(a + b, '/') == a.len() + crate::resolver::cfind(b, '/'),
    decreases a.len(),
{
    if a.len() > 0 {
        assert((a + b)[0] == a[0]);
        assert((a + b).drop_first() =~= a.drop_first() + b);
        lemma_cfind_prefix(a.drop_first(), b);
    } else {
        assert(a + b =~= b);
    }
}

proof fn lemma_split_join(ss: Seq<Seq<char>>)
    requires
        ss.len() > 0,
        forall|i: int| 0 <= i < ss.len() ==> !(#[trigger] ss[i]).contains('/'),
    ensures
        split_segs(join_segs(ss)) == ss,
    decreases ss.len(),
{
    if ss.len() == 1 {
        lemma_cfind_absent(ss[0]);
        assert(split_segs(ss[0]) =~= seq![ss[0]]);
        assert(ss =~= seq![ss[0]]);
    } else {
        let init = ss.drop_last();
        assert forall|i: int| 0 <= i < init.len() implies !(#[trigger] init[i]).contains('/') by {
            assert(init[i] == ss[i]);
        }
        lemma_split_join(init);
        lemma_split_concat(join_segs(init), ss.last());
        lemma_cfind_absent(ss.last());
        assert(split_segs(ss.last()) =~= seq![ss.last()]);
        assert(ss =~= init + seq![ss.last()]);
    }
}

proof fn lemma_fold_is_fold_from(segs: Seq<Seq<char>>)
    ensures
        clean_fold(segs, false) == fold_from(seq![], segs),
    decreases segs.len(),
{
    if segs.len() > 0 {
        lemma_fold_is_fold_from(segs.drop_last());
    }
}

proof fn lemma_fold_concat(out: Seq<Seq<char>>, a: Seq<Seq<char>>, b: Seq<Seq<char>>)
    ensures
        fold_from(out, a + b) == fold_from(fold_from(out, a), b),
    decreases b.len(),
{
    if b.len() == 0 {
        assert(a + b =~= a);
    } else {
        assert((a + b).drop_last() =~= a + b.drop_last());
        assert((a + b).last() == b.last());
        lemma_fold_concat(out, a, b.drop_last());
    }
}

/// No part `..`.
pub open spec fn no_up(ss: Seq<Seq<char>>) -> bool {
    forall|i: int| 0 <= i < ss.len() ==> #[trigger] ss[i] != seq!['.', '.']
}

proof fn lemma_fold_canon(out: Seq<Seq<char>>, ss: Seq<Seq<char>>)
    requires
        canon_segs(ss),
    ensures
        fold_from(out, ss) == out + ss,
    decreases ss.len(),
{
    if ss.len() > 0 {
        let init = ss.drop_last();
        assert(canon_segs(init)) by {
            assert forall|i: int| 0 <= i < init.len() implies (#[trigger] init[i]).len() > 0 && !init[i].contains('/')
                && init[i] != seq!['.'] && init[i] != seq!['.', '.'] by {
                assert(init[i] == ss[i]);
            }
        }
        lemma_fold_canon(out, init);
        assert(ss.last() == ss[ss.len() - 1]);
        assert(out + ss =~= (out + init).push(ss.last()));
    }
}

proof fn lemma_fold_ups(out: Seq<Seq<char>>, m: nat)
    requires
        m <= out.len(),
        no_up(out),
    ensures
        fold_from(out, up_steps(m)) == out.take(out.len() - m),
    decreases m,
{
    if m == 0 {
        assert(up_steps(0) =~= Seq::<Seq<char>>::empty());
        assert(out.take(out.len() as int) =~= out);
    } else {
        assert(up_steps(m).drop_last() =~= up_steps((m - 1) as nat));
        lemma_fold_ups(out, (m - 1) as nat);
        let prev = out.take(out.len() - m + 1);
        assert(prev.last() == out[out.len() - m]);
        assert(prev.drop_last() =~= out.take(out.len() - m));
    }
}

proof fn lemma_common_len(a: Seq<Seq<char>>, b: Seq<Seq<char>>, i: int)
    requires
        0 <= i <= a.len(),
        i <= b.len(),
        a.take(i) == b.take(i),
    ensures
        i <= common_len(a, b, i) <= a.len(),
        common_len(a, b, i) <= b.len(),
        a.take(common_len(a, b, i)) == b.take(common_len(a, b, i)),
        common_len(a, b, i) == a.len() || common_len(a, b, i) == b.len() || a[common_len(a, b, i)] != b[common_len(a, b, i)],
    decreases a.len() - i,
{
    if i < a.len() && i < b.len() && a[i] == b[i] {
        assert(a.take(i + 1) =~= a.take(i).push(a[i]));
        assert(b.take(i + 1) =~= b.take(i).push(b[i]));
        lemma_common_len(a, b, i + 1);
    }
}

proof fn lemma_canon_norm(ss: Seq<Seq<char>>)
    requires
        canon_segs(ss),
    ensures
        clean_fold(split_segs(join_segs(ss)), false) == ss,
{
    if ss.len() == 0 {
        assert(join_segs(ss) =~= Seq::<char>::empty());
        assert(split_segs(Seq::<char>::empty()) =~= seq![Seq::<char>::empty()]);
        let e = seq![Seq::<char>::empty()];
        assert(e.drop_last() =~= Seq::<Seq<char>>::empty());
        assert(e.last() == Seq::<char>::empty());
        assert(clean_fold(e, false) == crate::resolver::clean_step(
            clean_fold(e.drop_last(), false),
            e.last(),
            false,
        ));
        assert(clean_fold(Seq::<Seq<char>>::empty(), false) == Seq::<Seq<char>>::empty());
    } else {
        lemma_split_join(ss);
        lemma_fold_is_fold_from(ss);
        lemma_fold_canon(seq![], ss);
        assert(Seq::<Seq<char>>::empty() + ss =~= ss);
    }
}

proof fn lemma_join_first(ss: Seq<Seq<char>>)
    requires
        ss.len() > 0,
        ss[0].len() > 0,
    ensures
        join_segs(ss).len() > 0,
        join_segs(ss)[0] == ss[0][0],
    decreases ss.len(),
{
    if ss.len() > 1 {
        assert(ss.drop_last()[0] == ss[0]);
        lemma_join_first(ss.drop_last());
    }
}

/// A rewritten standard link leads back to its target: from the folder with
/// the canonical parts `dir`, the relative path that `compute_form1_new_text`
/// computes for the canonical target with the parts `to`, joined onto the
/// folder and cleaned as `resolve_form1` cleans it, is the target again.
pub proof fn relative_link_leads_to_target(dir: Seq<Seq<char>>, to: Seq<Seq<char>>)
    requires
        canon_segs(dir),
        canon_segs(to),
        to.len() > 0,
    ensures
        clean_spec(
            crate::resolver::join_onto(join_segs(dir), relative_path_result(join_segs(dir), join_segs(to))),
        ) == join_segs(to),
{
    let d = join_segs(dir);
    let t = join_segs(to);
    lemma_canon_norm(dir);
    lemma_canon_norm(to);
    assert(no_up(dir)) by {
        assert forall|i: int| 0 <= i < dir.len() implies #[trigger] dir[i] != seq!['.', '.'] by {
            assert(canon_segs(dir));
        }
    }
    assert(dir.take(0) =~= to.take(0));
    lemma_common_len(dir, to, 0);
    let k = common_len(dir, to, 0);
    let m = (dir.len() - k) as nat;
    let u = up_steps(m) + to.skip(k);
    let r = join_segs(u);
    assert(relative_path_result(d, t) == r);
    assert(canon_segs(to.skip(k))) by {
        assert forall|i: int| 0 <= i < to.skip(k).len() implies (#[trigger] to.skip(k)[i]).len() > 0 && !to.skip(
            k,
        )[i].contains('/') && to.skip(k)[i] != seq!['.'] && to.skip(k)[i] != seq!['.', '.'] by {
            assert(to.skip(k)[i] == to[i + k]);
        }
    }
    assert(forall|i: int| 0 <= i < u.len() ==> !(#[trigger] u[i]).contains('/')) by {
        assert forall|i: int| 0 <= i < u.len() implies !(#[trigger] u[i]).contains('/') by {
            if i < m {
                assert(u[i] == seq!['.', '.']);
                assert(!seq!['.', '.'].contains('/')) by {
                    if seq!['.', '.'].contains('/') {
                        let j = choose|j: int| 0 <= j < 2 && seq!['.', '.'][j] == '/';
                    }
                }
            } else {
                assert(u[i] == to.skip(k)[i - m]);
            }
        }
    }
    // folding the parts of the rewritten path
    lemma_fold_ups(dir, m);
    assert(dir.take(dir.len() - m) == dir.take(k));
    lemma_fold_concat(dir, up_steps(m), to.skip(k));
    lemma_fold_canon(dir.take(k), to.skip(k));
    assert(dir.take(k) + to.skip(k) =~= to) by {
        assert(to =~= to.take(k) + to.skip(k));
    }
    assert(fold_from(dir, u) == to);
    let joined = crate::resolver::join_onto(d, r);
    lemma_join_first(to);
    if dir.len() == 0 {
        assert(k == 0);
        assert(u =~= to) by {
            assert(up_steps(0) =~= Seq::<Seq<char>>::empty());
            assert(to.skip(0) =~= to);
        }
        assert(joined == t);
    } else {
        lemma_split_join(dir);
        lemma_split_concat(d, r);
        lemma_join_first(dir);
        if u.len() == 0 {
            assert(join_segs(u) =~= Seq::<char>::empty());
            assert(split_segs(Seq::<char>::empty()) =~= seq![Seq::<char>::empty()]);
            lemma_fold_is_fold_from(dir + seq![Seq::<char>::empty()]);
            lemma_fold_concat(seq![], dir, seq![Seq::<char>::empty()]);
            lemma_fold_is_fold_from(dir);
            assert(seq![Seq::<char>::empty()].drop_last() =~= Seq::<Seq<char>>::empty());
            assert(fold_from(dir, Seq::<Seq<char>>::empty()) == dir);
            assert(to.len() == k);
            assert(dir.len() == k);
            assert(dir =~= dir.take(k));
            assert(to =~= to.take(k));
        } else {
            lemma_split_join(u);
            lemma_fold_is_fold_from(dir + u);
            lemma_fold_concat(seq![], dir, u);
            lemma_fold_is_fold_from(dir);
        }
        assert(joined =~= d + seq!['/'] + r);
        assert(joined[0] == dir[0][0]);
    }
}

} // verus!

verus! {

// ───────────────────────── a rewritten link, resolved again ─────────────────────────

proof fn lemma_last_sep_none(s: Seq<char>, i: int)
    requires
        0 <= i <= s.len(),
        !s.contains('/'),
    ensures
        last_sep(s, i) == -1,
    decreases i,
{
    if i > 0 {
        assert(s[i - 1] != '/') by {
            if s[i - 1] == '/' {
                assert(s.contains('/'));
            }
        }
        lemma_last_sep_none(s, i - 1);
    }
}

proof fn lemma_last_sep_after(x: Seq<char>, name: Seq<char>, i: int)
    requires
        !name.contains('/'),
        x.len() + 1 <= i <= x.len() + 1 + name.len(),
    ensures
        last_sep(x + seq!['/'] + name, i) == x.len(),
    decreases i,
{
    let s = x + seq!['/'] + name;
    if i > x.len() + 1 {
        assert(s[i - 1] == name[i - 2 - x.len()]);
        assert(name[i - 2 - x.len()] != '/') by {
            if name[i - 2 - x.len()] == '/' {
                assert(name.contains('/'));
            }
        }
        lemma_last_sep_after(x, name, i - 1);
    }
}

/// No part holds `c` and `c` is not `/`: the joined text holds no `c`.
proof fn lemma_join_avoids(ss: Seq<Seq<char>>, c: char)
    requires
        c != '/',
        forall|i: int| 0 <= i < ss.len() ==> !(#[trigger] ss[i]).contains(c),
    ensures
        !join_segs(ss).contains(c),
    decreases ss.len(),
{
    if ss.len() == 1 {
        assert(!ss[0].contains(c));
    } else if ss.len() > 1 {
        let init = ss.drop_last();
        assert forall|i: int| 0 <= i < init.len() implies !(#[trigger] init[i]).contains(c) by {
            assert(init[i] == ss[i]);
        }
        lemma_join_avoids(init, c);
        let j = join_segs(ss);
        assert(j == join_segs(init) + seq!['/'] + ss.last());
        assert(!ss[ss.len() - 1].contains(c));
        if j.contains(c) {
            let k = choose|k: int| 0 <= k < j.len() && j[k] == c;
            let a = join_segs(init);
            if k < a.len() {
                assert(a[k] == c);
                assert(a.contains(c));
            } else if k > a.len() {
                assert(ss.last()[k - a.len() - 1] == c);
                assert(ss.last().contains(c));
            }
        }
    }
}

proof fn lemma_scalar_not_hash(c: char)
    requires
        c != '#',
    ensures
        forall|i: int| 0 <= i < vstd::utf8::encode_scalar(c as u32).len() ==> #[trigger] vstd::utf8::encode_scalar(c as u32)[i] != 35u8,
{
    let v = c as u32;
    assert(v != 35u32);
    assert(vstd::utf8::has_width_1_encoding(v) ==> vstd::utf8::leading_byte_width_1(v) != 35u8) by (bit_vector)
        requires
            v != 35u32,
    ;
    assert(vstd::utf8::leading_byte_width_2(v) != 35u8) by (bit_vector);
    assert(vstd::utf8::leading_byte_width_3(v) != 35u8) by (bit_vector);
    assert(vstd::utf8::leading_byte_width_4(v) != 35u8) by (bit_vector);
    assert(vstd::utf8::last_continuation_byte(v) != 35u8) by (bit_vector);
    assert(vstd::utf8::second_last_continuation_byte(v) != 35u8) by (bit_vector);
    assert(vstd::utf8::third_last_continuation_byte(v) != 35u8) by (bit_vector);
}

/// Text without `#` encodes to bytes without `#`.
proof fn lemma_encode_no_hash(s: Seq<char>)
    requires
        !s.contains('#'),
    ensures
        forall|i: int| 0 <= i < encode_utf8(s).len() ==> #[trigger] encode_utf8(s)[i] != 35u8,
    decreases s.len(),
{
    if s.len() > 0 {
        assert(s[0] != '#') by {
            if s[0] == '#' {
                assert(s.contains('#'));
            }
        }
        assert(!s.drop_first().contains('#')) by {
            if s.drop_first().contains('#') {
                let k = choose|k: int| 0 <= k < s.drop_first().len() && s.drop_first()[k] == '#';
                assert(s[k + 1] == '#');
            }
        }
        lemma_scalar_not_hash(s[0]);
        lemma_encode_no_hash(s.drop_first());
        let h = vstd::utf8::encode_scalar(s[0] as u32);
        let t = encode_utf8(s.drop_first());
        assert(encode_utf8(s) == h + t);
        assert forall|i: int| 0 <= i < encode_utf8(s).len() implies #[trigger] encode_utf8(s)[i] != 35u8 by {
            if i < h.len() {
                assert(encode_utf8(s)[i] == h[i]);
            } else {
                assert(encode_utf8(s)[i] == t[i - h.len()]);
            }
        }
    }
}

proof fn lemma_no_anchor(r: Seq<char>)
    requires
        !r.contains('#'),
    ensures
        crate::resolver::without_anchor(r) == r,
{
    let b = encode_utf8(r);
    lemma_encode_no_hash(r);
    crate::text::lemma_find_byte(b, 0, b.len() as int, 35u8);
    assert(b.subrange(0, b.len() as int) =~= b);
    vstd::utf8::encode_utf8_decode_utf8(r);
}

/// The relative path between two canonical paths: one `..` per part of the
/// folder past the common prefix, then the rest of the target.
proof fn lemma_relative_form(dir: Seq<Seq<char>>, to: Seq<Seq<char>>)
    requires
        canon_segs(dir),
        canon_segs(to),
    ensures
        relative_path_result(join_segs(dir), join_segs(to)) == join_segs(
            up_steps((dir.len() - common_len(dir, to, 0)) as nat) + to.skip(common_len(dir, to, 0)),
        ),
        0 <= common_len(dir, to, 0) <= dir.len(),
        common_len(dir, to, 0) <= to.len(),
{
    lemma_canon_norm(dir);
    lemma_canon_norm(to);
    assert(dir.take(0) =~= to.take(0));
    lemma_common_len(dir, to, 0);
}

/// The text of canonical parts stays as it is under the last steps of
/// resolving a link: forward slashes, no leading `./`, no climbing above the root.
proof fn lemma_canonical_text_kept(to: Seq<Seq<char>>)
    requires
        canon_segs(to),
        to.len() > 0,
        forall|i: int| 0 <= i < to.len() ==> !(#[trigger] to[i]).contains('\\'),
    ensures
        crate::resolver::drop_up_steps(crate::resolver::canonical_of_cleaned(join_segs(to))) == join_segs(to),
{
    let x = join_segs(to);
    lemma_join_avoids(to, '\\');
    assert(crate::resolver::slashes_forward(x) =~= x) by {
        assert forall|i: int| 0 <= i < x.len() implies crate::resolver::slashes_forward(x)[i] == x[i] by {
            if x[i] == '\\' {
                assert(x.contains('\\'));
            }
        }
    }
    assert forall|i: int| 0 <= i < to.len() implies !(#[trigger] to[i]).contains('/') by {
        assert(canon_segs(to));
    }
    lemma_split_join(to);
    assert(split_segs(x) == to);
    if x.len() >= 2 && x[0] == '.' && x[1] == '/' {
        assert(crate::resolver::cfind(x.drop_first(), '/') == 0);
        assert(crate::resolver::cfind(x, '/') == 1);
        assert(split_segs(x)[0] =~= seq!['.']);
        assert(to[0] == seq!['.']);
        assert(false);
    }
    assert(crate::resolver::strip_dot_slash(x) == x);
    if x.len() >= 3 && x[0] == '.' && x[1] == '.' && x[2] == '/' {
        assert(x.drop_first()[0] == '.');
        assert(crate::resolver::cfind(x.drop_first().drop_first(), '/') == 0);
        assert(x.drop_first().drop_first() =~= x.skip(2));
        assert(crate::resolver::cfind(x.drop_first(), '/') == 1);
        assert(crate::resolver::cfind(x, '/') == 2);
        assert(split_segs(x)[0] =~= seq!['.', '.']);
        assert(to[0] == seq!['.', '.']);
        assert(false);
    }
    if x == seq!['.', '.'] {
        assert(crate::resolver::cfind(x.drop_first().drop_first(), '/') == 0);
        assert(crate::resolver::cfind(x, '/') == 2);
        assert(split_segs(x) =~= seq![x]);
        assert(to[0] == seq!['.', '.']);
        assert(false);
    }
}

/// A standard link that `compute_form1_new_text` writes resolves back to its
/// target: in a source file with the canonical parts `dir` then `name`, the
/// new text for the canonical target with the parts `to` (no `#` or `\` in
/// them), resolved as `resolve_form1` resolves a link of a plain source, is
/// the target.
pub proof fn rewritten_link_resolves_to_target(dir: Seq<Seq<char>>, name: Seq<char>, to: Seq<Seq<char>>)
    requires
        canon_segs(dir.push(name)),
        canon_segs(to),
        to.len() > 0,
        forall|i: int| 0 <= i < to.len() ==> !(#[trigger] to[i]).contains('#') && !to[i].contains('\\'),
    ensures
        crate::resolver::plain_rel_path(join_segs(dir.push(name))),
        crate::resolver::form1_plain(
            join_segs(dir.push(name)),
            with_anchor_spec(relative_path_result(parent_dir(join_segs(dir.push(name))), join_segs(to)), None),
        ) == join_segs(to),
{
    let all = dir.push(name);
    let src = join_segs(all);
    assert(canon_segs(dir)) by {
        assert forall|i: int| 0 <= i < dir.len() implies (#[trigger] dir[i]).len() > 0 && !dir[i].contains('/')
            && dir[i] != seq!['.'] && dir[i] != seq!['.', '.'] by {
            assert(dir[i] == all[i]);
        }
    }
    assert(all[all.len() - 1] == name);
    assert(!name.contains('/'));
    assert forall|i: int| 0 <= i < all.len() implies !(#[trigger] all[i]).contains('/') by {
        assert(canon_segs(all));
    }
    lemma_split_join(all);
    assert(split_segs(src) == all);
    assert(all.drop_last() =~= dir);
    // the parent the link is resolved from is the folder `dir`
    if dir.len() == 0 {
        assert(all =~= seq![name]);
        assert(src == name);
        lemma_last_sep_none(name, name.len() as int);
        assert(parent_dir(src) =~= join_segs(dir));
    } else {
        assert(src == join_segs(dir) + seq!['/'] + name);
        lemma_last_sep_after(join_segs(dir), name, src.len() as int);
        assert(parent_dir(src) =~= join_segs(dir));
    }
    // the new text has no anchor to lose
    lemma_relative_form(dir, to);
    let k = common_len(dir, to, 0);
    let u = up_steps((dir.len() - k) as nat) + to.skip(k);
    let r = relative_path_result(join_segs(dir), join_segs(to));
    assert(r == join_segs(u));
    assert forall|i: int| 0 <= i < u.len() implies !(#[trigger] u[i]).contains('#') by {
        if i < dir.len() - k {
            assert(u[i] == seq!['.', '.']);
            if seq!['.', '.'].contains('#') {
                let j = choose|j: int| 0 <= j < 2 && seq!['.', '.'][j] == '#';
            }
        } else {
            assert(u[i] == to[i - (dir.len() - k) + k]);
        }
    }
    lemma_join_avoids(u, '#');
    lemma_no_anchor(r);
    assert(with_anchor_spec(r, None) == r);
    relative_link_leads_to_target(dir, to);
    lemma_canonical_text_kept(to);
}

} // verus!
