//! The planning side of a move transaction: which references a move of `src`
//! to `dst` touches (cases A, B and C), and the text each one is rewritten to.
//!
//! Case A: a file outside `src` points inside it, so the target path changes.
//! Case B: a file inside `src` points outside it, so the file itself moves and
//! its relative path changes. Case C: both ends lie inside `src` and move
//! together, so nothing changes. Reading, writing, renaming and the temporary
//! operation directory are the caller's business.

use vstd::prelude::*;
use vstd::string::*;
use vstd::utf8::encode_utf8;
use crate::model::{CanonicalPath, RefForm, Reference, RewriteEntry, RewritePlan};
use crate::parser::{content_shapes, parse_references, ref_is, refs_are, Shape};
use crate::paths::{join_from, split_slash};
use crate::resolver::{
    form1_target, join_segs, resolve_form1, resolve_form2, split_segs, stem_bytes, stem_matches, stem_of,
    views, ResolveResult,
};
use crate::rewriter::{compute_form2_new_text, with_anchor, with_anchor_spec};
use crate::text::{bytes_eq, chars_of, cut_ok, push_char, str_eq, substr};
use crate::infra::{decode_path, decode_spec, TempError};
use crate::validator::{
    broken_of, broken_views, check_view, check_views, checks_for, file_checks, validate_files, CheckView, LinkCheck,
};
pub use crate::validator::BrokenRef;

verus! {

broadcast use vstd::seq::group_seq_axioms;

// ───────────────────────── inside / remap ─────────────────────────

/// `p` is `s` itself or lies under the directory `s/`.
pub open spec fn inside_spec(p: Seq<char>, s: Seq<char>) -> bool {
    ||| p == s
    ||| (p.len() > s.len() && p.take(s.len() as int) == s && p[s.len() as int] == '/')
}

/// Whether `path` is `src` or lies inside the directory `src/`.
/// `projects/foobar.md` is not inside `projects/foo`.
pub fn inside_src(path: &CanonicalPath, src: &CanonicalPath) -> (r: bool)
    ensures
        r == inside_spec(path@, src@),
{
    let p = path.as_str();
    let s = src.as_str();
    let pl = p.unicode_len();
    let sl = s.unicode_len();
    if pl < sl {
        return false;
    }
    let mut i: usize = 0;
    while i < sl
        invariant
            p@ == path@,
            s@ == src@,
            pl == p@.len(),
            sl == s@.len(),
            sl <= pl,
            0 <= i <= sl,
            forall|j: int| 0 <= j < i ==> p@[j] == s@[j],
        decreases sl - i,
    {
        let a = p.get_char(i);
        let b = s.get_char(i);
        if a != b {
            assert(p@.take(sl as int)[i as int] == a);
            assert(p@.take(sl as int) != s@);
            assert(p@ != s@);
            return false;
        }
        i = i + 1;
    }
    assert(p@.take(sl as int) =~= s@);
    if pl == sl {
        assert(p@ =~= s@);
        true
    } else {
        p.get_char(sl) == '/'
    }
}

/// `c` moved from under `s` to under `d`.
pub open spec fn remap_spec(c: Seq<char>, s: Seq<char>, d: Seq<char>) -> Seq<char> {
    if c == s {
        d
    } else {
        d + c.skip(s.len() as int)
    }
}

/// Move a canonical path from under `src` to under `dst`:
/// `src` itself becomes `dst`, `src/rest` becomes `dst/rest`.
pub fn remap_path(canonical: &CanonicalPath, src: &CanonicalPath, dst: &CanonicalPath) -> (r: CanonicalPath)
    requires
        inside_spec(canonical@, src@),
    ensures
        r@ == remap_spec(canonical@, src@, dst@),
{
    if str_eq(canonical.as_str(), src.as_str()) {
        dst.clone()
    } else {
        let n = canonical.as_str().unicode_len();
        let sl = src.as_str().unicode_len();
        let mut out = dst.clone();
        let rest = canonical.as_str().substring_char(sl, n);
        assert(rest@ =~= canonical@.skip(sl as int));
        out.append(rest);
        out
    }
}

// ───────────────────────── relative paths ─────────────────────────

/// Last index of `c` in `s`, or `-1`.
pub open spec fn crfind(s: Seq<char>, c: char) -> int
    decreases s.len(),
{
    if s.len() == 0 {
        -1
    } else if s.last() == c {
        s.len() - 1
    } else {
        crfind(s.drop_last(), c)
    }
}

/// The directory segments of file path `f` (none for a file at the root).
pub open spec fn dir_segs(f: Seq<char>) -> Seq<Seq<char>> {
    let i = crfind(f, '/');
    if i >= 0 {
        split_segs(f.take(i))
    } else {
        seq![]
    }
}

/// Length of the longest common prefix of two segment lists.
pub open spec fn common_len(a: Seq<Seq<char>>, b: Seq<Seq<char>>) -> nat
    decreases a.len(),
{
    if a.len() > 0 && b.len() > 0 && a[0] == b[0] {
        1 + common_len(a.drop_first(), b.drop_first())
    } else {
        0
    }
}

pub proof fn lemma_common_len(a: Seq<Seq<char>>, b: Seq<Seq<char>>)
    ensures
        common_len(a, b) <= a.len(),
        common_len(a, b) <= b.len(),
        forall|i: int| 0 <= i < common_len(a, b) ==> a[i] == b[i],
        common_len(a, b) < a.len() && common_len(a, b) < b.len() ==> a[common_len(a, b) as int]
            != b[common_len(a, b) as int],
    decreases a.len(),
{
    if a.len() > 0 && b.len() > 0 && a[0] == b[0] {
        lemma_common_len(a.drop_first(), b.drop_first());
        assert forall|i: int| 0 <= i < common_len(a, b) implies a[i] == b[i] by {
            if i > 0 {
                assert(a.drop_first()[i - 1] == b.drop_first()[i - 1]);
            }
        }
    }
}

/// `n` segments `..`.
pub open spec fn ups(n: nat) -> Seq<Seq<char>> {
    Seq::new(n, |i: int| seq!['.', '.'])
}

/// The segments of the path from the directory of `from` to `to`.
pub open spec fn rel_segs(from: Seq<char>, to: Seq<char>) -> Seq<Seq<char>> {
    let fd = dir_segs(from);
    let tp = split_segs(to);
    let k = common_len(fd, tp);
    ups((fd.len() - k) as nat) + tp.skip(k as int)
}

/// The relative path from the directory of `from` to `to` (`to` itself when
/// there are no segments at all).
pub open spec fn relative_spec(from: Seq<char>, to: Seq<char>) -> Seq<char> {
    let r = rel_segs(from, to);
    if r.len() == 0 {
        to
    } else {
        join_segs(r)
    }
}

/// The path to write in `from_file` to reach `to_file`, both workspace-relative:
/// `..` for each directory of `from_file` past the common prefix, then the rest
/// of `to_file`. `a/b/source.md` to `a/target.md` gives `../target.md`.
pub fn compute_relative_path(from_file: &CanonicalPath, to_file: &CanonicalPath) -> (r: String)
    ensures
        r@ == relative_spec(from_file@, to_file@),
{
    let f = from_file.as_str();
    let fl = f.unicode_len();
    let mut j: usize = fl;
    assert(f@.take(fl as int) =~= f@);
    while j > 0 && f.get_char(j - 1) != '/'
        invariant
            fl == f@.len(),
            j <= fl,
            crfind(f@, '/') == crfind(f@.take(j as int), '/'),
        decreases j,
    {
        assert(f@.take(j as int).drop_last() =~= f@.take(j - 1));
        j = j - 1;
    }
    let from_dir: Vec<String> = if j > 0 {
        assert(crfind(f@.take(j as int), '/') == j - 1);
        split_slash(f.substring_char(0, j - 1))
    } else {
        Vec::new()
    };
    let to_parts = split_slash(to_file.as_str());
    let ghost fd = views(from_dir@);
    let ghost tp = views(to_parts@);
    assert(fd == dir_segs(f@)) by {
        if j > 0 {
            assert(f@.subrange(0, j - 1) =~= f@.take(j - 1));
        } else {
            assert(views(from_dir@) =~= Seq::<Seq<char>>::empty());
        }
    }
    let mut k: usize = 0;
    assert(fd.skip(0) =~= fd);
    assert(tp.skip(0) =~= tp);
    while k < from_dir.len() && k < to_parts.len() && from_dir[k] == to_parts[k]
        invariant
            fd == views(from_dir@),
            tp == views(to_parts@),
            k <= from_dir@.len(),
            k <= to_parts@.len(),
            common_len(fd, tp) == k + common_len(fd.skip(k as int), tp.skip(k as int)),
        decreases from_dir@.len() - k,
    {
        assert(fd.skip(k as int).drop_first() =~= fd.skip(k + 1));
        assert(tp.skip(k as int).drop_first() =~= tp.skip(k + 1));
        k = k + 1;
    }
    assert(common_len(fd, tp) == k);
    let up = from_dir.len() - k;
    let mut rel: Vec<String> = Vec::new();
    let mut u: usize = 0;
    while u < up
        invariant
            u <= up,
            views(rel@) =~= ups(u as nat),
        decreases up - u,
    {
        let dd = "..";
        proof {
            reveal_strlit("..");
        }
        assert(dd@ =~= seq!['.', '.']);
        let ghost before = views(rel@);
        rel.push(dd.to_owned());
        assert(views(rel@) =~= before.push(seq!['.', '.']));
        assert(views(rel@) =~= ups((u + 1) as nat));
        u = u + 1;
    }
    let mut m: usize = k;
    while m < to_parts.len()
        invariant
            tp == views(to_parts@),
            k <= m <= to_parts@.len(),
            views(rel@) =~= ups(up as nat) + tp.subrange(k as int, m as int),
        decreases to_parts@.len() - m,
    {
        let ghost before = views(rel@);
        rel.push(to_parts[m].clone());
        assert(views(rel@) =~= before.push(tp[m as int]));
        assert(views(rel@) =~= ups(up as nat) + tp.subrange(k as int, m + 1));
        m = m + 1;
    }
    assert(views(rel@) =~= rel_segs(f@, to_file@));
    if rel.len() == 0 {
        to_file.clone()
    } else {
        let r = join_from(&rel, 0);
        assert(views(rel@).skip(0) =~= views(rel@));
        r
    }
}

} // verus!

verus! {

// ───────────────────────── standard-link text ─────────────────────────

/// First index `i >= from` with `b[i..i+2] == "]("`, or `-1`.
pub open spec fn find_close_open(b: Seq<u8>, from: int) -> int
    decreases b.len() - from,
{
    if from < 0 || from + 1 >= b.len() {
        -1
    } else if b[from] == 93u8 && b[from + 1] == 40u8 {
        from
    } else {
        find_close_open(b, from + 1)
    }
}

pub proof fn lemma_find_close_open(b: Seq<u8>, from: int)
    requires
        0 <= from,
    ensures
        find_close_open(b, from) == -1 || (from <= find_close_open(b, from) && find_close_open(b, from) + 1
            < b.len() && b[find_close_open(b, from)] == 93u8 && b[find_close_open(b, from) + 1] == 40u8),
    decreases b.len() - from,
{
    if from + 1 < b.len() && !(b[from] == 93u8 && b[from + 1] == 40u8) {
        lemma_find_close_open(b, from + 1);
    }
}

/// The link text of a standard link: the bytes between the leading `[` and the first `](`.
pub open spec fn link_text_of(old: Seq<char>) -> Seq<char> {
    let b = encode_utf8(old);
    chars_of(b.subrange(1, find_close_open(b, 0)))
}

/// A standard link rebuilt around a new path; link text that copied the old
/// path exactly follows the new one, any other link text stays.
pub open spec fn rebuild_spec(
    old: Seq<char>,
    new_rel: Seq<char>,
    anchor: Option<Seq<char>>,
    old_raw: Seq<char>,
) -> Seq<char> {
    let link = link_text_of(old);
    let text = if link == old_raw {
        new_rel
    } else {
        link
    };
    seq!['['] + text + seq![']', '('] + with_anchor_spec(new_rel, anchor) + seq![')']
}

pub open spec fn opt_view(o: Option<String>) -> Option<Seq<char>> {
    match o {
        Some(s) => Some(s@),
        None => None,
    }
}

/// Rebuild a standard link `[text](path#anchor)` with `new_rel_path` as its path.
/// The text between `[` and the first `](` is the link text.
pub fn rebuild_form1_ref(old_text: &str, new_rel_path: &str, anchor: &Option<String>, old_target_raw: &str) -> (r: String)
    requires
        find_close_open(old_text.spec_bytes(), 0) >= 1,
        cut_ok(old_text.spec_bytes(), 1),
    ensures
        r@ == rebuild_spec(old_text@, new_rel_path@, opt_view(*anchor), old_target_raw@),
{
    let b = old_text.as_bytes();
    let ghost bs = old_text.spec_bytes();
    proof {
        lemma_find_close_open(bs, 0);
    }
    let mut k: usize = 0;
    let blen = b.len();
    while !(k + 1 < blen && b[k] == 93u8 && b[k + 1] == 40u8)
        invariant
            b@ == bs,
            blen == bs.len(),
            0 <= k <= find_close_open(bs, 0),
            find_close_open(bs, 0) + 1 < bs.len(),
            bs[find_close_open(bs, 0)] == 93u8,
            bs[find_close_open(bs, 0) + 1] == 40u8,
            find_close_open(bs, k as int) == find_close_open(bs, 0),
        decreases find_close_open(bs, 0) - k,
    {
        assert(find_close_open(bs, k as int) == find_close_open(bs, k + 1));
        k = k + 1;
    }
    let link = substr(old_text, 1, k);
    let text: &str = if str_eq(link, old_target_raw) {
        new_rel_path
    } else {
        link
    };
    let mut out = String::new();
    let open = "[";
    let mid = "](";
    let close = ")";
    proof {
        reveal_strlit("[");
        reveal_strlit("](");
        reveal_strlit(")");
    }
    out.append(open);
    out.append(text);
    out.append(mid);
    let path = with_anchor(new_rel_path.to_owned(), anchor);
    out.append(path.as_str());
    out.append(close);
    assert(out@ =~= rebuild_spec(old_text@, new_rel_path@, opt_view(*anchor), old_target_raw@));
    out
}

/// Rebuilding a standard link replaces only its path and never touches the
/// anchor: the rebuilt link opens with `[`, and ends with `](`, the new
/// relative path, `#`, the same anchor and `)`; a link without an anchor ends
/// with `](`, the new path and `)`.
pub proof fn rebuilt_link_keeps_anchor(
    old: Seq<char>,
    new_rel: Seq<char>,
    anchor: Option<Seq<char>>,
    old_raw: Seq<char>,
)
    ensures
        rebuild_spec(old, new_rel, anchor, old_raw)[0] == '[',
        anchor matches Some(a) ==> {
            let r = rebuild_spec(old, new_rel, anchor, old_raw);
            let tail = seq![']', '('] + new_rel + seq!['#'] + a + seq![')'];
            r.len() >= tail.len() + 1 && r.skip(r.len() - tail.len()) == tail
        },
        anchor is None ==> {
            let r = rebuild_spec(old, new_rel, anchor, old_raw);
            let tail = seq![']', '('] + new_rel + seq![')'];
            r.len() >= tail.len() + 1 && r.skip(r.len() - tail.len()) == tail
        },
{
    let r = rebuild_spec(old, new_rel, anchor, old_raw);
    let link = link_text_of(old);
    let text = if link == old_raw {
        new_rel
    } else {
        link
    };
    match anchor {
        Some(a) => {
            let tail = seq![']', '('] + new_rel + seq!['#'] + a + seq![')'];
            assert(r =~= seq!['['] + text + tail);
            assert(r.skip(r.len() - tail.len()) =~= tail);
        },
        None => {
            let tail = seq![']', '('] + new_rel + seq![')'];
            assert(r =~= seq!['['] + text + tail);
            assert(r.skip(r.len() - tail.len()) =~= tail);
        },
    }
}

// ───────────────────────── partial backtick paths ─────────────────────────

pub open spec fn starts_with_chars(t: Seq<char>, p: Seq<char>) -> bool {
    t.len() >= p.len() && t.take(p.len() as int) == p
}

/// What follows `ss` in `t` when `t` is `ss` or a path under `ss/`.
pub open spec fn partial_tail(t: Seq<char>, ss: Seq<char>) -> Option<Seq<char>> {
    if t == ss {
        Some(seq![])
    } else if starts_with_chars(t, ss.push('/')) {
        Some(t.skip(ss.len() as int))
    } else {
        None
    }
}

/// Try the suffixes `sp[n..]`, `sp[n+1..]`, ... of the source segments in turn.
pub open spec fn partial_from(t: Seq<char>, sp: Seq<Seq<char>>, dp: Seq<Seq<char>>, n: int) -> Option<Seq<char>>
    decreases sp.len() - n,
{
    if n < 1 || n >= sp.len() {
        None
    } else {
        match partial_tail(t, join_segs(sp.skip(n))) {
            None => partial_from(t, sp, dp, n + 1),
            Some(tail) => {
                if n >= dp.len() {
                    partial_from(t, sp, dp, n + 1)
                } else if join_segs(dp.skip(n)) + tail == t {
                    partial_from(t, sp, dp, n + 1)
                } else {
                    Some(join_segs(dp.skip(n)) + tail)
                }
            },
        }
    }
}

/// The rewrite of a partial backtick path: `t` names a proper suffix of `src`
/// (one that starts after a `/`), or a path under one; the same suffix of
/// `dst` takes its place. `None` when nothing matches or nothing would change.
pub open spec fn partial_spec(t: Seq<char>, src: Seq<char>, dst: Seq<char>) -> Option<Seq<char>> {
    partial_from(t, split_segs(src), split_segs(dst), 1)
}

/// `partial_tail` on strings.
fn tail_after(t: &str, ss: &str) -> (r: Option<String>)
    ensures
        opt_view(r) == partial_tail(t@, ss@),
{
    if str_eq(t, ss) {
        return Some(String::new());
    }
    let tl = t.unicode_len();
    let sl = ss.unicode_len();
    if tl <= sl {
        assert(!starts_with_chars(t@, ss@.push('/')));
        return None;
    }
    let mut i: usize = 0;
    while i < sl
        invariant
            tl == t@.len(),
            sl == ss@.len(),
            sl < tl,
            0 <= i <= sl,
            forall|j: int| 0 <= j < i ==> t@[j] == ss@[j],
        decreases sl - i,
    {
        let a = t.get_char(i);
        let b = ss.get_char(i);
        if a != b {
            assert(t@.take(sl + 1)[i as int] != ss@.push('/')[i as int]);
            return None;
        }
        i = i + 1;
    }
    if t.get_char(sl) != '/' {
        assert(t@.take(sl + 1)[sl as int] != ss@.push('/')[sl as int]);
        return None;
    }
    assert(t@.take(sl + 1) =~= ss@.push('/'));
    let rest = t.substring_char(sl, tl);
    assert(rest@ =~= t@.skip(sl as int));
    Some(rest.to_owned())
}

/// When `target_raw` is a proper suffix of `src` that begins after a `/` (or a
/// path under one), the same suffix of `dst` in its place; `None` when there
/// is no match or the rewrite changes nothing. With `src = a/b/c` and
/// `dst = x/y/c`, `b/c/d.md` becomes `y/c/d.md`.
pub fn rewrite_partial_backtick(target_raw: &str, src: &str, dst: &str) -> (r: Option<String>)
    ensures
        opt_view(r) == partial_spec(target_raw@, src@, dst@),
{
    let src_parts = split_slash(src);
    let dst_parts = split_slash(dst);
    let ghost sp = views(src_parts@);
    let ghost dp = views(dst_parts@);
    let mut n: usize = 1;
    while n < src_parts.len()
        invariant
            sp == views(src_parts@),
            dp == views(dst_parts@),
            sp == split_segs(src@),
            dp == split_segs(dst@),
            1 <= n,
            partial_from(target_raw@, sp, dp, n as int) == partial_spec(target_raw@, src@, dst@),
        decreases src_parts@.len() - n,
    {
        let src_suffix = join_from(&src_parts, n);
        match tail_after(target_raw, src_suffix.as_str()) {
            None => {},
            Some(tail) => {
                if n < dst_parts.len() {
                    let mut new_target = join_from(&dst_parts, n);
                    new_target.append(tail.as_str());
                    if !str_eq(new_target.as_str(), target_raw) {
                        return Some(new_target);
                    }
                }
            },
        }
        n = n + 1;
    }
    None
}

} // verus!

verus! {

// ───────────────────────── small string helpers ─────────────────────────

/// Whether `t` begins with `p`.
pub fn starts_with_str(t: &str, p: &str) -> (r: bool)
    ensures
        r == starts_with_chars(t@, p@),
{
    let tl = t.unicode_len();
    let pl = p.unicode_len();
    if tl < pl {
        return false;
    }
    let mut i: usize = 0;
    while i < pl
        invariant
            tl == t@.len(),
            pl == p@.len(),
            pl <= tl,
            0 <= i <= pl,
            forall|j: int| 0 <= j < i ==> t@[j] == p@[j],
        decreases pl - i,
    {
        let a = t.get_char(i);
        let b = p.get_char(i);
        if a != b {
            assert(t@.take(pl as int)[i as int] != p@[i as int]);
            return false;
        }
        i = i + 1;
    }
    assert(t@.take(pl as int) =~= p@);
    true
}

/// First index `i >= from` at which `p` occurs in `s`, or `-1`.
pub open spec fn find_seq(s: Seq<char>, p: Seq<char>, from: int) -> int
    decreases s.len() + 1 - from,
{
    if from < 0 || from + p.len() > s.len() {
        -1
    } else if s.subrange(from, from + p.len()) == p {
        from
    } else {
        find_seq(s, p, from + 1)
    }
}

/// `s` with the first occurrence of `p` replaced by `rep` (unchanged when `p` does not occur).
pub open spec fn replace_first_spec(s: Seq<char>, p: Seq<char>, rep: Seq<char>) -> Seq<char> {
    let i = find_seq(s, p, 0);
    if i >= 0 {
        s.take(i) + rep + s.skip(i + p.len())
    } else {
        s
    }
}

/// Whether `p` occurs in `s` at index `i`.
pub fn matches_at(s: &str, p: &str, i: usize) -> (r: bool)
    requires
        i + p@.len() <= s@.len(),
    ensures
        r == (s@.subrange(i as int, i + p@.len()) == p@),
{
    let pl = p.unicode_len();
    let sl = s.unicode_len();
    let mut j: usize = 0;
    while j < pl
        invariant
            pl == p@.len(),
            sl == s@.len(),
            i + pl <= s@.len(),
            0 <= j <= pl,
            forall|k: int| 0 <= k < j ==> s@[i + k] == p@[k],
        decreases pl - j,
    {
        let a = s.get_char(i + j);
        let b = p.get_char(j);
        if a != b {
            assert(s@.subrange(i as int, i + pl)[j as int] != p@[j as int]);
            return false;
        }
        j = j + 1;
    }
    assert(s@.subrange(i as int, i + pl) =~= p@);
    true
}

/// `s` with the first occurrence of `p` replaced by `rep`.
pub fn replace_first(s: &str, p: &str, rep: &str) -> (r: String)
    ensures
        r@ == replace_first_spec(s@, p@, rep@),
{
    let sl = s.unicode_len();
    let pl = p.unicode_len();
    let mut i: usize = 0;
    if pl > sl {
        assert(find_seq(s@, p@, 0) == -1);
        return s.to_owned();
    }
    if pl == 0 {
        assert(s@.subrange(0, 0) =~= p@);
        let mut out = rep.to_owned();
        out.append(s);
        assert(out@ =~= replace_first_spec(s@, p@, rep@));
        return out;
    }
    while i <= sl - pl
        invariant
            sl == s@.len(),
            pl == p@.len(),
            1 <= pl <= sl,
            i <= sl - pl + 1,
            find_seq(s@, p@, i as int) == find_seq(s@, p@, 0),
        decreases sl + 1 - i,
    {
        if matches_at(s, p, i) {
            let mut out = s.substring_char(0, i).to_owned();
            out.append(rep);
            out.append(s.substring_char(i + pl, sl));
            assert(out@ =~= replace_first_spec(s@, p@, rep@));
            return out;
        }
        i = i + 1;
    }
    assert(find_seq(s@, p@, i as int) == -1);
    s.to_owned()
}

/// Whether index `k` of `b` is a cut point next to an ASCII byte (or an end).
fn cut_ok_exec(b: &[u8], k: usize) -> (r: bool)
    ensures
        r == cut_ok(b@, k as int),
{
    k == 0 || k == b.len() || (k < b.len() && b[k] < 128) || (0 < k && k <= b.len() && b[k - 1] < 128)
}

// ───────────────────────── per-reference planning ─────────────────────────

/// A reference as plain values: source file, byte span, form, target, anchor.
pub type RefView = (Seq<char>, (int, int), RefForm, Seq<char>, Option<Seq<char>>);

pub open spec fn ref_view(r: Reference) -> RefView {
    (r.source_file@, (r.span.0 as int, r.span.1 as int), r.form, r.target_raw@, opt_view(r.anchor))
}

pub open spec fn ref_views(v: Seq<Reference>) -> Seq<RefView> {
    v.map_values(|r: Reference| ref_view(r))
}

/// The reference that a parser shape stands for in file `src` with bytes `b`.
pub open spec fn shape_view(src: Seq<char>, b: Seq<u8>, sh: Shape) -> RefView {
    (
        src,
        (sh.0, sh.1),
        sh.2,
        chars_of(b.subrange(sh.3, sh.4)),
        match sh.5 {
            None => None,
            Some((a, c)) => Some(chars_of(b.subrange(a, c))),
        },
    )
}

/// The references of file `src` with bytes `b`, as the parser finds them.
pub open spec fn parsed_views(src: Seq<char>, b: Seq<u8>) -> Seq<RefView> {
    content_shapes(b, 0, false).map_values(|sh: Shape| shape_view(src, b, sh))
}

pub proof fn lemma_parsed_views(v: Seq<Reference>, src: Seq<char>, b: Seq<u8>)
    requires
        refs_are(v, src, b, content_shapes(b, 0, false)),
    ensures
        ref_views(v) == parsed_views(src, b),
{
    let shs = content_shapes(b, 0, false);
    assert forall|i: int| 0 <= i < v.len() implies ref_views(v)[i] == parsed_views(src, b)[i] by {
        assert(ref_is(v[i], src, b, shs[i]));
    }
    assert(ref_views(v) =~= parsed_views(src, b));
}

/// A span that can be cut out of the text: in bounds and next to ASCII bytes.
pub open spec fn span_ok(b: Seq<u8>, s0: int, s1: int) -> bool {
    0 <= s0 <= s1 <= b.len() && cut_ok(b, s0) && cut_ok(b, s1)
}

/// The text of a span.
pub open spec fn span_text(b: Seq<u8>, sp: (int, int)) -> Seq<char> {
    chars_of(b.subrange(sp.0, sp.1))
}

pub open spec fn anchor_root_prefix() -> Seq<char> {
    seq!['$', '(', 'a', 'n', 'c', 'h', 'o', 'r', ' ', 'r', 'o', 'o', 't', ')', '/']
}

/// New text of an inline code path. A `$(anchor root)/` prefix is set aside
/// before matching and kept; a `./` or `../` path is resolved against the file
/// first and written back relative to it; a trailing `/` inside the backticks
/// is kept. A path inside `src` (or a partial path of it) moves to `dst`;
/// unprefixed references in files inside `src` stay as they are.
pub open spec fn backtick_spec(rv: RefView, file: Seq<char>, b: Seq<u8>, src: Seq<char>, dst: Seq<char>) -> Option<Seq<char>> {
    let t = rv.3;
    let has_pre = starts_with_chars(t, anchor_root_prefix());
    let norm = if has_pre {
        t.skip(15)
    } else {
        t
    };
    let was_rel = starts_with_chars(norm, seq!['.', '/']) || starts_with_chars(norm, seq!['.', '.', '/']);
    let tm = if was_rel {
        form1_target(rv.0, norm)
    } else {
        norm
    };
    let nn = if inside_spec(tm, src) {
        Some(remap_spec(tm, src, dst))
    } else {
        partial_spec(tm, src, dst)
    };
    match nn {
        None => None,
        Some(n) => {
            if !has_pre && inside_spec(file, src) {
                None
            } else {
                let body = if has_pre {
                    anchor_root_prefix() + n
                } else if was_rel {
                    relative_spec(file, n)
                } else {
                    n
                };
                let slash = if rv.1.1 - rv.1.0 >= 3 && b[rv.1.1 - 2] == 47u8 {
                    seq!['/']
                } else {
                    seq![]
                };
                Some(seq!['`'] + body + slash + seq!['`'])
            }
        },
    }
}

/// New text of a wiki link: only a link from outside `src` to a file inside it
/// (resolved by a unique stem), and only when the stem changes; the stem after
/// `[[` is replaced and an alias stays.
pub open spec fn wiki_spec(
    rv: RefView,
    file: Seq<char>,
    b: Seq<u8>,
    src: Seq<char>,
    dst: Seq<char>,
    files: Seq<String>,
) -> Option<Seq<char>> {
    let m = stem_matches(files, encode_utf8(rv.3));
    if m.len() != 1 {
        None
    } else if !inside_spec(m[0], src) || inside_spec(file, src) {
        None
    } else {
        let os = stem_bytes(m[0]);
        let ns = stem_bytes(remap_spec(m[0], src, dst));
        if os == ns {
            None
        } else {
            Some(
                replace_first_spec(
                    span_text(b, rv.1),
                    seq!['[', '['] + chars_of(os),
                    seq!['[', '['] + chars_of(ns),
                ),
            )
        }
    }
}

/// The new relative path for a link between `file` and target `c` when exactly
/// one of them lies inside `src` (the other case yields nothing).
pub open spec fn moved_rel(file: Seq<char>, c: Seq<char>, src: Seq<char>, dst: Seq<char>) -> Seq<char> {
    if !inside_spec(file, src) {
        relative_spec(file, remap_spec(c, src, dst))
    } else {
        relative_spec(remap_spec(file, src, dst), c)
    }
}

/// New text of an `href` attribute: case A or B only; the quote character
/// (the sixth byte of the span, `"` when there is none) is kept.
pub open spec fn href_spec(rv: RefView, file: Seq<char>, b: Seq<u8>, src: Seq<char>, dst: Seq<char>) -> Option<Seq<char>> {
    let c = form1_target(file, rv.3);
    if inside_spec(file, src) == inside_spec(c, src) {
        None
    } else {
        let q: char = if rv.1.0 + 5 < rv.1.1 {
            b[rv.1.0 + 5] as char
        } else {
            '"'
        };
        Some(seq!['h', 'r', 'e', 'f', '='] + seq![q] + moved_rel(file, c, src, dst) + seq![q])
    }
}

/// New text of a standard link: case A or B only, rebuilt around the new relative path.
pub open spec fn standard_spec(rv: RefView, file: Seq<char>, b: Seq<u8>, src: Seq<char>, dst: Seq<char>) -> Option<Seq<char>> {
    let c = form1_target(file, rv.3);
    let ob = b.subrange(rv.1.0, rv.1.1);
    if inside_spec(file, src) == inside_spec(c, src) {
        None
    } else if !(find_close_open(ob, 0) >= 1 && cut_ok(ob, 1)) {
        None
    } else {
        Some(rebuild_spec(span_text(b, rv.1), moved_rel(file, c, src, dst), rv.4, rv.3))
    }
}

/// The new text of reference `rv` of `file` (bytes `b`) for the move of `src`
/// to `dst`, or `None` when the move leaves it alone.
pub open spec fn new_text_for(
    rv: RefView,
    file: Seq<char>,
    b: Seq<u8>,
    src: Seq<char>,
    dst: Seq<char>,
    files: Seq<String>,
) -> Option<Seq<char>> {
    if !span_ok(b, rv.1.0, rv.1.1) {
        None
    } else {
        match rv.2 {
            RefForm::Backtick => backtick_spec(rv, file, b, src, dst),
            RefForm::Wiki => wiki_spec(rv, file, b, src, dst, files),
            RefForm::HtmlHref => href_spec(rv, file, b, src, dst),
            _ => standard_spec(rv, file, b, src, dst),
        }
    }
}

} // verus!

verus! {

fn span_is_ok(content: &str, sp: (usize, usize)) -> (r: bool)
    ensures
        r == span_ok(content.spec_bytes(), sp.0 as int, sp.1 as int),
{
    let b = content.as_bytes();
    sp.0 <= sp.1 && sp.1 <= b.len() && cut_ok_exec(b, sp.0) && cut_ok_exec(b, sp.1)
}

fn backtick_new_text(
    r: &Reference,
    file: &CanonicalPath,
    content: &str,
    src: &CanonicalPath,
    dst: &CanonicalPath,
) -> (o: Option<String>)
    requires
        span_ok(content.spec_bytes(), r.span.0 as int, r.span.1 as int),
    ensures
        opt_view(o) == backtick_spec(ref_view(*r), file@, content.spec_bytes(), src@, dst@),
{
    let t = r.target_raw.as_str();
    let pre = "$(anchor root)/";
    let dot = "./";
    let dotdot = "../";
    proof {
        reveal_strlit("$(anchor root)/");
        reveal_strlit("./");
        reveal_strlit("../");
    }
    assert(pre@ =~= anchor_root_prefix());
    assert(dot@ =~= seq!['.', '/']);
    assert(dotdot@ =~= seq!['.', '.', '/']);
    let has_pre = starts_with_str(t, pre);
    let norm: &str = if has_pre {
        t.substring_char(15, t.unicode_len())
    } else {
        t
    };
    assert(has_pre ==> norm@ =~= t@.skip(15));
    let was_rel = starts_with_str(norm, dot) || starts_with_str(norm, dotdot);
    let tm: String = if was_rel {
        resolve_form1(&r.source_file, norm)
    } else {
        norm.to_owned()
    };
    let nn: String = if inside_src(&tm, src) {
        remap_path(&tm, src, dst)
    } else {
        match rewrite_partial_backtick(tm.as_str(), src.as_str(), dst.as_str()) {
            Some(x) => x,
            None => {
                return None;
            },
        }
    };
    if !has_pre && inside_src(file, src) {
        return None;
    }
    let b = content.as_bytes();
    let s0 = r.span.0;
    let s1 = r.span.1;
    let slash = s1 - s0 >= 3 && b[s1 - 2] == 47u8;
    let tick = "`";
    let sl = "/";
    proof {
        reveal_strlit("`");
        reveal_strlit("/");
    }
    let mut out = String::new();
    out.append(tick);
    if has_pre {
        out.append(pre);
        out.append(nn.as_str());
    } else if was_rel {
        let rel = compute_relative_path(file, &nn);
        out.append(rel.as_str());
    } else {
        out.append(nn.as_str());
    }
    if slash {
        out.append(sl);
    }
    out.append(tick);
    assert(out@ =~= backtick_spec(ref_view(*r), file@, content.spec_bytes(), src@, dst@).unwrap());
    Some(out)
}

fn wiki_new_text(
    r: &Reference,
    file: &CanonicalPath,
    content: &str,
    src: &CanonicalPath,
    dst: &CanonicalPath,
    workspace_files: &[CanonicalPath],
) -> (o: Option<String>)
    requires
        span_ok(content.spec_bytes(), r.span.0 as int, r.span.1 as int),
    ensures
        opt_view(o) == wiki_spec(ref_view(*r), file@, content.spec_bytes(), src@, dst@, workspace_files@),
{
    let target = match resolve_form2(r.target_raw.as_str(), workspace_files) {
        ResolveResult::Resolved(c) => c,
        _ => {
            return None;
        },
    };
    if !inside_src(&target, src) || inside_src(file, src) {
        return None;
    }
    let new_target = remap_path(&target, src, dst);
    let old_stem = stem_of(target.as_str());
    let new_stem = compute_form2_new_text(&new_target);
    if bytes_eq(old_stem.as_bytes(), new_stem.as_str().as_bytes()) {
        return None;
    }
    let old_text = substr(content, r.span.0, r.span.1);
    let open = "[[";
    proof {
        reveal_strlit("[[");
    }
    assert(open@ =~= seq!['[', '[']);
    let mut prefix = open.to_owned();
    prefix.append(old_stem);
    let mut new_prefix = open.to_owned();
    new_prefix.append(new_stem.as_str());
    assert(prefix@ =~= seq!['[', '['] + chars_of(stem_bytes(target@)));
    assert(new_prefix@ =~= seq!['[', '['] + chars_of(stem_bytes(new_target@)));
    assert(old_text@ == span_text(content.spec_bytes(), ref_view(*r).1));
    Some(replace_first(old_text, prefix.as_str(), new_prefix.as_str()))
}

fn moved_rel_exec(file: &CanonicalPath, c: &CanonicalPath, src: &CanonicalPath, dst: &CanonicalPath) -> (r: String)
    requires
        inside_spec(file@, src@) != inside_spec(c@, src@),
    ensures
        r@ == moved_rel(file@, c@, src@, dst@),
{
    if !inside_src(file, src) {
        let nt = remap_path(c, src, dst);
        compute_relative_path(file, &nt)
    } else {
        let nf = remap_path(file, src, dst);
        compute_relative_path(&nf, c)
    }
}

fn href_new_text(
    r: &Reference,
    file: &CanonicalPath,
    content: &str,
    src: &CanonicalPath,
    dst: &CanonicalPath,
) -> (o: Option<String>)
    requires
        span_ok(content.spec_bytes(), r.span.0 as int, r.span.1 as int),
    ensures
        opt_view(o) == href_spec(ref_view(*r), file@, content.spec_bytes(), src@, dst@),
{
    let c = resolve_form1(file, r.target_raw.as_str());
    if inside_src(file, src) == inside_src(&c, src) {
        return None;
    }
    let rel = moved_rel_exec(file, &c, src, dst);
    let b = content.as_bytes();
    let q: char = if r.span.1 - r.span.0 > 5 {
        b[r.span.0 + 5] as char
    } else {
        '"'
    };
    let head = "href=";
    proof {
        reveal_strlit("href=");
    }
    let mut out = head.to_owned();
    push_char(&mut out, q);
    out.append(rel.as_str());
    push_char(&mut out, q);
    assert(out@ =~= href_spec(ref_view(*r), file@, content.spec_bytes(), src@, dst@).unwrap());
    Some(out)
}

/// Whether `old` has a `](` past its first byte and can be cut after that byte.
fn form1_text_ok(old: &str) -> (r: bool)
    ensures
        r == (find_close_open(old.spec_bytes(), 0) >= 1 && cut_ok(old.spec_bytes(), 1)),
{
    let b = old.as_bytes();
    let n = b.len();
    if n < 2 {
        return false;
    }
    let mut i: usize = 0;
    while i < n - 1
        invariant
            b@ == old.spec_bytes(),
            n == b@.len(),
            n >= 2,
            find_close_open(b@, i as int) == find_close_open(b@, 0),
        decreases n - i,
    {
        if b[i] == 93u8 && b[i + 1] == 40u8 {
            return i >= 1 && cut_ok_exec(b, 1);
        }
        i = i + 1;
    }
    false
}

fn standard_new_text(
    r: &Reference,
    file: &CanonicalPath,
    content: &str,
    src: &CanonicalPath,
    dst: &CanonicalPath,
) -> (o: Option<String>)
    requires
        span_ok(content.spec_bytes(), r.span.0 as int, r.span.1 as int),
    ensures
        opt_view(o) == standard_spec(ref_view(*r), file@, content.spec_bytes(), src@, dst@),
{
    let c = resolve_form1(file, r.target_raw.as_str());
    if inside_src(file, src) == inside_src(&c, src) {
        return None;
    }
    let old_text = substr(content, r.span.0, r.span.1);
    if !form1_text_ok(old_text) {
        return None;
    }
    let rel = moved_rel_exec(file, &c, src, dst);
    Some(rebuild_form1_ref(old_text, rel.as_str(), &r.anchor, r.target_raw.as_str()))
}

/// The new text of one reference of `file` for the move of `src` to `dst`,
/// or `None` when the move leaves it alone.
pub fn new_text_for_ref(
    r: &Reference,
    file: &CanonicalPath,
    content: &str,
    src: &CanonicalPath,
    dst: &CanonicalPath,
    workspace_files: &[CanonicalPath],
) -> (o: Option<String>)
    ensures
        opt_view(o) == new_text_for(ref_view(*r), file@, content.spec_bytes(), src@, dst@, workspace_files@),
{
    if !span_is_ok(content, r.span) {
        return None;
    }
    match r.form {
        RefForm::Backtick => backtick_new_text(r, file, content, src, dst),
        RefForm::Wiki => wiki_new_text(r, file, content, src, dst, workspace_files),
        RefForm::HtmlHref => href_new_text(r, file, content, src, dst),
        _ => standard_new_text(r, file, content, src, dst),
    }
}

} // verus!

verus! {

// ───────────────────────── the plan ─────────────────────────

/// A planned rewrite as plain values: file, span, old text, new text.
pub type EntryView = (Seq<char>, (int, int), Seq<char>, Seq<char>);

pub open spec fn entry_view(e: RewriteEntry) -> EntryView {
    (e.file@, (e.span.0 as int, e.span.1 as int), e.old_text@, e.new_text@)
}

pub open spec fn entry_views(v: Seq<RewriteEntry>) -> Seq<EntryView> {
    v.map_values(|e: RewriteEntry| entry_view(e))
}

/// The rewrites of one file, one per reference that the move touches, in reference order.
pub open spec fn file_entries(
    rvs: Seq<RefView>,
    file: Seq<char>,
    b: Seq<u8>,
    src: Seq<char>,
    dst: Seq<char>,
    files: Seq<String>,
) -> Seq<EntryView>
    decreases rvs.len(),
{
    if rvs.len() == 0 {
        seq![]
    } else {
        let prev = file_entries(rvs.drop_last(), file, b, src, dst, files);
        let rv = rvs.last();
        match new_text_for(rv, file, b, src, dst, files) {
            Some(nt) => prev.push((file, rv.1, span_text(b, rv.1), nt)),
            None => prev,
        }
    }
}

/// The rewrites that the references `refs` of `file` need for the move of `src` to `dst`.
pub fn plan_refs(
    file: &CanonicalPath,
    content: &str,
    refs: &[Reference],
    src: &CanonicalPath,
    dst: &CanonicalPath,
    workspace_files: &[CanonicalPath],
) -> (r: Vec<RewriteEntry>)
    ensures
        entry_views(r@) == file_entries(
            ref_views(refs@),
            file@,
            content.spec_bytes(),
            src@,
            dst@,
            workspace_files@,
        ),
{
    let ghost b = content.spec_bytes();
    let mut out: Vec<RewriteEntry> = Vec::new();
    let mut i: usize = 0;
    assert(ref_views(refs@.take(0)) =~= Seq::<RefView>::empty());
    while i < refs.len()
        invariant
            0 <= i <= refs@.len(),
            b == content.spec_bytes(),
            entry_views(out@) == file_entries(ref_views(refs@.take(i as int)), file@, b, src@, dst@, workspace_files@),
        decreases refs@.len() - i,
    {
        let r = &refs[i];
        let ghost rvs = ref_views(refs@.take(i + 1));
        assert(rvs.drop_last() =~= ref_views(refs@.take(i as int)));
        assert(rvs.last() == ref_view(*r));
        match new_text_for_ref(r, file, content, src, dst, workspace_files) {
            Some(nt) => {
                let old_text = substr(content, r.span.0, r.span.1).to_owned();
                let e = RewriteEntry { file: file.clone(), span: r.span, old_text, new_text: nt };
                let ghost before = entry_views(out@);
                out.push(e);
                assert(entry_views(out@) =~= before.push(entry_view(e)));
            },
            None => {},
        }
        i = i + 1;
    }
    assert(refs@.take(i as int) =~= refs@);
    out
}

/// The rewrites that the move of `src` to `dst` needs in one file, given its content.
pub fn plan_file(
    file: &CanonicalPath,
    content: &str,
    src: &CanonicalPath,
    dst: &CanonicalPath,
    workspace_files: &[CanonicalPath],
) -> (r: Vec<RewriteEntry>)
    ensures
        entry_views(r@) == file_entries(
            parsed_views(file@, content.spec_bytes()),
            file@,
            content.spec_bytes(),
            src@,
            dst@,
            workspace_files@,
        ),
{
    let refs = parse_references(file, content);
    proof {
        lemma_parsed_views(refs@, file@, content.spec_bytes());
    }
    plan_refs(file, content, refs.as_slice(), src, dst, workspace_files)
}

/// The rewrites of the first `n` files, in file order; a file without content
/// (it vanished before it could be read) contributes nothing.
pub open spec fn plan_spec(
    files: Seq<String>,
    contents: Seq<Option<String>>,
    n: int,
    src: Seq<char>,
    dst: Seq<char>,
) -> Seq<EntryView>
    decreases n,
{
    if n <= 0 {
        seq![]
    } else {
        plan_spec(files, contents, n - 1, src, dst) + match contents[n - 1] {
            Some(c) => file_entries(
                parsed_views(files[n - 1]@, encode_utf8(c@)),
                files[n - 1]@,
                encode_utf8(c@),
                src,
                dst,
                files,
            ),
            None => seq![],
        }
    }
}

/// PLAN phase: classify every reference of every workspace file against the
/// move of `src` to `dst` and collect the rewrites of cases A and B.
/// `contents[i]` is the text of `workspace_files[i]`, or `None` for a file that
/// disappeared between the scan and the plan.
pub fn plan(
    src: &CanonicalPath,
    dst: &CanonicalPath,
    workspace_files: &[CanonicalPath],
    contents: &[Option<String>],
) -> (r: RewritePlan)
    requires
        contents@.len() == workspace_files@.len(),
    ensures
        r.src@ == src@,
        r.dst@ == dst@,
        entry_views(r.entries@) == plan_spec(
            workspace_files@,
            contents@,
            workspace_files@.len() as int,
            src@,
            dst@,
        ),
{
    let mut entries: Vec<RewriteEntry> = Vec::new();
    let mut i: usize = 0;
    while i < workspace_files.len()
        invariant
            0 <= i <= workspace_files@.len(),
            contents@.len() == workspace_files@.len(),
            entry_views(entries@) == plan_spec(workspace_files@, contents@, i as int, src@, dst@),
        decreases workspace_files@.len() - i,
    {
        match &contents[i] {
            Some(c) => {
                let mut more = plan_file(&workspace_files[i], c.as_str(), src, dst, workspace_files);
                let ghost before = entries@;
                let ghost added = more@;
                entries.append(&mut more);
                assert(entry_views(entries@) =~= entry_views(before) + entry_views(added));
            },
            None => {},
        }
        i = i + 1;
    }
    RewritePlan { src: src.clone(), dst: dst.clone(), entries }
}

} // verus!

verus! {

// ───────────────────────── validation after the rewrite ─────────────────────────

/// Error returned by the transaction phases that touch the disk.
#[derive(Debug)]
pub enum TransactionError {
    Io(std::io::Error),
    Temp(TempError),
}

/// Error returned by the VALIDATE phase.
#[derive(Debug)]
pub enum ValidationError {
    /// One or more references failed to resolve after rewrite.
    BrokenRefs(Vec<BrokenRef>),
    /// I/O error during validation.
    Io(std::io::Error),
}

/// Error returned by the COMMIT phase.
#[derive(Debug)]
pub enum CommitError {
    Io(std::io::Error),
}

/// Where path `p` will be after the move of `src` to `dst`.
pub open spec fn post_move_spec(p: Seq<char>, src: Seq<char>, dst: Seq<char>) -> Seq<char> {
    if inside_spec(p, src) {
        remap_spec(p, src, dst)
    } else {
        p
    }
}

/// The checks of the rewritten files: each is named by its encoded canonical
/// path and resolved from where it will be after the move; wiki links, inline
/// code paths and `href` links are not checked.
pub open spec fn rewritten_checks(rewritten: Seq<(String, String)>, n: int, src: Seq<char>, dst: Seq<char>) -> Seq<CheckView>
    decreases n,
{
    if n <= 0 {
        seq![]
    } else {
        let f = post_move_spec(decode_spec(rewritten[n - 1].0@), src, dst);
        let b = encode_utf8(rewritten[n - 1].1@);
        rewritten_checks(rewritten, n - 1, src, dst) + checks_for(parsed_views(f, b), f, b, false)
    }
}

/// The standard links of the rewritten files `(encoded name, new content)`
/// whose targets must exist once the move is committed.
pub fn validation_checks(plan: &RewritePlan, rewritten: &[(String, String)]) -> (r: Vec<LinkCheck>)
    requires
        forall|i: int| 0 <= i < rewritten@.len() ==> encode_utf8(#[trigger] rewritten@[i].1@).len() < usize::MAX,
    ensures
        check_views(r@) == rewritten_checks(rewritten@, rewritten@.len() as int, plan.src@, plan.dst@),
{
    let mut out: Vec<LinkCheck> = Vec::new();
    let mut i: usize = 0;
    while i < rewritten.len()
        invariant
            0 <= i <= rewritten@.len(),
            forall|i: int| 0 <= i < rewritten@.len() ==> encode_utf8(#[trigger] rewritten@[i].1@).len() < usize::MAX,
            check_views(out@) == rewritten_checks(rewritten@, i as int, plan.src@, plan.dst@),
        decreases rewritten@.len() - i,
    {
        let (encoded, content) = &rewritten[i];
        let original = decode_path(encoded.as_str());
        let resolve_canonical = if inside_src(&original, &plan.src) {
            remap_path(&original, &plan.src, &plan.dst)
        } else {
            original
        };
        let mut more = file_checks(&resolve_canonical, content.as_str(), false);
        let ghost before = out@;
        let ghost added = more@;
        out.append(&mut more);
        assert(check_views(out@) =~= check_views(before) + check_views(added));
        i = i + 1;
    }
    out
}

/// A target exists after the move when it is on disk now, or is `dst` itself
/// or lies inside it.
pub open spec fn exists_post_move(dst: Seq<char>, c: Seq<char>, on_disk: bool) -> bool {
    on_disk || inside_spec(c, dst)
}

/// Whether `canonical` will exist after the move: `on_disk` tells whether it
/// exists now; `plan.dst` and everything under it will exist after the commit.
pub fn target_exists_post_move(plan: &RewritePlan, canonical: &CanonicalPath, on_disk: bool) -> (r: bool)
    ensures
        r == exists_post_move(plan.dst@, canonical@, on_disk),
{
    on_disk || inside_src(canonical, &plan.dst)
}

/// Existence after the move, for each check.
pub open spec fn post_move_exists(checks: Seq<CheckView>, on_disk: Seq<bool>, dst: Seq<char>) -> Seq<bool> {
    Seq::new(checks.len(), |i: int| exists_post_move(dst, checks[i].3, on_disk[i]))
}

/// VALIDATE phase: `on_disk[i]` tells whether the target of `checks[i]` exists
/// now. Every check whose target will not exist after the move is a broken
/// reference; `Ok` when there is none.
pub fn validate(plan: &RewritePlan, checks: &[LinkCheck], on_disk: &[bool]) -> (r: Result<(), ValidationError>)
    requires
        checks@.len() == on_disk@.len(),
    ensures
        ({
            let broken = broken_of(check_views(checks@), post_move_exists(check_views(checks@), on_disk@, plan.dst@));
            match r {
                Ok(()) => broken.len() == 0,
                Err(ValidationError::BrokenRefs(v)) => broken.len() > 0 && broken_views(v@) == broken,
                Err(ValidationError::Io(_)) => false,
            }
        }),
{
    let mut exists: Vec<bool> = Vec::new();
    let mut i: usize = 0;
    while i < checks.len()
        invariant
            0 <= i <= checks@.len(),
            checks@.len() == on_disk@.len(),
            exists@ =~= post_move_exists(check_views(checks@), on_disk@, plan.dst@).take(i as int),
        decreases checks@.len() - i,
    {
        let e = target_exists_post_move(plan, &checks[i].resolved, on_disk[i]);
        exists.push(e);
        i = i + 1;
    }
    assert(exists@ =~= post_move_exists(check_views(checks@), on_disk@, plan.dst@));
    let broken = validate_files(checks, exists.as_slice());
    if broken.len() == 0 {
        Ok(())
    } else {
        Err(ValidationError::BrokenRefs(broken))
    }
}

} // verus!

verus! {

// ───────────────────────── laws of the plan ─────────────────────────

/// A path at or under `src` lands at or under `dst` once remapped, keeping what follows `src`.
pub proof fn remap_lands_in_dst(c: Seq<char>, src: Seq<char>, dst: Seq<char>)
    requires
        inside_spec(c, src),
    ensures
        inside_spec(remap_spec(c, src, dst), dst),
        remap_spec(c, src, dst).skip(dst.len() as int) == c.skip(src.len() as int),
{
    if c == src {
        assert(dst.skip(dst.len() as int) =~= c.skip(src.len() as int));
    } else {
        let r = dst + c.skip(src.len() as int);
        assert(r.take(dst.len() as int) =~= dst);
        assert(r[dst.len() as int] == c[src.len() as int]);
        assert(r.skip(dst.len() as int) =~= c.skip(src.len() as int));
    }
}

/// Case C and unrelated links: a standard link or `href` whose file and target
/// lie both inside `src`, or both outside it, is left alone by the move.
pub proof fn links_moving_together_stay(
    rv: RefView,
    file: Seq<char>,
    b: Seq<u8>,
    src: Seq<char>,
    dst: Seq<char>,
    files: Seq<String>,
)
    requires
        rv.2 != RefForm::Backtick,
        rv.2 != RefForm::Wiki,
        inside_spec(file, src) == inside_spec(form1_target(file, rv.3), src),
    ensures
        new_text_for(rv, file, b, src, dst, files) is None,
{
}

/// A wiki link from a file inside `src`, or to a file outside it, is left alone.
pub proof fn wiki_links_outside_case_a_stay(
    rv: RefView,
    file: Seq<char>,
    b: Seq<u8>,
    src: Seq<char>,
    dst: Seq<char>,
    files: Seq<String>,
)
    requires
        rv.2 == RefForm::Wiki,
        inside_spec(file, src) || (stem_matches(files, encode_utf8(rv.3)).len() == 1 && !inside_spec(
            stem_matches(files, encode_utf8(rv.3))[0],
            src,
        )),
    ensures
        new_text_for(rv, file, b, src, dst, files) is None,
{
}

/// An unprefixed inline code path in a file inside `src` is left alone: the
/// file moves with what it names.
pub proof fn backticks_inside_src_stay(
    rv: RefView,
    file: Seq<char>,
    b: Seq<u8>,
    src: Seq<char>,
    dst: Seq<char>,
    files: Seq<String>,
)
    requires
        rv.2 == RefForm::Backtick,
        !starts_with_chars(rv.3, anchor_root_prefix()),
        inside_spec(file, src),
    ensures
        new_text_for(rv, file, b, src, dst, files) is None,
{
}

/// Entry `e` is the rewrite of reference `rv` of `file`.
pub open spec fn entry_of_ref(
    e: EntryView,
    rv: RefView,
    file: Seq<char>,
    b: Seq<u8>,
    src: Seq<char>,
    dst: Seq<char>,
    files: Seq<String>,
) -> bool {
    &&& e.0 == file
    &&& e.1 == rv.1
    &&& e.2 == span_text(b, rv.1)
    &&& new_text_for(rv, file, b, src, dst, files) == Some(e.3)
}

/// Entry `e` is the rewrite of one of the references `rvs` of `file`.
pub open spec fn entry_of_some_ref(
    e: EntryView,
    rvs: Seq<RefView>,
    file: Seq<char>,
    b: Seq<u8>,
    src: Seq<char>,
    dst: Seq<char>,
    files: Seq<String>,
) -> bool {
    exists|k: int| 0 <= k < rvs.len() && #[trigger] entry_of_ref(e, rvs[k], file, b, src, dst, files)
}

/// Every planned rewrite of a file names that file, replaces exactly the text
/// of one reference's own span, and is that reference's new text.
pub proof fn planned_entries_are_reference_spans(
    rvs: Seq<RefView>,
    file: Seq<char>,
    b: Seq<u8>,
    src: Seq<char>,
    dst: Seq<char>,
    files: Seq<String>,
)
    ensures
        forall|i: int|
            0 <= i < file_entries(rvs, file, b, src, dst, files).len() ==> #[trigger] entry_of_some_ref(
                file_entries(rvs, file, b, src, dst, files)[i],
                rvs,
                file,
                b,
                src,
                dst,
                files,
            ),
    decreases rvs.len(),
{
    if rvs.len() > 0 {
        let init = rvs.drop_last();
        planned_entries_are_reference_spans(init, file, b, src, dst, files);
        let prev = file_entries(init, file, b, src, dst, files);
        let all = file_entries(rvs, file, b, src, dst, files);
        assert forall|i: int| 0 <= i < all.len() implies #[trigger] entry_of_some_ref(
            all[i],
            rvs,
            file,
            b,
            src,
            dst,
            files,
        ) by {
            if i < prev.len() {
                assert(all[i] == prev[i]);
                assert(entry_of_some_ref(prev[i], init, file, b, src, dst, files));
                let k = choose|k: int| 0 <= k < init.len() && #[trigger] entry_of_ref(prev[i], init[k], file, b, src, dst, files);
                assert(init[k] == rvs[k]);
                assert(entry_of_ref(all[i], rvs[k], file, b, src, dst, files));
            } else {
                let k = rvs.len() - 1;
                assert(rvs.last() == rvs[k]);
                assert(entry_of_ref(all[i], rvs[k], file, b, src, dst, files));
            }
        }
    }
}

/// Nothing the library plans for a file comes from a file that could not be read.
pub proof fn unread_files_contribute_nothing(
    files: Seq<String>,
    contents: Seq<Option<String>>,
    n: int,
    src: Seq<char>,
    dst: Seq<char>,
)
    requires
        0 <= n,
        forall|i: int| 0 <= i < n ==> #[trigger] contents[i] is None,
    ensures
        plan_spec(files, contents, n, src, dst).len() == 0,
    decreases n,
{
    if n > 0 {
        unread_files_contribute_nothing(files, contents, n - 1, src, dst);
        assert(contents[n - 1] is None);
    }
}

/// `dst` and everything under it count as existing once the move is committed.
pub proof fn destination_exists_after_move(dst: Seq<char>, c: Seq<char>, on_disk: bool)
    requires
        inside_spec(c, dst),
    ensures
        exists_post_move(dst, c, on_disk),
{
}

} // verus!

verus! {

/// How reading a workspace file for the plan went.
#[derive(Debug)]
pub enum FileRead {
    Text(String),
    /// The file disappeared between the scan and the plan.
    Vanished,
    /// Any other read error, with its message.
    Failed(String),
}

pub open spec fn read_content(r: FileRead) -> Option<String> {
    match r {
        FileRead::Text(s) => Some(s),
        _ => None,
    }
}

/// The message of the first read that failed.
pub open spec fn first_failure(rs: Seq<FileRead>) -> Option<Seq<char>>
    decreases rs.len(),
{
    if rs.len() == 0 {
        None
    } else {
        match rs[0] {
            FileRead::Failed(e) => Some(e@),
            _ => first_failure(rs.drop_first()),
        }
    }
}

/// PLAN phase over the reads of the workspace files: a file that vanished is
/// skipped, any other read error stops the plan with its message, and
/// otherwise the plan is `plan`'s over the texts read.
pub fn plan_reads(
    src: &CanonicalPath,
    dst: &CanonicalPath,
    workspace_files: &[CanonicalPath],
    reads: Vec<FileRead>,
) -> (r: Result<RewritePlan, String>)
    requires
        reads@.len() == workspace_files@.len(),
    ensures
        match r {
            Err(e) => first_failure(reads@) == Some(e@),
            Ok(p) => {
                &&& first_failure(reads@) is None
                &&& p.src@ == src@
                &&& p.dst@ == dst@
                &&& entry_views(p.entries@) == plan_spec(
                    workspace_files@,
                    reads@.map_values(|x: FileRead| read_content(x)),
                    workspace_files@.len() as int,
                    src@,
                    dst@,
                )
            },
        },
{
    let ghost orig = reads@;
    let n = reads.len();
    let mut rest = reads;
    let mut contents: Vec<Option<String>> = Vec::new();
    let mut i: usize = 0;
    assert(orig.skip(0) =~= orig);
    while i < n
        invariant
            n == orig.len(),
            orig == reads@,
            i <= n,
            rest@ == orig.skip(i as int),
            contents@ == orig.take(i as int).map_values(|x: FileRead| read_content(x)),
            first_failure(orig) == first_failure(orig.skip(i as int)),
        decreases n - i,
    {
        let ghost before = rest@;
        let x = rest.remove(0);
        assert(x == orig[i as int]);
        assert(orig.skip(i as int).drop_first() =~= orig.skip(i + 1));
        assert(rest@ =~= orig.skip(i + 1));
        assert(orig.take(i + 1).map_values(|x: FileRead| read_content(x)) =~= orig.take(i as int).map_values(
            |x: FileRead| read_content(x),
        ).push(read_content(orig[i as int])));
        match x {
            FileRead::Text(s) => contents.push(Some(s)),
            FileRead::Vanished => contents.push(None),
            FileRead::Failed(e) => return Err(e),
        }
        i = i + 1;
    }
    assert(orig.take(n as int) =~= orig);
    assert(orig.skip(n as int) =~= Seq::<FileRead>::empty());
    Ok(plan(src, dst, workspace_files, contents.as_slice()))
}

} // verus!
