//! Plain-text occurrences left behind by an apply: bare prose mentions of the
//! moved path that no reference parser sees, reported as a warning block.

use vstd::prelude::*;
use vstd::string::*;
use vstd::multiset::Multiset;
use vstd::relations::{sorted_by, total_ordering};
use crate::fmt::{dec, push_decimal};
use crate::order::{lemma_lex_asym, lemma_lex_irrefl, lemma_lex_total, lemma_lex_trans, lex_le, lex_lt, str_lt};
use crate::paths::{join_from, split_slash};
use crate::resolver::{join_segs, split_segs, views};
use crate::transaction::{find_seq, starts_with_chars};

verus! {

broadcast use vstd::seq::group_seq_axioms;

/// A single file-level hit: the file, the matched segment, and how often it occurs.
#[derive(Debug, PartialEq, Eq)]
pub struct PlainTextHit {
    pub file: String,
    pub segment: String,
    pub count: usize,
}

// ───────────────────────── warning text ─────────────────────────

/// `  {file}: {count} occurrence(s) of '{segment}'`
pub open spec fn occurrence_line(file: Seq<char>, count: nat, segment: Seq<char>) -> Seq<char> {
    seq![' ', ' '] + file + seq![':', ' '] + dec(count) + seq![
        ' ', 'o', 'c', 'c', 'u', 'r', 'r', 'e', 'n', 'c', 'e', '(', 's', ')', ' ', 'o', 'f', ' ', '\'',
    ] + segment + seq!['\'']
}

pub open spec fn warning_header() -> Seq<char> {
    seq![
        '⚠', ' ', 'P', 'l', 'a', 'i', 'n', '-', 't', 'e', 'x', 't', ' ', 'o', 'c', 'c', 'u', 'r', 'r', 'e', 'n', 'c',
        'e', 's', ' ', 'n', 'o', 't', ' ', 'r', 'e', 'w', 'r', 'i', 't', 't', 'e', 'n', ' ', '(', 'm', 'a', 'y', ' ',
        'b', 'e', ' ', 'b', 'a', 'r', 'e', ' ', 'p', 'r', 'o', 's', 'e', ' ', 'r', 'e', 'f', 's', ')', ':',
    ]
}

/// `Run 'anchor refs --plain {segment}' to inspect before closing.`
pub open spec fn warning_footer(segment: Seq<char>) -> Seq<char> {
    seq!['R', 'u', 'n', ' ', '\'', 'a', 'n', 'c', 'h', 'o', 'r', ' ', 'r', 'e', 'f', 's', ' ', '-', '-', 'p', 'l', 'a', 'i', 'n', ' ']
        + segment + seq![
        '\'', ' ', 't', 'o', ' ', 'i', 'n', 's', 'p', 'e', 'c', 't', ' ', 'b', 'e', 'f', 'o', 'r', 'e', ' ', 'c', 'l', 'o',
        's', 'i', 'n', 'g', '.',
    ]
}

/// The full-path lines, each preceded by a newline.
pub open spec fn full_lines_text(full: Seq<(String, usize)>, segment: Seq<char>) -> Seq<char>
    decreases full.len(),
{
    if full.len() == 0 {
        seq![]
    } else {
        full_lines_text(full.drop_last(), segment) + seq!['\n'] + occurrence_line(
            full.last().0@,
            full.last().1 as nat,
            segment,
        )
    }
}

/// The partial-path lines, each preceded by a newline.
pub open spec fn hit_lines_text(hits: Seq<PlainTextHit>) -> Seq<char>
    decreases hits.len(),
{
    if hits.len() == 0 {
        seq![]
    } else {
        hit_lines_text(hits.drop_last()) + seq!['\n'] + occurrence_line(
            hits.last().file@,
            hits.last().count as nat,
            hits.last().segment@,
        )
    }
}

/// The warning block: a header line, one line per full-path and per partial
/// hit, and a closing hint, joined by newlines; nothing when there are no hits.
pub open spec fn warning_spec(full: Seq<(String, usize)>, hits: Seq<PlainTextHit>, trailing: Seq<char>) -> Option<
    Seq<char>,
> {
    if full.len() == 0 && hits.len() == 0 {
        None
    } else {
        Some(
            warning_header() + full_lines_text(full, trailing) + hit_lines_text(hits) + seq!['\n']
                + warning_footer(trailing),
        )
    }
}

fn push_occurrence_line(out: &mut String, file: &str, count: usize, segment: &str)
    ensures
        final(out)@ == old(out)@ + seq!['\n'] + occurrence_line(file@, count as nat, segment@),
{
    let a = "\n  ";
    let b = ": ";
    let c = " occurrence(s) of '";
    let d = "'";
    proof {
        reveal_strlit("\n  ");
        reveal_strlit(": ");
        reveal_strlit(" occurrence(s) of '");
        reveal_strlit("'");
    }
    let ghost start = out@;
    out.append(a);
    out.append(file);
    out.append(b);
    push_decimal(out, count);
    out.append(c);
    out.append(segment);
    out.append(d);
    assert(out@ =~= start + seq!['\n'] + occurrence_line(file@, count as nat, segment@));
}

/// The warning block for full-path and partial-path plain-text hits, or `None`
/// when both lists are empty.
pub fn format_plain_text_warning(
    full_path_lines: &[(String, usize)],
    partial_hits: &[PlainTextHit],
    trailing_segment: &str,
) -> (r: Option<String>)
    ensures
        match r {
            Some(s) => warning_spec(full_path_lines@, partial_hits@, trailing_segment@) == Some(s@),
            None => warning_spec(full_path_lines@, partial_hits@, trailing_segment@) is None,
        },
{
    if full_path_lines.len() == 0 && partial_hits.len() == 0 {
        return None;
    }
    let header = "⚠ Plain-text occurrences not rewritten (may be bare prose refs):";
    let run = "\nRun 'anchor refs --plain ";
    let tail = "' to inspect before closing.";
    proof {
        reveal_strlit("⚠ Plain-text occurrences not rewritten (may be bare prose refs):");
        reveal_strlit("\nRun 'anchor refs --plain ");
        reveal_strlit("' to inspect before closing.");
    }
    let mut out = header.to_owned();
    assert(out@ =~= warning_header());
    let mut i: usize = 0;
    assert(full_path_lines@.take(0) =~= Seq::<(String, usize)>::empty());
    while i < full_path_lines.len()
        invariant
            0 <= i <= full_path_lines@.len(),
            out@ == warning_header() + full_lines_text(full_path_lines@.take(i as int), trailing_segment@),
        decreases full_path_lines@.len() - i,
    {
        assert(full_path_lines@.take(i + 1).drop_last() =~= full_path_lines@.take(i as int));
        let (f, n) = &full_path_lines[i];
        push_occurrence_line(&mut out, f.as_str(), *n, trailing_segment);
        assert(out@ =~= warning_header() + full_lines_text(full_path_lines@.take(i + 1), trailing_segment@));
        i = i + 1;
    }
    assert(full_path_lines@.take(i as int) =~= full_path_lines@);
    let ghost mid = out@;
    let mut k: usize = 0;
    assert(partial_hits@.take(0) =~= Seq::<PlainTextHit>::empty());
    while k < partial_hits.len()
        invariant
            0 <= k <= partial_hits@.len(),
            out@ == mid + hit_lines_text(partial_hits@.take(k as int)),
        decreases partial_hits@.len() - k,
    {
        assert(partial_hits@.take(k + 1).drop_last() =~= partial_hits@.take(k as int));
        let h = &partial_hits[k];
        push_occurrence_line(&mut out, h.file.as_str(), h.count, h.segment.as_str());
        assert(out@ =~= mid + hit_lines_text(partial_hits@.take(k + 1)));
        k = k + 1;
    }
    assert(partial_hits@.take(k as int) =~= partial_hits@);
    out.append(run);
    out.append(trailing_segment);
    out.append(tail);
    assert(out@ =~= warning_spec(full_path_lines@, partial_hits@, trailing_segment@).unwrap());
    Some(out)
}

} // verus!

verus! {

// ───────────────────────── counting occurrences ─────────────────────────

/// Non-overlapping occurrences of `p` in `s` from index `pos`, scanning left to right.
pub open spec fn count_from(s: Seq<char>, p: Seq<char>, pos: int) -> nat
    decreases s.len() - pos,
{
    if pos < 0 || p.len() == 0 || pos + p.len() > s.len() {
        0
    } else if s.subrange(pos, pos + p.len()) == p {
        1 + count_from(s, p, pos + p.len())
    } else {
        count_from(s, p, pos + 1)
    }
}

/// How many times `str::matches` finds `p` in `s`: the non-overlapping
/// occurrences, or one per character boundary for an empty `p`.
pub open spec fn count_matches(s: Seq<char>, p: Seq<char>) -> nat {
    if p.len() == 0 {
        s.len() + 1
    } else {
        count_from(s, p, 0)
    }
}

proof fn lemma_count_from_bound(s: Seq<char>, p: Seq<char>, pos: int)
    requires
        0 <= pos <= s.len(),
    ensures
        count_from(s, p, pos) <= s.len() - pos,
    decreases s.len() - pos,
{
    if p.len() > 0 && pos + p.len() <= s.len() {
        if s.subrange(pos, pos + p.len()) == p {
            lemma_count_from_bound(s, p, pos + p.len());
        } else {
            lemma_count_from_bound(s, p, pos + 1);
        }
    }
}

/// Number of non-overlapping occurrences of `p` in `s`, as `s.matches(p).count()`.
pub fn count_occurrences(s: &str, p: &str) -> (r: usize)
    requires
        s@.len() < usize::MAX,
    ensures
        r as nat == count_matches(s@, p@),
{
    let sl = s.unicode_len();
    let pl = p.unicode_len();
    if pl == 0 {
        return sl + 1;
    }
    if pl > sl {
        return 0;
    }
    let mut count: usize = 0;
    let mut pos: usize = 0;
    proof {
        lemma_count_from_bound(s@, p@, 0);
    }
    while pos <= sl - pl
        invariant
            sl == s@.len(),
            pl == p@.len(),
            1 <= pl <= sl,
            pos <= sl,
            count + count_from(s@, p@, pos as int) == count_from(s@, p@, 0),
            count_from(s@, p@, 0) <= sl,
        decreases sl - pos,
    {
        if crate::transaction::matches_at(s, p, pos) {
            count = count + 1;
            pos = pos + pl;
        } else {
            pos = pos + 1;
        }
    }
    count
}

// ───────────────────────── hits ─────────────────────────

/// The proper suffixes of `src` that start after a `/`, longest first:
/// `a/b/c` gives `b/c` and `c`; a single-component path gives none.
pub open spec fn partial_segments_spec(src: Seq<char>) -> Seq<Seq<char>> {
    let parts = split_segs(src);
    Seq::new((parts.len() - 1) as nat, |k: int| join_segs(parts.skip(k + 1)))
}

/// The partial-path suffixes of `src`, longest first.
pub fn partial_path_segments(src: &str) -> (r: Vec<String>)
    ensures
        views(r@) == partial_segments_spec(src@),
{
    let parts = split_slash(src);
    proof {
        crate::paths::lemma_split_nonempty(src@);
    }
    let mut out: Vec<String> = Vec::new();
    let mut k: usize = 1;
    while k < parts.len()
        invariant
            views(parts@) == split_segs(src@),
            1 <= k <= parts@.len(),
            views(out@) =~= partial_segments_spec(src@).take(k - 1),
        decreases parts@.len() - k,
    {
        let seg = join_from(&parts, k);
        let ghost before = views(out@);
        out.push(seg);
        assert(views(out@) =~= before.push(seg@));
        k = k + 1;
    }
    assert(views(out@) =~= partial_segments_spec(src@));
    out
}

/// A hit as plain values: file, segment, count.
pub type HitView = (Seq<char>, Seq<char>, nat);

pub open spec fn hit_view(h: PlainTextHit) -> HitView {
    (h.file@, h.segment@, h.count as nat)
}

pub open spec fn hit_views(v: Seq<PlainTextHit>) -> Seq<HitView> {
    v.map_values(|h: PlainTextHit| hit_view(h))
}

/// The hits of one file for `segs` (longest first): a segment is reported when
/// it occurs and its count differs from the last reported count (a shorter
/// suffix with the same count stands for the same occurrences).
pub open spec fn hits_from(file: Seq<char>, content: Seq<char>, segs: Seq<Seq<char>>, reported: Option<nat>) -> Seq<
    HitView,
>
    decreases segs.len(),
{
    if segs.len() == 0 {
        seq![]
    } else {
        let c = count_matches(content, segs[0]);
        if c == 0 || reported == Some(c) {
            hits_from(file, content, segs.drop_first(), reported)
        } else {
            seq![(file, segs[0], c)] + hits_from(file, content, segs.drop_first(), Some(c))
        }
    }
}

/// The hits of one file's content for the given segments.
pub fn file_hits(file: &str, content: &str, segments: &[String]) -> (r: Vec<PlainTextHit>)
    requires
        content@.len() < usize::MAX,
    ensures
        hit_views(r@) == hits_from(file@, content@, views(segments@), None),
{
    let mut out: Vec<PlainTextHit> = Vec::new();
    let mut reported: Option<usize> = None;
    let mut i: usize = 0;
    let ghost sv = views(segments@);
    assert(sv.skip(0) =~= sv);
    while i < segments.len()
        invariant
            sv == views(segments@),
            content@.len() < usize::MAX,
            0 <= i <= segments@.len(),
            hit_views(out@) + hits_from(
                file@,
                content@,
                sv.skip(i as int),
                match reported {
                    Some(c) => Some(c as nat),
                    None => None,
                },
            ) == hits_from(file@, content@, sv, None),
        decreases segments@.len() - i,
    {
        let seg = &segments[i];
        let count = count_occurrences(content, seg.as_str());
        assert(sv.skip(i as int).drop_first() =~= sv.skip(i + 1));
        assert(sv.skip(i as int)[0] == seg@);
        let skip = count == 0 || match reported {
            Some(prev) => prev == count,
            None => false,
        };
        if !skip {
            let h = PlainTextHit { file: file.to_owned(), segment: seg.clone(), count };
            let ghost before = hit_views(out@);
            out.push(h);
            assert(hit_views(out@) =~= before.push(hit_view(h)));
            reported = Some(count);
        }
        i = i + 1;
    }
    assert(sv.skip(i as int) =~= Seq::<Seq<char>>::empty());
    assert(hit_views(out@) + Seq::<HitView>::empty() =~= hit_views(out@));
    out
}

} // verus!

verus! {

// ───────────────────────── ordering the hits ─────────────────────────

/// Hits ordered by file, then segment (then count, which two hits of the same
/// file and segment always share).
pub open spec fn hit_le(a: HitView, b: HitView) -> bool {
    ||| lex_lt(a.0, b.0)
    ||| (a.0 == b.0 && lex_lt(a.1, b.1))
    ||| (a.0 == b.0 && a.1 == b.1 && a.2 <= b.2)
}

pub proof fn lemma_hit_le_total()
    ensures
        total_ordering(|a: HitView, b: HitView| hit_le(a, b)),
{
    let leq = |a: HitView, b: HitView| hit_le(a, b);
    assert forall|x: HitView| #[trigger] leq(x, x) by {}
    assert forall|x: HitView, y: HitView| #[trigger] leq(x, y) && #[trigger] leq(y, x) implies x == y by {
        lemma_lex_irrefl(x.0);
        lemma_lex_irrefl(x.1);
        if lex_lt(x.0, y.0) {
            lemma_lex_asym(x.0, y.0);
        } else if lex_lt(x.1, y.1) {
            lemma_lex_asym(x.1, y.1);
        }
    }
    assert forall|x: HitView, y: HitView, z: HitView| #[trigger] leq(x, y) && #[trigger] leq(y, z) implies leq(
        x,
        z,
    ) by {
        if lex_lt(x.0, y.0) && lex_lt(y.0, z.0) {
            lemma_lex_trans(x.0, y.0, z.0);
        }
        if x.0 == y.0 && y.0 == z.0 && lex_lt(x.1, y.1) && lex_lt(y.1, z.1) {
            lemma_lex_trans(x.1, y.1, z.1);
        }
    }
    assert forall|x: HitView, y: HitView| #[trigger] leq(x, y) || #[trigger] leq(y, x) by {
        lemma_lex_total(x.0, y.0);
        lemma_lex_total(x.1, y.1);
    }
}

fn hit_le_exec(a: &PlainTextHit, b: &PlainTextHit) -> (r: bool)
    ensures
        r == hit_le(hit_view(*a), hit_view(*b)),
{
    if str_lt(a.file.as_str(), b.file.as_str()) {
        return true;
    }
    if a.file != b.file {
        return false;
    }
    if str_lt(a.segment.as_str(), b.segment.as_str()) {
        return true;
    }
    a.segment == b.segment && a.count <= b.count
}

/// The hits ordered by file, then segment.
pub fn sort_hits(v: Vec<PlainTextHit>) -> (r: Vec<PlainTextHit>)
    ensures
        hit_views(r@) == hit_views(v@).sort_by(|a: HitView, b: HitView| hit_le(a, b)),
{
    let ghost leq = |a: HitView, b: HitView| hit_le(a, b);
    proof {
        lemma_hit_le_total();
    }
    broadcast use vstd::seq_lib::group_to_multiset_ensures;
    let ghost input = hit_views(v@);
    let mut out: Vec<PlainTextHit> = Vec::new();
    let mut rest = v;
    proof {
        assert(hit_views(out@) =~= Seq::<HitView>::empty());
        assert(hit_views(out@).to_multiset() =~= Multiset::empty());
        assert(hit_views(rest@) == input);
    }
    while rest.len() > 0
        invariant
            total_ordering(leq),
            leq == (|a: HitView, b: HitView| hit_le(a, b)),
            sorted_by(hit_views(out@), leq),
            hit_views(out@).to_multiset().add(hit_views(rest@).to_multiset()) == input.to_multiset(),
        decreases rest@.len(),
    {
        let ghost old_rest = hit_views(rest@);
        let x = rest.pop().unwrap();
        proof {
            assert(old_rest =~= hit_views(rest@).push(hit_view(x)));
            vstd::seq_lib::to_multiset_build(hit_views(rest@), hit_view(x));
        }
        let ghost ov = hit_views(out@);
        let mut k: usize = 0;
        while k < out.len() && hit_le_exec(&out[k], &x)
            invariant
                ov == hit_views(out@),
                leq == (|a: HitView, b: HitView| hit_le(a, b)),
                k <= out@.len(),
                forall|j: int| 0 <= j < k ==> leq(#[trigger] ov[j], hit_view(x)),
            decreases out@.len() - k,
        {
            k = k + 1;
        }
        proof {
            if k < out@.len() {
                assert(!leq(ov[k as int], hit_view(x)));
                assert(leq(hit_view(x), ov[k as int]));
                assert forall|j: int| k <= j < ov.len() implies leq(hit_view(x), #[trigger] ov[j]) by {
                    if j > k {
                        assert(leq(ov[k as int], ov[j]));
                    }
                }
            }
        }
        out.insert(k, x);
        proof {
            let nv = hit_views(out@);
            assert(nv =~= ov.insert(k as int, hit_view(x)));
            vstd::seq_lib::to_multiset_insert(ov, k as int, hit_view(x));
            assert forall|a: int, b: int| 0 <= a < b < nv.len() implies leq(#[trigger] nv[a], #[trigger] nv[b]) by {
                if b < k {
                } else if b == k {
                    assert(nv[b] == hit_view(x));
                } else if a < k {
                    assert(nv[b] == ov[b - 1]);
                    assert(leq(ov[a], ov[b - 1]));
                } else if a == k {
                    assert(nv[b] == ov[b - 1]);
                } else {
                    assert(nv[a] == ov[a - 1]);
                    assert(nv[b] == ov[b - 1]);
                }
            }
            assert(nv.to_multiset().add(hit_views(rest@).to_multiset()) =~= input.to_multiset());
        }
    }
    proof {
        assert(hit_views(rest@) =~= Seq::<HitView>::empty());
        assert(hit_views(out@).to_multiset() =~= input.to_multiset());
        input.lemma_sort_by_ensures(leq);
        vstd::seq_lib::lemma_sorted_unique(hit_views(out@), input.sort_by(leq), leq);
    }
    out
}

} // verus!

verus! {

pub open spec fn ends_with_md_chars(f: Seq<char>) -> bool {
    f.len() >= 3 && f.skip(f.len() - 3) == seq!['.', 'm', 'd']
}

/// The hits of the first `n` files, in file order; only `.md` files with a
/// content count.
pub open spec fn all_hits(files: Seq<String>, contents: Seq<Option<String>>, segs: Seq<Seq<char>>, n: int) -> Seq<
    HitView,
>
    decreases n,
{
    if n <= 0 {
        seq![]
    } else {
        all_hits(files, contents, segs, n - 1) + if ends_with_md_chars(files[n - 1]@) && contents[n - 1] is Some {
            hits_from(files[n - 1]@, contents[n - 1].unwrap()@, segs, None)
        } else {
            seq![]
        }
    }
}

/// The plain-text occurrences of the partial-path suffixes of `src` in the
/// `.md` files among `workspace_files`, ordered by file then segment.
/// `contents[i]` is the text of `workspace_files[i]` (`None` when unread).
pub fn plain_text_hits(workspace_files: &[String], contents: &[Option<String>], src: &str) -> (r: Vec<PlainTextHit>)
    requires
        contents@.len() == workspace_files@.len(),
        forall|i: int| 0 <= i < contents@.len() && (#[trigger] contents@[i]) is Some ==> contents@[i].unwrap()@.len() < usize::MAX,
    ensures
        hit_views(r@) == all_hits(
            workspace_files@,
            contents@,
            partial_segments_spec(src@),
            workspace_files@.len() as int,
        ).sort_by(|a: HitView, b: HitView| hit_le(a, b)),
{
    let segments = partial_path_segments(src);
    let mut hits: Vec<PlainTextHit> = Vec::new();
    let mut i: usize = 0;
    while i < workspace_files.len()
        invariant
            0 <= i <= workspace_files@.len(),
            contents@.len() == workspace_files@.len(),
            forall|i: int| 0 <= i < contents@.len() && (#[trigger] contents@[i]) is Some ==> contents@[i].unwrap()@.len() < usize::MAX,
            views(segments@) == partial_segments_spec(src@),
            hit_views(hits@) == all_hits(workspace_files@, contents@, partial_segments_spec(src@), i as int),
        decreases workspace_files@.len() - i,
    {
        let f = &workspace_files[i];
        let fl = f.as_str().unicode_len();
        let is_md = fl >= 3 && f.as_str().get_char(fl - 3) == '.' && f.as_str().get_char(fl - 2) == 'm'
            && f.as_str().get_char(fl - 1) == 'd';
        assert(is_md == ends_with_md_chars(f@)) by {
            if fl >= 3 {
                if f@.skip(fl - 3) == seq!['.', 'm', 'd'] {
                    assert(f@.skip(fl - 3)[0] == f@[fl - 3]);
                    assert(f@.skip(fl - 3)[1] == f@[fl - 2]);
                    assert(f@.skip(fl - 3)[2] == f@[fl - 1]);
                }
                if is_md {
                    assert(f@.skip(fl - 3) =~= seq!['.', 'm', 'd']);
                }
            }
        }
        if is_md {
            match &contents[i] {
                Some(c) => {
                    let mut more = file_hits(f.as_str(), c.as_str(), segments.as_slice());
                    let ghost before = hits@;
                    let ghost added = more@;
                    hits.append(&mut more);
                    assert(hit_views(hits@) =~= hit_views(before) + hit_views(added));
                },
                None => {
                    assert(all_hits(workspace_files@, contents@, partial_segments_spec(src@), i + 1)
                        =~= all_hits(workspace_files@, contents@, partial_segments_spec(src@), i as int));
                },
            }
        } else {
            assert(all_hits(workspace_files@, contents@, partial_segments_spec(src@), i + 1)
                =~= all_hits(workspace_files@, contents@, partial_segments_spec(src@), i as int));
        }
        i = i + 1;
    }
    sort_hits(hits)
}

} // verus!
