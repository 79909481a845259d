//! "Did you mean?" suggestions for paths that were not found.

use vstd::prelude::*;
use vstd::string::*;
use vstd::utf8::encode_utf8;
use crate::fmt::{dec, push_decimal, push_str};
use crate::text::{
    find_byte, find_byte_exec, lemma_find_byte, lemma_rfind_byte, lemma_rtrim_to, rfind_byte, rfind_byte_exec,
    rtrim_to, rtrim_to_exec, substr, bytes_eq,
};

verus! {

broadcast use vstd::seq::group_seq_axioms;

// ───────────────────────── edit distance ─────────────────────────

pub open spec fn min3(x: nat, y: nat, z: nat) -> nat {
    let m = if x <= y { x } else { y };
    if m <= z { m } else { z }
}

/// Levenshtein distance between the first `i` items of `a` and the first `j` of `b`.
pub open spec fn lev<T>(a: Seq<T>, b: Seq<T>, i: nat, j: nat) -> nat
    decreases i + j,
{
    if i == 0 {
        j
    } else if j == 0 {
        i
    } else if a[i - 1] == b[j - 1] {
        lev(a, b, (i - 1) as nat, (j - 1) as nat)
    } else {
        1 + min3(lev(a, b, (i - 1) as nat, (j - 1) as nat), lev(a, b, (i - 1) as nat, j), lev(a, b, i, (j - 1) as nat))
    }
}

/// Levenshtein distance between two whole sequences.
pub open spec fn edit_distance<T>(a: Seq<T>, b: Seq<T>) -> nat {
    lev(a, b, a.len(), b.len())
}

pub proof fn lemma_lev_bound<T>(a: Seq<T>, b: Seq<T>, i: nat, j: nat)
    ensures
        lev(a, b, i, j) <= if i >= j { i } else { j },
    decreases i + j,
{
    if i > 0 && j > 0 {
        lemma_lev_bound(a, b, (i - 1) as nat, (j - 1) as nat);
        lemma_lev_bound(a, b, (i - 1) as nat, j);
        lemma_lev_bound(a, b, i, (j - 1) as nat);
    }
}

/// Edit distance between two byte slices, with two rolling rows.
fn lev_bytes(a: &[u8], b: &[u8]) -> (r: usize)
    ensures
        r as nat == edit_distance(a@, b@),
{
    let m = a.len();
    let n = b.len();
    if m == 0 {
        return n;
    }
    if n == 0 {
        return m;
    }
    let mut prev: Vec<usize> = Vec::new();
    let mut j: usize = 0;
    while j < n
        invariant
            0 <= j <= n,
            n == b@.len(),
            prev@.len() == j,
            forall|q: int| 0 <= q < j ==> prev@[q] as nat == lev(a@, b@, 0, q as nat),
        decreases n - j,
    {
        prev.push(j);
        j = j + 1;
    }
    prev.push(n);
    let mut i: usize = 0;
    while i < m
        invariant
            0 <= i <= m,
            m == a@.len(),
            n == b@.len(),
            n > 0,
            prev@.len() == n + 1,
            forall|q: int| 0 <= q <= n ==> #[trigger] prev@[q] as nat == lev(a@, b@, i as nat, q as nat),
        decreases m - i,
    {
        let mut curr: Vec<usize> = Vec::new();
        curr.push(i + 1);
        let mut j: usize = 0;
        while j < n
            invariant
                0 <= i < m,
                0 <= j <= n,
                m == a@.len(),
                n == b@.len(),
                prev@.len() == n + 1,
                curr@.len() == j + 1,
                forall|q: int| 0 <= q <= n ==> #[trigger] prev@[q] as nat == lev(a@, b@, i as nat, q as nat),
                forall|q: int| 0 <= q <= j ==> #[trigger] curr@[q] as nat == lev(a@, b@, (i + 1) as nat, q as nat),
            decreases n - j,
        {
            proof {
                lemma_lev_bound(a@, b@, i as nat, j as nat);
                lemma_lev_bound(a@, b@, i as nat, (j + 1) as nat);
                lemma_lev_bound(a@, b@, (i + 1) as nat, j as nat);
            }
            let v = if a[i] == b[j] {
                prev[j]
            } else {
                let x = prev[j];
                let y = prev[j + 1];
                let z = curr[j];
                let mn = if x <= y { x } else { y };
                let mn = if mn <= z { mn } else { z };
                1 + mn
            };
            curr.push(v);
            j = j + 1;
        }
        prev = curr;
        i = i + 1;
    }
    prev[n]
}

/// Edit distance between two char slices, with two rolling rows.
pub(crate) fn lev_chars(a: &[char], b: &[char]) -> (r: usize)
    ensures
        r as nat == edit_distance(a@, b@),
{
    let m = a.len();
    let n = b.len();
    if m == 0 {
        return n;
    }
    if n == 0 {
        return m;
    }
    let mut prev: Vec<usize> = Vec::new();
    let mut j: usize = 0;
    while j < n
        invariant
            0 <= j <= n,
            n == b@.len(),
            prev@.len() == j,
            forall|q: int| 0 <= q < j ==> prev@[q] as nat == lev(a@, b@, 0, q as nat),
        decreases n - j,
    {
        prev.push(j);
        j = j + 1;
    }
    prev.push(n);
    let mut i: usize = 0;
    while i < m
        invariant
            0 <= i <= m,
            m == a@.len(),
            n == b@.len(),
            n > 0,
            prev@.len() == n + 1,
            forall|q: int| 0 <= q <= n ==> #[trigger] prev@[q] as nat == lev(a@, b@, i as nat, q as nat),
        decreases m - i,
    {
        let mut curr: Vec<usize> = Vec::new();
        curr.push(i + 1);
        let mut j: usize = 0;
        while j < n
            invariant
                0 <= i < m,
                0 <= j <= n,
                m == a@.len(),
                n == b@.len(),
                prev@.len() == n + 1,
                curr@.len() == j + 1,
                forall|q: int| 0 <= q <= n ==> #[trigger] prev@[q] as nat == lev(a@, b@, i as nat, q as nat),
                forall|q: int| 0 <= q <= j ==> #[trigger] curr@[q] as nat == lev(a@, b@, (i + 1) as nat, q as nat),
            decreases n - j,
        {
            proof {
                lemma_lev_bound(a@, b@, i as nat, j as nat);
                lemma_lev_bound(a@, b@, i as nat, (j + 1) as nat);
                lemma_lev_bound(a@, b@, (i + 1) as nat, j as nat);
            }
            let v = if a[i] == b[j] {
                prev[j]
            } else {
                let x = prev[j];
                let y = prev[j + 1];
                let z = curr[j];
                let mn = if x <= y { x } else { y };
                let mn = if mn <= z { mn } else { z };
                1 + mn
            };
            curr.push(v);
            j = j + 1;
        }
        prev = curr;
        i = i + 1;
    }
    prev[n]
}

/// Levenshtein edit distance between the UTF-8 bytes of `a` and `b`.
pub fn levenshtein(a: &str, b: &str) -> (r: usize)
    ensures
        r as nat == edit_distance(a.spec_bytes(), b.spec_bytes()),
{
    lev_bytes(a.as_bytes(), b.as_bytes())
}

} // verus!

verus! {

// ───────────────────────── path pieces ─────────────────────────

/// Byte range of the final component of a path, trailing slashes ignored.
pub open spec fn basename_range(b: Seq<u8>) -> (int, int) {
    let e = rtrim_to(b, 0, b.len() as int, 47u8);
    (rfind_byte(b, e, 47u8) + 1, e)
}

pub open spec fn basename_bytes(b: Seq<u8>) -> Seq<u8> {
    b.subrange(basename_range(b).0, basename_range(b).1)
}

/// The final path component, trailing slashes stripped first (`a/b/` gives `b`).
pub fn basename(path: &str) -> (r: &str)
    ensures
        r.spec_bytes() == basename_bytes(path.spec_bytes()),
{
    let b = path.as_bytes();
    let e = rtrim_to_exec(b, 0, b.len(), 47u8);
    proof {
        lemma_rtrim_to(b@, 0, b@.len() as int, 47u8);
        lemma_rfind_byte(b@, e as int, 47u8);
    }
    let lo = match rfind_byte_exec(b, e, 47u8) {
        Some(i) => i + 1,
        None => 0,
    };
    substr(path, lo, e)
}

/// The `/`-separated segments of `b[pos..]`.
pub open spec fn split_from(b: Seq<u8>, pos: int) -> Seq<Seq<u8>>
    decreases b.len() - pos,
{
    let e = find_byte(b, pos, b.len() as int, 47u8);
    if 0 <= pos <= e < b.len() {
        seq![b.subrange(pos, e)] + split_from(b, e + 1)
    } else {
        seq![b.subrange(pos, b.len() as int)]
    }
}

/// Number of leading equal items of two sequences.
pub open spec fn common_prefix<T>(x: Seq<T>, y: Seq<T>) -> nat
    decreases x.len(),
{
    if x.len() == 0 || y.len() == 0 || x[0] != y[0] {
        0
    } else {
        1 + common_prefix(x.drop_first(), y.drop_first())
    }
}

/// Number of leading path components two paths share.
pub open spec fn overlap_spec(a: Seq<u8>, b: Seq<u8>) -> nat {
    common_prefix(split_from(a, 0), split_from(b, 0))
}

/// Number of leading path components (split at `/`) that `a` and `b` share.
pub fn prefix_overlap(a: &str, b: &str) -> (r: usize)
    requires
        a.spec_bytes().len() < usize::MAX,
    ensures
        r as nat == overlap_spec(a.spec_bytes(), b.spec_bytes()),
{
    let x = a.as_bytes();
    let y = b.as_bytes();
    let mut pa: usize = 0;
    let mut pb: usize = 0;
    let mut count: usize = 0;
    loop
        invariant
            x@ == a.spec_bytes(),
            y@ == b.spec_bytes(),
            x@.len() < usize::MAX,
            pa <= x@.len(),
            pb <= y@.len(),
            count <= pa,
            count + common_prefix(split_from(x@, pa as int), split_from(y@, pb as int)) == common_prefix(
                split_from(x@, 0),
                split_from(y@, 0),
            ),
        decreases x@.len() - pa,
    {
        let ea = find_byte_exec(x, pa, x.len(), 47u8);
        let eb = find_byte_exec(y, pb, y.len(), 47u8);
        proof {
            lemma_find_byte(x@, pa as int, x@.len() as int, 47u8);
            lemma_find_byte(y@, pb as int, y@.len() as int, 47u8);
        }
        let ghost sa = split_from(x@, pa as int);
        let ghost sb = split_from(y@, pb as int);
        assert(sa[0] == x@.subrange(pa as int, ea as int));
        assert(sb[0] == y@.subrange(pb as int, eb as int));
        assert(sa.len() > 0 && sb.len() > 0);
        if !bytes_eq(vstd::slice::slice_subrange(x, pa, ea), vstd::slice::slice_subrange(y, pb, eb)) {
            assert(common_prefix(sa, sb) == 0);
            return count;
        }
        assert(common_prefix(sa, sb) == 1 + common_prefix(sa.drop_first(), sb.drop_first()));
        count = count + 1;
        if ea == x.len() || eb == y.len() {
            assert(sa.drop_first().len() == 0 || sb.drop_first().len() == 0);
            assert(common_prefix(sa.drop_first(), sb.drop_first()) == 0);
            return count;
        }
        assert(sa.drop_first() =~= split_from(x@, ea + 1));
        assert(sb.drop_first() =~= split_from(y@, eb + 1));
        pa = ea + 1;
        pb = eb + 1;
    }
}

} // verus!

verus! {

// ───────────────────────── ranking ─────────────────────────

/// A ranked candidate: `(distance, length, prefix overlap, candidate index)`;
/// its normalized distance is `distance / length`.
pub type Scored = (nat, nat, nat, int);

/// The score of candidate `c` for the missing path `missing`, or `None` when
/// its normalized basename distance exceeds 0.6.
pub open spec fn score(missing: Seq<u8>, c: Seq<u8>) -> Option<(nat, nat, nat)> {
    let mb = basename_bytes(missing);
    let cb = basename_bytes(c);
    let ml = if mb.len() >= cb.len() { mb.len() } else { cb.len() };
    if ml == 0 {
        Some((0, 1, overlap_spec(missing, c)))
    } else {
        let d = edit_distance(mb, cb);
        if 5 * d > 3 * ml {
            None
        } else {
            Some((d, ml, overlap_spec(missing, c)))
        }
    }
}

/// The admitted candidates of `cands`, in order.
pub open spec fn scored(missing: Seq<u8>, cands: Seq<String>) -> Seq<Scored>
    decreases cands.len(),
{
    if cands.len() == 0 {
        seq![]
    } else {
        let prev = scored(missing, cands.drop_last());
        match score(missing, encode_utf8(cands.last()@)) {
            Some((d, m, o)) => prev.push((d, m, o, cands.len() - 1)),
            None => prev,
        }
    }
}

/// `x` ranks before `y`: smaller normalized distance, then larger overlap.
pub open spec fn ranks_before(x: Scored, y: Scored) -> bool {
    x.0 * y.1 < y.0 * x.1 || (x.0 * y.1 == y.0 * x.1 && x.2 > y.2)
}

/// Index of the first best-ranked item.
pub open spec fn first_best(s: Seq<Scored>) -> int
    decreases s.len(),
{
    if s.len() <= 1 {
        0
    } else {
        let k = first_best(s.drop_last());
        if ranks_before(s.last(), s[k]) {
            s.len() - 1
        } else {
            k
        }
    }
}

/// The items stably sorted by rank (repeatedly taking the first best one).
pub open spec fn rank_sort(s: Seq<Scored>) -> Seq<Scored>
    decreases s.len(),
{
    if s.len() == 0 {
        seq![]
    } else {
        let k = first_best(s);
        if 0 <= k < s.len() {
            seq![s[k]] + rank_sort(s.remove(k))
        } else {
            seq![]
        }
    }
}

/// The suggestions for `missing`: the first three candidates in rank order.
pub open spec fn suggestions_spec(missing: Seq<u8>, cands: Seq<String>) -> Seq<Seq<char>> {
    let r = rank_sort(scored(missing, cands));
    let n = if r.len() >= 3 { 3 } else { r.len() };
    Seq::new(n as nat, |i: int| cands[r[i].3]@)
}

proof fn lemma_first_best_bound(s: Seq<Scored>)
    requires
        s.len() > 0,
    ensures
        0 <= first_best(s) < s.len(),
    decreases s.len(),
{
    if s.len() > 1 {
        lemma_first_best_bound(s.drop_last());
    }
}

pub open spec fn scored_view(v: Seq<(usize, usize, usize, usize)>) -> Seq<Scored> {
    v.map_values(|p: (usize, usize, usize, usize)| (p.0 as nat, p.1 as nat, p.2 as nat, p.3 as int))
}

fn ranks_before_exec(x: (usize, usize, usize, usize), y: (usize, usize, usize, usize)) -> (r: bool)
    ensures
        r == ranks_before(
            (x.0 as nat, x.1 as nat, x.2 as nat, x.3 as int),
            (y.0 as nat, y.1 as nat, y.2 as nat, y.3 as int),
        ),
{
    let x0 = x.0 as u128;
    let x1 = x.1 as u128;
    let y0 = y.0 as u128;
    let y1 = y.1 as u128;
    assert(x0 * y1 <= 0xffff_ffff_ffff_ffffu128 * 0xffff_ffff_ffff_ffffu128) by (nonlinear_arith)
        requires
            x0 <= 0xffff_ffff_ffff_ffffu128,
            y1 <= 0xffff_ffff_ffff_ffffu128,
    ;
    assert(y0 * x1 <= 0xffff_ffff_ffff_ffffu128 * 0xffff_ffff_ffff_ffffu128) by (nonlinear_arith)
        requires
            y0 <= 0xffff_ffff_ffff_ffffu128,
            x1 <= 0xffff_ffff_ffff_ffffu128,
    ;
    let a = x0 * y1;
    let b = y0 * x1;
    a < b || (a == b && x.2 > y.2)
}

/// Up to three workspace paths closest to `missing`, for "did you mean?".
///
/// Candidates whose basename is more than 0.6 edit operations per byte away
/// from the basename of `missing` are dropped; the rest are ordered by that
/// normalized distance, then by the number of leading path components shared
/// with `missing` (more first), keeping input order on ties.
pub fn suggest_similar(missing: &str, candidates: &[String]) -> (r: Vec<String>)
    requires
        missing.spec_bytes().len() < usize::MAX,
    ensures
        r@.map_values(|s: String| s@) == suggestions_spec(missing.spec_bytes(), candidates@),
{
    let mb = basename(missing);
    let mut sc: Vec<(usize, usize, usize, usize)> = Vec::new();
    let mut i: usize = 0;
    while i < candidates.len()
        invariant
            0 <= i <= candidates@.len(),
            missing.spec_bytes().len() < usize::MAX,
            mb.spec_bytes() == basename_bytes(missing.spec_bytes()),
            scored_view(sc@) =~= scored(missing.spec_bytes(), candidates@.take(i as int)),
            forall|k: int| 0 <= k < sc@.len() ==> #[trigger] sc@[k].3 < i,
        decreases candidates@.len() - i,
    {
        let c = candidates[i].as_str();
        assert(candidates@.take(i + 1).drop_last() =~= candidates@.take(i as int));
        assert(candidates@.take(i + 1).last() == candidates@[i as int]);
        let cb = basename(c);
        let ml = if mb.as_bytes().len() >= cb.as_bytes().len() { mb.as_bytes().len() } else { cb.as_bytes().len() };
        if ml == 0 {
            let ov = prefix_overlap(missing, c);
            sc.push((0, 1, ov, i));
        } else {
            let d = levenshtein(mb, cb);
            if (d as u128) * 5 <= (ml as u128) * 3 {
                let ov = prefix_overlap(missing, c);
                sc.push((d, ml, ov, i));
            }
        }
        i = i + 1;
    }
    assert(candidates@.take(i as int) =~= candidates@);
    let ghost all = scored_view(sc@);
    let mut out: Vec<String> = Vec::new();
    while out.len() < 3 && sc.len() > 0
        invariant
            out@.len() <= 3,
            forall|k: int| 0 <= k < sc@.len() ==> #[trigger] sc@[k].3 < candidates@.len(),
            out@.map_values(|s: String| s@) + rank_sort(scored_view(sc@)).map_values(|x: Scored| candidates@[x.3]@)
                =~= rank_sort(all).map_values(|x: Scored| candidates@[x.3]@),
        decreases sc@.len(),
    {
        let ghost sv = scored_view(sc@);
        let mut k: usize = 0;
        let mut j: usize = 1;
        while j < sc.len()
            invariant
                1 <= j <= sc@.len(),
                k < j,
                sv == scored_view(sc@),
                k as int == first_best(sv.take(j as int)),
            decreases sc@.len() - j,
        {
            assert(sv.take(j + 1).drop_last() =~= sv.take(j as int));
            if ranks_before_exec(sc[j], sc[k]) {
                k = j;
            }
            j = j + 1;
        }
        assert(sv.take(sc@.len() as int) =~= sv);
        proof {
            lemma_first_best_bound(sv);
        }
        let item = sc.remove(k);
        assert(scored_view(sc@) =~= sv.remove(k as int));
        let ghost rs = rank_sort(sv.remove(k as int));
        assert(rank_sort(sv) == seq![sv[k as int]] + rs);
        let ghost before = out@;
        out.push(candidates[item.3].clone());
        assert(out@.map_values(|s: String| s@) =~= before.map_values(|s: String| s@).push(candidates@[item.3 as int]@));
        assert((seq![sv[k as int]] + rs).map_values(|x: Scored| candidates@[x.3]@) =~= seq![candidates@[item.3 as int]@]
            + rs.map_values(|x: Scored| candidates@[x.3]@));
    }
    proof {
        let rall = rank_sort(all).map_values(|x: Scored| candidates@[x.3]@);
        let rest = rank_sort(scored_view(sc@)).map_values(|x: Scored| candidates@[x.3]@);
        assert(out@.map_values(|s: String| s@) =~= rall.take(out@.len() as int));
        lemma_rank_sort_len(all);
        lemma_rank_sort_len(scored_view(sc@));
        assert(out@.map_values(|s: String| s@) =~= suggestions_spec(missing.spec_bytes(), candidates@));
    }
    out
}

proof fn lemma_rank_sort_len(s: Seq<Scored>)
    ensures
        rank_sort(s).len() == s.len(),
    decreases s.len(),
{
    if s.len() > 0 {
        lemma_first_best_bound(s);
        lemma_rank_sort_len(s.remove(first_best(s)));
    }
}

// ───────────────────────── message ─────────────────────────

/// The numbered suggestion lines `"  {i}. {s}\n"`.
pub open spec fn numbered(s: Seq<Seq<char>>) -> Seq<char>
    decreases s.len(),
{
    if s.len() == 0 {
        seq![]
    } else {
        numbered(s.drop_last()) + "  "@ + dec(s.len()) + ". "@ + s.last() + "\n"@
    }
}

/// The "did you mean?" block for `missing`.
pub open spec fn suggestions_text(missing: Seq<char>, s: Seq<Seq<char>>, cmd: Option<Seq<char>>) -> Seq<char> {
    if s.len() == 0 {
        "Could not find '"@ + missing + "'"@
    } else {
        "Could not find '"@ + missing + "'\n\nDid you mean?\n"@ + numbered(s) + match cmd {
            Some(c) => "\n"@ + c + "\n"@,
            None => seq![],
        }
    }
}

/// Format the "Could not find ... Did you mean?" block: numbered suggestions,
/// then the corrected command when one is given. With no suggestions only the
/// first line is produced.
pub fn format_suggestions(missing: &str, suggestions: &[String], corrected_command: Option<&str>) -> (r: String)
    ensures
        r@ == suggestions_text(
            missing@,
            suggestions@.map_values(|s: String| s@),
            match corrected_command {
                Some(c) => Some(c@),
                None => None,
            },
        ),
{
    let mut out = String::new();
    push_str(&mut out, "Could not find '");
    push_str(&mut out, missing);
    if suggestions.len() == 0 {
        push_str(&mut out, "'");
        return out;
    }
    push_str(&mut out, "'\n\nDid you mean?\n");
    let ghost head = out@;
    let ghost sv = suggestions@.map_values(|s: String| s@);
    let mut i: usize = 0;
    while i < suggestions.len()
        invariant
            0 <= i <= suggestions@.len(),
            sv == suggestions@.map_values(|s: String| s@),
            out@ == head + numbered(sv.take(i as int)),
        decreases suggestions@.len() - i,
    {
        assert(sv.take(i + 1).drop_last() =~= sv.take(i as int));
        assert(sv.take(i + 1).last() == suggestions@[i as int]@);
        push_str(&mut out, "  ");
        push_decimal(&mut out, i + 1);
        push_str(&mut out, ". ");
        push_str(&mut out, suggestions[i].as_str());
        push_str(&mut out, "\n");
        assert(out@ =~= head + numbered(sv.take(i + 1)));
        i = i + 1;
    }
    assert(sv.take(i as int) =~= sv);
    match corrected_command {
        Some(cmd) => {
            push_str(&mut out, "\n");
            push_str(&mut out, cmd);
            push_str(&mut out, "\n");
        },
        None => {},
    }
    out
}

} // verus!

verus! {

proof fn lemma_scored_index(missing: Seq<u8>, cands: Seq<String>)
    ensures
        forall|i: int| 0 <= i < scored(missing, cands).len() ==> 0 <= #[trigger] scored(missing, cands)[i].3 < cands.len(),
    decreases cands.len(),
{
    if cands.len() > 0 {
        lemma_scored_index(missing, cands.drop_last());
        let prev = scored(missing, cands.drop_last());
        let cur = scored(missing, cands);
        assert forall|i: int| 0 <= i < cur.len() implies 0 <= #[trigger] cur[i].3 < cands.len() by {
            if i < prev.len() {
                assert(cur[i] == prev[i]);
            }
        }
    }
}

proof fn lemma_rank_sort_members(s: Seq<Scored>)
    ensures
        rank_sort(s).len() <= s.len(),
        forall|i: int| 0 <= i < rank_sort(s).len() ==> s.contains(#[trigger] rank_sort(s)[i]),
    decreases s.len(),
{
    if s.len() > 0 {
        lemma_first_best_bound(s);
        let k = first_best(s);
        let rest = s.remove(k);
        lemma_rank_sort_members(rest);
        assert forall|i: int| 0 <= i < rank_sort(s).len() implies s.contains(#[trigger] rank_sort(s)[i]) by {
            if i == 0 {
                assert(s[k] == rank_sort(s)[0]);
            } else {
                assert(rank_sort(s)[i] == rank_sort(rest)[i - 1]);
                let j = choose|j: int| 0 <= j < rest.len() && rest[j] == rank_sort(rest)[i - 1];
                if j < k {
                    assert(rest[j] == s[j]);
                } else {
                    assert(rest[j] == s[j + 1]);
                }
            }
        }
    }
}

/// At most three suggestions come back, and each of them is one of the candidates.
pub proof fn suggestions_are_candidates(missing: Seq<u8>, cands: Seq<String>)
    ensures
        suggestions_spec(missing, cands).len() <= 3,
        forall|i: int|
            0 <= i < suggestions_spec(missing, cands).len() ==> exists|j: int|
                0 <= j < cands.len() && #[trigger] suggestions_spec(missing, cands)[i] == cands[j]@,
{
    let sc = scored(missing, cands);
    lemma_scored_index(missing, cands);
    lemma_rank_sort_members(sc);
    assert forall|i: int| 0 <= i < suggestions_spec(missing, cands).len() implies exists|j: int|
        0 <= j < cands.len() && #[trigger] suggestions_spec(missing, cands)[i] == cands[j]@ by {
        let r = rank_sort(sc);
        assert(sc.contains(r[i]));
        let t = choose|t: int| 0 <= t < sc.len() && sc[t] == r[i];
        assert(0 <= sc[t].3 < cands.len());
        assert(suggestions_spec(missing, cands)[i] == cands[r[i].3]@);
    }
}


/// `y` outranks `x`: a smaller normalized basename distance, or the same
/// distance and strictly more leading path components shared with the missing
/// path (the fractions `x.0 / x.1` compared by cross-multiplication).
pub open spec fn outranks(y: Scored, x: Scored) -> bool {
    y.0 * x.1 < x.0 * y.1 || (y.0 * x.1 == x.0 * y.1 && y.2 > x.2)
}

proof fn lemma_cross(a: int, b: int, c: int, d: int, e: int, f: int)
    requires
        b > 0,
        d > 0,
        f > 0,
        a * d <= c * b,
        c * f <= e * d,
    ensures
        a * f <= e * b,
        (a * d < c * b || c * f < e * d) ==> a * f < e * b,
{
    vstd::arithmetic::mul::lemma_mul_inequality(a * d, c * b, f);
    vstd::arithmetic::mul::lemma_mul_inequality(c * f, e * d, b);
    assert((c * b) * f == (c * f) * b) by (nonlinear_arith);
    assert((a * d) * f == (a * f) * d) by (nonlinear_arith);
    assert((e * d) * b == (e * b) * d) by (nonlinear_arith);
    vstd::arithmetic::mul::lemma_mul_inequality_converse(a * f, e * b, d);
    if a * d < c * b {
        vstd::arithmetic::mul::lemma_mul_strict_inequality(a * d, c * b, f);
        vstd::arithmetic::mul::lemma_mul_strict_inequality_converse(a * f, e * b, d);
    }
    if c * f < e * d {
        vstd::arithmetic::mul::lemma_mul_strict_inequality(c * f, e * d, b);
        vstd::arithmetic::mul::lemma_mul_strict_inequality_converse(a * f, e * b, d);
    }
}

proof fn lemma_ranks_before_trans(x: Scored, y: Scored, z: Scored)
    requires
        x.1 > 0,
        y.1 > 0,
        z.1 > 0,
        ranks_before(x, y),
        ranks_before(y, z),
    ensures
        ranks_before(x, z),
{
    let (a, b, c, d, e, f) = (x.0 as int, x.1 as int, y.0 as int, y.1 as int, z.0 as int, z.1 as int);
    lemma_cross(a, b, c, d, e, f);
    if a * d == c * b && c * f == e * d {
        lemma_cross(e, f, c, d, a, b);
    }
}

proof fn lemma_first_best_is_best(s: Seq<Scored>)
    requires
        s.len() > 0,
        forall|i: int| 0 <= i < s.len() ==> #[trigger] s[i].1 > 0,
    ensures
        forall|m: int| 0 <= m < s.len() ==> !ranks_before(#[trigger] s[m], s[first_best(s)]),
    decreases s.len(),
{
    if s.len() > 1 {
        let t = s.drop_last();
        assert forall|i: int| 0 <= i < t.len() implies #[trigger] t[i].1 > 0 by {
            assert(t[i] == s[i]);
        }
        lemma_first_best_is_best(t);
        lemma_first_best_bound(t);
        let k = first_best(t);
        assert(t[k] == s[k]);
        assert forall|m: int| 0 <= m < s.len() implies !ranks_before(#[trigger] s[m], s[first_best(s)]) by {
            if m < s.len() - 1 {
                assert(t[m] == s[m]);
                if ranks_before(s.last(), s[k]) && ranks_before(s[m], s.last()) {
                    lemma_ranks_before_trans(s[m], s.last(), s[k]);
                }
            }
        }
    }
}

/// The rank order is sorted: no item is outranked by one that comes after it.
/// Among admitted candidates a smaller normalized distance comes first, and at
/// equal distance the one sharing more leading path components comes first.
pub proof fn rank_order_is_sorted(s: Seq<Scored>)
    requires
        forall|i: int| 0 <= i < s.len() ==> #[trigger] s[i].1 > 0,
    ensures
        forall|p: int, q: int|
            0 <= p < q < rank_sort(s).len() ==> !outranks(#[trigger] rank_sort(s)[q], #[trigger] rank_sort(s)[p]),
    decreases s.len(),
{
    if s.len() > 0 {
        lemma_first_best_bound(s);
        lemma_first_best_is_best(s);
        let k = first_best(s);
        let rest = s.remove(k);
        assert forall|i: int| 0 <= i < rest.len() implies #[trigger] rest[i].1 > 0 by {
            if i < k {
                assert(rest[i] == s[i]);
            } else {
                assert(rest[i] == s[i + 1]);
            }
        }
        rank_order_is_sorted(rest);
        lemma_rank_sort_members(rest);
        let r = rank_sort(s);
        let rr = rank_sort(rest);
        assert(r == seq![s[k]] + rr);
        assert forall|p: int, q: int| 0 <= p < q < r.len() implies !outranks(#[trigger] r[q], #[trigger] r[p]) by {
            assert(r[q] == rr[q - 1]);
            if p == 0 {
                assert(r[p] == s[k]);
                assert(rest.contains(rr[q - 1]));
                let j = choose|j: int| 0 <= j < rest.len() && rest[j] == rr[q - 1];
                if j < k {
                    assert(rest[j] == s[j]);
                    assert(!ranks_before(s[j], s[k]));
                } else {
                    assert(rest[j] == s[j + 1]);
                    assert(!ranks_before(s[j + 1], s[k]));
                }
            } else {
                assert(r[p] == rr[p - 1]);
            }
        }
    }
}

proof fn lemma_scored_scores(missing: Seq<u8>, cands: Seq<String>)
    ensures
        forall|i: int|
            0 <= i < scored(missing, cands).len() ==> {
                let x = #[trigger] scored(missing, cands)[i];
                &&& 0 <= x.3 < cands.len()
                &&& x.1 > 0
                &&& score(missing, encode_utf8(cands[x.3]@)) == Some((x.0, x.1, x.2))
            },
    decreases cands.len(),
{
    if cands.len() > 0 {
        lemma_scored_scores(missing, cands.drop_last());
        let prev = scored(missing, cands.drop_last());
        let cur = scored(missing, cands);
        assert forall|i: int| 0 <= i < cur.len() implies {
            let x = #[trigger] cur[i];
            &&& 0 <= x.3 < cands.len()
            &&& x.1 > 0
            &&& score(missing, encode_utf8(cands[x.3]@)) == Some((x.0, x.1, x.2))
        } by {
            if i < prev.len() {
                assert(cur[i] == prev[i]);
                assert(cands.drop_last()[prev[i].3] == cands[prev[i].3]);
            }
        }
    }
}

/// The suggestions come in rank order: a later suggestion never outranks an
/// earlier one. Both are admitted candidates with a score, and at equal
/// normalized distance the earlier one shares at least as many leading path
/// components with the missing path.
pub proof fn suggestions_in_rank_order(missing: Seq<u8>, cands: Seq<String>, p: int, q: int)
    requires
        0 <= p < q < suggestions_spec(missing, cands).len(),
    ensures
        score(missing, encode_utf8(suggestions_spec(missing, cands)[p])) matches Some(x) && score(
            missing,
            encode_utf8(suggestions_spec(missing, cands)[q]),
        ) matches Some(y) && !outranks((y.0, y.1, y.2, 0), (x.0, x.1, x.2, 0)),
{
    let sc = scored(missing, cands);
    lemma_scored_scores(missing, cands);
    rank_order_is_sorted(sc);
    lemma_rank_sort_members(sc);
    let r = rank_sort(sc);
    assert(sc.contains(r[p]));
    assert(sc.contains(r[q]));
    let xp = r[p];
    let xq = r[q];
    assert(!outranks(r[q], r[p]));
    assert(suggestions_spec(missing, cands)[p] == cands[xp.3]@);
    assert(suggestions_spec(missing, cands)[q] == cands[xq.3]@);
}


/// As many suggestions come back as there are admitted candidates, up to three.
pub proof fn suggestion_count(missing: Seq<u8>, cands: Seq<String>)
    ensures
        suggestions_spec(missing, cands).len() == if scored(missing, cands).len() >= 3 {
            3
        } else {
            scored(missing, cands).len()
        },
{
    lemma_rank_sort_len(scored(missing, cands));
}


proof fn lemma_scored_has(missing: Seq<u8>, cands: Seq<String>, c: int)
    requires
        0 <= c < cands.len(),
        score(missing, encode_utf8(cands[c]@)) is Some,
    ensures
        exists|i: int|
            0 <= i < scored(missing, cands).len() && #[trigger] scored(missing, cands)[i] == (
                score(missing, encode_utf8(cands[c]@)).unwrap().0,
                score(missing, encode_utf8(cands[c]@)).unwrap().1,
                score(missing, encode_utf8(cands[c]@)).unwrap().2,
                c,
            ),
    decreases cands.len(),
{
    let t = score(missing, encode_utf8(cands[c]@)).unwrap();
    let x = (t.0, t.1, t.2, c);
    let prev = scored(missing, cands.drop_last());
    let cur = scored(missing, cands);
    if c == cands.len() - 1 {
        assert(cur == prev.push(x));
        assert(cur[prev.len() as int] == x);
    } else {
        assert(cands.drop_last()[c] == cands[c]);
        lemma_scored_has(missing, cands.drop_last(), c);
        let i = choose|i: int| 0 <= i < prev.len() && #[trigger] prev[i] == x;
        assert(cur.len() >= prev.len() && cur[i] == prev[i]);
    }
}

proof fn lemma_rank_sort_has(s: Seq<Scored>, j: int)
    requires
        0 <= j < s.len(),
    ensures
        exists|q: int| 0 <= q < rank_sort(s).len() && #[trigger] rank_sort(s)[q] == s[j],
    decreases s.len(),
{
    lemma_first_best_bound(s);
    lemma_rank_sort_len(s);
    let k = first_best(s);
    let rest = s.remove(k);
    let r = rank_sort(s);
    assert(r == seq![s[k]] + rank_sort(rest));
    if j == k {
        assert(r[0] == s[j]);
    } else {
        let j2 = if j < k { j } else { j - 1 };
        assert(rest[j2] == s[j]);
        lemma_rank_sort_has(rest, j2);
        let q = choose|q: int| 0 <= q < rank_sort(rest).len() && #[trigger] rank_sort(rest)[q] == rest[j2];
        assert(r[q + 1] == s[j]);
    }
}

/// No admitted candidate that outranks a suggestion is passed over: it is
/// itself suggested, at an earlier place. So the suggestions are the best
/// candidates, best first.
pub proof fn better_candidates_come_first(missing: Seq<u8>, cands: Seq<String>, c: int, p: int)
    requires
        0 <= c < cands.len(),
        0 <= p < suggestions_spec(missing, cands).len(),
        score(missing, encode_utf8(cands[c]@)) matches Some(y) && score(
            missing,
            encode_utf8(suggestions_spec(missing, cands)[p]),
        ) matches Some(x) && outranks((y.0, y.1, y.2, 0), (x.0, x.1, x.2, 0)),
    ensures
        exists|q: int| 0 <= q < p && #[trigger] suggestions_spec(missing, cands)[q] == cands[c]@,
{
    let sc = scored(missing, cands);
    let r = rank_sort(sc);
    let sg = suggestions_spec(missing, cands);
    lemma_scored_scores(missing, cands);
    rank_order_is_sorted(sc);
    lemma_rank_sort_members(sc);
    lemma_rank_sort_len(sc);
    lemma_scored_has(missing, cands, c);
    let t = score(missing, encode_utf8(cands[c]@)).unwrap();
    let i = choose|i: int| 0 <= i < sc.len() && #[trigger] sc[i] == (t.0, t.1, t.2, c);
    lemma_rank_sort_has(sc, i);
    let q = choose|q: int| 0 <= q < r.len() && #[trigger] r[q] == sc[i];
    assert(sc.contains(r[p]));
    assert(sg[p] == cands[r[p].3]@);
    assert(outranks(r[q], r[p]));
    assert(q < p);
    assert(sg[q] == cands[r[q].3]@);
}

} // verus!
