//! `/`-separated path segments: splitting, joining and prefix tests on
//! canonical paths, all at the level of characters.

use vstd::prelude::*;
use vstd::string::*;
use crate::resolver::{cfind, join_segs, split_segs, views};
use crate::transaction::inside_spec;
use crate::text::push_char;

verus! {

broadcast use vstd::seq::group_seq_axioms;

/// `cfind` is the first position holding `c`.
pub proof fn lemma_cfind(s: Seq<char>, c: char, k: int)
    requires
        0 <= k <= s.len(),
        forall|j: int| 0 <= j < k ==> s[j] != c,
        k < s.len() ==> s[k] == c,
    ensures
        cfind(s, c) == k,
    decreases k,
{
    if k > 0 {
        assert forall|j: int| 0 <= j < k - 1 implies s.drop_first()[j] != c by {
            assert(s.drop_first()[j] == s[j + 1]);
        }
        lemma_cfind(s.drop_first(), c, k - 1);
    }
}

/// The `/`-separated segments of `s` (empty ones included), as `str::split('/')` gives them.
pub fn split_slash(s: &str) -> (r: Vec<String>)
    ensures
        views(r@) == split_segs(s@),
{
    let n = s.unicode_len();
    let mut out: Vec<String> = Vec::new();
    let mut cur = String::new();
    let mut start: usize = 0;
    let mut i: usize = 0;
    assert(s@.skip(0) =~= s@);
    assert(views(out@) + split_segs(s@) =~= split_segs(s@));
    while i < n
        invariant
            n == s@.len(),
            start <= i <= n,
            cur@ == s@.subrange(start as int, i as int),
            forall|j: int| start <= j < i ==> s@[j] != '/',
            views(out@) + split_segs(s@.skip(start as int)) == split_segs(s@),
        decreases n - i,
    {
        let c = s.get_char(i);
        if c == '/' {
            proof {
                let rest = s@.skip(start as int);
                lemma_cfind(rest, '/', i - start);
                assert(rest.take(i - start) =~= cur@);
                assert(rest.skip(i - start + 1) =~= s@.skip(i + 1));
                assert(views(out@.push(cur)) =~= views(out@).push(cur@));
            }
            out.push(cur);
            cur = String::new();
            start = i + 1;
        } else {
            push_char(&mut cur, c);
            assert(cur@ =~= s@.subrange(start as int, i + 1));
        }
        i = i + 1;
    }
    proof {
        let rest = s@.skip(start as int);
        lemma_cfind(rest, '/', n - start);
        assert(cur@ =~= rest);
        assert(views(out@.push(cur)) =~= views(out@).push(cur@));
    }
    out.push(cur);
    out
}

/// The segments `v[lo..]` joined with `/`.
pub fn join_from(v: &Vec<String>, lo: usize) -> (r: String)
    requires
        lo <= v@.len(),
    ensures
        r@ == join_segs(views(v@).skip(lo as int)),
{
    let n = v.len();
    if lo == n {
        return String::new();
    }
    let mut out = v[lo].clone();
    let mut i: usize = lo + 1;
    assert(views(v@).subrange(lo as int, i as int) =~= seq![v@[lo as int]@]);
    while i < n
        invariant
            n == v@.len(),
            lo < i <= n,
            out@ == join_segs(views(v@).subrange(lo as int, i as int)),
        decreases n - i,
    {
        let ghost before = views(v@).subrange(lo as int, i as int);
        let sep = "/";
        proof {
            reveal_strlit("/");
        }
        out.append(sep);
        out.append(v[i].as_str());
        proof {
            let after = views(v@).subrange(lo as int, i + 1);
            assert(after.drop_last() =~= before);
            assert(after.last() == v@[i as int]@);
            assert(sep@ =~= seq!['/']);
        }
        i = i + 1;
    }
    assert(views(v@).subrange(lo as int, n as int) =~= views(v@).skip(lo as int));
    out
}


/// The segments `v[..hi]` joined with `/`.
pub fn join_take(v: &Vec<String>, hi: usize) -> (r: String)
    requires
        hi <= v@.len(),
    ensures
        r@ == join_segs(views(v@).take(hi as int)),
{
    if hi == 0 {
        return String::new();
    }
    let mut out = v[0].clone();
    let mut i: usize = 1;
    assert(views(v@).take(1) =~= seq![v@[0]@]);
    while i < hi
        invariant
            hi <= v@.len(),
            1 <= i <= hi,
            out@ == join_segs(views(v@).take(i as int)),
        decreases hi - i,
    {
        let ghost before = views(v@).take(i as int);
        let sep = "/";
        proof {
            reveal_strlit("/");
        }
        out.append(sep);
        out.append(v[i].as_str());
        proof {
            let after = views(v@).take(i + 1);
            assert(after.drop_last() =~= before);
            assert(after.last() == v@[i as int]@);
            assert(sep@ =~= seq!['/']);
        }
        i = i + 1;
    }
    out
}

/// Joining a first segment onto a non-empty rest puts one `/` between them.
pub proof fn lemma_join_cons(a: Seq<char>, rest: Seq<Seq<char>>)
    requires
        rest.len() > 0,
    ensures
        join_segs(seq![a] + rest) == a + seq!['/'] + join_segs(rest),
    decreases rest.len(),
{
    let whole = seq![a] + rest;
    assert(whole.last() == rest.last());
    if rest.len() == 1 {
        assert(whole.drop_last() =~= seq![a]);
        assert(join_segs(seq![a]) == a);
        assert(join_segs(rest) == rest[0]);
        assert(join_segs(whole) == join_segs(whole.drop_last()) + seq!['/'] + whole.last());
    } else {
        assert(whole.drop_last() =~= seq![a] + rest.drop_last());
        lemma_join_cons(a, rest.drop_last());
        assert(join_segs(whole) == join_segs(whole.drop_last()) + seq!['/'] + whole.last());
        assert(join_segs(rest) == join_segs(rest.drop_last()) + seq!['/'] + rest.last());
        assert(join_segs(whole) =~= a + seq!['/'] + join_segs(rest));
    }
}

/// Every split has at least one segment.
pub proof fn lemma_split_nonempty(s: Seq<char>)
    ensures
        split_segs(s).len() >= 1,
    decreases s.len(),
{
    let i = cfind(s, '/');
    if 0 <= i < s.len() {
        lemma_split_nonempty(s.skip(i + 1));
    }
}

/// `cfind` finds `c` or runs to the end.
pub proof fn lemma_cfind_found(s: Seq<char>, c: char)
    ensures
        0 <= cfind(s, c) <= s.len(),
        cfind(s, c) < s.len() ==> s[cfind(s, c)] == c,
    decreases s.len(),
{
    if s.len() > 0 && s[0] != c {
        lemma_cfind_found(s.drop_first(), c);
    }
}

/// Joining the segments of `s` gives `s` back.
pub proof fn lemma_join_split(s: Seq<char>)
    ensures
        join_segs(split_segs(s)) == s,
    decreases s.len(),
{
    let i = cfind(s, '/');
    lemma_cfind_found(s, '/');
    if 0 <= i < s.len() {
        let rest = s.skip(i + 1);
        lemma_join_split(rest);
        lemma_split_nonempty(rest);
        lemma_join_cons(s.take(i), split_segs(rest));
        assert(s =~= s.take(i) + seq!['/'] + rest);
    }
}

/// Splitting the joined segments at `d` leaves one `/` between the two halves.
pub proof fn lemma_join_at(segs: Seq<Seq<char>>, d: int)
    requires
        1 <= d < segs.len(),
    ensures
        join_segs(segs) == join_segs(segs.take(d)) + seq!['/'] + join_segs(segs.skip(d)),
    decreases segs.len(),
{
    if d == segs.len() - 1 {
        assert(segs.take(d) =~= segs.drop_last());
        assert(segs.skip(d) =~= seq![segs.last()]);
    } else {
        lemma_join_at(segs.drop_last(), d);
        assert(segs.drop_last().take(d) =~= segs.take(d));
        assert(segs.skip(d).drop_last() =~= segs.drop_last().skip(d));
        assert(segs.skip(d).last() == segs.last());
    }
}

/// The first `d` segments of a path, joined, name the path or a directory above it.
pub proof fn lemma_prefix_inside(s: Seq<char>, d: int)
    requires
        1 <= d <= split_segs(s).len(),
    ensures
        inside_spec(s, join_segs(split_segs(s).take(d))),
{
    let segs = split_segs(s);
    lemma_join_split(s);
    if d == segs.len() {
        assert(segs.take(d) =~= segs);
    } else {
        lemma_join_at(segs, d);
        let j = join_segs(segs.take(d));
        assert(s =~= j + seq!['/'] + join_segs(segs.skip(d)));
        assert(s.take(j.len() as int) =~= j);
    }
}

} // verus!
