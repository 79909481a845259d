//! Lexicographic order on strings, by code point (the order of `str::cmp`,
//! since UTF-8 keeps code-point order byte by byte).

use vstd::prelude::*;
use vstd::string::*;

verus! {

broadcast use vstd::seq::group_seq_axioms;

/// `a` sorts strictly before `b`.
pub open spec fn lex_lt(a: Seq<char>, b: Seq<char>) -> bool
    decreases a.len(),
{
    if a.len() == 0 {
        b.len() > 0
    } else if b.len() == 0 {
        false
    } else if a[0] != b[0] {
        (a[0] as int) < (b[0] as int)
    } else {
        lex_lt(a.drop_first(), b.drop_first())
    }
}

pub open spec fn lex_le(a: Seq<char>, b: Seq<char>) -> bool {
    a == b || lex_lt(a, b)
}

pub proof fn lemma_lex_irrefl(a: Seq<char>)
    ensures
        !lex_lt(a, a),
    decreases a.len(),
{
    if a.len() > 0 {
        lemma_lex_irrefl(a.drop_first());
    }
}

pub proof fn lemma_lex_trans(a: Seq<char>, b: Seq<char>, c: Seq<char>)
    requires
        lex_lt(a, b),
        lex_lt(b, c),
    ensures
        lex_lt(a, c),
    decreases a.len(),
{
    if a.len() > 0 && b.len() > 0 && c.len() > 0 {
        if a[0] == b[0] && b[0] == c[0] {
            lemma_lex_trans(a.drop_first(), b.drop_first(), c.drop_first());
        }
    }
}

pub proof fn lemma_lex_total(a: Seq<char>, b: Seq<char>)
    ensures
        a == b || lex_lt(a, b) || lex_lt(b, a),
    decreases a.len(),
{
    if a.len() > 0 && b.len() > 0 {
        if a[0] == b[0] {
            lemma_lex_total(a.drop_first(), b.drop_first());
            if a.drop_first() == b.drop_first() {
                assert(a =~= seq![a[0]] + a.drop_first());
                assert(b =~= seq![b[0]] + b.drop_first());
            }
        } else {
            assert((a[0] as int) != (b[0] as int));
        }
    } else if a.len() == 0 && b.len() == 0 {
        assert(a =~= b);
    }
}

pub proof fn lemma_lex_asym(a: Seq<char>, b: Seq<char>)
    requires
        lex_lt(a, b),
    ensures
        !lex_lt(b, a),
{
    if lex_lt(b, a) {
        lemma_lex_trans(a, b, a);
        lemma_lex_irrefl(a);
    }
}

proof fn lemma_lex_skip(a: Seq<char>, b: Seq<char>, i: int)
    requires
        0 <= i <= a.len(),
        i <= b.len(),
        forall|j: int| 0 <= j < i ==> a[j] == b[j],
    ensures
        lex_lt(a, b) == lex_lt(a.skip(i), b.skip(i)),
    decreases i,
{
    if i > 0 {
        assert forall|j: int| 0 <= j < i - 1 implies a.drop_first()[j] == b.drop_first()[j] by {
            assert(a.drop_first()[j] == a[j + 1]);
        }
        lemma_lex_skip(a.drop_first(), b.drop_first(), i - 1);
        assert(a.drop_first().skip(i - 1) =~= a.skip(i));
        assert(b.drop_first().skip(i - 1) =~= b.skip(i));
    } else {
        assert(a.skip(0) =~= a);
        assert(b.skip(0) =~= b);
    }
}

/// Whether `a` sorts strictly before `b`.
pub fn str_lt(a: &str, b: &str) -> (r: bool)
    ensures
        r == lex_lt(a@, b@),
{
    let al = a.unicode_len();
    let bl = b.unicode_len();
    let mut i: usize = 0;
    while i < al && i < bl
        invariant
            al == a@.len(),
            bl == b@.len(),
            0 <= i <= al,
            i <= bl,
            forall|j: int| 0 <= j < i ==> a@[j] == b@[j],
        decreases al - i,
    {
        let x = a.get_char(i);
        let y = b.get_char(i);
        if x != y {
            proof {
                lemma_lex_skip(a@, b@, i as int);
                assert(a@.skip(i as int)[0] == x);
                assert(b@.skip(i as int)[0] == y);
            }
            return (x as u32) < (y as u32);
        }
        i = i + 1;
    }
    proof {
        lemma_lex_skip(a@, b@, i as int);
    }
    i < bl && i == al
}

/// Every string is no greater than the next ones.
pub open spec fn sorted_le(v: Seq<Seq<char>>) -> bool {
    forall|i: int, j: int| 0 <= i < j < v.len() ==> lex_le(#[trigger] v[i], #[trigger] v[j])
}

/// The strings of `v`, in ascending order (what `sort` gives on a
/// `Vec<String>`): sorted, and the same strings as often as before.
pub fn sort_strings(v: &Vec<String>) -> (r: Vec<String>)
    ensures
        sorted_le(crate::text::string_views(r@)),
        crate::text::string_views(r@).to_multiset() == crate::text::string_views(v@).to_multiset(),
{
    let mut out: Vec<String> = Vec::new();
    let mut i: usize = 0;
    let ghost vv = crate::text::string_views(v@);
    assert(crate::text::string_views(out@) =~= Seq::<Seq<char>>::empty());
    assert(vv.take(0) =~= Seq::<Seq<char>>::empty());
    while i < v.len()
        invariant
            vv == crate::text::string_views(v@),
            i <= v@.len(),
            sorted_le(crate::text::string_views(out@)),
            crate::text::string_views(out@).to_multiset() == vv.take(i as int).to_multiset(),
        decreases v@.len() - i,
    {
        let x = v[i].as_str();
        let ghost ov = crate::text::string_views(out@);
        let mut p: usize = 0;
        while p < out.len() && !str_lt(x, out[p].as_str())
            invariant
                ov == crate::text::string_views(out@),
                p <= out@.len(),
                forall|q: int| 0 <= q < p ==> lex_le(#[trigger] ov[q], x@),
            decreases out@.len() - p,
        {
            proof {
                lemma_lex_total(x@, ov[p as int]);
            }
            p = p + 1;
        }
        out.insert(p, x.to_owned());
        let ghost nv = crate::text::string_views(out@);
        assert(nv =~= ov.insert(p as int, x@));
        assert forall|a: int, b: int| 0 <= a < b < nv.len() implies lex_le(#[trigger] nv[a], #[trigger] nv[b]) by {
            if b < p {
                assert(nv[a] == ov[a] && nv[b] == ov[b]);
            } else if b == p {
                assert(nv[a] == ov[a]);
            } else if a == p {
                assert(nv[b] == ov[b - 1]);
                assert(lex_lt(x@, ov[p as int]));
                if b - 1 > p {
                    assert(lex_le(ov[p as int], ov[b - 1]));
                    if lex_lt(ov[p as int], ov[b - 1]) {
                        lemma_lex_trans(x@, ov[p as int], ov[b - 1]);
                    }
                }
            } else if a < p {
                assert(nv[a] == ov[a] && nv[b] == ov[b - 1]);
                assert(lex_le(ov[a], x@));
                assert(lex_lt(x@, ov[p as int]));
                if b - 1 > p {
                    if lex_lt(ov[p as int], ov[b - 1]) {
                        lemma_lex_trans(x@, ov[p as int], ov[b - 1]);
                    }
                }
                if lex_lt(ov[a], x@) {
                    lemma_lex_trans(ov[a], x@, ov[b - 1]);
                }
            } else {
                assert(nv[a] == ov[a - 1] && nv[b] == ov[b - 1]);
            }
        }
        assert(vv.take(i + 1) =~= vv.take(i as int).push(vv[i as int]));
        assert(x@ == vv[i as int]);
        proof {
            vstd::seq_lib::to_multiset_insert(ov, p as int, x@);
            vstd::seq_lib::to_multiset_build(vv.take(i as int), vv[i as int]);
        }
        i = i + 1;
    }
    assert(vv.take(i as int) =~= vv);
    out
}

} // verus!
