//! Helpers of the plan preview (`anchor diff`).

use vstd::prelude::*;
use vstd::string::*;
use crate::suggest::{edit_distance, lev_chars};
use crate::text::{chars_of, chars_vec, lemma_rfind_byte, rfind_byte, rfind_byte_exec, substr};

verus! {

broadcast use vstd::seq::group_seq_axioms;

/// The text after the last `/` of a path, as bytes.
pub open spec fn last_segment(b: Seq<u8>) -> Seq<u8> {
    b.subrange(rfind_byte(b, b.len() as int, 47u8) + 1, b.len() as int)
}

/// The text after the last `/` (the whole path when there is none).
pub fn last_segment_of(path: &str) -> (r: &str)
    ensures
        r.spec_bytes() == last_segment(path.spec_bytes()),
        r@ == chars_of(last_segment(path.spec_bytes())),
{
    let b = path.as_bytes();
    proof {
        lemma_rfind_byte(b@, b@.len() as int, 47u8);
    }
    let lo = match rfind_byte_exec(b, b.len(), 47u8) {
        Some(i) => i + 1,
        None => 0,
    };
    substr(path, lo, b.len())
}

/// Character edit distance between the last segments of `missing` and `c`, when
/// their normalized distance (over the longer byte length) is at most 0.6.
pub open spec fn segment_score(missing: Seq<u8>, c: Seq<u8>) -> Option<nat> {
    let mb = last_segment(missing);
    let cb = last_segment(c);
    let ml = if mb.len() >= cb.len() { mb.len() } else { cb.len() };
    if ml == 0 {
        None
    } else {
        let d = edit_distance(chars_of(mb), chars_of(cb));
        if 5 * d <= 3 * ml {
            Some(d)
        } else {
            None
        }
    }
}

/// Index of the first admitted candidate with the smallest distance.
pub open spec fn closest(missing: Seq<u8>, cands: Seq<String>) -> Option<int>
    decreases cands.len(),
{
    if cands.len() == 0 {
        None
    } else {
        let prev = closest(missing, cands.drop_last());
        match segment_score(missing, vstd::utf8::encode_utf8(cands.last()@)) {
            None => prev,
            Some(d) => match prev {
                None => Some(cands.len() - 1),
                Some(k) => if d < segment_score(missing, vstd::utf8::encode_utf8(cands[k]@)).unwrap() {
                    Some(cands.len() - 1)
                } else {
                    Some(k)
                },
            },
        }
    }
}

proof fn lemma_closest(missing: Seq<u8>, cands: Seq<String>)
    ensures
        closest(missing, cands) matches Some(k) ==> 0 <= k < cands.len() && segment_score(
            missing,
            vstd::utf8::encode_utf8(cands[k]@),
        ) is Some,
    decreases cands.len(),
{
    if cands.len() > 0 {
        lemma_closest(missing, cands.drop_last());
    }
}

/// At most one suggestion for a missing plan source: the candidate whose last
/// segment is closest in character edit distance (normalized distance at most
/// 0.6; earlier candidates win ties).
pub fn suggest_similar(missing: &str, candidates: &[String]) -> (r: Vec<String>)
    ensures
        r@.map_values(|s: String| s@) == match closest(missing.spec_bytes(), candidates@) {
            None => Seq::<Seq<char>>::empty(),
            Some(k) => seq![candidates@[k]@],
        },
{
    let mb = last_segment_of(missing);
    let mchars = chars_vec(mb);
    let mut best: Option<(usize, usize)> = None;
    let mut i: usize = 0;
    while i < candidates.len()
        invariant
            0 <= i <= candidates@.len(),
            mb.spec_bytes() == last_segment(missing.spec_bytes()),
            mchars@ == chars_of(last_segment(missing.spec_bytes())),
            match best {
                None => closest(missing.spec_bytes(), candidates@.take(i as int)) is None,
                Some((k, d)) => closest(missing.spec_bytes(), candidates@.take(i as int)) == Some(k as int)
                    && k < i && segment_score(missing.spec_bytes(), vstd::utf8::encode_utf8(candidates@[k as int]@))
                    == Some(d as nat),
            },
        decreases candidates@.len() - i,
    {
        let ghost t = candidates@.take(i + 1);
        assert(t.drop_last() =~= candidates@.take(i as int));
        assert(t.last() == candidates@[i as int]);
        let c = candidates[i].as_str();
        let cb = last_segment_of(c);
        let ml = if mb.as_bytes().len() >= cb.as_bytes().len() { mb.as_bytes().len() } else { cb.as_bytes().len() };
        if ml > 0 {
            let cchars = chars_vec(cb);
            let d = lev_chars(mchars.as_slice(), cchars.as_slice());
            if (d as u128) * 5 <= (ml as u128) * 3 {
                match best {
                    None => {
                        best = Some((i, d));
                    },
                    Some((k, bd)) => {
                        if d < bd {
                            best = Some((i, d));
                        }
                    },
                }
            }
        }
        i = i + 1;
    }
    assert(candidates@.take(i as int) =~= candidates@);
    let mut out: Vec<String> = Vec::new();
    match best {
        Some((k, _)) => {
            out.push(candidates[k].clone());
            assert(out@.map_values(|s: String| s@) =~= seq![candidates@[k as int]@]);
        },
        None => {
            assert(out@.map_values(|s: String| s@) =~= Seq::<Seq<char>>::empty());
        },
    }
    out
}

} // verus!
