//! `frontmatter normalize`: map status synonyms to canonical values, add
//! `schema_version: 1` when absent, and (on request) order keys canonically.

use vstd::prelude::*;
use vstd::string::*;
use crate::doc_values::{entry_index, yaml_entry, yaml_key_is, yaml_str, yaml_as_str, yaml_lookup, untag, YamlValue};
use crate::fm_schema::{key_index, lemma_key_index, SchemaRules, pairs_view, syn_view};
use crate::frontmatter::dedup_append;
use crate::order::{lex_lt, str_lt};
use crate::text::{str_eq, string_views};

verus! {

broadcast use vstd::seq::group_seq_axioms;

pub type Entry = (YamlValue, YamlValue);

/// The key of an entry when it is a plain (untagged) string.
pub open spec fn plain_key(key: YamlValue) -> Option<Seq<char>> {
    match key {
        YamlValue::Str(s) => Some(s@),
        _ => None,
    }
}

pub type SynView = Seq<(Seq<char>, Seq<(Seq<char>, Seq<char>)>)>;

/// The canonical value of `current` in field `k`'s synonym table, if listed.
pub open spec fn synonym_for(syn: SynView, k: Seq<char>, current: Seq<char>) -> Option<Seq<char>> {
    let t = key_index(syn, k, 0);
    if 0 <= t < syn.len() {
        let table = syn[t].1;
        let j = key_index(table, current, 0);
        if 0 <= j < table.len() {
            Some(table[j].1)
        } else {
            None
        }
    } else {
        None
    }
}

/// The canonical string an entry's value is replaced by, if any.
pub open spec fn synonym_target(syn: SynView, e: Entry) -> Option<Seq<char>> {
    match plain_key(e.0) {
        Some(k) => match yaml_str(e.1) {
            Some(cur) => synonym_for(syn, k, cur),
            None => None,
        },
        None => None,
    }
}

/// `out` is `es` with each synonym value replaced by its canonical string.
pub open spec fn synonyms_applied(es: Seq<Entry>, out: Seq<Entry>, syn: SynView) -> bool {
    &&& out.len() == es.len()
    &&& forall|i: int|
        0 <= i < es.len() ==> (#[trigger] out[i]).0 == es[i].0 && match synonym_target(syn, es[i]) {
            Some(c) => out[i].1 is Str && yaml_str(out[i].1) == Some(c),
            None => out[i].1 == es[i].1,
        }
}

fn lookup_pairs<'a>(m: &'a Vec<(String, String)>, k: &str) -> (r: Option<&'a String>)
    ensures
        match r {
            Some(v) => {
                let i = key_index(pairs_view(m@), k@, 0);
                0 <= i < m@.len() && pairs_view(m@)[i].1 == v@
            },
            None => key_index(pairs_view(m@), k@, 0) >= m@.len(),
        },
{
    let ghost mv = pairs_view(m@);
    proof {
        lemma_key_index(mv, k@, 0);
    }
    let mut i: usize = 0;
    while i < m.len()
        invariant
            mv == pairs_view(m@),
            i <= m@.len(),
            key_index(mv, k@, i as int) == key_index(mv, k@, 0),
        decreases m@.len() - i,
    {
        if str_eq(m[i].0.as_str(), k) {
            assert(key_index(mv, k@, i as int) == i);
            return Some(&m[i].1);
        }
        i = i + 1;
    }
    assert(key_index(mv, k@, i as int) == mv.len());
    None
}

fn synonym_exec(syn: &Vec<(String, Vec<(String, String)>)>, e: &Entry) -> (r: Option<String>)
    ensures
        match r {
            Some(c) => synonym_target(syn_view(syn@), *e) == Some(c@),
            None => synonym_target(syn_view(syn@), *e) is None,
        },
{
    let k = match &e.0 {
        YamlValue::Str(s) => s.as_str(),
        _ => return None,
    };
    let cur = match yaml_as_str(&e.1) {
        Some(c) => c,
        None => return None,
    };
    let ghost sv = syn_view(syn@);
    proof {
        lemma_key_index(sv, k@, 0);
    }
    let mut t: usize = 0;
    while t < syn.len()
        invariant
            sv == syn_view(syn@),
            plain_key(e.0) == Some(k@),
            yaml_str(e.1) == Some(cur@),
            t <= syn@.len(),
            key_index(sv, k@, t as int) == key_index(sv, k@, 0),
        decreases syn@.len() - t,
    {
        if str_eq(syn[t].0.as_str(), k) {
            assert(key_index(sv, k@, t as int) == t);
            assert(sv[t as int].1 == pairs_view(syn@[t as int].1@));
            return match lookup_pairs(&syn[t].1, cur) {
                Some(c) => Some(c.clone()),
                None => None,
            };
        }
        t = t + 1;
    }
    assert(key_index(sv, k@, t as int) == sv.len());
    None
}

/// Replace each synonym value of a frontmatter mapping by its canonical
/// string; anything but a mapping is left as it is.
pub fn apply_synonyms(fm: YamlValue, schema: &SchemaRules) -> (r: YamlValue)
    ensures
        match fm {
            YamlValue::Mapping(es) => r matches YamlValue::Mapping(out) && synonyms_applied(es@, out@, syn_view(schema.synonyms@)),
            _ => r == fm,
        },
{
    match fm {
        YamlValue::Mapping(es) => {
            let ghost orig = es@;
            let ghost sv = syn_view(schema.synonyms@);
            let mut es = es;
            let mut i: usize = 0;
            while i < es.len()
                invariant
                    sv == syn_view(schema.synonyms@),
                    es@.len() == orig.len(),
                    i <= es@.len(),
                    forall|q: int| i <= q < orig.len() ==> #[trigger] es@[q] == orig[q],
                    forall|q: int|
                        0 <= q < i ==> (#[trigger] es@[q]).0 == orig[q].0 && match synonym_target(sv, orig[q]) {
                            Some(c) => es@[q].1 is Str && yaml_str(es@[q].1) == Some(c),
                            None => es@[q].1 == orig[q].1,
                        },
                decreases orig.len() - i,
            {
                match synonym_exec(&schema.synonyms, &es[i]) {
                    Some(c) => {
                        es[i].1 = YamlValue::Str(c);
                    },
                    None => {},
                }
                i = i + 1;
            }
            YamlValue::Mapping(es)
        },
        _ => fm,
    }
}

pub open spec fn sv_key() -> Seq<char> {
    "schema_version"@
}

/// Add `schema_version: 1` at the end of a mapping that lacks the key.
pub fn ensure_schema_version(fm: YamlValue) -> (r: YamlValue)
    ensures
        match fm {
            YamlValue::Mapping(es) => r matches YamlValue::Mapping(out) && if yaml_entry(es@, sv_key(), 0) < es@.len() {
                out@ == es@
            } else {
                out@.len() == es@.len() + 1 && out@.take(es@.len() as int) == es@ && plain_key(out@.last().0) == Some(
                    sv_key(),
                ) && out@.last().1 == YamlValue::Int(1)
            },
            _ => r == fm,
        },
{
    match fm {
        YamlValue::Mapping(es) => {
            let mut es = es;
            let ghost orig = es@;
            proof {
                reveal_strlit("schema_version");
            }
            let mut i: usize = 0;
            let mut found = false;
            while i < es.len()
                invariant
                    es@ == orig,
                    fm matches YamlValue::Mapping(x) && x@ == orig,
                    i <= es@.len(),
                    !found,
                    yaml_entry(orig, sv_key(), i as int) == yaml_entry(orig, sv_key(), 0),
                decreases es@.len() - i,
            {
                let hit = match &es[i].0 {
                    YamlValue::Str(s) => str_eq(s.as_str(), "schema_version"),
                    _ => false,
                };
                if hit {
                    assert(yaml_key_is(orig[i as int].0, sv_key()));
                    assert(yaml_entry(orig, sv_key(), i as int) == i);
                    return YamlValue::Mapping(es);
                }
                i = i + 1;
            }
            assert(yaml_entry(orig, sv_key(), i as int) == orig.len());
            es.push((YamlValue::Str("schema_version".to_owned()), YamlValue::Int(1)));
            assert(es@.take(orig.len() as int) =~= orig);
            YamlValue::Mapping(es)
        },
        _ => fm,
    }
}

// ───────────────────────── key order ─────────────────────────

/// The name of entry `i` when it is an extra: its key reads as a string that
/// the canonical order does not list.
pub open spec fn extra_name(es: Seq<Entry>, order: Seq<Seq<char>>, i: int) -> Option<Seq<char>> {
    match yaml_str(es[i].0) {
        Some(s) => if order.contains(s) {
            None
        } else {
            Some(s)
        },
        None => None,
    }
}

/// The index of the last extra entry named `s` among the first `n`, or -1.
pub open spec fn last_extra(es: Seq<Entry>, order: Seq<Seq<char>>, s: Seq<char>, n: int) -> int
    decreases n,
{
    if n <= 0 {
        -1
    } else if extra_name(es, order, n - 1) == Some(s) {
        n - 1
    } else {
        last_extra(es, order, s, n - 1)
    }
}

/// The canonical names (each once, in canonical order) that the mapping has
/// as plain keys.
pub open spec fn present_names(es: Seq<Entry>, names: Seq<Seq<char>>) -> Seq<Seq<char>>
    decreases names.len(),
{
    if names.len() == 0 {
        seq![]
    } else {
        present_names(es, names.drop_last()) + if yaml_entry(es, names.last(), 0) < es.len() {
            seq![names.last()]
        } else {
            seq![]
        }
    }
}

pub open spec fn canon_names(es: Seq<Entry>, order: Seq<Seq<char>>) -> Seq<Seq<char>> {
    present_names(es, dedup_append(seq![], order))
}

/// `out` is `es` reordered: first the canonical keys present, in canonical
/// order, with their values; then one entry per extra name, names in
/// ascending order, each with the value of the last entry of that name.
/// Entries whose key is no string, or a tagged string that the canonical
/// order lists, are dropped.
pub open spec fn reordered(es: Seq<Entry>, order: Seq<Seq<char>>, out: Seq<Entry>) -> bool {
    let cn = canon_names(es, order);
    &&& out.len() >= cn.len()
    &&& forall|p: int|
        0 <= p < cn.len() ==> (#[trigger] out[p]).0 is Str && plain_key(out[p].0) == Some(cn[p]) && out[p].1
            == es[yaml_entry(es, cn[p], 0)].1
    &&& forall|p: int|
        cn.len() <= p < out.len() ==> (#[trigger] out[p]).0 is Str && plain_key(out[p].0) is Some && (exists|i: int|
            0 <= i < es.len() && extra_name(es, order, i) == plain_key(out[p].0)) && out[p].1 == es[last_extra(
            es,
            order,
            plain_key(out[p].0).unwrap(),
            es.len() as int,
        )].1
    &&& forall|p: int, q: int|
        cn.len() <= p < q < out.len() ==> lex_lt(plain_key(#[trigger] out[p].0).unwrap(), plain_key(#[trigger] out[q].0).unwrap())
    &&& forall|i: int|
        0 <= i < es.len() && extra_name(es, order, i) is Some ==> exists|p: int|
            cn.len() <= p < out.len() && plain_key(#[trigger] out[p].0) == extra_name(es, order, i)
}

proof fn lemma_dedup(acc: Seq<Seq<char>>, xs: Seq<Seq<char>>)
    requires
        acc.no_duplicates(),
    ensures
        dedup_append(acc, xs).no_duplicates(),
        forall|x: Seq<char>| #[trigger] dedup_append(acc, xs).contains(x) ==> acc.contains(x) || xs.contains(x),
    decreases xs.len(),
{
    if xs.len() > 0 {
        let next = if acc.contains(xs[0]) {
            acc
        } else {
            acc.push(xs[0])
        };
        if !acc.contains(xs[0]) {
            assert forall|i: int, j: int| 0 <= i < j < next.len() implies next[i] != next[j] by {
                if j == acc.len() {
                    assert(next[i] == acc[i]);
                }
            }
        }
        lemma_dedup(next, xs.drop_first());
        assert forall|x: Seq<char>| #[trigger] dedup_append(acc, xs).contains(x) implies acc.contains(x) || xs.contains(x) by {
            if next.contains(x) && !acc.contains(x) {
                assert(x == xs[0]);
            }
            if xs.drop_first().contains(x) {
                let k = choose|k: int| 0 <= k < xs.drop_first().len() && xs.drop_first()[k] == x;
                assert(xs[k + 1] == x);
            }
        }
    }
}

proof fn lemma_present(es: Seq<Entry>, names: Seq<Seq<char>>)
    requires
        names.no_duplicates(),
    ensures
        present_names(es, names).no_duplicates(),
        forall|x: Seq<char>| #[trigger] present_names(es, names).contains(x) ==> names.contains(x),
        forall|p: int| 0 <= p < present_names(es, names).len() ==> yaml_entry(es, #[trigger] present_names(es, names)[p], 0) < es.len(),
    decreases names.len(),
{
    if names.len() > 0 {
        let init = names.drop_last();
        assert(init.no_duplicates());
        lemma_present(es, init);
        let prev = present_names(es, init);
        let cur = present_names(es, names);
        assert forall|x: Seq<char>| #[trigger] prev.contains(x) implies names.contains(x) by {
            let k = choose|k: int| 0 <= k < init.len() && init[k] == x;
            assert(names[k] == x);
        }
        if yaml_entry(es, names.last(), 0) < es.len() {
            assert(!prev.contains(names.last())) by {
                if prev.contains(names.last()) {
                    assert(init.contains(names.last()));
                    let k = choose|k: int| 0 <= k < init.len() && init[k] == names.last();
                    assert(names[k] == names[names.len() - 1]);
                }
            }
            assert(cur == prev.push(names.last()));
            assert forall|i: int, j: int| 0 <= i < j < cur.len() implies cur[i] != cur[j] by {
                if j == prev.len() {
                    assert(prev.contains(cur[i]));
                }
            }
            assert forall|x: Seq<char>| #[trigger] cur.contains(x) implies names.contains(x) by {
                let k = choose|k: int| 0 <= k < cur.len() && cur[k] == x;
                if k < prev.len() {
                    assert(prev[k] == x);
                    assert(prev.contains(x));
                } else {
                    assert(names[names.len() - 1] == x);
                }
            }
        } else {
            assert(cur =~= prev);
        }
    }
}

/// `v` is in strictly ascending order.
pub open spec fn strictly_sorted(v: Seq<Seq<char>>) -> bool {
    forall|i: int, j: int| 0 <= i < j < v.len() ==> lex_lt(#[trigger] v[i], #[trigger] v[j])
}

/// Insert `s` into the strictly sorted `v` unless it is there already.
fn insert_sorted(v: &mut Vec<String>, s: &str)
    requires
        strictly_sorted(string_views(old(v)@)),
    ensures
        strictly_sorted(string_views(final(v)@)),
        string_views(final(v)@).to_set() == string_views(old(v)@).to_set().insert(s@),
{
    let ghost vv = string_views(v@);
    let mut p: usize = 0;
    while p < v.len() && str_lt(v[p].as_str(), s)
        invariant
            vv == string_views(v@),
            vv == string_views(old(v)@),
            p <= v@.len(),
            forall|q: int| 0 <= q < p ==> lex_lt(#[trigger] vv[q], s@),
        decreases v@.len() - p,
    {
        p = p + 1;
    }
    if p < v.len() && str_eq(v[p].as_str(), s) {
        assert(vv.to_set().insert(s@) =~= vv.to_set()) by {
            assert(vv.contains(s@)) by {
                assert(vv[p as int] == s@);
            }
        }
        return;
    }
    proof {
        if p < vv.len() {
            crate::order::lemma_lex_total(vv[p as int], s@);
        }
    }
    v.insert(p, s.to_owned());
    let ghost nv = string_views(v@);
    assert(nv =~= vv.insert(p as int, s@));
    assert forall|i: int, j: int| 0 <= i < j < nv.len() implies lex_lt(#[trigger] nv[i], #[trigger] nv[j]) by {
        if j < p {
            assert(nv[i] == vv[i] && nv[j] == vv[j]);
        } else if j == p {
            assert(nv[i] == vv[i]);
        } else if i == p {
            assert(nv[j] == vv[j - 1]);
            if j - 1 > p {
                assert(lex_lt(vv[p as int], vv[j - 1]));
                crate::order::lemma_lex_trans(s@, vv[p as int], vv[j - 1]);
            }
        } else if i < p {
            assert(nv[i] == vv[i] && nv[j] == vv[j - 1]);
        } else {
            assert(nv[i] == vv[i - 1] && nv[j] == vv[j - 1]);
        }
    }
    assert(nv.to_set() =~= vv.to_set().insert(s@)) by {
        assert forall|x: Seq<char>| nv.to_set().contains(x) <==> vv.to_set().insert(s@).contains(x) by {
            if nv.contains(x) {
                let k = choose|k: int| 0 <= k < nv.len() && nv[k] == x;
                if k < p {
                    assert(vv[k] == x);
                } else if k > p {
                    assert(vv[k - 1] == x);
                }
            }
            if vv.contains(x) {
                let k = choose|k: int| 0 <= k < vv.len() && vv[k] == x;
                if k < p {
                    assert(nv[k] == x);
                } else {
                    assert(nv[k + 1] == x);
                }
            }
            if x == s@ {
                assert(nv[p as int] == x);
            }
        }
    }
}

fn into_slots<T>(v: Vec<T>) -> (r: Vec<Option<T>>)
    ensures
        r@.len() == v@.len(),
        forall|j: int| 0 <= j < v@.len() ==> #[trigger] r@[j] == Some(v@[j]),
{
    let n = v.len();
    let ghost orig = v@;
    let mut v = v;
    let mut slots: Vec<Option<T>> = Vec::new();
    let mut i: usize = 0;
    while i < n
        invariant
            i <= n,
            slots@.len() == i,
        decreases n - i,
    {
        slots.push(None);
        i = i + 1;
    }
    let mut k: usize = n;
    while k > 0
        invariant
            n == orig.len(),
            k <= n,
            v@ == orig.take(k as int),
            slots@.len() == n,
            forall|j: int| k <= j < n ==> #[trigger] slots@[j] == Some(orig[j]),
        decreases k,
    {
        let e = v.pop().unwrap();
        assert(e == orig[k - 1]);
        assert(v@ =~= orig.take(k - 1));
        k = k - 1;
        slots.set(k, Some(e));
    }
    slots
}

fn extra_name_exec<'a>(es: &'a Vec<Entry>, order: &Vec<String>, i: usize) -> (r: Option<&'a str>)
    requires
        i < es@.len(),
    ensures
        match r {
            Some(s) => extra_name(es@, string_views(order@), i as int) == Some(s@),
            None => extra_name(es@, string_views(order@), i as int) is None,
        },
{
    match yaml_as_str(&es[i].0) {
        Some(s) => if crate::fm_audit::contains_str(order, s) {
            None
        } else {
            Some(s)
        },
        None => None,
    }
}

fn last_extra_exec(es: &Vec<Entry>, order: &Vec<String>, s: &str) -> (r: usize)
    requires
        exists|i: int| 0 <= i < es@.len() && extra_name(es@, string_views(order@), i) == Some(s@),
    ensures
        r as int == last_extra(es@, string_views(order@), s@, es@.len() as int),
        r < es@.len(),
        extra_name(es@, string_views(order@), r as int) == Some(s@),
{
    let ghost ov = string_views(order@);
    let mut i: usize = es.len();
    while i > 0
        invariant
            ov == string_views(order@),
            i <= es@.len(),
            exists|q: int| 0 <= q < i && extra_name(es@, ov, q) == Some(s@),
            last_extra(es@, ov, s@, i as int) == last_extra(es@, ov, s@, es@.len() as int),
        decreases i,
    {
        let hit = match extra_name_exec(es, order, i - 1) {
            Some(x) => str_eq(x, s),
            None => false,
        };
        if hit {
            return i - 1;
        }
        i = i - 1;
    }
    assert(false);
    0
}

/// Order a mapping's keys canonically: the keys `order` lists, in that
/// order, then the other string keys in ascending order.
#[verifier::rlimit(60)]
#[verifier::spinoff_prover]
pub fn reorder_keys(fm: YamlValue, order: &Vec<String>) -> (r: YamlValue)
    ensures
        match fm {
            YamlValue::Mapping(es) => r matches YamlValue::Mapping(out) && reordered(es@, string_views(order@), out@),
            _ => r == fm,
        },
{
    match fm {
        YamlValue::Mapping(es) => {
            let ghost ev = es@;
            let ghost ov = string_views(order@);
            let cnames = crate::fm_check::dedup_strings(order);
            let ghost cv = string_views(cnames@);
            proof {
                lemma_dedup(seq![], ov);
                lemma_present(ev, cv);
            }
            let mut plan: Vec<(String, usize)> = Vec::new();
            let mut k: usize = 0;
            while k < cnames.len()
                invariant
                    ev == es@,
                    cv == string_views(cnames@),
                    cv == dedup_append(seq![], ov),
                    k <= cnames@.len(),
                    plan@.map_values(|e: (String, usize)| e.0@) == present_names(ev, cv.take(k as int)),
                    forall|t: int|
                        0 <= t < plan@.len() ==> (#[trigger] plan@[t]).1 as int == yaml_entry(ev, plan@[t].0@, 0) && plan@[t].1 < ev.len(),
                decreases cnames@.len() - k,
            {
                let idx = entry_index(&es, cnames[k].as_str());
                assert(cv.take(k + 1).drop_last() =~= cv.take(k as int));
                assert(cv.take(k + 1).last() == cnames@[k as int]@);
                let ghost before = plan@.map_values(|e: (String, usize)| e.0@);
                if idx < es.len() {
                    plan.push((cnames[k].clone(), idx));
                    assert(plan@.map_values(|e: (String, usize)| e.0@) =~= before.push(cnames@[k as int]@));
                } else {
                    assert(plan@.map_values(|e: (String, usize)| e.0@) =~= before);
                }
                k = k + 1;
            }
            assert(cv.take(k as int) =~= cv);
            let ncanon = plan.len();
            let ghost cn = canon_names(ev, ov);
            assert(plan@.map_values(|e: (String, usize)| e.0@) == cn);
            // the extra names, ascending
            let mut names: Vec<String> = Vec::new();
            let mut i: usize = 0;
            assert(string_views(names@).to_set() =~= Set::<Seq<char>>::empty());
            while i < es.len()
                invariant
                    ev == es@,
                    ov == string_views(order@),
                    i <= ev.len(),
                    strictly_sorted(string_views(names@)),
                    forall|x: Seq<char>|
                        string_views(names@).contains(x) <==> exists|j: int| 0 <= j < i && extra_name(ev, ov, j) == Some(x),
                decreases ev.len() - i,
            {
                let ghost before = string_views(names@);
                match extra_name_exec(&es, order, i) {
                    Some(x) => {
                        insert_sorted(&mut names, x);
                        assert forall|y: Seq<char>|
                            string_views(names@).contains(y) <==> exists|j: int| 0 <= j < i + 1 && extra_name(ev, ov, j) == Some(y) by {
                            assert(string_views(names@).to_set().contains(y) == string_views(names@).contains(y));
                            assert(before.to_set().contains(y) == before.contains(y));
                            if y == x@ {
                                assert(extra_name(ev, ov, i as int) == Some(y));
                            }
                        }
                    },
                    None => {
                        assert forall|y: Seq<char>|
                            string_views(names@).contains(y) <==> exists|j: int| 0 <= j < i + 1 && extra_name(ev, ov, j) == Some(y) by {
                            if exists|j: int| 0 <= j < i + 1 && extra_name(ev, ov, j) == Some(y) {
                                let j = choose|j: int| 0 <= j < i + 1 && extra_name(ev, ov, j) == Some(y);
                                assert(j < i);
                            }
                        }
                    },
                }
                i = i + 1;
            }
            let ghost nv = string_views(names@);
            // where each extra's value comes from
            let mut m: usize = 0;
            while m < names.len()
                invariant
                    ev == es@,
                    ov == string_views(order@),
                    nv == string_views(names@),
                    m <= names@.len(),
                    plan@.len() == ncanon + m,
                    forall|x: Seq<char>| nv.contains(x) <==> exists|j: int| 0 <= j < ev.len() && extra_name(ev, ov, j) == Some(x),
                    forall|t: int|
                        0 <= t < ncanon ==> (#[trigger] plan@[t]).1 as int == yaml_entry(ev, plan@[t].0@, 0) && plan@[t].1 < ev.len(),
                    plan@.map_values(|e: (String, usize)| e.0@).take(ncanon as int) == cn,
                    forall|t: int|
                        ncanon <= t < plan@.len() ==> (#[trigger] plan@[t]).0@ == nv[t - ncanon] && plan@[t].1 as int == last_extra(
                            ev,
                            ov,
                            nv[t - ncanon],
                            ev.len() as int,
                        ) && plan@[t].1 < ev.len() && extra_name(ev, ov, plan@[t].1 as int) == Some(nv[t - ncanon]),
                decreases names@.len() - m,
            {
                assert(nv.contains(nv[m as int]));
                let li = last_extra_exec(&es, order, names[m].as_str());
                let ghost before = plan@;
                plan.push((names[m].clone(), li));
                assert(plan@.map_values(|e: (String, usize)| e.0@).take(ncanon as int) =~= before.map_values(
                    |e: (String, usize)| e.0@,
                ).take(ncanon as int));
                m = m + 1;
            }
            // distinct sources
            proof {
                assert forall|t1: int, t2: int| 0 <= t1 < t2 < plan@.len() implies (#[trigger] plan@[t1]).1 != (#[trigger] plan@[t2]).1 by {
                    let pn = plan@.map_values(|e: (String, usize)| e.0@);
                    if t2 < ncanon {
                        assert(pn[t1] == cn[t1] && pn[t2] == cn[t2]);
                        crate::doc_values::lemma_yaml_entry(ev, cn[t1], 0);
                        crate::doc_values::lemma_yaml_entry(ev, cn[t2], 0);
                        assert(cn[t1] != cn[t2]);
                    } else if t1 >= ncanon {
                        assert(lex_lt(nv[t1 - ncanon], nv[t2 - ncanon]));
                        crate::order::lemma_lex_irrefl(nv[t1 - ncanon]);
                    } else {
                        assert(pn[t1] == cn[t1]);
                        assert(cn.contains(cn[t1]));
                        assert(dedup_append(seq![], ov).contains(cn[t1]));
                        assert(ov.contains(cn[t1]));
                        crate::doc_values::lemma_yaml_entry(ev, cn[t1], 0);
                    }
                }
            }
            let mut slots = into_slots(es);
            let mut out: Vec<Entry> = Vec::new();
            let mut t: usize = 0;
            while t < plan.len()
                invariant
                    slots@.len() == ev.len(),
                    t <= plan@.len(),
                    out@.len() == t,
                    forall|q: int| 0 <= q < plan@.len() ==> (#[trigger] plan@[q]).1 < ev.len(),
                    forall|t1: int, t2: int| 0 <= t1 < t2 < plan@.len() ==> (#[trigger] plan@[t1]).1 != (#[trigger] plan@[t2]).1,
                    forall|q: int| t <= q < plan@.len() ==> slots@[(#[trigger] plan@[q]).1 as int] == Some(ev[plan@[q].1 as int]),
                    forall|q: int|
                        0 <= q < t ==> (#[trigger] out@[q]).0 is Str && plain_key(out@[q].0) == Some(plan@[q].0@) && out@[q].1
                            == ev[plan@[q].1 as int].1,
                decreases plan@.len() - t,
            {
                let idx = plan[t].1;
                let e = slots[idx].take();
                match e {
                    Some(entry) => {
                        let (_, value) = entry;
                        out.push((YamlValue::Str(plan[t].0.clone()), value));
                    },
                    None => {
                        assert(false);
                    },
                }
                assert forall|q: int| t + 1 <= q < plan@.len() implies slots@[(#[trigger] plan@[q]).1 as int] == Some(ev[plan@[q].1 as int]) by {
                    assert(plan@[q].1 != plan@[t as int].1);
                }
                t = t + 1;
            }
            proof {
                let pn = plan@.map_values(|e: (String, usize)| e.0@);
                assert forall|p: int| 0 <= p < cn.len() implies (#[trigger] out@[p]).0 is Str && plain_key(out@[p].0) == Some(cn[p])
                    && out@[p].1 == ev[yaml_entry(ev, cn[p], 0)].1 by {
                    assert(pn[p] == cn[p]);
                }
                assert forall|p: int| cn.len() <= p < out@.len() implies (#[trigger] out@[p]).0 is Str && plain_key(out@[p].0) is Some
                    && (exists|i: int| 0 <= i < ev.len() && extra_name(ev, ov, i) == plain_key(out@[p].0)) && out@[p].1 == ev[last_extra(
                    ev,
                    ov,
                    plain_key(out@[p].0).unwrap(),
                    ev.len() as int,
                )].1 by {
                    assert(extra_name(ev, ov, plan@[p].1 as int) == Some(nv[p - ncanon]));
                }
                assert forall|i: int| 0 <= i < ev.len() && extra_name(ev, ov, i) is Some implies exists|p: int|
                    cn.len() <= p < out@.len() && plain_key(#[trigger] out@[p].0) == extra_name(ev, ov, i) by {
                    let x = extra_name(ev, ov, i).unwrap();
                    assert(nv.contains(x));
                    let k2 = choose|k2: int| 0 <= k2 < nv.len() && nv[k2] == x;
                    assert(plain_key(out@[ncanon + k2].0) == Some(x));
                }
            }
            YamlValue::Mapping(out)
        },
        _ => fm,
    }
}

// ───────────────────────── all together ─────────────────────────

/// `b` is `a` with `schema_version: 1` appended when `a` lacks the key.
pub open spec fn sv_added(a: Seq<Entry>, b: Seq<Entry>) -> bool {
    if yaml_entry(a, sv_key(), 0) < a.len() {
        b == a
    } else {
        b.len() == a.len() + 1 && b.take(a.len() as int) == a && plain_key(b.last().0) == Some(sv_key()) && b.last().1
            == YamlValue::Int(1)
    }
}

/// The normalization of the entries `es` into `out`: synonyms mapped, then
/// `schema_version` added, then, when asked, keys reordered.
pub open spec fn normalized(es: Seq<Entry>, out: Seq<Entry>, syn: SynView, order: Seq<Seq<char>>, reorder: bool) -> bool {
    exists|a: Seq<Entry>, b: Seq<Entry>|
        synonyms_applied(es, a, syn) && sv_added(a, b) && if reorder {
            reordered(b, order, out)
        } else {
            out == b
        }
}

pub open spec fn map_entries(v: YamlValue) -> Seq<Entry> {
    match v {
        YamlValue::Mapping(x) => x@,
        _ => seq![],
    }
}

/// Normalize one file's frontmatter; anything but a mapping is left as it is.
pub fn normalize_fm(fm: YamlValue, schema: &SchemaRules, reorder: bool) -> (r: YamlValue)
    ensures
        match fm {
            YamlValue::Mapping(es) => r matches YamlValue::Mapping(out) && normalized(
                es@,
                out@,
                syn_view(schema.synonyms@),
                string_views(schema.canonical_key_order@),
                reorder,
            ),
            _ => r == fm,
        },
{
    let ghost orig = fm;
    let a = apply_synonyms(fm, schema);
    let ghost av = map_entries(a);
    let b = ensure_schema_version(a);
    let ghost bv = map_entries(b);
    if reorder {
        let r = reorder_keys(b, &schema.canonical_key_order);
        proof {
            match orig {
                YamlValue::Mapping(es) => {
                    let out = map_entries(r);
                    assert(synonyms_applied(es@, av, syn_view(schema.synonyms@)) && sv_added(av, bv) && reordered(
                        bv,
                        string_views(schema.canonical_key_order@),
                        out,
                    ));
                },
                _ => {},
            }
        }
        r
    } else {
        proof {
            match orig {
                YamlValue::Mapping(es) => {
                    assert(synonyms_applied(es@, av, syn_view(schema.synonyms@)) && sv_added(av, bv));
                },
                _ => {},
            }
        }
        b
    }
}

/// Synonym tables whose canonical values are not themselves mapped elsewhere.
pub open spec fn synonyms_closed(syn: SynView) -> bool {
    forall|k: Seq<char>, v: Seq<char>|
        (#[trigger] synonym_for(syn, k, v)) is Some ==> (synonym_for(syn, k, synonym_for(syn, k, v).unwrap()) is None
            || synonym_for(syn, k, synonym_for(syn, k, v).unwrap()) == synonym_for(syn, k, v))
}

/// Two entry lists that print alike: same keys, and values equal or the
/// same string.
pub open spec fn same_doc(b: Seq<Entry>, c: Seq<Entry>) -> bool {
    &&& c.len() == b.len()
    &&& forall|i: int|
        0 <= i < b.len() ==> (#[trigger] c[i]).0 == b[i].0 && (c[i].1 == b[i].1 || (c[i].1 is Str && b[i].1 is Str && yaml_str(
            c[i].1,
        ) == yaml_str(b[i].1)))
}

/// Normalizing (without reordering) twice gives what normalizing once gave,
/// when no canonical status value is itself mapped to another.
pub proof fn normalize_is_idempotent(es: Seq<Entry>, b: Seq<Entry>, c: Seq<Entry>, syn: SynView, order: Seq<Seq<char>>)
    requires
        synonyms_closed(syn),
        normalized(es, b, syn, order, false),
        normalized(b, c, syn, order, false),
    ensures
        same_doc(b, c),
{
    let (a1, b1) = choose|a: Seq<Entry>, bb: Seq<Entry>| synonyms_applied(es, a, syn) && sv_added(a, bb) && b == bb;
    let (a2, b2) = choose|a: Seq<Entry>, bb: Seq<Entry>| synonyms_applied(b, a, syn) && sv_added(a, bb) && c == bb;
    crate::doc_values::lemma_yaml_entry(a1, sv_key(), 0);
    // b holds schema_version, so does a2 (same keys), and the second pass adds nothing
    assert(yaml_entry(b, sv_key(), 0) < b.len()) by {
        if yaml_entry(a1, sv_key(), 0) < a1.len() {
        } else {
            crate::doc_values::lemma_yaml_entry(b, sv_key(), 0);
            if yaml_entry(b, sv_key(), 0) >= b.len() {
                assert(yaml_key_is(b[b.len() - 1].0, sv_key()));
                assert(!yaml_key_is(b[b.len() - 1].0, sv_key()));
            }
        }
    }
    assert(yaml_entry(a2, sv_key(), 0) == yaml_entry(b, sv_key(), 0)) by {
        crate::doc_values::lemma_yaml_entry(b, sv_key(), 0);
        crate::doc_values::lemma_yaml_entry(a2, sv_key(), 0);
        let j1 = yaml_entry(b, sv_key(), 0);
        let j2 = yaml_entry(a2, sv_key(), 0);
        assert(a2[j1].0 == b[j1].0);
        if j2 < j1 {
            assert(a2[j2].0 == b[j2].0);
        }
    }
    assert(c == a2);
    assert forall|i: int| 0 <= i < b.len() implies (#[trigger] c[i]).0 == b[i].0 && (c[i].1 == b[i].1 || (c[i].1 is Str
        && b[i].1 is Str && yaml_str(c[i].1) == yaml_str(b[i].1))) by {
        match synonym_target(syn, b[i]) {
            Some(t) => {
                // b[i] came from es[i] (or is the added schema_version entry, which is no string)
                if i < a1.len() {
                    assert(b[i] == a1[i]);
                    match synonym_target(syn, es[i]) {
                        Some(c0) => {
                            assert(yaml_str(b[i].1) == Some(c0));
                            let k = plain_key(b[i].0).unwrap();
                            assert(synonym_for(syn, k, c0) == Some(t));
                            assert(synonym_for(syn, k, c0) is None || synonym_for(syn, k, c0) == Some(c0));
                        },
                        None => {
                            assert(b[i].1 == es[i].1);
                            assert(b[i].0 == es[i].0);
                            assert(synonym_target(syn, es[i]) == synonym_target(syn, b[i]));
                        },
                    }
                } else {
                    assert(b[i].1 == YamlValue::Int(1));
                }
            },
            None => {},
        }
    }
}

} // verus!
