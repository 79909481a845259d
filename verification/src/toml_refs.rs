//! Path references in TOML configuration: every string value (in tables and
//! arrays, at any depth) that starts with `$(anchor root)/`.

use vstd::prelude::*;
use vstd::string::*;
use crate::model::{CanonicalPath, RefForm, Reference};
use crate::transaction::{anchor_root_prefix, starts_with_chars, starts_with_str};

verus! {

broadcast use vstd::seq::group_seq_axioms;

/// A parsed TOML value, as far as reference extraction reads it: strings,
/// tables (entries in the order the parser's table yields them, which is by
/// key), arrays, and anything else.
#[derive(Debug)]
pub enum TomlValue {
    Str(String),
    Table(Vec<(String, TomlValue)>),
    Array(Vec<TomlValue>),
    Other,
}

/// The `$(anchor root)/` strings of a value, in walk order.
pub open spec fn toml_strings(v: TomlValue) -> Seq<Seq<char>>
    decreases v, 0int,
{
    match v {
        TomlValue::Str(s) => if starts_with_chars(s@, anchor_root_prefix()) {
            seq![s@]
        } else {
            seq![]
        },
        TomlValue::Table(es) => entry_strings(es@, es@.len() as int),
        TomlValue::Array(items) => item_strings(items@, items@.len() as int),
        TomlValue::Other => seq![],
    }
}

/// The strings of the first `n` table entries.
pub open spec fn entry_strings(es: Seq<(String, TomlValue)>, n: int) -> Seq<Seq<char>>
    decreases es, n,
{
    if n <= 0 || n > es.len() {
        seq![]
    } else {
        entry_strings(es, n - 1) + toml_strings(es[n - 1].1)
    }
}

/// The strings of the first `n` array items.
pub open spec fn item_strings(items: Seq<TomlValue>, n: int) -> Seq<Seq<char>>
    decreases items, n,
{
    if n <= 0 || n > items.len() {
        seq![]
    } else {
        item_strings(items, n - 1) + toml_strings(items[n - 1])
    }
}

/// First byte index at which `p` occurs in `b`, or `-1`.
pub open spec fn find_bytes(b: Seq<u8>, p: Seq<u8>, from: int) -> int
    decreases b.len() + 1 - from,
{
    if from < 0 || from + p.len() > b.len() {
        -1
    } else if b.subrange(from, from + p.len()) == p {
        from
    } else {
        find_bytes(b, p, from + 1)
    }
}

/// The byte span of the first occurrence of `value` in `content`, `(0, 0)` when absent.
pub open spec fn value_span(content: Seq<u8>, value: Seq<u8>) -> (int, int) {
    let i = find_bytes(content, value, 0);
    if i >= 0 {
        (i, i + value.len())
    } else {
        (0, 0)
    }
}

/// The byte span of `value` in `content` (its first occurrence), or `(0, 0)` when it does not occur.
pub fn find_value_span(content: &str, value: &str) -> (r: (usize, usize))
    ensures
        (r.0 as int, r.1 as int) == value_span(content.spec_bytes(), value.spec_bytes()),
{
    let b = content.as_bytes();
    let p = value.as_bytes();
    let n = b.len();
    let m = p.len();
    if m > n {
        assert(find_bytes(b@, p@, 0) == -1);
        return (0, 0);
    }
    let mut i: usize = 0;
    while i <= n - m
        invariant
            b@ == content.spec_bytes(),
            p@ == value.spec_bytes(),
            n == b@.len(),
            m == p@.len(),
            m <= n,
            i <= n - m + 1,
            find_bytes(b@, p@, i as int) == find_bytes(b@, p@, 0),
        decreases n + 1 - i,
    {
        let mut j: usize = 0;
        while j < m && b[i + j] == p[j]
            invariant
                n == b@.len(),
                m == p@.len(),
                i + m <= n,
                j <= m,
                forall|k: int| 0 <= k < j ==> b@[i + k] == p@[k],
            decreases m - j,
        {
            j = j + 1;
        }
        if j == m {
            assert(b@.subrange(i as int, i + m) =~= p@);
            return (i, i + m);
        }
        assert(b@.subrange(i as int, i + m)[j as int] != p@[j as int]);
        if i == n - m {
            assert(find_bytes(b@, p@, i + 1) == -1);
            return (0, 0);
        }
        i = i + 1;
    }
    (0, 0)
}

/// A reference as plain values: source, span, form, target, anchor.
pub open spec fn toml_ref_ok(r: Reference, source: Seq<char>, content: Seq<u8>, s: Seq<char>) -> bool {
    &&& r.source_file@ == source
    &&& r.target_raw@ == s
    &&& (r.span.0 as int, r.span.1 as int) == value_span(content, vstd::utf8::encode_utf8(s))
    &&& r.form == RefForm::Toml
    &&& r.anchor is None
}

/// `refs` are the TOML references of the strings `ss`, one each, in order.
pub open spec fn toml_refs_are(refs: Seq<Reference>, source: Seq<char>, content: Seq<u8>, ss: Seq<Seq<char>>) -> bool {
    &&& refs.len() == ss.len()
    &&& forall|i: int| 0 <= i < refs.len() ==> toml_ref_ok(#[trigger] refs[i], source, content, ss[i])
}

fn push_ref(out: &mut Vec<Reference>, s: &String, source_file: &CanonicalPath, content: &str)
    ensures
        final(out)@.len() == old(out)@.len() + 1,
        forall|i: int| 0 <= i < old(out)@.len() ==> final(out)@[i] == old(out)@[i],
        toml_ref_ok(final(out)@.last(), source_file@, content.spec_bytes(), s@),
{
    let span = find_value_span(content, s.as_str());
    out.push(Reference {
        source_file: source_file.clone(),
        target_raw: s.clone(),
        span,
        form: RefForm::Toml,
        anchor: None,
    });
}

proof fn lemma_refs_extend(
    a: Seq<Reference>,
    b: Seq<Reference>,
    source: Seq<char>,
    content: Seq<u8>,
    sa: Seq<Seq<char>>,
    sb: Seq<Seq<char>>,
)
    requires
        toml_refs_are(a, source, content, sa),
        b.len() >= a.len(),
        forall|i: int| 0 <= i < a.len() ==> b[i] == a[i],
        toml_refs_are(b.skip(a.len() as int), source, content, sb),
    ensures
        toml_refs_are(b, source, content, sa + sb),
{
    assert forall|i: int| 0 <= i < b.len() implies toml_ref_ok(#[trigger] b[i], source, content, (sa + sb)[i]) by {
        if i >= a.len() {
            assert(b.skip(a.len() as int)[i - a.len()] == b[i]);
        }
    }
}

/// Append the references of `v` to `out`.
fn collect_refs(v: &TomlValue, source_file: &CanonicalPath, content: &str, out: &mut Vec<Reference>)
    ensures
        final(out)@.len() >= old(out)@.len(),
        forall|i: int| 0 <= i < old(out)@.len() ==> final(out)@[i] == old(out)@[i],
        toml_refs_are(final(out)@.skip(old(out)@.len() as int), source_file@, content.spec_bytes(), toml_strings(*v)),
    decreases v, 0int,
{
    let ghost start = out@;
    let pre = "$(anchor root)/";
    proof {
        reveal_strlit("$(anchor root)/");
    }
    assert(pre@ =~= anchor_root_prefix());
    match v {
        TomlValue::Str(s) => {
            if starts_with_str(s.as_str(), pre) {
                push_ref(out, s, source_file, content);
                assert(out@.skip(start.len() as int) =~= seq![out@.last()]);
            } else {
                assert(out@.skip(start.len() as int) =~= Seq::<Reference>::empty());
            }
        },
        TomlValue::Table(es) => {
            collect_entries(es, es.len(), source_file, content, out);
        },
        TomlValue::Array(items) => {
            collect_items(items, items.len(), source_file, content, out);
        },
        TomlValue::Other => {
            assert(out@.skip(start.len() as int) =~= Seq::<Reference>::empty());
        },
    }
}

fn collect_entries(
    es: &Vec<(String, TomlValue)>,
    n: usize,
    source_file: &CanonicalPath,
    content: &str,
    out: &mut Vec<Reference>,
)
    requires
        n <= es@.len(),
    ensures
        final(out)@.len() >= old(out)@.len(),
        forall|i: int| 0 <= i < old(out)@.len() ==> final(out)@[i] == old(out)@[i],
        toml_refs_are(
            final(out)@.skip(old(out)@.len() as int),
            source_file@,
            content.spec_bytes(),
            entry_strings(es@, n as int),
        ),
    decreases es@, n,
{
    let ghost start = out@;
    if n == 0 {
        assert(out@.skip(start.len() as int) =~= Seq::<Reference>::empty());
        return;
    }
    collect_entries(es, n - 1, source_file, content, out);
    let ghost mid = out@;
    collect_refs(&es[n - 1].1, source_file, content, out);
    proof {
        assert(out@.skip(start.len() as int).skip(mid.len() - start.len()) =~= out@.skip(mid.len() as int));
        lemma_refs_extend(
            mid.skip(start.len() as int),
            out@.skip(start.len() as int),
            source_file@,
            content.spec_bytes(),
            entry_strings(es@, n - 1),
            toml_strings(es@[n - 1].1),
        );
        assert(out@.skip(start.len() as int).skip(mid.len() - start.len()) =~= out@.skip(mid.len() as int));
    }
}

fn collect_items(items: &Vec<TomlValue>, n: usize, source_file: &CanonicalPath, content: &str, out: &mut Vec<Reference>)
    requires
        n <= items@.len(),
    ensures
        final(out)@.len() >= old(out)@.len(),
        forall|i: int| 0 <= i < old(out)@.len() ==> final(out)@[i] == old(out)@[i],
        toml_refs_are(
            final(out)@.skip(old(out)@.len() as int),
            source_file@,
            content.spec_bytes(),
            item_strings(items@, n as int),
        ),
    decreases items@, n,
{
    let ghost start = out@;
    if n == 0 {
        assert(out@.skip(start.len() as int) =~= Seq::<Reference>::empty());
        return;
    }
    collect_items(items, n - 1, source_file, content, out);
    let ghost mid = out@;
    collect_refs(&items[n - 1], source_file, content, out);
    proof {
        assert(out@.skip(start.len() as int).skip(mid.len() - start.len()) =~= out@.skip(mid.len() as int));
        lemma_refs_extend(
            mid.skip(start.len() as int),
            out@.skip(start.len() as int),
            source_file@,
            content.spec_bytes(),
            item_strings(items@, n - 1),
            toml_strings(items@[n - 1]),
        );
        assert(out@.skip(start.len() as int).skip(mid.len() - start.len()) =~= out@.skip(mid.len() as int));
    }
}

/// The references of a parsed TOML document `value` whose text is `content`:
/// one per `$(anchor root)/` string, with the full string as target and the
/// span of its first occurrence in the text.
pub fn toml_refs(value: &TomlValue, source_file: &CanonicalPath, content: &str) -> (r: Vec<Reference>)
    ensures
        toml_refs_are(r@, source_file@, content.spec_bytes(), toml_strings(*value)),
{
    let mut out: Vec<Reference> = Vec::new();
    collect_refs(value, source_file, content, &mut out);
    assert(out@.skip(0) =~= out@);
    out
}

#[verifier::external_type_specification]
#[verifier::external_body]
pub struct ExTomlValue(toml::Value);

/// What `toml::from_str::<toml::Value>` makes of `content`, as the library
/// holds it; `None` where the text is not valid TOML.
pub uninterp spec fn toml_parsed(content: Seq<char>) -> Option<TomlValue>;

/// A `toml::Value` as the library holds it: strings, tables, arrays, and
/// every other variant as `Other`.
#[verifier::external_body]
fn toml_value_of(v: &toml::Value) -> TomlValue {
    match v {
        toml::Value::String(s) => TomlValue::Str(s.clone()),
        toml::Value::Table(t) => TomlValue::Table(t.iter().map(|(k, x)| (k.clone(), toml_value_of(x))).collect()),
        toml::Value::Array(a) => TomlValue::Array(a.iter().map(toml_value_of).collect()),
        _ => TomlValue::Other,
    }
}

/// Parses `content` with `toml::from_str` into a `toml::Value`; the result is
/// named `toml_parsed`.
#[verifier::external_body]
pub(crate) fn toml_parse(content: &str) -> (r: Option<TomlValue>)
    ensures
        r == toml_parsed(content@),
{
    toml::from_str::<toml::Value>(content).ok().map(|v| toml_value_of(&v))
}

/// The path references of a TOML file whose text is `content`; none where
/// the text does not parse.
pub fn extract_toml_refs(content: &str, source_file: &CanonicalPath) -> (r: Vec<Reference>)
    ensures
        match toml_parsed(content@) {
            Some(v) => toml_refs_are(r@, source_file@, content.spec_bytes(), toml_strings(v)),
            None => r@.len() == 0,
        },
{
    match toml_parse(content) {
        Some(v) => toml_refs(&v, source_file, content),
        None => Vec::new(),
    }
}

} // verus!
