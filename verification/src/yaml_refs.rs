//! Path references in YAML frontmatter: every string value (in mappings and
//! sequences, at any depth) that starts with `$(anchor root)/`.

use vstd::prelude::*;
use vstd::string::*;
use crate::doc_values::YamlValue;
use crate::model::{CanonicalPath, RefForm, Reference};
use crate::toml_refs::{find_value_span, value_span};
use crate::transaction::{anchor_root_prefix, starts_with_chars, starts_with_str};

verus! {

broadcast use vstd::seq::group_seq_axioms;

// ───────────────────────── the frontmatter block ─────────────────────────

/// The text after the opening `---` line (CRLF or LF), if the content opens with one.
pub open spec fn after_open(c: Seq<char>) -> Option<Seq<char>> {
    if starts_with_chars(c, "---\r\n"@) {
        Some(c.skip(5))
    } else if starts_with_chars(c, "---\n"@) {
        Some(c.skip(4))
    } else {
        None
    }
}

/// A closing delimiter starts right after position `i`: a `\n` followed by
/// `---` or `...`.
pub open spec fn closes_at(r: Seq<char>, i: int) -> bool {
    r[i] == '\n' && (starts_with_chars(r.skip(i + 1), "---"@) || starts_with_chars(r.skip(i + 1), "..."@))
}

/// The first position that closes the block, or `r.len()`.
pub open spec fn close_pos(r: Seq<char>, i: int) -> int
    decreases r.len() - i,
{
    if i < 0 || i >= r.len() {
        r.len() as int
    } else if closes_at(r, i) {
        i
    } else {
        close_pos(r, i + 1)
    }
}

/// The raw YAML between the opening and closing delimiters.
pub open spec fn frontmatter_spec(c: Seq<char>) -> Option<Seq<char>> {
    match after_open(c) {
        Some(r) => if close_pos(r, 0) < r.len() {
            Some(r.take(close_pos(r, 0)))
        } else {
            None
        },
        None => None,
    }
}

proof fn lemma_close_pos(r: Seq<char>, i: int)
    requires
        0 <= i <= r.len(),
    ensures
        i <= close_pos(r, i) <= r.len(),
    decreases r.len() - i,
{
    if i < r.len() && !closes_at(r, i) {
        lemma_close_pos(r, i + 1);
    }
}

/// The raw frontmatter text of a Markdown file, if it has a closed block.
pub fn extract_frontmatter(content: &str) -> (r: Option<String>)
    ensures
        match r {
            Some(s) => frontmatter_spec(content@) == Some(s@),
            None => frontmatter_spec(content@) is None,
        },
{
    proof {
        reveal_strlit("---\r\n");
        reveal_strlit("---\n");
        reveal_strlit("---");
        reveal_strlit("...");
    }
    let n = content.unicode_len();
    let rest = if starts_with_str(content, "---\r\n") {
        content.substring_char(5, n)
    } else if starts_with_str(content, "---\n") {
        content.substring_char(4, n)
    } else {
        return None;
    };
    let ghost rv = match after_open(content@) {
        Some(x) => x,
        None => seq![],
    };
    assert(rest@ =~= rv);
    let rl = rest.unicode_len();
    proof {
        lemma_close_pos(rv, 0);
    }
    let mut i: usize = 0;
    while i < rl
        invariant
            rl == rv.len(),
            rest@ == rv,
            after_open(content@) == Some(rv),
            i <= rl,
            close_pos(rv, i as int) == close_pos(rv, 0),
            "---"@ == seq!['-', '-', '-'],
            "..."@ == seq!['.', '.', '.'],
        decreases rl - i,
    {
        if rest.get_char(i) == '\n' {
            let next = rest.substring_char(i + 1, rl);
            assert(next@ =~= rv.skip(i + 1));
            if starts_with_str(next, "---") || starts_with_str(next, "...") {
                assert(closes_at(rv, i as int));
                let fm = rest.substring_char(0, i);
                assert(fm@ =~= rv.take(i as int));
                return Some(fm.to_owned());
            }
        }
        i = i + 1;
    }
    None
}

// ───────────────────────── the references ─────────────────────────

/// The `$(anchor root)/` strings of a value, in walk order (tagged values are not walked).
pub open spec fn yaml_strings(v: YamlValue) -> Seq<Seq<char>>
    decreases v, 0int,
{
    match v {
        YamlValue::Str(s) => if starts_with_chars(s@, anchor_root_prefix()) {
            seq![s@]
        } else {
            seq![]
        },
        YamlValue::Mapping(es) => map_strings(es@, es@.len() as int),
        YamlValue::Sequence(items) => seq_strings(items@, items@.len() as int),
        _ => seq![],
    }
}

/// The strings of the values of the first `n` mapping entries.
pub open spec fn map_strings(es: Seq<(YamlValue, YamlValue)>, n: int) -> Seq<Seq<char>>
    decreases es, n,
{
    if n <= 0 || n > es.len() {
        seq![]
    } else {
        map_strings(es, n - 1) + yaml_strings(es[n - 1].1)
    }
}

/// The strings of the first `n` sequence items.
pub open spec fn seq_strings(items: Seq<YamlValue>, n: int) -> Seq<Seq<char>>
    decreases items, n,
{
    if n <= 0 || n > items.len() {
        seq![]
    } else {
        seq_strings(items, n - 1) + yaml_strings(items[n - 1])
    }
}

/// A reference as plain values: source, span, form, target, anchor.
pub open spec fn yaml_ref_ok(r: Reference, source: Seq<char>, content: Seq<u8>, s: Seq<char>) -> bool {
    &&& r.source_file@ == source
    &&& r.target_raw@ == s
    &&& (r.span.0 as int, r.span.1 as int) == value_span(content, vstd::utf8::encode_utf8(s))
    &&& r.form == RefForm::Yaml
    &&& r.anchor is None
}

/// `refs` are the YAML references of the strings `ss`, one each, in order.
pub open spec fn yaml_refs_are(refs: Seq<Reference>, source: Seq<char>, content: Seq<u8>, ss: Seq<Seq<char>>) -> bool {
    &&& refs.len() == ss.len()
    &&& forall|i: int| 0 <= i < refs.len() ==> yaml_ref_ok(#[trigger] refs[i], source, content, ss[i])
}

fn push_ref(out: &mut Vec<Reference>, s: &String, source_file: &CanonicalPath, content: &str)
    ensures
        final(out)@.len() == old(out)@.len() + 1,
        forall|i: int| 0 <= i < old(out)@.len() ==> final(out)@[i] == old(out)@[i],
        yaml_ref_ok(final(out)@.last(), source_file@, content.spec_bytes(), s@),
{
    let span = find_value_span(content, s.as_str());
    out.push(Reference {
        source_file: source_file.clone(),
        target_raw: s.clone(),
        span,
        form: RefForm::Yaml,
        anchor: None,
    });
}

proof fn lemma_refs_extend(
    a: Seq<Reference>,
    b: Seq<Reference>,
    source: Seq<char>,
    content: Seq<u8>,
    sa: Seq<Seq<char>>,
    sb: Seq<Seq<char>>,
)
    requires
        yaml_refs_are(a, source, content, sa),
        b.len() >= a.len(),
        forall|i: int| 0 <= i < a.len() ==> b[i] == a[i],
        yaml_refs_are(b.skip(a.len() as int), source, content, sb),
    ensures
        yaml_refs_are(b, source, content, sa + sb),
{
    assert forall|i: int| 0 <= i < b.len() implies yaml_ref_ok(#[trigger] b[i], source, content, (sa + sb)[i]) by {
        if i >= a.len() {
            assert(b.skip(a.len() as int)[i - a.len()] == b[i]);
        }
    }
}

/// Append the references of `v` to `out`.
fn collect_refs(v: &YamlValue, source_file: &CanonicalPath, content: &str, out: &mut Vec<Reference>)
    ensures
        final(out)@.len() >= old(out)@.len(),
        forall|i: int| 0 <= i < old(out)@.len() ==> final(out)@[i] == old(out)@[i],
        yaml_refs_are(final(out)@.skip(old(out)@.len() as int), source_file@, content.spec_bytes(), yaml_strings(*v)),
    decreases v, 0int,
{
    let ghost start = out@;
    let pre = "$(anchor root)/";
    proof {
        reveal_strlit("$(anchor root)/");
    }
    assert(pre@ =~= anchor_root_prefix());
    match v {
        YamlValue::Str(s) => {
            if starts_with_str(s.as_str(), pre) {
                push_ref(out, s, source_file, content);
                assert(out@.skip(start.len() as int) =~= seq![out@.last()]);
            } else {
                assert(out@.skip(start.len() as int) =~= Seq::<Reference>::empty());
            }
        },
        YamlValue::Mapping(es) => {
            collect_entries(es, es.len(), source_file, content, out);
        },
        YamlValue::Sequence(items) => {
            collect_items(items, items.len(), source_file, content, out);
        },
        _ => {
            assert(out@.skip(start.len() as int) =~= Seq::<Reference>::empty());
        },
    }
}

fn collect_entries(
    es: &Vec<(YamlValue, YamlValue)>,
    n: usize,
    source_file: &CanonicalPath,
    content: &str,
    out: &mut Vec<Reference>,
)
    requires
        n <= es@.len(),
    ensures
        final(out)@.len() >= old(out)@.len(),
        forall|i: int| 0 <= i < old(out)@.len() ==> final(out)@[i] == old(out)@[i],
        yaml_refs_are(
            final(out)@.skip(old(out)@.len() as int),
            source_file@,
            content.spec_bytes(),
            map_strings(es@, n as int),
        ),
    decreases es@, n,
{
    let ghost start = out@;
    if n == 0 {
        assert(out@.skip(start.len() as int) =~= Seq::<Reference>::empty());
        return;
    }
    collect_entries(es, n - 1, source_file, content, out);
    let ghost mid = out@;
    collect_refs(&es[n - 1].1, source_file, content, out);
    proof {
        assert(out@.skip(start.len() as int).skip(mid.len() - start.len()) =~= out@.skip(mid.len() as int));
        lemma_refs_extend(
            mid.skip(start.len() as int),
            out@.skip(start.len() as int),
            source_file@,
            content.spec_bytes(),
            map_strings(es@, n - 1),
            yaml_strings(es@[n - 1].1),
        );
        assert(out@.skip(start.len() as int).skip(mid.len() - start.len()) =~= out@.skip(mid.len() as int));
    }
}

fn collect_items(items: &Vec<YamlValue>, n: usize, source_file: &CanonicalPath, content: &str, out: &mut Vec<Reference>)
    requires
        n <= items@.len(),
    ensures
        final(out)@.len() >= old(out)@.len(),
        forall|i: int| 0 <= i < old(out)@.len() ==> final(out)@[i] == old(out)@[i],
        yaml_refs_are(
            final(out)@.skip(old(out)@.len() as int),
            source_file@,
            content.spec_bytes(),
            seq_strings(items@, n as int),
        ),
    decreases items@, n,
{
    let ghost start = out@;
    if n == 0 {
        assert(out@.skip(start.len() as int) =~= Seq::<Reference>::empty());
        return;
    }
    collect_items(items, n - 1, source_file, content, out);
    let ghost mid = out@;
    collect_refs(&items[n - 1], source_file, content, out);
    proof {
        assert(out@.skip(start.len() as int).skip(mid.len() - start.len()) =~= out@.skip(mid.len() as int));
        lemma_refs_extend(
            mid.skip(start.len() as int),
            out@.skip(start.len() as int),
            source_file@,
            content.spec_bytes(),
            seq_strings(items@, n - 1),
            yaml_strings(items@[n - 1]),
        );
        assert(out@.skip(start.len() as int).skip(mid.len() - start.len()) =~= out@.skip(mid.len() as int));
    }
}

/// The references of a parsed frontmatter document `value` in the file
/// whose text is `content`: one per `$(anchor root)/` string, with the full
/// string as target and the span of its first occurrence in the text.
pub fn yaml_refs(value: &YamlValue, source_file: &CanonicalPath, content: &str) -> (r: Vec<Reference>)
    ensures
        yaml_refs_are(r@, source_file@, content.spec_bytes(), yaml_strings(*value)),
{
    let mut out: Vec<Reference> = Vec::new();
    collect_refs(value, source_file, content, &mut out);
    assert(out@.skip(0) =~= out@);
    out
}

/// The path references of a Markdown file whose text is `content`: those of
/// its frontmatter; none where it has no frontmatter or the frontmatter is not
/// valid YAML.
pub fn extract_yaml_refs(content: &str, source_file: &CanonicalPath) -> (r: Vec<Reference>)
    ensures
        match frontmatter_spec(content@) {
            Some(fm) => match crate::doc_values::yaml_parsed(fm) {
                Some(v) => yaml_refs_are(r@, source_file@, content.spec_bytes(), yaml_strings(v)),
                None => r@.len() == 0,
            },
            None => r@.len() == 0,
        },
{
    match extract_frontmatter(content) {
        Some(fm) => match crate::doc_values::yaml_parse(fm.as_str()) {
            Some(v) => yaml_refs(&v, source_file, content),
            None => Vec::new(),
        },
        None => Vec::new(),
    }
}

} // verus!
