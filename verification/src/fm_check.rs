//! `frontmatter check-schema`: drift between the narrative specification
//! (`FRONTMATTER.md`) and the machine-readable schema.
//!
//! 1. Base required: the fields of the spec's required table and the
//!    schema's `required` array agree.
//! 2. Type conditionals: each `### \`type: X\`` section's Required fields
//!    agree with the schema's `allOf` entry for X.
//! 3. Status synonyms: a spec that mentions synonyms needs a non-empty
//!    `x-synonyms.status` table.

use vstd::prelude::*;
use vstd::string::*;
use crate::commands::Mismatch;
use crate::doc_values::{json_lookup, JsonValue};
use crate::fm_schema::{conditional_for, conds_view, json_path, key_index, lemma_key_index, type_conditionals_spec, SchemaRules, string_array_field};
use crate::frontmatter::{
    contains_seq, dedup_append, extract_backtick, extract_backtick_spec, find_str, is_field_header, parse_base_required_from_md,
    base_field_list,
};
use crate::text::{first_of, lemma_first_of, lines, lines_spec, str_eq, string_views, trim, trim_spec};
use crate::transaction::{starts_with_chars, starts_with_str};

verus! {

broadcast use vstd::seq::group_seq_axioms;

// ───────────────────────── the spec's type sections ─────────────────────────

/// `s` without its leading `c` characters.
pub open spec fn strip_lead(s: Seq<char>, c: char) -> Seq<char>
    decreases s.len(),
{
    if s.len() > 0 && s[0] == c {
        strip_lead(s.drop_first(), c)
    } else {
        s
    }
}

/// `s` without its trailing `c` characters.
pub open spec fn strip_trail(s: Seq<char>, c: char) -> Seq<char>
    decreases s.len(),
{
    if s.len() > 0 && s.last() == c {
        strip_trail(s.drop_last(), c)
    } else {
        s
    }
}

/// `s` without any number of leading copies of the non-empty `p`.
pub open spec fn strip_prefixes(s: Seq<char>, p: Seq<char>) -> Seq<char>
    decreases s.len(),
{
    if p.len() > 0 && starts_with_chars(s, p) {
        strip_prefixes(s.skip(p.len() as int), p)
    } else {
        s
    }
}

pub open spec fn type_prefix() -> Seq<char> {
    "type:"@
}

/// The type named by a `### \`type: X\`` heading.
pub open spec fn heading_type(l: Seq<char>) -> Seq<char> {
    trim_spec(strip_prefixes(strip_trail(strip_lead(trim_spec(strip_lead(l, '#')), '`'), '`'), type_prefix()))
}

/// The Required field named by a row of a type section's table, if any.
pub open spec fn cond_row_field(l: Seq<char>) -> Option<Seq<char>> {
    let r1 = l.skip(1);
    let i1 = first_of(r1, '|');
    if i1 >= r1.len() {
        None
    } else {
        let first = trim_spec(r1.take(i1));
        let r2 = r1.skip(i1 + 1);
        let req = trim_spec(r2.take(first_of(r2, '|')));
        if (first.len() > 0 && first[0] == '-') || is_field_header(first) {
            None
        } else if contains_seq(req, "Required"@) && !contains_seq(req, "Recommended"@) {
            extract_backtick_spec(first)
        } else {
            None
        }
    }
}

/// Add `f` to the fields of type `t` (a field appears once per type).
pub open spec fn add_field(acc: Seq<(Seq<char>, Seq<Seq<char>>)>, t: Seq<char>, f: Seq<char>) -> Seq<(Seq<char>, Seq<Seq<char>>)> {
    let k = key_index(acc, t, 0);
    if 0 <= k < acc.len() {
        if acc[k].1.contains(f) {
            acc
        } else {
            acc.update(k, (t, acc[k].1.push(f)))
        }
    } else {
        acc.push((t, seq![f]))
    }
}

/// The Required fields of each `### \`type: X\`` section, from line `ls[0]`
/// on, in the section `cur`, added to `acc`.
pub open spec fn type_conds_from(
    ls: Seq<Seq<char>>,
    cur: Option<Seq<char>>,
    acc: Seq<(Seq<char>, Seq<Seq<char>>)>,
) -> Seq<(Seq<char>, Seq<Seq<char>>)>
    decreases ls.len(),
{
    if ls.len() == 0 {
        acc
    } else {
        let l = ls[0];
        let rest = ls.drop_first();
        if starts_with_chars(l, "### `type:"@) {
            type_conds_from(rest, Some(heading_type(l)), acc)
        } else if starts_with_chars(l, "## "@) || (starts_with_chars(l, "### "@) && !contains_seq(l, "type:"@)) {
            type_conds_from(rest, None, acc)
        } else {
            match cur {
                Some(t) => if starts_with_chars(l, "|"@) {
                    match cond_row_field(l) {
                        Some(f) => type_conds_from(rest, cur, add_field(acc, t, f)),
                        None => type_conds_from(rest, cur, acc),
                    }
                } else {
                    type_conds_from(rest, cur, acc)
                },
                None => type_conds_from(rest, cur, acc),
            }
        }
    }
}

fn strip_lead_exec(s: &str, c: char) -> (r: &str)
    ensures
        r@ == strip_lead(s@, c),
{
    let n = s.unicode_len();
    let mut i: usize = 0;
    assert(s@.skip(0) =~= s@);
    while i < n && s.get_char(i) == c
        invariant
            n == s@.len(),
            i <= n,
            strip_lead(s@.skip(i as int), c) == strip_lead(s@, c),
        decreases n - i,
    {
        assert(s@.skip(i as int).drop_first() =~= s@.skip(i + 1));
        i = i + 1;
    }
    let r = s.substring_char(i, n);
    assert(r@ =~= s@.skip(i as int));
    r
}

fn strip_trail_exec(s: &str, c: char) -> (r: &str)
    ensures
        r@ == strip_trail(s@, c),
{
    let n = s.unicode_len();
    let mut e: usize = n;
    assert(s@.take(n as int) =~= s@);
    while e > 0 && s.get_char(e - 1) == c
        invariant
            n == s@.len(),
            e <= n,
            strip_trail(s@.take(e as int), c) == strip_trail(s@, c),
        decreases e,
    {
        assert(s@.take(e as int).drop_last() =~= s@.take(e - 1));
        e = e - 1;
    }
    let r = s.substring_char(0, e);
    assert(r@ =~= s@.take(e as int));
    r
}

fn strip_type_prefixes(s: &str) -> (r: &str)
    ensures
        r@ == strip_prefixes(s@, type_prefix()),
{
    let p = "type:";
    proof {
        reveal_strlit("type:");
    }
    let n = s.unicode_len();
    let mut i: usize = 0;
    assert(s@.skip(0) =~= s@);
    loop
        invariant
            n == s@.len(),
            p@ == type_prefix(),
            p@.len() == 5,
            i <= n,
            strip_prefixes(s@.skip(i as int), type_prefix()) == strip_prefixes(s@, type_prefix()),
        decreases n - i,
    {
        let rest = s.substring_char(i, n);
        assert(rest@ =~= s@.skip(i as int));
        if starts_with_str(rest, p) {
            assert(rest@.skip(5) =~= s@.skip(i + 5));
            i = i + 5;
        } else {
            return rest;
        }
    }
}

/// The type a `### \`type: X\`` heading names.
pub fn heading_type_of(l: &str) -> (r: String)
    ensures
        r@ == heading_type(l@),
{
    let a = strip_lead_exec(l, '#');
    let b = trim(a);
    let c = strip_lead_exec(b, '`');
    let d = strip_trail_exec(c, '`');
    let e = strip_type_prefixes(d);
    trim(e).to_owned()
}

fn col_end(s: &str, from: usize) -> (r: usize)
    requires
        from <= s@.len(),
    ensures
        from <= r <= s@.len(),
        r - from == first_of(s@.skip(from as int), '|'),
{
    let n = s.unicode_len();
    let mut e: usize = from;
    while e < n && s.get_char(e) != '|'
        invariant
            n == s@.len(),
            from <= e <= n,
            forall|j: int| from <= j < e ==> s@[j] != '|',
        decreases n - e,
    {
        e = e + 1;
    }
    proof {
        let t = s@.skip(from as int);
        assert forall|j: int| 0 <= j < e - from implies t[j] != '|' by {
            assert(t[j] == s@[from + j]);
        }
        lemma_first_of(t, '|', e - from);
    }
    e
}

fn cond_row_field_exec(l: &str) -> (r: Option<String>)
    requires
        l@.len() >= 1,
    ensures
        match r {
            Some(f) => cond_row_field(l@) == Some(f@),
            None => cond_row_field(l@) is None,
        },
{
    let n = l.unicode_len();
    let e1 = col_end(l, 1);
    let ghost r1 = l@.skip(1);
    assert(l@.skip(1) =~= r1);
    if e1 >= n {
        return None;
    }
    let raw1 = l.substring_char(1, e1);
    assert(raw1@ =~= r1.take(e1 - 1));
    let first = trim(raw1);
    let e2 = col_end(l, e1 + 1);
    let ghost r2 = r1.skip(e1 - 1 + 1);
    assert(l@.skip(e1 + 1) =~= r2);
    let raw2 = l.substring_char(e1 + 1, e2);
    assert(raw2@ =~= r2.take(e2 - e1 - 1));
    let req = trim(raw2);
    let fl = first.unicode_len();
    if fl > 0 && first.get_char(0) == '-' {
        return None;
    }
    if crate::frontmatter::is_field_header_exec(first) {
        return None;
    }
    proof {
        reveal_strlit("Required");
        reveal_strlit("Recommended");
    }
    if find_str(req, "Required").is_some() && find_str(req, "Recommended").is_none() {
        extract_backtick(first)
    } else {
        None
    }
}

fn add_field_exec(acc: &mut Vec<(String, Vec<String>)>, t: &str, f: String)
    ensures
        conds_view(final(acc)@) == add_field(conds_view(old(acc)@), t@, f@),
{
    let ghost av = conds_view(acc@);
    let mut i: usize = 0;
    proof {
        lemma_key_index(av, t@, 0);
    }
    while i < acc.len()
        invariant
            av == conds_view(acc@),
            av == conds_view(old(acc)@),
            i <= acc@.len(),
            key_index(av, t@, i as int) == key_index(av, t@, 0),
        decreases acc@.len() - i,
    {
        if str_eq(acc[i].0.as_str(), t) {
            assert(key_index(av, t@, i as int) == i);
            let present = crate::fm_audit::contains_str(&acc[i].1, f.as_str());
            if present {
                return;
            }
            let mut fields = crate::fm_audit::clone_strings(&acc[i].1);
            assert(string_views(fields@) == av[i as int].1);
            let ghost fv = f@;
            fields.push(f);
            assert(string_views(fields@) =~= av[i as int].1.push(fv));
            let name = acc[i].0.clone();
            assert(name@ == t@);
            acc.set(i, (name, fields));
            assert(conds_view(acc@) =~= av.update(i as int, (t@, av[i as int].1.push(fv))));
            return;
        }
        i = i + 1;
    }
    assert(key_index(av, t@, i as int) == av.len());
    let ghost fv = f@;
    let mut v: Vec<String> = Vec::new();
    v.push(f);
    assert(string_views(v@) =~= seq![fv]);
    acc.push((t.to_owned(), v));
    assert(conds_view(acc@) =~= av.push((t@, seq![fv])));
}

/// The Required fields of each `### \`type: X\`` section of the
/// specification, types in order of their first field, fields each once.
pub fn parse_type_conditionals_from_md(content: &str) -> (r: Vec<(String, Vec<String>)>)
    ensures
        conds_view(r@) == type_conds_from(lines_spec(content@), None, seq![]),
{
    let ls = lines(content);
    let ghost lv = string_views(ls@);
    proof {
        reveal_strlit("### `type:");
        reveal_strlit("## ");
        reveal_strlit("### ");
        reveal_strlit("type:");
        reveal_strlit("|");
    }
    let mut acc: Vec<(String, Vec<String>)> = Vec::new();
    let mut cur: Option<String> = None;
    let mut i: usize = 0;
    assert(lv.skip(0) =~= lv);
    assert(conds_view(acc@) =~= Seq::<(Seq<char>, Seq<Seq<char>>)>::empty());
    while i < ls.len()
        invariant
            lv == string_views(ls@),
            lv == lines_spec(content@),
            i <= ls@.len(),
            type_conds_from(
                lv.skip(i as int),
                match cur {
                    Some(c) => Some(c@),
                    None => None,
                },
                conds_view(acc@),
            ) == type_conds_from(lv, None, seq![]),
        decreases ls@.len() - i,
    {
        let line = ls[i].as_str();
        let ghost tail = lv.skip(i as int);
        assert(tail[0] == line@);
        assert(tail.drop_first() =~= lv.skip(i + 1));
        proof {
            reveal_strlit("### `type:");
            reveal_strlit("## ");
            reveal_strlit("### ");
            reveal_strlit("type:");
            reveal_strlit("|");
        }
        if starts_with_str(line, "### `type:") {
            cur = Some(heading_type_of(line));
        } else if starts_with_str(line, "## ") || (starts_with_str(line, "### ") && find_str(line, "type:").is_none()) {
            cur = None;
        } else {
            match &cur {
                Some(t) => {
                    if starts_with_str(line, "|") {
                        match cond_row_field_exec(line) {
                            Some(f) => add_field_exec(&mut acc, t.as_str(), f),
                            None => {},
                        }
                    }
                },
                None => {},
            }
        }
        i = i + 1;
    }
    assert(lv.skip(i as int) =~= Seq::<Seq<char>>::empty());
    acc
}

// ───────────────────────── the comparison ─────────────────────────

/// The items of `xs` that `ys` lacks, in order.
pub open spec fn not_in(xs: Seq<Seq<char>>, ys: Seq<Seq<char>>) -> Seq<Seq<char>>
    decreases xs.len(),
{
    if xs.len() == 0 {
        seq![]
    } else {
        not_in(xs.drop_last(), ys) + if ys.contains(xs.last()) {
            seq![]
        } else {
            seq![xs.last()]
        }
    }
}

/// A mismatch as plain values: rule and detail.
pub type MismatchView = (Seq<char>, Seq<char>);

pub open spec fn mismatch_view(m: Mismatch) -> MismatchView {
    (m.rule@, m.detail@)
}

pub open spec fn mismatch_views(v: Seq<Mismatch>) -> Seq<MismatchView> {
    v.map_values(|m: Mismatch| mismatch_view(m))
}

/// The mismatch of kind `k` about field `f` (of type `t` for the type rules).
pub open spec fn msg(k: int, t: Seq<char>, f: Seq<char>) -> MismatchView {
    if k == 0 {
        ("BASE_REQUIRED"@, "'"@ + f + "' is required in FRONTMATTER.md but absent from schema required[]"@)
    } else if k == 1 {
        ("BASE_REQUIRED"@, "'"@ + f + "' is in schema required[] but not found in FRONTMATTER.md required table"@)
    } else if k == 2 {
        ("TYPE_CONDITIONAL"@, "type:"@ + t + " requires '"@ + f + "' in FRONTMATTER.md but schema allOf has no matching entry"@)
    } else if k == 3 {
        ("TYPE_CONDITIONAL"@, "schema allOf requires '"@ + f + "' for type:"@ + t + " but FRONTMATTER.md doesn't list it"@)
    } else {
        (
            "TYPE_CONDITIONAL"@,
            "schema allOf has conditionals for type:"@ + t + " but FRONTMATTER.md has no '### `type: "@ + t + "`' section"@,
        )
    }
}

/// One mismatch of kind `k` per field of `xs` that `ys` lacks.
pub open spec fn lacking(xs: Seq<Seq<char>>, ys: Seq<Seq<char>>, k: int, t: Seq<char>) -> Seq<MismatchView> {
    not_in(xs, ys).map_values(|f: Seq<char>| msg(k, t, f))
}

/// The schema's required fields for type `t`, each once.
pub open spec fn schema_fields_for(sc: Seq<(Seq<char>, Seq<Seq<char>>)>, t: Seq<char>) -> Seq<Seq<char>> {
    match conditional_for(sc, t) {
        Some(v) => dedup_append(seq![], v),
        None => seq![],
    }
}

/// The type-conditional mismatches of the spec's first `n` type sections.
pub open spec fn type_msgs(
    spec_c: Seq<(Seq<char>, Seq<Seq<char>>)>,
    sc: Seq<(Seq<char>, Seq<Seq<char>>)>,
    n: int,
) -> Seq<MismatchView>
    decreases n,
{
    if n <= 0 || n > spec_c.len() {
        seq![]
    } else {
        let (t, fields) = spec_c[n - 1];
        type_msgs(spec_c, sc, n - 1) + lacking(fields, schema_fields_for(sc, t), 2, t) + lacking(
            schema_fields_for(sc, t),
            fields,
            3,
            t,
        )
    }
}

/// The mismatches of the schema's first `n` types that the spec has no section for.
pub open spec fn orphan_msgs(
    sc: Seq<(Seq<char>, Seq<Seq<char>>)>,
    spec_c: Seq<(Seq<char>, Seq<Seq<char>>)>,
    n: int,
) -> Seq<MismatchView>
    decreases n,
{
    if n <= 0 || n > sc.len() {
        seq![]
    } else {
        let (t, fields) = sc[n - 1];
        orphan_msgs(sc, spec_c, n - 1) + if key_index(spec_c, t, 0) >= spec_c.len() && fields.len() > 0 {
            seq![msg(4, t, seq![])]
        } else {
            seq![]
        }
    }
}

/// The schema has a non-empty `x-synonyms.status` table.
pub open spec fn has_status_synonyms(schema: JsonValue) -> bool {
    match json_path(schema, seq!["x-synonyms"@, "status"@]) {
        Some(JsonValue::Object(es)) => es@.len() > 0,
        _ => false,
    }
}

pub open spec fn synonym_msgs(spec: Seq<char>, schema: JsonValue) -> Seq<MismatchView> {
    if (contains_seq(spec, "synonyms"@) || contains_seq(spec, "consumed"@)) && !has_status_synonyms(schema) {
        seq![("STATUS_SYNONYMS"@, "FRONTMATTER.md mentions status synonyms but schema has no x-synonyms.status table"@)]
    } else {
        seq![]
    }
}

/// Every mismatch between the specification text `spec` and the schema.
pub open spec fn check_spec(spec: Seq<char>, schema: JsonValue) -> Seq<MismatchView> {
    let spec_req = dedup_append(seq![], base_field_list(lines_spec(spec), false));
    let schema_req = dedup_append(seq![], string_array_field(schema, "required"@));
    let spec_c = type_conds_from(lines_spec(spec), None, seq![]);
    let sc = type_conditionals_spec(schema);
    lacking(spec_req, schema_req, 0, seq![]) + lacking(schema_req, spec_req, 1, seq![]) + type_msgs(
        spec_c,
        sc,
        spec_c.len() as int,
    ) + orphan_msgs(sc, spec_c, sc.len() as int) + synonym_msgs(spec, schema)
}

fn msg_exec(k: u8, t: &str, f: &str) -> (r: Mismatch)
    requires
        k <= 4,
    ensures
        mismatch_view(r) == msg(k as int, t@, f@),
{
    proof {
        reveal_strlit("BASE_REQUIRED");
        reveal_strlit("TYPE_CONDITIONAL");
        reveal_strlit("'");
        reveal_strlit("' is required in FRONTMATTER.md but absent from schema required[]");
        reveal_strlit("' is in schema required[] but not found in FRONTMATTER.md required table");
        reveal_strlit("type:");
        reveal_strlit(" requires '");
        reveal_strlit("' in FRONTMATTER.md but schema allOf has no matching entry");
        reveal_strlit("schema allOf requires '");
        reveal_strlit("' for type:");
        reveal_strlit(" but FRONTMATTER.md doesn't list it");
        reveal_strlit("schema allOf has conditionals for type:");
        reveal_strlit(" but FRONTMATTER.md has no '### `type: ");
        reveal_strlit("`' section");
    }
    let mut d = String::new();
    if k == 0 {
        d.append("'");
        d.append(f);
        d.append("' is required in FRONTMATTER.md but absent from schema required[]");
        Mismatch { rule: "BASE_REQUIRED", detail: d }
    } else if k == 1 {
        d.append("'");
        d.append(f);
        d.append("' is in schema required[] but not found in FRONTMATTER.md required table");
        Mismatch { rule: "BASE_REQUIRED", detail: d }
    } else if k == 2 {
        d.append("type:");
        d.append(t);
        d.append(" requires '");
        d.append(f);
        d.append("' in FRONTMATTER.md but schema allOf has no matching entry");
        Mismatch { rule: "TYPE_CONDITIONAL", detail: d }
    } else if k == 3 {
        d.append("schema allOf requires '");
        d.append(f);
        d.append("' for type:");
        d.append(t);
        d.append(" but FRONTMATTER.md doesn't list it");
        Mismatch { rule: "TYPE_CONDITIONAL", detail: d }
    } else {
        d.append("schema allOf has conditionals for type:");
        d.append(t);
        d.append(" but FRONTMATTER.md has no '### `type: ");
        d.append(t);
        d.append("`' section");
        Mismatch { rule: "TYPE_CONDITIONAL", detail: d }
    }
}

fn push_lacking(out: &mut Vec<Mismatch>, xs: &Vec<String>, ys: &Vec<String>, k: u8, t: &str)
    requires
        k <= 4,
    ensures
        mismatch_views(final(out)@) == mismatch_views(old(out)@) + lacking(string_views(xs@), string_views(ys@), k as int, t@),
{
    let ghost start = mismatch_views(out@);
    let ghost xv = string_views(xs@);
    let ghost yv = string_views(ys@);
    let mut i: usize = 0;
    while i < xs.len()
        invariant
            xv == string_views(xs@),
            yv == string_views(ys@),
            k <= 4,
            i <= xs@.len(),
            mismatch_views(out@) == start + lacking(xv.take(i as int), yv, k as int, t@),
        decreases xs@.len() - i,
    {
        assert(xv.take(i + 1).drop_last() =~= xv.take(i as int));
        assert(xv.take(i + 1).last() == xs@[i as int]@);
        let ghost before = mismatch_views(out@);
        if !crate::fm_audit::contains_str(ys, xs[i].as_str()) {
            let m = msg_exec(k, t, xs[i].as_str());
            out.push(m);
            assert(mismatch_views(out@) =~= before.push(mismatch_view(m)));
        }
        assert(mismatch_views(out@) =~= start + lacking(xv.take(i + 1), yv, k as int, t@));
        i = i + 1;
    }
    assert(xv.take(i as int) =~= xv);
}

pub(crate) fn dedup_strings(v: &Vec<String>) -> (r: Vec<String>)
    ensures
        string_views(r@) == dedup_append(seq![], string_views(v@)),
{
    let ghost vv = string_views(v@);
    let mut out: Vec<String> = Vec::new();
    let mut i: usize = 0;
    assert(vv.skip(0) =~= vv);
    assert(string_views(out@) =~= Seq::<Seq<char>>::empty());
    while i < v.len()
        invariant
            vv == string_views(v@),
            i <= v@.len(),
            dedup_append(string_views(out@), vv.skip(i as int)) == dedup_append(seq![], vv),
        decreases v@.len() - i,
    {
        assert(vv.skip(i as int)[0] == v@[i as int]@);
        assert(vv.skip(i as int).drop_first() =~= vv.skip(i + 1));
        if !crate::fm_audit::contains_str(&out, v[i].as_str()) {
            let ghost before = string_views(out@);
            out.push(v[i].clone());
            assert(string_views(out@) =~= before.push(v@[i as int]@));
        }
        i = i + 1;
    }
    assert(vv.skip(i as int) =~= Seq::<Seq<char>>::empty());
    out
}

fn has_status_synonyms_exec(schema: &JsonValue) -> (r: bool)
    ensures
        r == has_status_synonyms(*schema),
{
    proof {
        reveal_strlit("x-synonyms");
        reveal_strlit("status");
        reveal_with_fuel(json_path, 3);
        assert(seq!["x-synonyms"@, "status"@].drop_first() =~= seq!["status"@]);
        assert(seq!["status"@].drop_first() =~= Seq::<Seq<char>>::empty());
    }
    match json_lookup(schema, "x-synonyms") {
        Some(x) => match json_lookup(x, "status") {
            Some(JsonValue::Object(es)) => es.len() > 0,
            _ => false,
        },
        None => false,
    }
}

fn has_type(m: &Vec<(String, Vec<String>)>, t: &str) -> (r: bool)
    ensures
        r == (key_index(conds_view(m@), t@, 0) < conds_view(m@).len()),
{
    let ghost mv = conds_view(m@);
    proof {
        lemma_key_index(mv, t@, 0);
    }
    let mut q: usize = 0;
    while q < m.len()
        invariant
            mv == conds_view(m@),
            q <= m@.len(),
            key_index(mv, t@, q as int) == key_index(mv, t@, 0),
        decreases m@.len() - q,
    {
        if str_eq(m[q].0.as_str(), t) {
            assert(key_index(mv, t@, q as int) == q);
            return true;
        }
        q = q + 1;
    }
    assert(key_index(mv, t@, q as int) == mv.len());
    false
}

/// Compare the specification text with the parsed schema: base required
/// fields both ways, each type section's Required fields both ways, schema
/// types without a section, and the status synonym table.
pub fn schema_mismatches(spec_content: &str, schema: &JsonValue) -> (r: Vec<Mismatch>)
    ensures
        mismatch_views(r@) == check_spec(spec_content@, *schema),
{
    let mut out: Vec<Mismatch> = Vec::new();
    let rules = SchemaRules::from_json(schema);
    let spec_req = parse_base_required_from_md(spec_content);
    let schema_req = dedup_strings(&rules.base_required);
    let ghost e = "";
    push_lacking(&mut out, &spec_req, &schema_req, 0, "");
    push_lacking(&mut out, &schema_req, &spec_req, 1, "");
    let spec_c = parse_type_conditionals_from_md(spec_content);
    let ghost sv = conds_view(spec_c@);
    let ghost scv = conds_view(rules.type_conditionals@);
    let ghost base = mismatch_views(out@);
    let mut i: usize = 0;
    while i < spec_c.len()
        invariant
            sv == conds_view(spec_c@),
            scv == conds_view(rules.type_conditionals@),
            i <= spec_c@.len(),
            mismatch_views(out@) == base + type_msgs(sv, scv, i as int),
        decreases spec_c@.len() - i,
    {
        let t = spec_c[i].0.as_str();
        let fields = &spec_c[i].1;
        let sf = match crate::fm_schema::lookup_conditional(&rules, t) {
            Some(v) => dedup_strings(v),
            None => Vec::new(),
        };
        assert(string_views(sf@) == schema_fields_for(scv, t@));
        let ghost before = mismatch_views(out@);
        push_lacking(&mut out, fields, &sf, 2, t);
        push_lacking(&mut out, &sf, fields, 3, t);
        assert(sv[i as int] == (t@, string_views(fields@)));
        assert(mismatch_views(out@) =~= base + type_msgs(sv, scv, i + 1));
        i = i + 1;
    }
    let ghost mid = mismatch_views(out@);
    let mut j: usize = 0;
    while j < rules.type_conditionals.len()
        invariant
            sv == conds_view(spec_c@),
            scv == conds_view(rules.type_conditionals@),
            j <= rules.type_conditionals@.len(),
            mismatch_views(out@) == mid + orphan_msgs(scv, sv, j as int),
        decreases rules.type_conditionals@.len() - j,
    {
        let t = rules.type_conditionals[j].0.as_str();
        let ghost before = mismatch_views(out@);
        let known = has_type(&spec_c, t);
        assert(known == (key_index(sv, t@, 0) < sv.len()));
        if !known && rules.type_conditionals[j].1.len() > 0 {
            let m = msg_exec(4, t, "");
            out.push(m);
            assert(mismatch_views(out@) =~= before.push(mismatch_view(m)));
        }
        assert(mismatch_views(out@) =~= mid + orphan_msgs(scv, sv, j + 1));
        j = j + 1;
    }
    proof {
        reveal_strlit("synonyms");
        reveal_strlit("consumed");
        reveal_strlit("STATUS_SYNONYMS");
        reveal_strlit("FRONTMATTER.md mentions status synonyms but schema has no x-synonyms.status table");
    }
    let ghost before_syn = mismatch_views(out@);
    if (find_str(spec_content, "synonyms").is_some() || find_str(spec_content, "consumed").is_some())
        && !has_status_synonyms_exec(schema) {
        let m = Mismatch {
            rule: "STATUS_SYNONYMS",
            detail: "FRONTMATTER.md mentions status synonyms but schema has no x-synonyms.status table".to_owned(),
        };
        out.push(m);
        assert(mismatch_views(out@) =~= before_syn.push(mismatch_view(m)));
    }
    assert(mismatch_views(out@) =~= check_spec(spec_content@, *schema));
    out
}

/// The drift between the specification text `spec_content` and the schema
/// text `schema_content`; an error when the schema is not valid JSON.
pub fn run_check(spec_content: &str, schema_content: &str) -> (r: Result<Vec<Mismatch>, String>)
    ensures
        match r {
            Ok(v) => match crate::doc_values::json_parsed(schema_content@) {
                Ok(schema) => mismatch_views(v@) == check_spec(spec_content@, schema),
                Err(_) => false,
            },
            Err(e) => match crate::doc_values::json_parsed(schema_content@) {
                Ok(_) => false,
                Err(m) => e@ == "invalid JSON in schema: "@ + m,
            },
        },
{
    match crate::doc_values::json_parse(schema_content) {
        Ok(schema) => Ok(schema_mismatches(spec_content, &schema)),
        Err(m) => {
            proof {
                reveal_strlit("invalid JSON in schema: ");
            }
            let mut e = "invalid JSON in schema: ".to_owned();
            e.append(m.as_str());
            Err(e)
        },
    }
}

} // verus!
