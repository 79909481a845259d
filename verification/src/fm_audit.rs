//! `frontmatter audit`: check each file's frontmatter against the schema
//! rules, flag ids shared by several files, and report by category.

use vstd::prelude::*;
use vstd::string::*;
use crate::commands::{finding_category, finding_detail, Finding};
use crate::doc_values::{get_i64, get_str, has_key, untag, untag_ref, yaml_get, yaml_i64, yaml_lookup, yaml_str, yaml_as_str, YamlValue};
use crate::fm_schema::{conditional_for, conds_view, lookup_conditional, props_view, PropView, SchemaRules};
use crate::fmt::{dec, push_decimal};
use crate::text::{str_eq, string_views};

verus! {

broadcast use vstd::seq::group_seq_axioms;

/// A finding as plain values.
pub enum FindingView {
    NoFrontmatter,
    MissingSchemaVersion,
    StaleSchemaVersion(int, int),
    MissingRequired(Seq<char>),
    MissingTypeConditional(Seq<char>),
    InvalidEnum(Seq<char>, Seq<char>, Seq<Seq<char>>),
    WrongType(Seq<char>, Seq<char>),
    DuplicateId(Seq<char>),
}

pub open spec fn finding_view(f: Finding) -> FindingView {
    match f {
        Finding::NoFrontmatter => FindingView::NoFrontmatter,
        Finding::MissingSchemaVersion => FindingView::MissingSchemaVersion,
        Finding::StaleSchemaVersion { current, expected } => FindingView::StaleSchemaVersion(
            current as int,
            expected as int,
        ),
        Finding::MissingRequired(x) => FindingView::MissingRequired(x@),
        Finding::MissingTypeConditional(x) => FindingView::MissingTypeConditional(x@),
        Finding::InvalidEnum { field, value, allowed } => FindingView::InvalidEnum(
            field@,
            value@,
            string_views(allowed@),
        ),
        Finding::WrongType { field, expected } => FindingView::WrongType(field@, expected@),
        Finding::DuplicateId(x) => FindingView::DuplicateId(x@),
    }
}

pub open spec fn finding_views(v: Seq<Finding>) -> Seq<FindingView> {
    v.map_values(|f: Finding| finding_view(f))
}

/// Whether a YAML value has the JSON schema type `t` (unknown types accept anything).
pub open spec fn matches_type(v: YamlValue, t: Seq<char>) -> bool {
    if t == "string"@ {
        untag(v) is Str
    } else if t == "integer"@ {
        untag(v) is Int || untag(v) matches YamlValue::Number(_, Some(_))
    } else if t == "array"@ {
        untag(v) is Sequence
    } else if t == "boolean"@ {
        untag(v) is Bool
    } else {
        true
    }
}

/// Whether `val` has the schema type `expected`.
pub fn value_matches_type(val: &YamlValue, expected: &str) -> (r: bool)
    ensures
        r == matches_type(*val, expected@),
{
    proof {
        reveal_strlit("string");
        reveal_strlit("integer");
        reveal_strlit("array");
        reveal_strlit("boolean");
    }
    let v = untag_ref(val);
    if str_eq(expected, "string") {
        matches!(v, YamlValue::Str(_))
    } else if str_eq(expected, "integer") {
        matches!(v, YamlValue::Int(_)) || matches!(v, YamlValue::Number(_, Some(_)))
    } else if str_eq(expected, "array") {
        matches!(v, YamlValue::Sequence(_))
    } else if str_eq(expected, "boolean") {
        matches!(v, YamlValue::Bool(_))
    } else {
        true
    }
}

/// The schema type `array` is met exactly by a YAML sequence (under its tags);
/// in particular a plain string never passes as an array. Likewise `string`
/// is met by a string, `boolean` by a boolean and `integer` by an integer
/// that fits `i64`; the four named types exclude one another, so no value
/// matches two of them.
pub proof fn array_type_is_sequence(v: YamlValue)
    ensures
        matches_type(v, "array"@) <==> untag(v) is Sequence,
        forall|s: String| !matches_type(YamlValue::Str(s), "array"@),
        matches_type(v, "string"@) <==> untag(v) is Str,
        matches_type(v, "boolean"@) <==> untag(v) is Bool,
        matches_type(v, "integer"@) <==> (untag(v) is Int || untag(v) matches YamlValue::Number(_, Some(_))),
        !(matches_type(v, "array"@) && matches_type(v, "string"@)),
        !(matches_type(v, "array"@) && matches_type(v, "integer"@)),
        !(matches_type(v, "array"@) && matches_type(v, "boolean"@)),
        !(matches_type(v, "string"@) && matches_type(v, "integer"@)),
        !(matches_type(v, "string"@) && matches_type(v, "boolean"@)),
        !(matches_type(v, "integer"@) && matches_type(v, "boolean"@)),
{
    reveal_strlit("string");
    reveal_strlit("integer");
    reveal_strlit("array");
    reveal_strlit("boolean");
    assert("array"@[0] != "string"@[0] && "array"@[0] != "integer"@[0] && "array"@[0] != "boolean"@[0]);
    assert("string"@[0] != "integer"@[0] && "string"@[0] != "boolean"@[0]);
    assert("integer"@[0] != "boolean"@[0]);
    assert forall|s: String| !matches_type(YamlValue::Str(s), "array"@) by {
        assert(untag(YamlValue::Str(s)) == YamlValue::Str(s));
    }
}

/// The schema_version finding of a frontmatter mapping, if any.
pub open spec fn version_findings(fm: YamlValue) -> Seq<FindingView> {
    match yaml_get(fm, "schema_version"@) {
        Some(v) => match yaml_i64(v) {
            Some(n) => if n < 1 {
                seq![FindingView::StaleSchemaVersion(n as int, 1)]
            } else {
                seq![]
            },
            None => seq![FindingView::MissingSchemaVersion],
        },
        None => seq![FindingView::MissingSchemaVersion],
    }
}

/// One finding per field of `req` (in order) that the mapping lacks; `cond`
/// picks the type-conditional kind.
pub open spec fn missing_findings(fm: YamlValue, req: Seq<Seq<char>>, cond: bool) -> Seq<FindingView>
    decreases req.len(),
{
    if req.len() == 0 {
        seq![]
    } else {
        let prev = missing_findings(fm, req.drop_last(), cond);
        if yaml_get(fm, req.last()) is None {
            prev.push(
                if cond {
                    FindingView::MissingTypeConditional(req.last())
                } else {
                    FindingView::MissingRequired(req.last())
                },
            )
        } else {
            prev
        }
    }
}

/// The finding of one present property: a wrong type first, else a value
/// outside the enum.
pub open spec fn prop_findings(fm: YamlValue, field: Seq<char>, p: PropView) -> Seq<FindingView> {
    match yaml_get(fm, field) {
        Some(val) => if p.0 is Some && !matches_type(val, p.0.unwrap()) {
            seq![FindingView::WrongType(field, p.0.unwrap())]
        } else {
            match (p.1, yaml_str(val)) {
                (Some(allowed), Some(s)) => if allowed.contains(s) {
                    seq![]
                } else {
                    seq![FindingView::InvalidEnum(field, s, allowed)]
                },
                _ => seq![],
            }
        },
        None => seq![],
    }
}

pub open spec fn props_findings(fm: YamlValue, props: Seq<(Seq<char>, PropView)>) -> Seq<FindingView>
    decreases props.len(),
{
    if props.len() == 0 {
        seq![]
    } else {
        props_findings(fm, props.drop_last()) + prop_findings(fm, props.last().0, props.last().1)
    }
}

/// The findings of the type-conditional required fields.
pub open spec fn cond_findings(fm: YamlValue, conds: Seq<(Seq<char>, Seq<Seq<char>>)>) -> Seq<FindingView> {
    match yaml_get(fm, "type"@) {
        Some(t) => match yaml_str(t) {
            Some(ts) => match conditional_for(conds, ts) {
                Some(req) => missing_findings(fm, req, true),
                None => seq![],
            },
            None => seq![],
        },
        None => seq![],
    }
}

/// The findings of one file: no frontmatter at all, or schema_version, base
/// required fields, property types and enums, then type-conditional fields.
pub open spec fn file_findings(
    fm: Option<YamlValue>,
    req: Seq<Seq<char>>,
    props: Seq<(Seq<char>, PropView)>,
    conds: Seq<(Seq<char>, Seq<Seq<char>>)>,
) -> Seq<FindingView> {
    match fm {
        None => seq![FindingView::NoFrontmatter],
        Some(m) => version_findings(m) + missing_findings(m, req, false) + props_findings(m, props) + cond_findings(
            m,
            conds,
        ),
    }
}

proof fn lemma_concat_contains(a: Seq<FindingView>, b: Seq<FindingView>, x: FindingView)
    ensures
        (a + b).contains(x) <==> (a.contains(x) || b.contains(x)),
{
    if (a + b).contains(x) {
        let i = choose|i: int| 0 <= i < (a + b).len() && (a + b)[i] == x;
        if i >= a.len() {
            assert(b[i - a.len()] == x);
        }
    }
    if a.contains(x) {
        let i = choose|i: int| 0 <= i < a.len() && a[i] == x;
        assert((a + b)[i] == x);
    }
    if b.contains(x) {
        let i = choose|i: int| 0 <= i < b.len() && b[i] == x;
        assert((a + b)[a.len() + i] == x);
    }
}

proof fn lemma_push_contains(a: Seq<FindingView>, y: FindingView, x: FindingView)
    ensures
        a.push(y).contains(x) <==> (a.contains(x) || y == x),
{
    if a.push(y).contains(x) {
        let i = choose|i: int| 0 <= i < a.push(y).len() && a.push(y)[i] == x;
        if i < a.len() {
            assert(a[i] == x);
        }
    }
    if a.contains(x) {
        let i = choose|i: int| 0 <= i < a.len() && a[i] == x;
        assert(a.push(y)[i] == x);
    }
    if y == x {
        assert(a.push(y)[a.len() as int] == x);
    }
}

proof fn lemma_missing_required(fm: YamlValue, req: Seq<Seq<char>>, cond: bool, f: Seq<char>)
    ensures
        missing_findings(fm, req, cond).contains(FindingView::MissingRequired(f)) <==> (!cond && req.contains(f)
            && yaml_get(fm, f) is None),
    decreases req.len(),
{
    let x = FindingView::MissingRequired(f);
    if req.len() == 0 {
        assert(!missing_findings(fm, req, cond).contains(x));
    } else {
        let t = req.drop_last();
        lemma_missing_required(fm, t, cond, f);
        let prev = missing_findings(fm, t, cond);
        let y = if cond {
            FindingView::MissingTypeConditional(req.last())
        } else {
            FindingView::MissingRequired(req.last())
        };
        lemma_push_contains(prev, y, x);
        assert(req =~= t.push(req.last()));
        if req.contains(f) && !t.contains(f) {
            let i = choose|i: int| 0 <= i < req.len() && req[i] == f;
            if i < t.len() {
                assert(t[i] == f);
            }
            assert(req.last() == f);
        }
        if t.contains(f) {
            let i = choose|i: int| 0 <= i < t.len() && t[i] == f;
            assert(req[i] == f);
        }
    }
}

proof fn lemma_props_findings_contains(fm: YamlValue, props: Seq<(Seq<char>, PropView)>, x: FindingView)
    ensures
        props_findings(fm, props).contains(x) <==> exists|k: int|
            0 <= k < props.len() && #[trigger] prop_findings(fm, props[k].0, props[k].1).contains(x),
    decreases props.len(),
{
    if props.len() == 0 {
        assert(!props_findings(fm, props).contains(x));
    } else {
        let t = props.drop_last();
        let n = props.len() - 1;
        lemma_props_findings_contains(fm, t, x);
        lemma_concat_contains(props_findings(fm, t), prop_findings(fm, props[n].0, props[n].1), x);
        if exists|k: int| 0 <= k < props.len() && #[trigger] prop_findings(fm, props[k].0, props[k].1).contains(x) {
            let k = choose|k: int| 0 <= k < props.len() && #[trigger] prop_findings(fm, props[k].0, props[k].1).contains(x);
            if k < n {
                assert(t[k] == props[k]);
                assert(prop_findings(fm, t[k].0, t[k].1).contains(x));
            }
        }
        if exists|k: int| 0 <= k < t.len() && #[trigger] prop_findings(fm, t[k].0, t[k].1).contains(x) {
            let k = choose|k: int| 0 <= k < t.len() && #[trigger] prop_findings(fm, t[k].0, t[k].1).contains(x);
            assert(t[k] == props[k]);
            assert(prop_findings(fm, props[k].0, props[k].1).contains(x));
        }
    }
}

/// A required field is reported missing exactly when the frontmatter lacks it:
/// a file with frontmatter gets a `MissingRequired` finding for `f` if and only
/// if `f` is a required field and the mapping has no entry `f`.
pub proof fn required_field_reported_iff_absent(
    m: YamlValue,
    req: Seq<Seq<char>>,
    props: Seq<(Seq<char>, PropView)>,
    conds: Seq<(Seq<char>, Seq<Seq<char>>)>,
    f: Seq<char>,
)
    ensures
        file_findings(Some(m), req, props, conds).contains(FindingView::MissingRequired(f)) <==> (req.contains(f)
            && yaml_get(m, f) is None),
{
    let x = FindingView::MissingRequired(f);
    let v = version_findings(m);
    let mf = missing_findings(m, req, false);
    let pf = props_findings(m, props);
    let cf = cond_findings(m, conds);
    lemma_missing_required(m, req, false, f);
    lemma_props_findings_contains(m, props, x);
    assert(!v.contains(x)) by {
        if v.contains(x) {
            let i = choose|i: int| 0 <= i < v.len() && v[i] == x;
        }
    }
    assert(!pf.contains(x)) by {
        if pf.contains(x) {
            let k = choose|k: int| 0 <= k < props.len() && #[trigger] prop_findings(m, props[k].0, props[k].1).contains(x);
            let q = prop_findings(m, props[k].0, props[k].1);
            let i = choose|i: int| 0 <= i < q.len() && q[i] == x;
        }
    }
    assert(!cf.contains(x)) by {
        match yaml_get(m, "type"@) {
            Some(t) => match yaml_str(t) {
                Some(ts) => match conditional_for(conds, ts) {
                    Some(r) => {
                        lemma_missing_required(m, r, true, f);
                    },
                    None => {},
                },
                None => {},
            },
            None => {},
        }
    }
    lemma_concat_contains(v, mf, x);
    lemma_concat_contains(v + mf, pf, x);
    lemma_concat_contains(v + mf + pf, cf, x);
}

/// A present property whose value does not have the schema type is reported
/// as a `WrongType` finding naming the field and the expected type (so a plain
/// string under an `array` property is reported).
pub proof fn wrong_type_is_reported(
    m: YamlValue,
    req: Seq<Seq<char>>,
    props: Seq<(Seq<char>, PropView)>,
    conds: Seq<(Seq<char>, Seq<Seq<char>>)>,
    k: int,
)
    requires
        0 <= k < props.len(),
        yaml_get(m, props[k].0) matches Some(val) && props[k].1.0 matches Some(t) && !matches_type(val, t),
    ensures
        file_findings(Some(m), req, props, conds).contains(
            FindingView::WrongType(props[k].0, props[k].1.0.unwrap()),
        ),
{
    let x = FindingView::WrongType(props[k].0, props[k].1.0.unwrap());
    let q = prop_findings(m, props[k].0, props[k].1);
    assert(q == seq![x]);
    assert(q[0] == x);
    assert(q.contains(x));
    lemma_props_findings_contains(m, props, x);
    assert(props_findings(m, props).contains(x));
    let v = version_findings(m);
    let mf = missing_findings(m, req, false);
    let pf = props_findings(m, props);
    let cf = cond_findings(m, conds);
    lemma_concat_contains(v, mf, x);
    lemma_concat_contains(v + mf, pf, x);
    lemma_concat_contains(v + mf + pf, cf, x);
}

fn push_finding(out: &mut Vec<Finding>, f: Finding)
    ensures
        finding_views(final(out)@) == finding_views(old(out)@).push(finding_view(f)),
{
    let ghost before = finding_views(out@);
    out.push(f);
    assert(finding_views(out@) =~= before.push(finding_view(f)));
}

fn push_missing(fm: &YamlValue, req: &Vec<String>, cond: bool, out: &mut Vec<Finding>)
    ensures
        finding_views(final(out)@) == finding_views(old(out)@) + missing_findings(*fm, string_views(req@), cond),
{
    let ghost start = finding_views(out@);
    let ghost rv = string_views(req@);
    let mut i: usize = 0;
    while i < req.len()
        invariant
            rv == string_views(req@),
            i <= req@.len(),
            finding_views(out@) == start + missing_findings(*fm, rv.take(i as int), cond),
        decreases req@.len() - i,
    {
        assert(rv.take(i + 1).drop_last() =~= rv.take(i as int));
        assert(rv.take(i + 1).last() == req@[i as int]@);
        if !has_key(fm, req[i].as_str()) {
            let f = if cond {
                Finding::MissingTypeConditional(req[i].clone())
            } else {
                Finding::MissingRequired(req[i].clone())
            };
            push_finding(out, f);
            assert(start + missing_findings(*fm, rv.take(i + 1), cond) =~= (start + missing_findings(
                *fm,
                rv.take(i as int),
                cond,
            )).push(finding_view(f)));
        }
        i = i + 1;
    }
    assert(rv.take(i as int) =~= rv);
}

pub(crate) fn contains_str(v: &Vec<String>, s: &str) -> (r: bool)
    ensures
        r == string_views(v@).contains(s@),
{
    let mut i: usize = 0;
    while i < v.len()
        invariant
            i <= v@.len(),
            forall|q: int| 0 <= q < i ==> string_views(v@)[q] != s@,
        decreases v@.len() - i,
    {
        if str_eq(v[i].as_str(), s) {
            assert(string_views(v@)[i as int] == s@);
            return true;
        }
        i = i + 1;
    }
    false
}

pub(crate) fn clone_strings(v: &Vec<String>) -> (r: Vec<String>)
    ensures
        string_views(r@) == string_views(v@),
{
    let mut out: Vec<String> = Vec::new();
    let mut i: usize = 0;
    while i < v.len()
        invariant
            i <= v@.len(),
            string_views(out@) == string_views(v@).take(i as int),
        decreases v@.len() - i,
    {
        let ghost before = string_views(out@);
        out.push(v[i].clone());
        assert(string_views(out@) =~= before.push(v@[i as int]@));
        assert(string_views(v@).take(i + 1) =~= string_views(v@).take(i as int).push(v@[i as int]@));
        i = i + 1;
    }
    assert(string_views(v@).take(i as int) =~= string_views(v@));
    out
}

/// Check one file's frontmatter (`None` when the file has none) against the rules.
pub fn validate_file(fm_opt: &Option<YamlValue>, schema: &SchemaRules) -> (r: Vec<Finding>)
    ensures
        finding_views(r@) == file_findings(
            *fm_opt,
            string_views(schema.base_required@),
            props_view(schema.properties@),
            conds_view(schema.type_conditionals@),
        ),
{
    let mut out: Vec<Finding> = Vec::new();
    let fm = match fm_opt {
        None => {
            push_finding(&mut out, Finding::NoFrontmatter);
            return out;
        },
        Some(fm) => fm,
    };
    proof {
        reveal_strlit("schema_version");
        reveal_strlit("type");
    }
    match get_i64(fm, "schema_version") {
        None => push_finding(&mut out, Finding::MissingSchemaVersion),
        Some(v) => if v < 1 {
            push_finding(&mut out, Finding::StaleSchemaVersion { current: v, expected: 1 });
        },
    }
    assert(finding_views(out@) =~= version_findings(*fm));
    push_missing(fm, &schema.base_required, false, &mut out);
    let ghost base = finding_views(out@);
    let ghost pv = props_view(schema.properties@);
    let mut i: usize = 0;
    while i < schema.properties.len()
        invariant
            pv == props_view(schema.properties@),
            i <= schema.properties@.len(),
            finding_views(out@) == base + props_findings(*fm, pv.take(i as int)),
        decreases schema.properties@.len() - i,
    {
        assert(pv.take(i + 1).drop_last() =~= pv.take(i as int));
        let field = &schema.properties[i].0;
        let prop = &schema.properties[i].1;
        assert(pv.take(i + 1).last() == (field@, crate::fm_schema::prop_def_view(*prop)));
        let ghost mid = finding_views(out@);
        match yaml_lookup(fm, field.as_str()) {
            Some(val) => {
                let mut wrong = false;
                match &prop.json_type {
                    Some(t) => {
                        if !value_matches_type(val, t.as_str()) {
                            push_finding(&mut out, Finding::WrongType { field: field.clone(), expected: t.clone() });
                            wrong = true;
                        }
                    },
                    None => {},
                }
                if !wrong {
                    match &prop.enum_values {
                        Some(allowed) => match yaml_as_str(val) {
                            Some(s) => {
                                if !contains_str(allowed, s) {
                                    push_finding(
                                        &mut out,
                                        Finding::InvalidEnum {
                                            field: field.clone(),
                                            value: s.to_owned(),
                                            allowed: clone_strings(allowed),
                                        },
                                    );
                                }
                            },
                            None => {},
                        },
                        None => {},
                    }
                }
            },
            None => {},
        }
        assert(finding_views(out@) =~= mid + prop_findings(*fm, field@, crate::fm_schema::prop_def_view(*prop)));
        i = i + 1;
    }
    assert(pv.take(i as int) =~= pv);
    let ghost before_cond = finding_views(out@);
    match get_str(fm, "type") {
        Some(t) => match lookup_conditional(schema, t) {
            Some(req) => push_missing(fm, req, true, &mut out),
            None => {},
        },
        None => {},
    }
    assert(finding_views(out@) =~= before_cond + cond_findings(*fm, conds_view(schema.type_conditionals@)));
    out
}

// ───────────────────────── duplicate ids ─────────────────────────

/// The `id` of a file's frontmatter, when it is a string.
pub open spec fn file_id(fm: Option<YamlValue>) -> Option<Seq<char>> {
    match fm {
        Some(m) => match yaml_get(m, "id"@) {
            Some(v) => yaml_str(v),
            None => None,
        },
        None => None,
    }
}

/// How many of the first `n` files have the id `x`.
pub open spec fn id_count(ids: Seq<Option<Seq<char>>>, x: Seq<char>, n: int) -> nat
    decreases n,
{
    if n <= 0 || n > ids.len() {
        0
    } else {
        id_count(ids, x, n - 1) + if ids[n - 1] == Some(x) {
            1nat
        } else {
            0nat
        }
    }
}

/// The first index of `p` in `paths` (or `paths.len()`).
pub open spec fn first_path(paths: Seq<Seq<char>>, p: Seq<char>, i: int) -> int
    decreases paths.len() - i,
{
    if i < 0 || i >= paths.len() {
        paths.len() as int
    } else if paths[i] == p {
        i
    } else {
        first_path(paths, p, i + 1)
    }
}

/// The duplicate-id findings that land on file `j`, from files `0..n`: each
/// file whose id is shared by another file adds one to the first file with
/// its path.
pub open spec fn dup_findings(paths: Seq<Seq<char>>, ids: Seq<Option<Seq<char>>>, j: int, n: int) -> Seq<FindingView>
    decreases n,
{
    if n <= 0 || n > ids.len() {
        seq![]
    } else {
        let prev = dup_findings(paths, ids, j, n - 1);
        let i = n - 1;
        match ids[i] {
            Some(x) => if id_count(ids, x, ids.len() as int) >= 2 && first_path(paths, paths[i], 0) == j {
                prev.push(FindingView::DuplicateId(x))
            } else {
                prev
            },
            None => prev,
        }
    }
}

pub open spec fn opt_views(v: Seq<Option<String>>) -> Seq<Option<Seq<char>>> {
    v.map_values(|o: Option<String>| match o {
        Some(s) => Some(s@),
        None => None,
    })
}

fn file_id_exec(fm: &Option<YamlValue>) -> (r: Option<String>)
    ensures
        match r {
            Some(s) => file_id(*fm) == Some(s@),
            None => file_id(*fm) is None,
        },
{
    proof {
        reveal_strlit("id");
    }
    match fm {
        Some(m) => match get_str(m, "id") {
            Some(s) => Some(s.to_owned()),
            None => None,
        },
        None => None,
    }
}

fn opt_eq(a: &Option<String>, b: &Option<String>) -> (r: bool)
    ensures
        r == (opt_views(seq![*a])[0] == opt_views(seq![*b])[0]),
{
    match (a, b) {
        (Some(x), Some(y)) => str_eq(x.as_str(), y.as_str()),
        (None, None) => true,
        _ => false,
    }
}

/// The findings of every file, the duplicate-id ones appended; `fms[i]` is
/// the parsed frontmatter of the file at `paths[i]`.
pub fn audit_results(paths: &Vec<String>, fms: &Vec<Option<YamlValue>>, schema: &SchemaRules) -> (r: Vec<(String, Vec<Finding>)>)
    requires
        paths@.len() == fms@.len(),
    ensures
        r@.len() == paths@.len(),
        forall|j: int|
            0 <= j < r@.len() ==> (#[trigger] r@[j]).0@ == paths@[j]@ && finding_views(r@[j].1@) == file_findings(
                fms@[j],
                string_views(schema.base_required@),
                props_view(schema.properties@),
                conds_view(schema.type_conditionals@),
            ) + dup_findings(
                string_views(paths@),
                fms@.map_values(|f: Option<YamlValue>| file_id(f)),
                j,
                paths@.len() as int,
            ),
{
    let n = paths.len();
    let ghost pv = string_views(paths@);
    let ghost iv = fms@.map_values(|f: Option<YamlValue>| file_id(f));
    // the ids
    let mut ids: Vec<Option<String>> = Vec::new();
    let mut i: usize = 0;
    while i < n
        invariant
            n == paths@.len(),
            n == fms@.len(),
            iv == fms@.map_values(|f: Option<YamlValue>| file_id(f)),
            i <= n,
            opt_views(ids@) == iv.take(i as int),
        decreases n - i,
    {
        let id = file_id_exec(&fms[i]);
        let ghost before = opt_views(ids@);
        ids.push(id);
        assert(opt_views(ids@) =~= before.push(iv[i as int]));
        assert(iv.take(i + 1) =~= iv.take(i as int).push(iv[i as int]));
        i = i + 1;
    }
    assert(iv.take(n as int) =~= iv);
    // which ids are shared, and each file's first path
    let mut shared: Vec<bool> = Vec::new();
    let mut first: Vec<usize> = Vec::new();
    let mut a: usize = 0;
    while a < n
        invariant
            n == paths@.len(),
            n == ids@.len(),
            pv == string_views(paths@),
            opt_views(ids@) == iv,
            iv.len() == n,
            a <= n,
            shared@.len() == a,
            first@.len() == a,
            forall|q: int| 0 <= q < a ==> (#[trigger] shared@[q]) == (iv[q] is Some && id_count(iv, iv[q].unwrap(), n as int) >= 2),
            forall|q: int| 0 <= q < a ==> (#[trigger] first@[q]) as int == first_path(pv, pv[q], 0),
        decreases n - a,
    {
        let mut count: usize = 0;
        let mut b: usize = 0;
        while b < n
            invariant
                n == ids@.len(),
                opt_views(ids@) == iv,
                iv.len() == n,
                a < n,
                b <= n,
                count as nat == (if iv[a as int] is Some {
                    id_count(iv, iv[a as int].unwrap(), b as int)
                } else {
                    0nat
                }),
                count <= b,
            decreases n - b,
        {
            if ids[a].is_some() && opt_eq(&ids[a], &ids[b]) {
                count = count + 1;
            }
            proof {
                assert(opt_views(seq![ids@[a as int]])[0] == iv[a as int]);
                assert(opt_views(seq![ids@[b as int]])[0] == iv[b as int]);
            }
            b = b + 1;
        }
        shared.push(ids[a].is_some() && count >= 2);
        let mut f: usize = 0;
        proof {
            crate::fm_audit::lemma_first_path(pv, pv[a as int], 0);
        }
        while f < n && !str_eq(paths[f].as_str(), paths[a].as_str())
            invariant
                n == paths@.len(),
                pv == string_views(paths@),
                a < n,
                f <= a,
                first_path(pv, pv[a as int], f as int) == first_path(pv, pv[a as int], 0),
            decreases n - f,
        {
            f = f + 1;
        }
        assert(f < n);
        assert(first_path(pv, pv[a as int], f as int) == f);
        first.push(f);
        a = a + 1;
    }
    // the results
    let mut out: Vec<(String, Vec<Finding>)> = Vec::new();
    let mut j: usize = 0;
    while j < n
        invariant
            n == paths@.len(),
            n == fms@.len(),
            n == ids@.len(),
            pv == string_views(paths@),
            iv == fms@.map_values(|f: Option<YamlValue>| file_id(f)),
            opt_views(ids@) == iv,
            shared@.len() == n,
            first@.len() == n,
            forall|q: int| 0 <= q < n ==> (#[trigger] shared@[q]) == (iv[q] is Some && id_count(iv, iv[q].unwrap(), n as int) >= 2),
            forall|q: int| 0 <= q < n ==> (#[trigger] first@[q]) as int == first_path(pv, pv[q], 0),
            j <= n,
            out@.len() == j,
            forall|q: int|
                0 <= q < j ==> (#[trigger] out@[q]).0@ == paths@[q]@ && finding_views(out@[q].1@) == file_findings(
                    fms@[q],
                    string_views(schema.base_required@),
                    props_view(schema.properties@),
                    conds_view(schema.type_conditionals@),
                ) + dup_findings(pv, iv, q, n as int),
        decreases n - j,
    {
        let mut fs = validate_file(&fms[j], schema);
        let ghost base = finding_views(fs@);
        let mut i2: usize = 0;
        while i2 < n
            invariant
                n == ids@.len(),
                opt_views(ids@) == iv,
                iv.len() == n,
                shared@.len() == n,
                first@.len() == n,
                forall|q: int| 0 <= q < n ==> (#[trigger] shared@[q]) == (iv[q] is Some && id_count(iv, iv[q].unwrap(), n as int) >= 2),
                forall|q: int| 0 <= q < n ==> (#[trigger] first@[q]) as int == first_path(pv, pv[q], 0),
                j < n,
                i2 <= n,
                finding_views(fs@) == base + dup_findings(pv, iv, j as int, i2 as int),
            decreases n - i2,
        {
            assert(opt_views(seq![ids@[i2 as int]])[0] == iv[i2 as int]);
            if shared[i2] && first[i2] == j {
                match &ids[i2] {
                    Some(x) => {
                        push_finding(&mut fs, Finding::DuplicateId(x.clone()));
                    },
                    None => {},
                }
            }
            i2 = i2 + 1;
        }
        out.push((paths[j].clone(), fs));
        j = j + 1;
    }
    out
}

proof fn lemma_first_path(paths: Seq<Seq<char>>, p: Seq<char>, i: int)
    requires
        0 <= i <= paths.len(),
    ensures
        i <= first_path(paths, p, i) <= paths.len(),
        first_path(paths, p, i) < paths.len() ==> paths[first_path(paths, p, i)] == p,
    decreases paths.len() - i,
{
    if i < paths.len() && paths[i] != p {
        lemma_first_path(paths, p, i + 1);
    }
}

// ───────────────────────── the report ─────────────────────────

/// Audit results: each file's path (as displayed) and findings.
pub type AuditResults = Vec<(String, Vec<Finding>)>;

/// How many findings of `fs` have category `cat`.
pub open spec fn count_in(fs: Seq<Finding>, cat: Seq<char>) -> nat
    decreases fs.len(),
{
    if fs.len() == 0 {
        0
    } else {
        count_in(fs.drop_last(), cat) + if finding_category(fs.last()) == cat {
            1nat
        } else {
            0nat
        }
    }
}

/// How many findings of the first `n` files have category `cat`.
pub open spec fn cat_count(res: Seq<(String, Vec<Finding>)>, cat: Seq<char>, n: int) -> nat
    decreases n,
{
    if n <= 0 || n > res.len() {
        0
    } else {
        cat_count(res, cat, n - 1) + count_in(res[n - 1].1@, cat)
    }
}

/// Some file has a finding.
pub open spec fn any_issue(res: Seq<(String, Vec<Finding>)>) -> bool {
    exists|i: int| 0 <= i < res.len() && (#[trigger] res[i]).1@.len() > 0
}

/// Whether any file has a finding (the audit then fails).
pub fn any_issues(results: &AuditResults) -> (r: bool)
    ensures
        r == any_issue(results@),
{
    let mut i: usize = 0;
    while i < results.len()
        invariant
            i <= results@.len(),
            forall|q: int| 0 <= q < i ==> (#[trigger] results@[q]).1@.len() == 0,
        decreases results@.len() - i,
    {
        if results[i].1.len() > 0 {
            return true;
        }
        i = i + 1;
    }
    false
}

/// The categories in the order the details are listed.
pub open spec fn detail_order() -> Seq<Seq<char>> {
    seq![
        "missing type-conditional field"@,
        "missing required base field"@,
        "no frontmatter"@,
        "missing schema_version"@,
        "stale schema_version"@,
        "invalid enum value"@,
        "wrong field type"@,
        "duplicate id"@,
    ]
}

/// The `    detail` lines of the findings of `fs` in category `cat`.
pub open spec fn detail_lines(fs: Seq<Finding>, cat: Seq<char>) -> Seq<char>
    decreases fs.len(),
{
    if fs.len() == 0 {
        seq![]
    } else {
        detail_lines(fs.drop_last(), cat) + if finding_category(fs.last()) == cat {
            "    "@ + finding_detail(fs.last()) + "\n"@
        } else {
            seq![]
        }
    }
}

/// The file blocks of the first `n` files that have a finding in `cat`.
pub open spec fn detail_files(res: Seq<(String, Vec<Finding>)>, cat: Seq<char>, n: int) -> Seq<char>
    decreases n,
{
    if n <= 0 || n > res.len() {
        seq![]
    } else {
        detail_files(res, cat, n - 1) + if count_in(res[n - 1].1@, cat) > 0 {
            "  "@ + res[n - 1].0@ + "\n"@ + detail_lines(res[n - 1].1@, cat)
        } else {
            seq![]
        }
    }
}

/// The detail section of one category, empty when no file has such a finding.
pub open spec fn detail_section(res: Seq<(String, Vec<Finding>)>, cat: Seq<char>) -> Seq<char> {
    if cat_count(res, cat, res.len() as int) == 0 {
        seq![]
    } else {
        "DETAIL — "@ + cat + "\n"@ + detail_files(res, cat, res.len() as int) + "\n"@
    }
}

pub open spec fn count_line(label: Seq<char>, n: nat, unit: Seq<char>) -> Seq<char> {
    label + dec(n) + unit
}

/// The capped count of findings in `cat`.
pub open spec fn ccount(res: Seq<(String, Vec<Finding>)>, cat: Seq<char>) -> nat {
    crate::text_rename::capped(cat_count(res, cat, res.len() as int))
}

/// The count lines of the report.
pub open spec fn count_lines(res: Seq<(String, Vec<Finding>)>) -> Seq<char> {
    count_line("  no frontmatter:                  "@, ccount(res, "no frontmatter"@), " file(s)\n"@)
        + count_line("  missing schema_version:          "@, ccount(res, "missing schema_version"@), " file(s)\n"@)
        + count_line("  stale schema_version:            "@, ccount(res, "stale schema_version"@), " file(s)\n"@)
        + count_line("  missing required base field:     "@, ccount(res, "missing required base field"@), " file(s)\n"@)
        + count_line("  missing type-conditional field:  "@, ccount(res, "missing type-conditional field"@), " file(s)\n"@)
        + count_line("  invalid enum value:              "@, ccount(res, "invalid enum value"@), " file(s)\n"@)
        + count_line("  wrong field type:                "@, ccount(res, "wrong field type"@), " file(s)\n"@)
        + count_line("  duplicate id within engine:      "@, ccount(res, "duplicate id"@), " collision(s)\n"@)
}

/// The detail sections of the categories `cats`, in order.
pub open spec fn sections(res: Seq<(String, Vec<Finding>)>, cats: Seq<Seq<char>>) -> Seq<char>
    decreases cats.len(),
{
    if cats.len() == 0 {
        seq![]
    } else {
        sections(res, cats.drop_last()) + detail_section(res, cats.last())
    }
}

/// The human-readable audit report for `total` scanned files; category
/// counts are capped at `usize::MAX`.
pub open spec fn human_report(res: Seq<(String, Vec<Finding>)>, total: nat) -> Seq<char> {
    "SCHEMA COMPLIANCE — "@ + dec(total) + " file(s) scanned\n\n"@ + count_lines(res) + "\n"@ + if !any_issue(res) {
        "✓ All files conformant.\n"@
    } else {
        sections(res, detail_order())
    }
}

fn count_of(fs: &Vec<Finding>, cat: &str) -> (r: usize)
    ensures
        r as nat == count_in(fs@, cat@),
{
    let mut c: usize = 0;
    let mut i: usize = 0;
    while i < fs.len()
        invariant
            i <= fs@.len(),
            c as nat == count_in(fs@.take(i as int), cat@),
            c <= i,
        decreases fs@.len() - i,
    {
        assert(fs@.take(i + 1).drop_last() =~= fs@.take(i as int));
        if str_eq(fs[i].category(), cat) {
            c = c + 1;
        }
        i = i + 1;
    }
    assert(fs@.take(i as int) =~= fs@);
    c
}

/// How many findings of all files have category `cat`, capped at `usize::MAX`.
pub fn count_category(results: &AuditResults, cat: &str) -> (r: usize)
    ensures
        r as nat == crate::text_rename::capped(cat_count(results@, cat@, results@.len() as int)),
{
    let mut c: usize = 0;
    let mut i: usize = 0;
    while i < results.len()
        invariant
            i <= results@.len(),
            c as nat == crate::text_rename::capped(cat_count(results@, cat@, i as int)),
        decreases results@.len() - i,
    {
        let k = count_of(&results[i].1, cat);
        c = c.saturating_add(k);
        i = i + 1;
    }
    c
}

fn push_details(out: &mut String, fs: &Vec<Finding>, cat: &str)
    ensures
        final(out)@ == old(out)@ + detail_lines(fs@, cat@),
{
    let ghost start = out@;
    proof {
        reveal_strlit("    ");
        reveal_strlit("\n");
    }
    let mut i: usize = 0;
    while i < fs.len()
        invariant
            i <= fs@.len(),
            out@ == start + detail_lines(fs@.take(i as int), cat@),
        decreases fs@.len() - i,
    {
        assert(fs@.take(i + 1).drop_last() =~= fs@.take(i as int));
        let ghost before = out@;
        if str_eq(fs[i].category(), cat) {
            out.append("    ");
            let d = fs[i].detail();
            out.append(d.as_str());
            out.append("\n");
        }
        assert(out@ =~= start + detail_lines(fs@.take(i + 1), cat@));
        i = i + 1;
    }
    assert(fs@.take(i as int) =~= fs@);
}

fn push_section(out: &mut String, results: &AuditResults, cat: &str)
    ensures
        final(out)@ == old(out)@ + detail_section(results@, cat@),
{
    proof {
        reveal_strlit("DETAIL — ");
        reveal_strlit("\n");
        reveal_strlit("  ");
    }
    if count_category(results, cat) == 0 {
        return;
    }
    let ghost start = out@;
    out.append("DETAIL — ");
    out.append(cat);
    out.append("\n");
    let ghost head = out@;
    let mut i: usize = 0;
    while i < results.len()
        invariant
            i <= results@.len(),
            out@ == head + detail_files(results@, cat@, i as int),
        decreases results@.len() - i,
    {
        let ghost before = out@;
        if count_of(&results[i].1, cat) > 0 {
            out.append("  ");
            out.append(results[i].0.as_str());
            out.append("\n");
            push_details(out, &results[i].1, cat);
        }
        assert(out@ =~= head + detail_files(results@, cat@, i + 1));
        i = i + 1;
    }
    out.append("\n");
    assert(out@ =~= start + detail_section(results@, cat@));
}

fn push_count_line(out: &mut String, label: &str, n: usize, unit: &str)
    ensures
        final(out)@ == old(out)@ + count_line(label@, n as nat, unit@),
{
    out.append(label);
    push_decimal(out, n);
    out.append(unit);
}

fn push_count_lines(out: &mut String, results: &AuditResults)
    ensures
        final(out)@ == old(out)@ + count_lines(results@),
{
    proof {
        reveal_strlit(" file(s)\n");
        reveal_strlit(" collision(s)\n");
        reveal_strlit("  no frontmatter:                  ");
        reveal_strlit("  missing schema_version:          ");
        reveal_strlit("  stale schema_version:            ");
        reveal_strlit("  missing required base field:     ");
        reveal_strlit("  missing type-conditional field:  ");
        reveal_strlit("  invalid enum value:              ");
        reveal_strlit("  wrong field type:                ");
        reveal_strlit("  duplicate id within engine:      ");
        reveal_strlit("no frontmatter");
        reveal_strlit("missing schema_version");
        reveal_strlit("stale schema_version");
        reveal_strlit("missing required base field");
        reveal_strlit("missing type-conditional field");
        reveal_strlit("invalid enum value");
        reveal_strlit("wrong field type");
        reveal_strlit("duplicate id");
    }
    let ghost start = out@;
    push_count_line(out, "  no frontmatter:                  ", count_category(results, "no frontmatter"), " file(s)\n");
    push_count_line(out, "  missing schema_version:          ", count_category(results, "missing schema_version"), " file(s)\n");
    push_count_line(out, "  stale schema_version:            ", count_category(results, "stale schema_version"), " file(s)\n");
    push_count_line(
        out,
        "  missing required base field:     ",
        count_category(results, "missing required base field"),
        " file(s)\n",
    );
    push_count_line(
        out,
        "  missing type-conditional field:  ",
        count_category(results, "missing type-conditional field"),
        " file(s)\n",
    );
    push_count_line(out, "  invalid enum value:              ", count_category(results, "invalid enum value"), " file(s)\n");
    push_count_line(out, "  wrong field type:                ", count_category(results, "wrong field type"), " file(s)\n");
    push_count_line(out, "  duplicate id within engine:      ", count_category(results, "duplicate id"), " collision(s)\n");
    assert(out@ =~= start + count_lines(results@));
}

fn push_sections(out: &mut String, results: &AuditResults)
    ensures
        final(out)@ == old(out)@ + sections(results@, detail_order()),
{
    proof {
        reveal_strlit("no frontmatter");
        reveal_strlit("missing schema_version");
        reveal_strlit("stale schema_version");
        reveal_strlit("missing required base field");
        reveal_strlit("missing type-conditional field");
        reveal_strlit("invalid enum value");
        reveal_strlit("wrong field type");
        reveal_strlit("duplicate id");
    }
    let cats: Vec<&str> = vec![
        "missing type-conditional field",
        "missing required base field",
        "no frontmatter",
        "missing schema_version",
        "stale schema_version",
        "invalid enum value",
        "wrong field type",
        "duplicate id",
    ];
    let ghost d = detail_order();
    assert(cats@.map_values(|c: &str| c@) =~= d);
    let ghost start = out@;
    let mut i: usize = 0;
    assert(d.take(0) =~= Seq::<Seq<char>>::empty());
    while i < cats.len()
        invariant
            cats@.map_values(|c: &str| c@) == d,
            d.len() == cats@.len(),
            i <= cats@.len(),
            out@ == start + sections(results@, d.take(i as int)),
        decreases cats@.len() - i,
    {
        assert(d.take(i + 1).drop_last() =~= d.take(i as int));
        assert(d.take(i + 1).last() == cats@[i as int]@);
        push_section(out, results, cats[i]);
        assert(out@ =~= start + sections(results@, d.take(i + 1)));
        i = i + 1;
    }
    assert(d.take(i as int) =~= d);
}

/// The text `frontmatter audit` prints for `results` of `total` scanned files.
pub fn format_audit_human(results: &AuditResults, total: usize) -> (r: String)
    ensures
        r@ == human_report(results@, total as nat),
{
    proof {
        reveal_strlit("SCHEMA COMPLIANCE — ");
        reveal_strlit(" file(s) scanned\n\n");
        reveal_strlit("\n");
        reveal_strlit("✓ All files conformant.\n");
    }
    let mut out = "SCHEMA COMPLIANCE — ".to_owned();
    push_decimal(&mut out, total);
    out.append(" file(s) scanned\n\n");
    push_count_lines(&mut out, results);
    out.append("\n");
    if !any_issues(results) {
        out.append("✓ All files conformant.\n");
        return out;
    }
    push_sections(&mut out, results);
    out
}

/// The parsed frontmatter of each file text, in order.
pub open spec fn parsed_fms(contents: Seq<Seq<char>>) -> Seq<Option<YamlValue>> {
    contents.map_values(
        |c: Seq<char>|
            match crate::frontmatter::split_fm_spec(c).0 {
                Some(fm) => crate::doc_values::yaml_parsed(fm),
                None => None,
            },
    )
}

/// Audit the files at `paths` whose texts are `contents`: each file's
/// findings (duplicate ids included), and whether any file has one.
pub fn run_audit(paths: &Vec<String>, contents: &Vec<String>, schema: &SchemaRules) -> (r: (AuditResults, bool))
    requires
        paths@.len() == contents@.len(),
    ensures
        r.0@.len() == paths@.len(),
        forall|j: int|
            0 <= j < r.0@.len() ==> (#[trigger] r.0@[j]).0@ == paths@[j]@ && finding_views(r.0@[j].1@) == file_findings(
                parsed_fms(string_views(contents@))[j],
                string_views(schema.base_required@),
                props_view(schema.properties@),
                conds_view(schema.type_conditionals@),
            ) + dup_findings(
                string_views(paths@),
                parsed_fms(string_views(contents@)).map_values(|f: Option<YamlValue>| file_id(f)),
                j,
                paths@.len() as int,
            ),
        r.1 == any_issue(r.0@),
{
    let ghost pf = parsed_fms(string_views(contents@));
    let mut fms: Vec<Option<YamlValue>> = Vec::new();
    let mut i: usize = 0;
    while i < contents.len()
        invariant
            pf == parsed_fms(string_views(contents@)),
            i <= contents@.len(),
            paths@.len() == contents@.len(),
            fms@ == pf.take(i as int),
        decreases contents@.len() - i,
    {
        let parsed = crate::frontmatter::parse_file(paths[i].as_str(), contents[i].as_str());
        fms.push(parsed.frontmatter);
        assert(pf[i as int] == parsed.frontmatter);
        assert(fms@ =~= pf.take(i + 1));
        i = i + 1;
    }
    assert(pf.take(i as int) =~= pf);
    assert(fms@ == pf);
    let results = audit_results(paths, &fms, schema);
    let any = any_issues(&results);
    (results, any)
}

} // verus!
