//! Filling in frontmatter: `migrate`'s schema_version step, `add-required`'s
//! safe defaults and gap list, and path-based field inference.

use vstd::prelude::*;
use vstd::string::*;
use crate::doc_values::{entry_index, get_i64, has_key, yaml_entry, yaml_get, yaml_i64, YamlValue};
use crate::fm_normalize::{plain_key, Entry};
use crate::fm_schema::{conditional_for, conds_view, lookup_conditional, SchemaRules};
use crate::frontmatter::{file_stem, insert_schema_version, insert_sv_spec, std_file_stem};
use crate::plan_wizard::{file_name, std_file_name};
use crate::resolver::{path_parent, std_path_parent};
use crate::text::{str_eq, string_views};
use crate::transaction::{starts_with_chars, starts_with_str};

verus! {

broadcast use vstd::seq::group_seq_axioms;

// ───────────────────────── migrate ─────────────────────────

/// The new raw frontmatter of a migration to `to_version`, or `None` when
/// nothing changes: to version 1, `schema_version: 1` goes in unless the
/// parsed frontmatter already has a version of at least 1.
pub open spec fn migration_spec(raw: Seq<char>, fm: Option<YamlValue>, to_version: nat) -> Option<Seq<char>> {
    if to_version == 1 {
        let has = match fm {
            Some(m) => yaml_get(m, "schema_version"@) is Some,
            None => false,
        };
        let existing: int = match fm {
            Some(m) => match yaml_get(m, "schema_version"@) {
                Some(v) => match yaml_i64(v) {
                    Some(n) => n as int,
                    None => 0,
                },
                None => 0,
            },
            None => 0,
        };
        if has && existing >= 1 {
            None
        } else {
            Some(insert_sv_spec(raw, 1))
        }
    } else {
        None
    }
}

/// The migrated raw frontmatter, or `None` when the file needs no change.
pub fn compute_migration(raw_fm: &str, fm_value: &Option<YamlValue>, to_version: u32) -> (r: Option<String>)
    ensures
        match r {
            Some(s) => migration_spec(raw_fm@, *fm_value, to_version as nat) == Some(s@),
            None => migration_spec(raw_fm@, *fm_value, to_version as nat) is None,
        },
{
    proof {
        reveal_strlit("schema_version");
    }
    if to_version == 1 {
        let already_has = match fm_value {
            Some(fm) => has_key(fm, "schema_version"),
            None => false,
        };
        let existing: i64 = match fm_value {
            Some(fm) => match get_i64(fm, "schema_version") {
                Some(n) => n,
                None => 0,
            },
            None => 0,
        };
        if already_has && existing >= 1 {
            None
        } else {
            Some(insert_schema_version(raw_fm, 1))
        }
    } else {
        None
    }
}

// ───────────────────────── appending entries ─────────────────────────

/// How an added entry's value reads.
pub enum AddedValue {
    Text(Seq<char>),
    EmptyList,
    One,
}

/// The value `v` reads as `a`.
pub open spec fn value_is(v: YamlValue, a: AddedValue) -> bool {
    match a {
        AddedValue::Text(t) => v is Str && crate::doc_values::yaml_str(v) == Some(t),
        AddedValue::EmptyList => v matches YamlValue::Sequence(x) && x@.len() == 0,
        AddedValue::One => v == YamlValue::Int(1),
    }
}

/// `out` is `es` followed by the entries `added` describes, keys as plain strings.
pub open spec fn appended(es: Seq<Entry>, added: Seq<(Seq<char>, AddedValue)>, out: Seq<Entry>) -> bool {
    &&& out.len() == es.len() + added.len()
    &&& out.take(es.len() as int) == es
    &&& forall|j: int|
        0 <= j < added.len() ==> (#[trigger] out[es.len() + j]).0 is Str && plain_key(out[es.len() + j].0) == Some(added[j].0)
            && value_is(out[es.len() + j].1, added[j].1)
}

proof fn lemma_appended_push(es: Seq<Entry>, added: Seq<(Seq<char>, AddedValue)>, out: Seq<Entry>, e: Entry, a: (Seq<char>, AddedValue))
    requires
        appended(es, added, out),
        e.0 is Str,
        plain_key(e.0) == Some(a.0),
        value_is(e.1, a.1),
    ensures
        appended(es, added.push(a), out.push(e)),
{
    let out2 = out.push(e);
    let added2 = added.push(a);
    assert(out2.take(es.len() as int) =~= out.take(es.len() as int));
    assert forall|j: int| 0 <= j < added2.len() implies (#[trigger] out2[es.len() + j]).0 is Str && plain_key(
        out2[es.len() + j].0,
    ) == Some(added2[j].0) && value_is(out2[es.len() + j].1, added2[j].1) by {
        if j < added.len() {
            assert(out2[es.len() + j] == out[es.len() + j]);
        }
    }
}

// ───────────────────────── add-required ─────────────────────────

/// The field a type can be given without judgment, with its default.
pub open spec fn safe_default(t: Seq<char>) -> Option<(Seq<char>, AddedValue)> {
    if t == "analysis"@ {
        Some(("depends_on"@, AddedValue::EmptyList))
    } else if t == "eval"@ {
        Some(("pass_status"@, AddedValue::Text("NOT_RUN"@)))
    } else {
        None
    }
}

/// What `add-required` appends to a frontmatter mapping: `schema_version: 1`
/// when absent, then the type's safe default when its field is missing.
pub open spec fn defaults_added(fm: YamlValue, t: Seq<char>) -> Seq<(Seq<char>, AddedValue)> {
    (if yaml_get(fm, "schema_version"@) is None {
        seq![("schema_version"@, AddedValue::One)]
    } else {
        seq![]
    }) + match safe_default(t) {
        Some(d) => if yaml_get(fm, d.0) is None {
            seq![d]
        } else {
            seq![]
        },
        None => seq![],
    }
}

/// The items of `fs` other than the type's safe-default field that `fm` lacks.
pub open spec fn gaps_from(fm: YamlValue, t: Seq<char>, fs: Seq<Seq<char>>) -> Seq<Seq<char>>
    decreases fs.len(),
{
    if fs.len() == 0 {
        seq![]
    } else {
        let f = fs.last();
        let safe = match safe_default(t) {
            Some(d) => d.0 == f,
            None => false,
        };
        gaps_from(fm, t, fs.drop_last()) + if !safe && yaml_get(fm, f) is None {
            seq![f]
        } else {
            seq![]
        }
    }
}

/// The required fields of type `t` that need human judgment and are missing from `fm`.
pub open spec fn gaps_spec(fm: YamlValue, t: Seq<char>, conds: Seq<(Seq<char>, Seq<Seq<char>>)>) -> Seq<Seq<char>> {
    match conditional_for(conds, t) {
        Some(v) => gaps_from(fm, t, v),
        None => seq![],
    }
}

/// Add the safe defaults to `fm` (a mapping; anything else is left as it
/// is) and list the required fields of type `type_val` that still need a
/// person to fill in.
pub fn apply_auto_defaults(fm: YamlValue, type_val: &str, schema: &SchemaRules) -> (r: (YamlValue, Vec<String>))
    ensures
        match fm {
            YamlValue::Mapping(es) => r.0 matches YamlValue::Mapping(out) && appended(es@, defaults_added(fm, type_val@), out@),
            _ => r.0 == fm,
        },
        string_views(r.1@) == gaps_spec(r.0, type_val@, conds_view(schema.type_conditionals@)),
{
    proof {
        reveal_strlit("schema_version");
        reveal_strlit("analysis");
        reveal_strlit("eval");
        reveal_strlit("depends_on");
        reveal_strlit("pass_status");
        reveal_strlit("NOT_RUN");
    }
    let ghost orig = fm;
    let sv_missing = !has_key(&fm, "schema_version");
    let is_analysis = str_eq(type_val, "analysis");
    let is_eval = !is_analysis && str_eq(type_val, "eval");
    let d_missing = if is_analysis {
        !has_key(&fm, "depends_on")
    } else if is_eval {
        !has_key(&fm, "pass_status")
    } else {
        false
    };
    let result = match fm {
        YamlValue::Mapping(es) => {
            let ghost ev = es@;
            let ghost added = defaults_added(orig, type_val@);
            let mut es = es;
            let ghost a0: Seq<(Seq<char>, AddedValue)> = seq![];
            assert(appended(ev, a0, es@)) by {
                assert(es@.take(ev.len() as int) =~= ev);
            }
            let ghost mut acc = a0;
            if sv_missing {
                let e = (YamlValue::Str("schema_version".to_owned()), YamlValue::Int(1));
                proof {
                    lemma_appended_push(ev, acc, es@, e, ("schema_version"@, AddedValue::One));
                    acc = acc.push(("schema_version"@, AddedValue::One));
                }
                es.push(e);
            }
            if d_missing {
                if is_analysis {
                    let e = (YamlValue::Str("depends_on".to_owned()), YamlValue::Sequence(Vec::new()));
                    proof {
                        lemma_appended_push(ev, acc, es@, e, ("depends_on"@, AddedValue::EmptyList));
                        acc = acc.push(("depends_on"@, AddedValue::EmptyList));
                    }
                    es.push(e);
                } else {
                    let e = (YamlValue::Str("pass_status".to_owned()), YamlValue::Str("NOT_RUN".to_owned()));
                    proof {
                        lemma_appended_push(ev, acc, es@, e, ("pass_status"@, AddedValue::Text("NOT_RUN"@)));
                        acc = acc.push(("pass_status"@, AddedValue::Text("NOT_RUN"@)));
                    }
                    es.push(e);
                }
            }
            assert(acc =~= added);
            YamlValue::Mapping(es)
        },
        other => other,
    };
    let mut gaps: Vec<String> = Vec::new();
    match lookup_conditional(schema, type_val) {
        Some(req) => {
            let ghost rv = string_views(req@);
            let mut i: usize = 0;
            while i < req.len()
                invariant
                    rv == string_views(req@),
                    i <= req@.len(),
                    is_analysis == (type_val@ == "analysis"@),
                    is_eval == (!is_analysis && type_val@ == "eval"@),
                    safe_default(type_val@) == (if is_analysis {
                        Some(("depends_on"@, AddedValue::EmptyList))
                    } else if is_eval {
                        Some(("pass_status"@, AddedValue::Text("NOT_RUN"@)))
                    } else {
                        None
                    }),
                    string_views(gaps@) == gaps_from(result, type_val@, rv.take(i as int)),
                decreases req@.len() - i,
            {
                proof {
                    reveal_strlit("analysis");
                    reveal_strlit("eval");
                    reveal_strlit("depends_on");
                    reveal_strlit("pass_status");
                }
                assert(rv.take(i + 1).drop_last() =~= rv.take(i as int));
                assert(rv.take(i + 1).last() == req@[i as int]@);
                let f = req[i].as_str();
                let safe = (is_analysis && str_eq(f, "depends_on")) || (is_eval && str_eq(f, "pass_status"));
                assert(safe == (match safe_default(type_val@) {
                    Some(d) => d.0 == f@,
                    None => false,
                }));
                if !safe && !has_key(&result, f) {
                    let ghost before = string_views(gaps@);
                    gaps.push(f.to_owned());
                    assert(string_views(gaps@) =~= before.push(f@));
                }
                i = i + 1;
            }
            assert(rv.take(i as int) =~= rv);
        },
        None => {},
    }
    (result, gaps)
}

// ───────────────────────── inference ─────────────────────────

/// Fill `field` in files whose parent folder name starts with
/// `folder_prefix`: with the file's stem (strategy `stem`) or with `value`
/// (strategy `constant`).
#[derive(Debug, Clone)]
pub struct InferenceRule {
    pub folder_prefix: String,
    pub field: String,
    pub strategy: String,
    pub value: Option<String>,
}

/// The inference rules of the active template, in file order.
#[derive(Debug, Clone)]
pub struct InferenceRules {
    pub rules: Vec<InferenceRule>,
}

/// The name of the folder holding `path` (empty when there is none).
pub open spec fn parent_name(path: Seq<char>) -> Seq<char> {
    match std_path_parent(path) {
        Some(p) => match std_file_name(p) {
            Some(n) => n,
            None => seq![],
        },
        None => seq![],
    }
}

/// What a rule would fill in for `path`.
pub open spec fn inferred(rule: InferenceRule, path: Seq<char>) -> Option<Seq<char>> {
    if rule.strategy@ == "stem"@ {
        std_file_stem(path)
    } else if rule.strategy@ == "constant"@ {
        match rule.value {
            Some(v) => Some(v@),
            None => None,
        }
    } else {
        None
    }
}

/// The (field, text) entries the first `n` rules add to the entries `es`.
pub open spec fn inferred_upto(es: Seq<Entry>, rules: Seq<InferenceRule>, path: Seq<char>, n: int) -> Seq<(Seq<char>, AddedValue)>
    decreases n,
{
    if n <= 0 || n > rules.len() {
        seq![]
    } else {
        let prev = inferred_upto(es, rules, path, n - 1);
        let rule = rules[n - 1];
        let f = rule.field@;
        let present = yaml_entry(es, f, 0) < es.len() || exists|j: int| 0 <= j < prev.len() && prev[j].0 == f;
        if starts_with_chars(parent_name(path), rule.folder_prefix@) && !present {
            match inferred(rule, path) {
                Some(v) => prev.push((f, AddedValue::Text(v))),
                None => prev,
            }
        } else {
            prev
        }
    }
}

fn parent_name_exec(path: &str) -> (r: String)
    ensures
        r@ == parent_name(path@),
{
    match path_parent(path) {
        Some(p) => match file_name(p.as_str()) {
            Some(n) => n,
            None => String::new(),
        },
        None => String::new(),
    }
}

fn added_has(es: &Vec<Entry>, start: usize, f: &str) -> (r: bool)
    requires
        start <= es@.len(),
        forall|j: int| start <= j < es@.len() ==> (#[trigger] es@[j]).0 is Str,
    ensures
        r == exists|j: int| start <= j < es@.len() && plain_key(es@[j].0) == Some(f@),
{
    let mut j: usize = start;
    while j < es.len()
        invariant
            start <= j <= es@.len(),
            forall|q: int| start <= q < es@.len() ==> (#[trigger] es@[q]).0 is Str,
            forall|q: int| start <= q < j ==> plain_key(#[trigger] es@[q].0) != Some(f@),
        decreases es@.len() - j,
    {
        let hit = match &es[j].0 {
            YamlValue::Str(s) => str_eq(s.as_str(), f),
            _ => false,
        };
        if hit {
            return true;
        }
        j = j + 1;
    }
    false
}

impl InferenceRules {
    /// Fill each rule's field in `fm` (a mapping; anything else is left as it
    /// is) when the file's folder matches and the field is still absent.
    pub fn apply(&self, fm: YamlValue, file_path: &str) -> (r: YamlValue)
        ensures
            match fm {
                YamlValue::Mapping(es) => r matches YamlValue::Mapping(out) && appended(
                    es@,
                    inferred_upto(es@, self.rules@, file_path@, self.rules@.len() as int),
                    out@,
                ),
                _ => r == fm,
            },
    {
        proof {
            reveal_strlit("stem");
            reveal_strlit("constant");
        }
        match fm {
            YamlValue::Mapping(es) => {
                let ghost ev = es@;
                let n0 = es.len();
                let parent = parent_name_exec(file_path);
                let mut es = es;
                assert(es@.take(ev.len() as int) =~= ev);
                let mut k: usize = 0;
                while k < self.rules.len()
                    invariant
                        n0 == ev.len(),
                        parent@ == parent_name(file_path@),
                        k <= self.rules@.len(),
                        appended(ev, inferred_upto(ev, self.rules@, file_path@, k as int), es@),
                    decreases self.rules@.len() - k,
                {
                    proof {
                        reveal_strlit("stem");
                        reveal_strlit("constant");
                    }
                    let ghost prev = inferred_upto(ev, self.rules@, file_path@, k as int);
                    let rule = &self.rules[k];
                    let f = rule.field.as_str();
                    if starts_with_str(parent.as_str(), rule.folder_prefix.as_str()) {
                        let in_orig = entry_index(&es, f) < n0;
                        proof {
                            crate::doc_values::lemma_yaml_entry(es@, f@, 0);
                            crate::doc_values::lemma_yaml_entry(ev, f@, 0);
                            assert forall|j: int| 0 <= j < ev.len() implies es@[j] == ev[j] by {
                                assert(es@.take(ev.len() as int)[j] == es@[j]);
                            }
                            let a = yaml_entry(es@, f@, 0);
                            let b = yaml_entry(ev, f@, 0);
                            if b < ev.len() {
                                assert(es@[b] == ev[b]);
                            }
                            if a < ev.len() {
                                assert(es@[a] == ev[a]);
                            }
                            assert(in_orig == (yaml_entry(ev, f@, 0) < ev.len()));
                            assert forall|j: int| n0 <= j < es@.len() implies (#[trigger] es@[j]).0 is Str by {
                                assert(es@[n0 + (j - n0)] == es@[j]);
                            }
                        }
                        let in_added = added_has(&es, n0, f);
                        proof {
                            if in_added {
                                let j = choose|j: int| n0 <= j < es@.len() && plain_key(es@[j].0) == Some(f@);
                                assert(es@[ev.len() + (j - n0)] == es@[j]);
                                assert(prev[j - n0].0 == f@);
                            }
                            if exists|j: int| 0 <= j < prev.len() && prev[j].0 == f@ {
                                let j = choose|j: int| 0 <= j < prev.len() && prev[j].0 == f@;
                                assert(plain_key(es@[n0 + j].0) == Some(f@));
                            }
                        }
                        if !in_orig && !in_added {
                            let value: Option<String> = if str_eq(rule.strategy.as_str(), "stem") {
                                file_stem(file_path)
                            } else if str_eq(rule.strategy.as_str(), "constant") {
                                match &rule.value {
                                    Some(v) => Some(v.clone()),
                                    None => None,
                                }
                            } else {
                                None
                            };
                            match value {
                                Some(v) => {
                                    let e = (YamlValue::Str(rule.field.clone()), YamlValue::Str(v));
                                    proof {
                                        lemma_appended_push(ev, prev, es@, e, (f@, AddedValue::Text(v@)));
                                    }
                                    es.push(e);
                                },
                                None => {},
                            }
                        }
                    }
                    k = k + 1;
                }
                YamlValue::Mapping(es)
            },
            other => other,
        }
    }
}

// ───────────────────────── migrating files ─────────────────────────

/// The change `migrate` makes to one file: its new raw frontmatter and its
/// body; for a scaffolded file, the title it inferred.
#[derive(Debug)]
pub struct Transform {
    pub path: String,
    pub new_raw_fm: String,
    pub body: String,
    pub inferred_title: Option<String>,
}

pub type TransformView = (Seq<char>, Seq<char>, Seq<char>, Option<Seq<char>>);

pub open spec fn transform_view(t: Transform) -> TransformView {
    (
        t.path@,
        t.new_raw_fm@,
        t.body@,
        match t.inferred_title {
            Some(x) => Some(x@),
            None => None,
        },
    )
}

/// The change for the file at `path` with text `content`: a migration of
/// its frontmatter when that needs one, a scaffolded block for a file without
/// frontmatter when migrating to version 1, or none.
pub open spec fn transform_for(path: Seq<char>, content: Seq<char>, to_version: nat) -> Option<TransformView> {
    let (raw, body) = crate::frontmatter::split_fm_spec(content);
    match raw {
        Some(r) => match migration_spec(r, crate::doc_values::yaml_parsed(r), to_version) {
            Some(n) => Some((path, n, body, None)),
            None => None,
        },
        None => if to_version == 1 {
            Some(
                (
                    path,
                    crate::frontmatter::scaffold_spec(path, body),
                    body,
                    Some(crate::frontmatter::infer_title_spec(path, body)),
                ),
            )
        } else {
            None
        },
    }
}

/// The changes for the files (path, text), in order.
pub open spec fn migration_plan_spec(files: Seq<(Seq<char>, Seq<char>)>, to_version: nat) -> Seq<TransformView>
    decreases files.len(),
{
    if files.len() == 0 {
        seq![]
    } else {
        migration_plan_spec(files.drop_last(), to_version) + match transform_for(
            files.last().0,
            files.last().1,
            to_version,
        ) {
            Some(t) => seq![t],
            None => seq![],
        }
    }
}

/// All the changes `migrate --to to_version` makes to the files (path, text),
/// computed before anything is written.
pub fn migration_plan(files: &Vec<(String, String)>, to_version: u32) -> (r: Vec<Transform>)
    ensures
        r@.map_values(|t: Transform| transform_view(t)) == migration_plan_spec(
            crate::fm_schema::pairs_view(files@),
            to_version as nat,
        ),
{
    let ghost fv = crate::fm_schema::pairs_view(files@);
    let mut out: Vec<Transform> = Vec::new();
    let mut i: usize = 0;
    assert(fv.take(0) =~= Seq::<(Seq<char>, Seq<char>)>::empty());
    while i < files.len()
        invariant
            fv == crate::fm_schema::pairs_view(files@),
            i <= fv.len(),
            out@.map_values(|t: Transform| transform_view(t)) == migration_plan_spec(fv.take(i as int), to_version as nat),
        decreases fv.len() - i,
    {
        let ghost cur = fv.take(i + 1);
        assert(cur.drop_last() =~= fv.take(i as int));
        assert(cur.last() == fv[i as int]);
        let ghost before = out@.map_values(|t: Transform| transform_view(t));
        let path = files[i].0.as_str();
        let parsed = crate::frontmatter::parse_file(path, files[i].1.as_str());
        match &parsed.raw_fm {
            Some(raw) => {
                match compute_migration(raw.as_str(), &parsed.frontmatter, to_version) {
                    Some(n) => {
                        let t = Transform { path: path.to_owned(), new_raw_fm: n, body: parsed.body.clone(), inferred_title: None };
                        out.push(t);
                        assert(out@.map_values(|t: Transform| transform_view(t)) =~= before.push(transform_view(t)));
                    },
                    None => {
                        assert(before + Seq::<TransformView>::empty() =~= before);
                    },
                }
            },
            None => {
                if to_version == 1 {
                    let title = crate::frontmatter::infer_title(path, parsed.body.as_str());
                    let fm = crate::frontmatter::scaffold_frontmatter(path, parsed.body.as_str());
                    let t = Transform { path: path.to_owned(), new_raw_fm: fm, body: parsed.body.clone(), inferred_title: Some(title) };
                    out.push(t);
                    assert(out@.map_values(|t: Transform| transform_view(t)) =~= before.push(transform_view(t)));
                } else {
                    assert(before + Seq::<TransformView>::empty() =~= before);
                }
            },
        }
        i = i + 1;
    }
    assert(fv.take(i as int) =~= fv);
    out
}

/// The listing line of a change in a dry run.
pub open spec fn dry_run_line(t: TransformView) -> Seq<char> {
    match t.3 {
        Some(title) => "  [scaffold] "@ + t.0 + "  \u{2192}  schema_version: 1, title: \""@ + title + "\""@,
        None => "  "@ + t.0,
    }
}

/// What `migrate` prints before it writes anything: that nothing is needed,
/// or, in a dry run, the count and the listing; an applying run prints nothing
/// yet.
pub open spec fn migration_preview_spec(ts: Seq<TransformView>, to_version: nat, apply: bool) -> Seq<Seq<char>> {
    if ts.len() == 0 {
        seq!["No migrations needed (all files at target schema_version "@ + crate::fmt::dec(to_version) + ")."@]
    } else if apply {
        seq![]
    } else {
        seq![
            "DRY RUN \u{2014} "@ + crate::fmt::dec(ts.len()) + " file(s) would be migrated to schema_version: "@
                + crate::fmt::dec(to_version),
            "(run with --apply to write changes)"@,
        ] + ts.map_values(|t: TransformView| dry_run_line(t))
    }
}

/// The lines `migrate` prints about the changes `ts` before writing.
pub fn migration_preview(ts: &Vec<Transform>, to_version: u32, apply: bool) -> (r: Vec<String>)
    ensures
        string_views(r@) == migration_preview_spec(
            ts@.map_values(|t: Transform| transform_view(t)),
            to_version as nat,
            apply,
        ),
{
    proof {
        reveal_strlit("No migrations needed (all files at target schema_version ");
        reveal_strlit(").");
        reveal_strlit("DRY RUN \u{2014} ");
        reveal_strlit(" file(s) would be migrated to schema_version: ");
        reveal_strlit("(run with --apply to write changes)");
        reveal_strlit("  [scaffold] ");
        reveal_strlit("  \u{2192}  schema_version: 1, title: \"");
        reveal_strlit("\"");
        reveal_strlit("  ");
    }
    let ghost tv = ts@.map_values(|t: Transform| transform_view(t));
    let mut out: Vec<String> = Vec::new();
    if ts.len() == 0 {
        let mut s = "No migrations needed (all files at target schema_version ".to_owned();
        crate::fmt::push_decimal_u64(&mut s, to_version as u64);
        s.append(").");
        out.push(s);
        assert(string_views(out@) =~= migration_preview_spec(tv, to_version as nat, apply));
        return out;
    }
    if apply {
        assert(string_views(out@) =~= migration_preview_spec(tv, to_version as nat, apply));
        return out;
    }
    let mut head = "DRY RUN \u{2014} ".to_owned();
    crate::fmt::push_decimal(&mut head, ts.len());
    head.append(" file(s) would be migrated to schema_version: ");
    crate::fmt::push_decimal_u64(&mut head, to_version as u64);
    out.push(head);
    out.push("(run with --apply to write changes)".to_owned());
    let ghost start = string_views(out@);
    let mut i: usize = 0;
    while i < ts.len()
        invariant
            tv == ts@.map_values(|t: Transform| transform_view(t)),
            i <= ts@.len(),
            string_views(out@) == start + tv.take(i as int).map_values(|t: TransformView| dry_run_line(t)),
        decreases ts@.len() - i,
    {
        let t = &ts[i];
        let line = match &t.inferred_title {
            Some(title) => {
                let mut s = "  [scaffold] ".to_owned();
                s.append(t.path.as_str());
                s.append("  \u{2192}  schema_version: 1, title: \"");
                s.append(title.as_str());
                s.append("\"");
                s
            },
            None => {
                let mut s = "  ".to_owned();
                s.append(t.path.as_str());
                s
            },
        };
        assert(line@ == dry_run_line(tv[i as int]));
        let ghost before = string_views(out@);
        out.push(line);
        assert(tv.take(i + 1).map_values(|t: TransformView| dry_run_line(t)) =~= tv.take(i as int).map_values(
            |t: TransformView| dry_run_line(t),
        ).push(dry_run_line(tv[i as int])));
        assert(string_views(out@) =~= before.push(line@));
        i = i + 1;
    }
    assert(tv.take(i as int) =~= tv);
    assert(string_views(out@) =~= migration_preview_spec(tv, to_version as nat, apply));
    out
}

} // verus!
