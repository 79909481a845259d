//! The frontmatter rules read from `FRONTMATTER.schema.json`: base required
//! fields, property types and enums, per-type required fields, synonym
//! tables and the canonical key order.

use vstd::prelude::*;
use vstd::string::*;
use crate::doc_values::{json_get, json_lookup, json_string_array, string_items, JsonValue};
use crate::text::{str_eq, string_views};

verus! {

broadcast use vstd::seq::group_seq_axioms;

/// A property's declared type and allowed values.
#[derive(Debug)]
pub struct PropDef {
    pub json_type: Option<String>,
    pub enum_values: Option<Vec<String>>,
}

/// The rules all frontmatter commands apply.
#[derive(Debug)]
pub struct SchemaRules {
    /// Fields every file needs.
    pub base_required: Vec<String>,
    /// Per-property rules, in the schema's order.
    pub properties: Vec<(String, PropDef)>,
    /// Per-type additional required fields; type names are distinct.
    pub type_conditionals: Vec<(String, Vec<String>)>,
    /// Synonym tables per field: (synonym, canonical) pairs.
    pub synonyms: Vec<(String, Vec<(String, String)>)>,
    /// The order keys are written in.
    pub canonical_key_order: Vec<String>,
}

pub open spec fn opt_str_view(o: Option<String>) -> Option<Seq<char>> {
    match o {
        Some(s) => Some(s@),
        None => None,
    }
}

pub open spec fn opt_strs_view(o: Option<Vec<String>>) -> Option<Seq<Seq<char>>> {
    match o {
        Some(v) => Some(string_views(v@)),
        None => None,
    }
}

/// A property's rules as plain values.
pub type PropView = (Option<Seq<char>>, Option<Seq<Seq<char>>>);

pub open spec fn prop_def_view(p: PropDef) -> PropView {
    (opt_str_view(p.json_type), opt_strs_view(p.enum_values))
}

pub open spec fn props_view(v: Seq<(String, PropDef)>) -> Seq<(Seq<char>, PropView)> {
    v.map_values(|e: (String, PropDef)| (e.0@, prop_def_view(e.1)))
}

pub open spec fn conds_view(v: Seq<(String, Vec<String>)>) -> Seq<(Seq<char>, Seq<Seq<char>>)> {
    v.map_values(|e: (String, Vec<String>)| (e.0@, string_views(e.1@)))
}

pub open spec fn pairs_view(v: Seq<(String, String)>) -> Seq<(Seq<char>, Seq<char>)> {
    v.map_values(|e: (String, String)| (e.0@, e.1@))
}

pub open spec fn syn_view(v: Seq<(String, Vec<(String, String)>)>) -> Seq<(Seq<char>, Seq<(Seq<char>, Seq<char>)>)> {
    v.map_values(|e: (String, Vec<(String, String)>)| (e.0@, pairs_view(e.1@)))
}

/// The string of a JSON value, if it is one.
pub open spec fn json_str(v: JsonValue) -> Option<Seq<char>> {
    match v {
        JsonValue::Str(s) => Some(s@),
        _ => None,
    }
}

/// The strings of the array under `key`, or none.
pub open spec fn string_array_field(v: JsonValue, key: Seq<char>) -> Seq<Seq<char>> {
    match json_get(v, key) {
        Some(x) => match json_string_array(x) {
            Some(s) => s,
            None => seq![],
        },
        None => seq![],
    }
}

/// Follow the member names `keys` from `v`, as `serde_json::Value::pointer` does for them.
pub open spec fn json_path(v: JsonValue, keys: Seq<Seq<char>>) -> Option<JsonValue>
    decreases keys.len(),
{
    if keys.len() == 0 {
        Some(v)
    } else {
        match json_get(v, keys[0]) {
            Some(x) => json_path(x, keys.drop_first()),
            None => None,
        }
    }
}

pub open spec fn prop_view_of(prop: JsonValue) -> PropView {
    (
        match json_get(prop, "type"@) {
            Some(t) => json_str(t),
            None => None,
        },
        match json_get(prop, "enum"@) {
            Some(e) => json_string_array(e),
            None => None,
        },
    )
}

pub open spec fn prop_entry_view(e: (String, JsonValue)) -> (Seq<char>, PropView) {
    (e.0@, prop_view_of(e.1))
}

pub open spec fn properties_spec(schema: JsonValue) -> Seq<(Seq<char>, PropView)> {
    match json_get(schema, "properties"@) {
        Some(JsonValue::Object(es)) => es@.map_values(|e: (String, JsonValue)| prop_entry_view(e)),
        _ => seq![],
    }
}

/// The index of the first entry of `m` under `k` from `i` on (or `m.len()`).
pub open spec fn key_index<V>(m: Seq<(Seq<char>, V)>, k: Seq<char>, i: int) -> int
    decreases m.len() - i,
{
    if i < 0 || i >= m.len() {
        m.len() as int
    } else if m[i].0 == k {
        i
    } else {
        key_index(m, k, i + 1)
    }
}

pub proof fn lemma_key_index<V>(m: Seq<(Seq<char>, V)>, k: Seq<char>, i: int)
    requires
        0 <= i <= m.len(),
    ensures
        i <= key_index(m, k, i) <= m.len(),
        key_index(m, k, i) < m.len() ==> m[key_index(m, k, i)].0 == k,
    decreases m.len() - i,
{
    if i < m.len() && m[i].0 != k {
        lemma_key_index(m, k, i + 1);
    }
}

/// Insert `k -> v`, replacing the value of an existing `k` in place.
pub open spec fn upsert<V>(m: Seq<(Seq<char>, V)>, k: Seq<char>, v: V) -> Seq<(Seq<char>, V)> {
    let i = key_index(m, k, 0);
    if 0 <= i < m.len() {
        m.update(i, (k, v))
    } else {
        m.push((k, v))
    }
}

/// The type name and required fields of one `allOf` entry, when it has both.
pub open spec fn conditional_of(entry: JsonValue) -> Option<(Seq<char>, Seq<Seq<char>>)> {
    match (
        json_path(entry, seq!["if"@, "properties"@, "type"@, "const"@]),
        json_path(entry, seq!["then"@, "required"@]),
    ) {
        (Some(t), Some(r)) => match (json_str(t), json_string_array(r)) {
            (Some(ts), Some(rs)) => Some((ts, rs)),
            _ => None,
        },
        _ => None,
    }
}

pub open spec fn conditionals_from(entries: Seq<JsonValue>) -> Seq<(Seq<char>, Seq<Seq<char>>)>
    decreases entries.len(),
{
    if entries.len() == 0 {
        seq![]
    } else {
        let prev = conditionals_from(entries.drop_last());
        match conditional_of(entries.last()) {
            Some((t, rs)) => upsert(prev, t, rs),
            None => prev,
        }
    }
}

/// The per-type required fields of the schema's `allOf` entries; a later
/// entry for the same type replaces an earlier one.
pub open spec fn type_conditionals_spec(schema: JsonValue) -> Seq<(Seq<char>, Seq<Seq<char>>)> {
    match json_get(schema, "allOf"@) {
        Some(JsonValue::Array(items)) => conditionals_from(items@),
        _ => seq![],
    }
}

pub open spec fn string_pairs(es: Seq<(String, JsonValue)>) -> Seq<(Seq<char>, Seq<char>)>
    decreases es.len(),
{
    if es.len() == 0 {
        seq![]
    } else {
        let prev = string_pairs(es.drop_last());
        match es.last().1 {
            JsonValue::Str(c) => prev.push((es.last().0@, c@)),
            _ => prev,
        }
    }
}

pub open spec fn synonym_tables(es: Seq<(String, JsonValue)>) -> Seq<(Seq<char>, Seq<(Seq<char>, Seq<char>)>)>
    decreases es.len(),
{
    if es.len() == 0 {
        seq![]
    } else {
        let prev = synonym_tables(es.drop_last());
        match es.last().1 {
            JsonValue::Object(inner) => prev.push((es.last().0@, string_pairs(inner@))),
            _ => prev,
        }
    }
}

/// The `x-synonyms` tables: for each field whose entry is an object, its
/// string-valued (synonym, canonical) pairs.
pub open spec fn synonyms_spec(schema: JsonValue) -> Seq<(Seq<char>, Seq<(Seq<char>, Seq<char>)>)> {
    match json_get(schema, "x-synonyms"@) {
        Some(JsonValue::Object(es)) => synonym_tables(es@),
        _ => seq![],
    }
}

fn string_array_of(v: &JsonValue, key: &str) -> (r: Vec<String>)
    ensures
        string_views(r@) == string_array_field(*v, key@),
{
    match json_lookup(v, key) {
        Some(x) => match string_items(x) {
            Some(s) => s,
            None => Vec::new(),
        },
        None => Vec::new(),
    }
}

fn str_of(v: &JsonValue) -> (r: Option<String>)
    ensures
        opt_str_view(r) == json_str(*v),
{
    match v {
        JsonValue::Str(s) => Some(s.clone()),
        _ => None,
    }
}

fn prop_def_of(prop: &JsonValue) -> (r: PropDef)
    ensures
        prop_def_view(r) == prop_view_of(*prop),
{
    proof {
        reveal_strlit("type");
        reveal_strlit("enum");
    }
    let json_type = match json_lookup(prop, "type") {
        Some(t) => str_of(t),
        None => None,
    };
    let enum_values = match json_lookup(prop, "enum") {
        Some(e) => string_items(e),
        None => None,
    };
    PropDef { json_type, enum_values }
}

fn properties_of(schema: &JsonValue) -> (r: Vec<(String, PropDef)>)
    ensures
        props_view(r@) == properties_spec(*schema),
{
    let mut out: Vec<(String, PropDef)> = Vec::new();
    match json_lookup(schema, "properties") {
        Some(JsonValue::Object(es)) => {
            let mut i: usize = 0;
            while i < es.len()
                invariant
                    i <= es@.len(),
                    props_view(out@) == es@.take(i as int).map_values(|e: (String, JsonValue)| prop_entry_view(e)),
                decreases es@.len() - i,
            {
                let ghost before = props_view(out@);
                let name = es[i].0.clone();
                assert(name@ == es@[i as int].0@);
                let pd = prop_def_of(&es[i].1);
                out.push((name, pd));
                assert(props_view(out@) =~= before.push(prop_entry_view(es@[i as int])));
                assert(es@.take(i + 1).map_values(|e: (String, JsonValue)| prop_entry_view(e)) =~= es@.take(
                    i as int,
                ).map_values(|e: (String, JsonValue)| prop_entry_view(e)).push(prop_entry_view(es@[i as int])));
                i = i + 1;
            }
            assert(es@.take(i as int) =~= es@);
        },
        _ => {},
    }
    proof {
        reveal_strlit("properties");
    }
    out
}

fn path_of<'a>(v: &'a JsonValue, a: &str, b: &str) -> (r: Option<&'a JsonValue>)
    ensures
        match r {
            Some(x) => json_path(*v, seq![a@, b@]) == Some(*x),
            None => json_path(*v, seq![a@, b@]) is None,
        },
{
    assert(seq![a@, b@].drop_first() =~= seq![b@]);
    assert(seq![b@].drop_first() =~= Seq::<Seq<char>>::empty());
    proof {
        reveal_with_fuel(json_path, 3);
    }
    match json_lookup(v, a) {
        Some(x) => json_lookup(x, b),
        None => None,
    }
}

fn conditional_entry(entry: &JsonValue) -> (r: Option<(String, Vec<String>)>)
    ensures
        match r {
            Some((t, rs)) => conditional_of(*entry) == Some((t@, string_views(rs@))),
            None => conditional_of(*entry) is None,
        },
{
    proof {
        reveal_strlit("if");
        reveal_strlit("properties");
        reveal_strlit("type");
        reveal_strlit("const");
        reveal_strlit("then");
        reveal_strlit("required");
    }
    let ghost keys = seq!["if"@, "properties"@, "type"@, "const"@];
    assert(keys.drop_first().drop_first() =~= seq!["type"@, "const"@]);
    let t = match path_of(entry, "if", "properties") {
        Some(x) => path_of(x, "type", "const"),
        None => None,
    };
    proof {
        reveal_with_fuel(json_path, 5);
        assert(keys.drop_first() =~= seq!["properties"@, "type"@, "const"@]);
        assert(seq!["properties"@, "type"@, "const"@].drop_first() =~= seq!["type"@, "const"@]);
        assert(seq!["if"@, "properties"@].drop_first() =~= seq!["properties"@]);
        assert(seq!["properties"@].drop_first() =~= Seq::<Seq<char>>::empty());
    }
    let r = path_of(entry, "then", "required");
    match (t, r) {
        (Some(tv), Some(rv)) => match (str_of(tv), string_items(rv)) {
            (Some(ts), Some(rs)) => Some((ts, rs)),
            _ => None,
        },
        _ => None,
    }
}

fn upsert_exec(m: &mut Vec<(String, Vec<String>)>, k: String, v: Vec<String>)
    ensures
        conds_view(final(m)@) == upsert(conds_view(old(m)@), k@, string_views(v@)),
{
    let ghost mv = conds_view(m@);
    let mut i: usize = 0;
    while i < m.len()
        invariant
            mv == conds_view(m@),
            mv == conds_view(old(m)@),
            i <= m@.len(),
            key_index(mv, k@, i as int) == key_index(mv, k@, 0),
        decreases m@.len() - i,
    {
        if str_eq(m[i].0.as_str(), k.as_str()) {
            assert(mv[i as int].0 == k@);
            assert(key_index(mv, k@, i as int) == i);
            let ghost kv = k@;
            let ghost vv = string_views(v@);
            m.set(i, (k, v));
            assert(conds_view(m@) =~= mv.update(i as int, (kv, vv)));
            assert(upsert(mv, kv, vv) == mv.update(i as int, (kv, vv)));
            return;
        }
        i = i + 1;
    }
    assert(key_index(mv, k@, i as int) == mv.len());
    m.push((k, v));
    assert(conds_view(m@) =~= mv.push((k@, string_views(v@))));
}

fn type_conditionals_of(schema: &JsonValue) -> (r: Vec<(String, Vec<String>)>)
    ensures
        conds_view(r@) == type_conditionals_spec(*schema),
{
    proof {
        reveal_strlit("allOf");
    }
    let mut out: Vec<(String, Vec<String>)> = Vec::new();
    match json_lookup(schema, "allOf") {
        Some(JsonValue::Array(items)) => {
            let mut i: usize = 0;
            while i < items.len()
                invariant
                    i <= items@.len(),
                    conds_view(out@) == conditionals_from(items@.take(i as int)),
                decreases items@.len() - i,
            {
                assert(items@.take(i + 1).drop_last() =~= items@.take(i as int));
                match conditional_entry(&items[i]) {
                    Some((t, rs)) => upsert_exec(&mut out, t, rs),
                    None => {},
                }
                i = i + 1;
            }
            assert(items@.take(i as int) =~= items@);
        },
        _ => {},
    }
    out
}

fn string_pairs_of(es: &Vec<(String, JsonValue)>) -> (r: Vec<(String, String)>)
    ensures
        pairs_view(r@) == string_pairs(es@),
{
    let mut out: Vec<(String, String)> = Vec::new();
    let mut i: usize = 0;
    while i < es.len()
        invariant
            i <= es@.len(),
            pairs_view(out@) == string_pairs(es@.take(i as int)),
        decreases es@.len() - i,
    {
        assert(es@.take(i + 1).drop_last() =~= es@.take(i as int));
        match &es[i].1 {
            JsonValue::Str(c) => {
                let ghost before = pairs_view(out@);
                let name = es[i].0.clone();
                out.push((name, c.clone()));
                assert(pairs_view(out@) =~= before.push((es@[i as int].0@, c@)));
            },
            _ => {},
        }
        i = i + 1;
    }
    assert(es@.take(i as int) =~= es@);
    out
}

fn synonyms_of(schema: &JsonValue) -> (r: Vec<(String, Vec<(String, String)>)>)
    ensures
        syn_view(r@) == synonyms_spec(*schema),
{
    proof {
        reveal_strlit("x-synonyms");
    }
    let mut out: Vec<(String, Vec<(String, String)>)> = Vec::new();
    match json_lookup(schema, "x-synonyms") {
        Some(JsonValue::Object(es)) => {
            let mut i: usize = 0;
            while i < es.len()
                invariant
                    i <= es@.len(),
                    syn_view(out@) == synonym_tables(es@.take(i as int)),
                decreases es@.len() - i,
            {
                assert(es@.take(i + 1).drop_last() =~= es@.take(i as int));
                match &es[i].1 {
                    JsonValue::Object(inner) => {
                        let ghost before = syn_view(out@);
                        let name = es[i].0.clone();
                        let pairs = string_pairs_of(inner);
                        out.push((name, pairs));
                        assert(syn_view(out@) =~= before.push((es@[i as int].0@, string_pairs(inner@))));
                    },
                    _ => {},
                }
                i = i + 1;
            }
            assert(es@.take(i as int) =~= es@);
        },
        _ => {},
    }
    out
}

impl SchemaRules {
    /// The rules of a parsed schema document.
    pub fn from_json(schema: &JsonValue) -> (r: SchemaRules)
        ensures
            string_views(r.base_required@) == string_array_field(*schema, "required"@),
            props_view(r.properties@) == properties_spec(*schema),
            conds_view(r.type_conditionals@) == type_conditionals_spec(*schema),
            syn_view(r.synonyms@) == synonyms_spec(*schema),
            string_views(r.canonical_key_order@) == string_array_field(*schema, "x-canonical-key-order"@),
    {
        SchemaRules {
            base_required: string_array_of(schema, "required"),
            properties: properties_of(schema),
            type_conditionals: type_conditionals_of(schema),
            synonyms: synonyms_of(schema),
            canonical_key_order: string_array_of(schema, "x-canonical-key-order"),
        }
    }
}

/// The additional required fields for files of type `t`.
pub open spec fn conditional_for(conds: Seq<(Seq<char>, Seq<Seq<char>>)>, t: Seq<char>) -> Option<Seq<Seq<char>>> {
    let i = key_index(conds, t, 0);
    if 0 <= i < conds.len() {
        Some(conds[i].1)
    } else {
        None
    }
}

/// Look up the additional required fields of type `t`.
pub fn lookup_conditional<'a>(rules: &'a SchemaRules, t: &str) -> (r: Option<&'a Vec<String>>)
    ensures
        match r {
            Some(v) => conditional_for(conds_view(rules.type_conditionals@), t@) == Some(string_views(v@)),
            None => conditional_for(conds_view(rules.type_conditionals@), t@) is None,
        },
{
    let ghost cv = conds_view(rules.type_conditionals@);
    let mut i: usize = 0;
    while i < rules.type_conditionals.len()
        invariant
            cv == conds_view(rules.type_conditionals@),
            i <= rules.type_conditionals@.len(),
            key_index(cv, t@, i as int) == key_index(cv, t@, 0),
        decreases rules.type_conditionals@.len() - i,
    {
        if str_eq(rules.type_conditionals[i].0.as_str(), t) {
            assert(cv[i as int].0 == t@);
            assert(key_index(cv, t@, i as int) == i);
            return Some(&rules.type_conditionals[i].1);
        }
        i = i + 1;
    }
    assert(key_index(cv, t@, i as int) == cv.len());
    None
}

impl SchemaRules {
    /// The rules of a schema file whose text is `content`; an error when the
    /// text is not valid JSON.
    pub fn load(content: &str) -> (r: Result<SchemaRules, String>)
        ensures
            match r {
                Ok(rules) => match crate::doc_values::json_parsed(content@) {
                    Ok(schema) => {
                        &&& string_views(rules.base_required@) == string_array_field(schema, "required"@)
                        &&& props_view(rules.properties@) == properties_spec(schema)
                        &&& conds_view(rules.type_conditionals@) == type_conditionals_spec(schema)
                        &&& syn_view(rules.synonyms@) == synonyms_spec(schema)
                        &&& string_views(rules.canonical_key_order@) == string_array_field(
                            schema,
                            "x-canonical-key-order"@,
                        )
                    },
                    Err(_) => false,
                },
                Err(e) => match crate::doc_values::json_parsed(content@) {
                    Ok(_) => false,
                    Err(m) => e@ == "invalid JSON in schema: "@ + m,
                },
            },
    {
        match crate::doc_values::json_parse(content) {
            Ok(schema) => Ok(SchemaRules::from_json(&schema)),
            Err(m) => {
                proof {
                    reveal_strlit("invalid JSON in schema: ");
                }
                let mut e = "invalid JSON in schema: ".to_owned();
                e.append(m.as_str());
                Err(e)
            },
        }
    }
}

} // verus!
