//! Parsed YAML frontmatter and JSON schema documents, as far as the
//! frontmatter commands read them.

use vstd::prelude::*;
use vstd::string::*;
use crate::text::str_eq;

verus! {

/// A YAML value. A number read from YAML is kept as its text with what
/// `as_i64` gives for it; an integer the library writes is an `Int`.
#[derive(Debug)]
pub enum YamlValue {
    Null,
    Bool(bool),
    Int(i64),
    /// A number as read: its text, and its value when it is an integer that fits `i64`.
    Number(String, Option<i64>),
    Str(String),
    Sequence(Vec<YamlValue>),
    /// Entries in document order; keys are distinct.
    Mapping(Vec<(YamlValue, YamlValue)>),
    /// A value carrying a `!tag` (the tag's text); reads look through it.
    Tagged(String, Box<YamlValue>),
}

/// The value under its tags.
pub open spec fn untag(v: YamlValue) -> YamlValue
    decreases v,
{
    match v {
        YamlValue::Tagged(_, b) => untag(*b),
        _ => v,
    }
}

/// Look through the tags of a value.
pub fn untag_ref(v: &YamlValue) -> (r: &YamlValue)
    ensures
        *r == untag(*v),
    decreases v,
{
    match v {
        YamlValue::Tagged(_, b) => untag_ref(b),
        _ => v,
    }
}

/// The key is the plain string `k`.
pub open spec fn yaml_key_is(key: YamlValue, k: Seq<char>) -> bool {
    match key {
        YamlValue::Str(s) => s@ == k,
        _ => false,
    }
}

/// The index of the first entry of `es` keyed by the string `k` (or `es.len()`).
pub open spec fn yaml_entry(es: Seq<(YamlValue, YamlValue)>, k: Seq<char>, i: int) -> int
    decreases es.len() - i,
{
    if i < 0 || i >= es.len() {
        es.len() as int
    } else if yaml_key_is(es[i].0, k) {
        i
    } else {
        yaml_entry(es, k, i + 1)
    }
}

/// `serde_yaml::Value::get(k)` for a string key: the mapping entry under `k`.
pub open spec fn yaml_get(v: YamlValue, k: Seq<char>) -> Option<YamlValue> {
    match untag(v) {
        YamlValue::Mapping(es) => {
            let i = yaml_entry(es@, k, 0);
            if 0 <= i < es@.len() {
                Some(es@[i].1)
            } else {
                None
            }
        },
        _ => None,
    }
}

pub proof fn lemma_yaml_entry(es: Seq<(YamlValue, YamlValue)>, k: Seq<char>, i: int)
    requires
        0 <= i <= es.len(),
    ensures
        i <= yaml_entry(es, k, i) <= es.len(),
        yaml_entry(es, k, i) < es.len() ==> yaml_key_is(es[yaml_entry(es, k, i)].0, k),
        forall|j: int| i <= j < yaml_entry(es, k, i) ==> !yaml_key_is(#[trigger] es[j].0, k),
    decreases es.len() - i,
{
    if i < es.len() && !yaml_key_is(es[i].0, k) {
        lemma_yaml_entry(es, k, i + 1);
    }
}

/// The index of the first entry under the plain string key `k` (or `es.len()`).
pub fn entry_index(es: &Vec<(YamlValue, YamlValue)>, k: &str) -> (r: usize)
    ensures
        r as int == yaml_entry(es@, k@, 0),
{
    proof {
        lemma_yaml_entry(es@, k@, 0);
    }
    let mut i: usize = 0;
    while i < es.len()
        invariant
            i <= es@.len(),
            yaml_entry(es@, k@, i as int) == yaml_entry(es@, k@, 0),
        decreases es@.len() - i,
    {
        if key_matches(&es[i].0, k) {
            assert(yaml_entry(es@, k@, i as int) == i);
            return i;
        }
        i = i + 1;
    }
    assert(yaml_entry(es@, k@, i as int) == es@.len());
    i
}

fn key_matches(key: &YamlValue, k: &str) -> (r: bool)
    ensures
        r == yaml_key_is(*key, k@),
{
    match key {
        YamlValue::Str(s) => str_eq(s.as_str(), k),
        _ => false,
    }
}

/// The entry of a mapping under the string key `k`.
pub fn yaml_lookup<'a>(v: &'a YamlValue, k: &str) -> (r: Option<&'a YamlValue>)
    ensures
        match r {
            Some(x) => yaml_get(*v, k@) == Some(*x),
            None => yaml_get(*v, k@) is None,
        },
{
    match untag_ref(v) {
        YamlValue::Mapping(es) => {
            let mut i: usize = 0;
            proof {
                lemma_yaml_entry(es@, k@, 0);
            }
            while i < es.len()
                invariant
                    untag(*v) == YamlValue::Mapping(*es),
                    i <= es@.len(),
                    yaml_entry(es@, k@, i as int) == yaml_entry(es@, k@, 0),
                decreases es@.len() - i,
            {
                if key_matches(&es[i].0, k) {
                    assert(yaml_entry(es@, k@, i as int) == i);
                    return Some(&es[i].1);
                }
                i = i + 1;
            }
            assert(yaml_entry(es@, k@, i as int) == es@.len());
            None
        },
        _ => None,
    }
}

/// `as_str` of a YAML value.
pub open spec fn yaml_str(v: YamlValue) -> Option<Seq<char>> {
    match untag(v) {
        YamlValue::Str(s) => Some(s@),
        _ => None,
    }
}

/// `as_i64` of a YAML value.
pub open spec fn yaml_i64(v: YamlValue) -> Option<i64> {
    match untag(v) {
        YamlValue::Int(n) => Some(n),
        YamlValue::Number(_, k) => k,
        _ => None,
    }
}

/// The string of a YAML value, if it is one.
pub fn yaml_as_str(v: &YamlValue) -> (r: Option<&str>)
    ensures
        match r {
            Some(s) => yaml_str(*v) == Some(s@),
            None => yaml_str(*v) is None,
        },
{
    match untag_ref(v) {
        YamlValue::Str(s) => Some(s.as_str()),
        _ => None,
    }
}

/// A string field of a frontmatter mapping.
pub fn get_str<'a>(fm: &'a YamlValue, key: &str) -> (r: Option<&'a str>)
    ensures
        match r {
            Some(s) => yaml_get(*fm, key@) is Some && yaml_str(yaml_get(*fm, key@).unwrap()) == Some(s@),
            None => yaml_get(*fm, key@) is None || yaml_str(yaml_get(*fm, key@).unwrap()) is None,
        },
{
    match yaml_lookup(fm, key) {
        Some(v) => yaml_as_str(v),
        None => None,
    }
}

/// An integer field of a frontmatter mapping.
pub fn get_i64(fm: &YamlValue, key: &str) -> (r: Option<i64>)
    ensures
        match yaml_get(*fm, key@) {
            Some(v) => r == yaml_i64(v),
            None => r is None,
        },
{
    match yaml_lookup(fm, key) {
        Some(v) => match untag_ref(v) {
            YamlValue::Int(n) => Some(*n),
            YamlValue::Number(_, k) => *k,
            _ => None,
        },
        None => None,
    }
}

/// Whether a frontmatter mapping has the key.
pub fn has_key(fm: &YamlValue, key: &str) -> (r: bool)
    ensures
        r == yaml_get(*fm, key@) is Some,
{
    yaml_lookup(fm, key).is_some()
}

/// A JSON value; numbers are not read, so they carry nothing.
#[derive(Debug)]
pub enum JsonValue {
    Null,
    Bool(bool),
    Number,
    Str(String),
    Array(Vec<JsonValue>),
    /// Members in the order the parser's map yields them; names are distinct.
    Object(Vec<(String, JsonValue)>),
}

/// The index of the first member of `es` named `k` (or `es.len()`).
pub open spec fn json_member(es: Seq<(String, JsonValue)>, k: Seq<char>, i: int) -> int
    decreases es.len() - i,
{
    if i < 0 || i >= es.len() {
        es.len() as int
    } else if es[i].0@ == k {
        i
    } else {
        json_member(es, k, i + 1)
    }
}

/// `serde_json::Value::get(k)`: the member named `k` of an object.
pub open spec fn json_get(v: JsonValue, k: Seq<char>) -> Option<JsonValue> {
    match v {
        JsonValue::Object(es) => {
            let i = json_member(es@, k, 0);
            if 0 <= i < es@.len() {
                Some(es@[i].1)
            } else {
                None
            }
        },
        _ => None,
    }
}

proof fn lemma_json_member(es: Seq<(String, JsonValue)>, k: Seq<char>, i: int)
    requires
        0 <= i <= es.len(),
    ensures
        i <= json_member(es, k, i) <= es.len(),
    decreases es.len() - i,
{
    if i < es.len() && es[i].0@ != k {
        lemma_json_member(es, k, i + 1);
    }
}

/// The member of an object named `k`.
pub fn json_lookup<'a>(v: &'a JsonValue, k: &str) -> (r: Option<&'a JsonValue>)
    ensures
        match r {
            Some(x) => json_get(*v, k@) == Some(*x),
            None => json_get(*v, k@) is None,
        },
{
    match v {
        JsonValue::Object(es) => {
            let mut i: usize = 0;
            proof {
                lemma_json_member(es@, k@, 0);
            }
            while i < es.len()
                invariant
                    *v == JsonValue::Object(*es),
                    i <= es@.len(),
                    json_member(es@, k@, i as int) == json_member(es@, k@, 0),
                decreases es@.len() - i,
            {
                if str_eq(es[i].0.as_str(), k) {
                    assert(json_member(es@, k@, i as int) == i);
                    return Some(&es[i].1);
                }
                i = i + 1;
            }
            assert(json_member(es@, k@, i as int) == es@.len());
            None
        },
        _ => None,
    }
}

/// The string members of an array, in order (non-strings skipped).
pub open spec fn json_strings(items: Seq<JsonValue>) -> Seq<Seq<char>>
    decreases items.len(),
{
    if items.len() == 0 {
        seq![]
    } else {
        let rest = json_strings(items.drop_last());
        match items.last() {
            JsonValue::Str(s) => rest.push(s@),
            _ => rest,
        }
    }
}

/// The strings of a JSON array value, if it is an array.
pub open spec fn json_string_array(v: JsonValue) -> Option<Seq<Seq<char>>> {
    match v {
        JsonValue::Array(items) => Some(json_strings(items@)),
        _ => None,
    }
}

/// The string items of an array value (`None` when it is not an array).
pub fn string_items(v: &JsonValue) -> (r: Option<Vec<String>>)
    ensures
        match r {
            Some(x) => json_string_array(*v) == Some(crate::text::string_views(x@)),
            None => json_string_array(*v) is None,
        },
{
    match v {
        JsonValue::Array(items) => {
            let mut out: Vec<String> = Vec::new();
            let mut i: usize = 0;
            while i < items.len()
                invariant
                    i <= items@.len(),
                    crate::text::string_views(out@) == json_strings(items@.take(i as int)),
                decreases items@.len() - i,
            {
                assert(items@.take(i + 1).drop_last() =~= items@.take(i as int));
                match &items[i] {
                    JsonValue::Str(s) => {
                        let ghost before = crate::text::string_views(out@);
                        out.push(s.clone());
                        assert(crate::text::string_views(out@) =~= before.push(s@));
                    },
                    _ => {},
                }
                i = i + 1;
            }
            assert(items@.take(i as int) =~= items@);
            Some(out)
        },
        _ => None,
    }
}

// ───────────────────────── parsing ─────────────────────────

#[verifier::external_type_specification]
#[verifier::external_body]
pub struct ExYamlValue(serde_yaml::Value);

#[verifier::external_type_specification]
#[verifier::external_body]
pub struct ExJsonValue(serde_json::Value);

/// What `serde_yaml::from_str::<serde_yaml::Value>` makes of `text`, as the
/// library holds it; `None` where the text is not valid YAML.
pub uninterp spec fn yaml_parsed(text: Seq<char>) -> Option<YamlValue>;

/// A `serde_yaml::Value` as the library holds it: a number as its text with
/// its `as_i64`, a tag as its text.
#[verifier::external_body]
fn yaml_value_of(v: &serde_yaml::Value) -> YamlValue {
    match v {
        serde_yaml::Value::Null => YamlValue::Null,
        serde_yaml::Value::Bool(b) => YamlValue::Bool(*b),
        serde_yaml::Value::Number(n) => YamlValue::Number(n.to_string(), n.as_i64()),
        serde_yaml::Value::String(s) => YamlValue::Str(s.clone()),
        serde_yaml::Value::Sequence(items) => YamlValue::Sequence(items.iter().map(yaml_value_of).collect()),
        serde_yaml::Value::Mapping(m) => YamlValue::Mapping(m.iter().map(|(k, x)| (yaml_value_of(k), yaml_value_of(x))).collect()),
        serde_yaml::Value::Tagged(t) => YamlValue::Tagged(t.tag.to_string(), Box::new(yaml_value_of(&t.value))),
    }
}

/// Parses `text` with `serde_yaml::from_str` into a `serde_yaml::Value`; the
/// result is named `yaml_parsed`.
#[verifier::external_body]
pub(crate) fn yaml_parse(text: &str) -> (r: Option<YamlValue>)
    ensures
        r == yaml_parsed(text@),
{
    serde_yaml::from_str::<serde_yaml::Value>(text).ok().map(|v| yaml_value_of(&v))
}

/// What `serde_json::from_str::<serde_json::Value>` makes of `text`, as the
/// library holds it, or the text of its error.
pub uninterp spec fn json_parsed(text: Seq<char>) -> Result<JsonValue, Seq<char>>;

/// A `serde_json::Value` as the library holds it; numbers carry nothing.
#[verifier::external_body]
fn json_value_of(v: &serde_json::Value) -> JsonValue {
    match v {
        serde_json::Value::Null => JsonValue::Null,
        serde_json::Value::Bool(b) => JsonValue::Bool(*b),
        serde_json::Value::Number(_) => JsonValue::Number,
        serde_json::Value::String(s) => JsonValue::Str(s.clone()),
        serde_json::Value::Array(items) => JsonValue::Array(items.iter().map(json_value_of).collect()),
        serde_json::Value::Object(m) => JsonValue::Object(m.iter().map(|(k, x)| (k.clone(), json_value_of(x))).collect()),
    }
}

/// Parses `text` with `serde_json::from_str` into a `serde_json::Value`; the
/// result, or the error's text, is named `json_parsed`.
#[verifier::external_body]
pub(crate) fn json_parse(text: &str) -> (r: Result<JsonValue, String>)
    ensures
        match r {
            Ok(v) => json_parsed(text@) == Ok::<JsonValue, Seq<char>>(v),
            Err(e) => json_parsed(text@) == Err::<JsonValue, Seq<char>>(e@),
        },
{
    serde_json::from_str::<serde_json::Value>(text).map(|v| json_value_of(&v)).map_err(|e| e.to_string())
}

} // verus!
