use anchor::fm_audit::value_matches_type;
use anchor::doc_values::{get_i64, get_str, has_key, yaml_lookup, YamlValue};
use anchor::fm_fill::{compute_migration, InferenceRule, InferenceRules};
use anchor::model::RefForm;
use anchor::yaml_refs::{extract_frontmatter, extract_yaml_refs};
use anchor::frontmatter::parse_file;
use anchor::fm_schema::SchemaRules;
use anchor::fm_check::run_check;

/// A parsed YAML document as the library holds it.
fn to_doc(v: &serde_yaml::Value) -> YamlValue {
    match v {
        serde_yaml::Value::Null => YamlValue::Null,
        serde_yaml::Value::Bool(b) => YamlValue::Bool(*b),
        serde_yaml::Value::Number(n) => YamlValue::Number(n.to_string(), n.as_i64()),
        serde_yaml::Value::String(s) => YamlValue::Str(s.clone()),
        serde_yaml::Value::Sequence(items) => YamlValue::Sequence(items.iter().map(to_doc).collect()),
        serde_yaml::Value::Mapping(m) => YamlValue::Mapping(m.iter().map(|(k, v)| (to_doc(k), to_doc(v))).collect()),
        serde_yaml::Value::Tagged(t) => YamlValue::Tagged(t.tag.to_string(), Box::new(to_doc(&t.value))),
    }
}

fn yaml(text: &str) -> YamlValue {
    to_doc(&serde_yaml::from_str::<serde_yaml::Value>(text).unwrap())
}

fn rule(folder_prefix: &str, field: &str, strategy: &str, value: Option<&str>) -> InferenceRule {
    InferenceRule {
        folder_prefix: folder_prefix.to_string(),
        field: field.to_string(),
        strategy: strategy.to_string(),
        value: value.map(str::to_string),
    }
}

fn rules(vec: Vec<InferenceRule>) -> InferenceRules {
    InferenceRules { rules: vec }
}

fn empty_fm() -> YamlValue {
    yaml("{}")
}

fn fm_with(field: &str, val: &str) -> YamlValue {
    yaml(&format!("{field}: {val}"))
}

#[test]
fn get_str_returns_value() {
    let fm = yaml("title: Hello");
    assert_eq!(get_str(&fm, "title"), Some("Hello"));
    assert_eq!(get_str(&fm, "missing"), None);
}

#[test]
fn has_key_present_and_absent() {
    let fm = yaml("title: Hi\ntype: gap");
    assert!(has_key(&fm, "title"));
    assert!(!has_key(&fm, "id"));
}

#[test]
fn reads_look_through_tags_and_keep_integers() {
    let fm = yaml("n: 3\nbig: 1.5\ntagged: !x hello");
    assert_eq!(get_i64(&fm, "n"), Some(3));
    assert_eq!(get_i64(&fm, "big"), None);
    assert_eq!(get_str(&fm, "tagged"), Some("hello"));
    assert!(yaml_lookup(&fm, "nothing").is_none());
    assert_eq!(get_str(&YamlValue::Null, "n"), None);
}

#[test]
fn stem_rule_fills_absent_field() {
    let r = rules(vec![rule("15-providers", "provider", "stem", None)]);
    let result = r.apply(empty_fm(), "15-providers/mistral.md");
    assert_eq!(get_str(&result, "provider"), Some("mistral"));
}

#[test]
fn stem_rule_skips_present_field() {
    let r = rules(vec![rule("15-providers", "provider", "stem", None)]);
    let result = r.apply(fm_with("provider", "cohere"), "15-providers/mistral.md");
    assert_eq!(get_str(&result, "provider"), Some("cohere"));
}

#[test]
fn constant_rule_fills_absent_field() {
    let r = rules(vec![rule("31-evals", "pass_status", "constant", Some("NOT_RUN"))]);
    let result = r.apply(empty_fm(), "31-evals/eval-001.md");
    assert_eq!(get_str(&result, "pass_status"), Some("NOT_RUN"));
}

#[test]
fn no_match_folder_leaves_fm_unchanged() {
    let r = rules(vec![rule("15-providers", "provider", "stem", None)]);
    let result = r.apply(empty_fm(), "01-identity/overview.md");
    assert!(get_str(&result, "provider").is_none());
    assert!(!has_key(&result, "provider"));
}

#[test]
fn first_rule_for_a_field_wins() {
    let r = rules(vec![
        rule("15-providers", "provider", "constant", Some("first")),
        rule("15-providers", "provider", "constant", Some("second")),
    ]);
    let result = r.apply(empty_fm(), "15-providers/mistral.md");
    assert_eq!(get_str(&result, "provider"), Some("first"));
}

#[test]
fn existing_v0_frontmatter_migrates_not_scaffolded() {
    let raw_fm = "title: Test\ntype: gap\n";
    let fm = yaml(raw_fm);
    let result = compute_migration(raw_fm, &Some(fm), 1);
    assert!(result.is_some(), "v0 frontmatter should produce a migration");
    let new_fm = result.unwrap();
    assert!(new_fm.contains("schema_version: 1"), "new_fm: {new_fm}");
    assert!(!new_fm.contains("---"), "raw_fm should not contain delimiters; new_fm: {new_fm}");
}

#[test]
fn migrated_frontmatter_needs_no_second_migration() {
    let raw_fm = "schema_version: 1\ntitle: Test\n";
    assert_eq!(compute_migration(raw_fm, &Some(yaml(raw_fm)), 1), None);
    assert_eq!(compute_migration(raw_fm, &Some(yaml(raw_fm)), 2), None);
}

fn src() -> String {
    "test/source.md".to_string()
}

#[test]
fn test_extract_path_from_frontmatter() {
    let content = "---\nstart_dir: \"$(anchor root)/foo\"\n---\n# Body\n";
    let refs = extract_yaml_refs(content, &src());
    assert_eq!(refs.len(), 1);
    assert_eq!(refs[0].target_raw, "$(anchor root)/foo");
    assert_eq!(refs[0].form, RefForm::Yaml);
    assert_eq!(refs[0].source_file, src());
}

#[test]
fn test_skip_non_path_values() {
    let content = "---\nid: \"AP-001\"\ntitle: \"Some title\"\nstate: READY\n---\n";
    let refs = extract_yaml_refs(content, &src());
    assert!(refs.is_empty(), "non-path YAML values must not produce refs; got: {refs:?}");
}

#[test]
fn test_extract_nested_path() {
    let content = "---\noutput_artifacts:\n  - path: \"$(anchor root)/some/file.md\"\n    description: \"test artifact\"\n---\n# Body\n";
    let refs = extract_yaml_refs(content, &src());
    assert_eq!(refs.len(), 1);
    assert_eq!(refs[0].target_raw, "$(anchor root)/some/file.md");
}

#[test]
fn test_no_frontmatter() {
    let content = "# A plain Markdown file\n\nNo frontmatter here.\n";
    let refs = extract_yaml_refs(content, &src());
    assert!(refs.is_empty(), "files without frontmatter must return empty vec");
}

#[test]
fn frontmatter_text_is_between_the_delimiters() {
    assert_eq!(extract_frontmatter("---\na: 1\n---\nbody\n"), Some("a: 1".to_string()));
    assert_eq!(extract_frontmatter("---\r\na: 1\n...\n"), Some("a: 1".to_string()));
    assert_eq!(extract_frontmatter("no\n"), None);
    assert_eq!(extract_frontmatter("---\na: 1\n"), None);
}

#[test]
fn yaml_reference_span_points_at_the_string() {
    let content = "---\nstart_dir: \"$(anchor root)/foo\"\n---\n";
    let refs = extract_yaml_refs(content, &src());
    let (s, e) = refs[0].span;
    assert_eq!(&content[s..e], "$(anchor root)/foo");
}

#[test]
fn malformed_frontmatter_gives_no_references() {
    assert!(extract_yaml_refs("---\na: [\"$(anchor root)/x\"\n---\n", &src()).is_empty());
}

#[test]
fn parse_file_splits_and_parses() {
    let p = parse_file("a.md", "---\ntitle: Test\n---\n# Body\n");
    assert_eq!(p.path, "a.md");
    assert_eq!(p.raw_fm.as_deref(), Some("title: Test"));
    assert_eq!(p.body, "# Body\n");
    assert_eq!(get_str(p.frontmatter.as_ref().unwrap(), "title"), Some("Test"));
    let none = parse_file("b.md", "# Title\n");
    assert!(none.raw_fm.is_none() && none.frontmatter.is_none());
    assert_eq!(none.body, "# Title\n");
    let bad = parse_file("c.md", "---\na: [\n---\nbody\n");
    assert_eq!(bad.raw_fm.as_deref(), Some("a: ["));
    assert!(bad.frontmatter.is_none());
}

#[test]
fn schema_text_loads_or_reports_invalid_json() {
    let rules = SchemaRules::load("{\"required\": [\"title\", \"type\"], \"x-canonical-key-order\": [\"title\"]}").unwrap();
    assert_eq!(rules.base_required, vec!["title".to_string(), "type".to_string()]);
    assert_eq!(rules.canonical_key_order, vec!["title".to_string()]);
    let e = SchemaRules::load("{").unwrap_err();
    assert!(e.starts_with("invalid JSON in schema: "), "{e}");
}

#[test]
fn check_schema_text_reports_drift() {
    let e = run_check("", "not json").unwrap_err();
    assert!(e.starts_with("invalid JSON in schema: "), "{e}");
    let ok = run_check("", "{\"required\": []}").unwrap();
    assert!(ok.is_empty());
    let drift = run_check("", "{\"required\": [\"title\"]}").unwrap();
    assert_eq!(drift.len(), 1);
    assert_eq!(drift[0].rule, "BASE_REQUIRED");
}

#[test]
fn raw_frontmatter_is_written_between_delimiters() {
    assert_eq!(anchor::frontmatter::raw_file_text("a: 1", "body\n"), "---\na: 1\n---\nbody\n");
    assert_eq!(anchor::frontmatter::raw_file_text("a: 1\n", ""), "---\na: 1\n---\n");
}

#[test]
fn audit_of_raw_texts_flags_files_with_findings() {
    let schema = SchemaRules::load("{\"required\": [\"title\"]}").unwrap();
    let paths = vec!["a.md".to_string(), "b.md".to_string()];
    let clean = vec!["---\nschema_version: 1\ntitle: A\n---\n".to_string(), "---\nschema_version: 1\ntitle: B\n---\n".to_string()];
    let (results, any) = anchor::fm_audit::run_audit(&paths, &clean, &schema);
    assert_eq!(results.len(), 2);
    assert!(!any);
    let dirty = vec!["---\nschema_version: 1\ntitle: A\n---\n".to_string(), "# no frontmatter\n".to_string()];
    let (results, any) = anchor::fm_audit::run_audit(&paths, &dirty, &schema);
    assert!(any);
    assert!(results[0].1.is_empty());
    assert_eq!(results[1].1.len(), 1);
}

#[test]
fn migration_plan_migrates_scaffolds_and_skips() {
    let files = vec![
        ("a.md".to_string(), "---\ntitle: A\n---\nbody\n".to_string()),
        ("b.md".to_string(), "---\nschema_version: 1\n---\n".to_string()),
        ("my-notes.md".to_string(), "no heading\n".to_string()),
    ];
    let ts = anchor::fm_fill::migration_plan(&files, 1);
    assert_eq!(ts.len(), 2);
    assert_eq!(ts[0].path, "a.md");
    assert!(ts[0].new_raw_fm.contains("schema_version: 1"));
    assert_eq!(ts[0].body, "body\n");
    assert!(ts[0].inferred_title.is_none());
    assert_eq!(ts[1].path, "my-notes.md");
    assert_eq!(ts[1].inferred_title.as_deref(), Some("My Notes"));
    assert_eq!(ts[1].new_raw_fm, "schema_version: 1\ntitle: \"My Notes\"\n");
    assert!(anchor::fm_fill::migration_plan(&files, 2).is_empty());
    let lines = anchor::fm_fill::migration_preview(&ts, 1, false);
    assert_eq!(lines[0], "DRY RUN \u{2014} 2 file(s) would be migrated to schema_version: 1");
    assert_eq!(lines[2], "  a.md");
    assert_eq!(lines[3], "  [scaffold] my-notes.md  \u{2192}  schema_version: 1, title: \"My Notes\"");
    assert!(anchor::fm_fill::migration_preview(&ts, 1, true).is_empty());
    assert_eq!(
        anchor::fm_fill::migration_preview(&vec![], 1, false),
        vec!["No migrations needed (all files at target schema_version 1).".to_string()]
    );
}

#[test]
fn split_text_rebuilds_the_file() {
    for c in ["---\na: 1\n---\nbody\n", "---\na: 1\n---", "plain\n", "---\nno close\n"] {
        let (fm, body) = anchor::frontmatter::split_frontmatter(c);
        match fm {
            None => assert_eq!(body, c),
            Some(f) => {
                assert!(!f.contains("\n---\n"));
                assert!(c == format!("---\n{f}\n---\n{body}") || (body.is_empty() && c == format!("---\n{f}\n---")));
            }
        }
    }
}

#[test]
fn numbers_read_from_yaml_are_integers_only_when_they_fit() {

    let doc = anchor::frontmatter::parse_file("n.md", "---\na: 3\nb: 3.5\nc: 1e3\n---\n").frontmatter.unwrap();
    let a = yaml_lookup(&doc, "a").unwrap();
    let b = yaml_lookup(&doc, "b").unwrap();
    let c = yaml_lookup(&doc, "c").unwrap();
    assert!(value_matches_type(a, "integer"));
    assert!(!value_matches_type(b, "integer"));
    assert!(!value_matches_type(c, "integer"));
    assert_eq!(get_i64(&doc, "a"), Some(3));
    assert_eq!(get_i64(&doc, "b"), None);
}

#[test]
fn written_frontmatter_splits_back() {
    use_split_back();
}

fn use_split_back() {
    let text = anchor::frontmatter::raw_file_text("a: 1", "body\n");
    assert_eq!(anchor::frontmatter::split_frontmatter(&text), (Some("a: 1".to_string()), "body\n".to_string()));
    let text = anchor::frontmatter::raw_file_text("a: 1\n", "");
    assert_eq!(anchor::frontmatter::split_frontmatter(&text), (Some("a: 1".to_string()), String::new()));
    let text = anchor::frontmatter::raw_file_text("", "x");
    assert_eq!(anchor::frontmatter::split_frontmatter(&text), (Some(String::new()), "x".to_string()));
}
