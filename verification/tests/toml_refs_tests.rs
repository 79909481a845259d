use anchor::model::RefForm;
use anchor::toml_refs::{extract_toml_refs, toml_refs, TomlValue};

fn src() -> String {
    "test/config.toml".to_string()
}

#[test]
fn test_extract_path_from_toml() {
    let content = "start_dir = \"$(anchor root)/foo/bar\"\n";
    let refs = extract_toml_refs(content, &src());
    assert_eq!(refs.len(), 1);
    assert_eq!(refs[0].target_raw, "$(anchor root)/foo/bar");
    assert_eq!(refs[0].form, RefForm::Toml);
    assert_eq!(refs[0].source_file, src());
}

#[test]
fn test_skip_non_path_toml_values() {
    let content = "version = \"1\"\n\
description = \"batch-move\"\n\
\n\
[[ops]]\n\
type = \"move\"\n\
src = \"anchor-foundation\"\n\
dst = \"foundations/anchor-engine\"\n";
    let refs = extract_toml_refs(content, &src());
    assert!(refs.is_empty(), "non-path TOML values must produce no refs; got: {refs:?}");
}

#[test]
fn test_toml_nested_path() {
    let content = "[section]\n\
[section.subsection]\n\
target = \"$(anchor root)/some/nested/file.md\"\n";
    let refs = extract_toml_refs(content, &src());
    assert_eq!(refs.len(), 1);
    assert_eq!(refs[0].target_raw, "$(anchor root)/some/nested/file.md");
    assert_eq!(refs[0].form, RefForm::Toml);
}

#[test]
fn toml_refs_span_points_at_first_occurrence() {
    let content = "a = \"x\"\nb = \"$(anchor root)/p.md\"\n";
    let value = TomlValue::Table(vec![
        ("a".to_string(), TomlValue::Str("x".to_string())),
        ("b".to_string(), TomlValue::Str("$(anchor root)/p.md".to_string())),
    ]);
    let refs = toml_refs(&value, &src(), content);
    assert_eq!(refs.len(), 1);
    assert_eq!(refs[0].span, (13, 32));
    assert_eq!(&content[13..32], "$(anchor root)/p.md");
}

#[test]
fn toml_refs_walks_arrays_in_order() {
    let value = TomlValue::Array(vec![
        TomlValue::Str("$(anchor root)/b.md".to_string()),
        TomlValue::Other,
        TomlValue::Array(vec![TomlValue::Str("$(anchor root)/a.md".to_string())]),
    ]);
    let refs = toml_refs(&value, &src(), "");
    let targets: Vec<&str> = refs.iter().map(|r| r.target_raw.as_str()).collect();
    assert_eq!(targets, vec!["$(anchor root)/b.md", "$(anchor root)/a.md"]);
    assert_eq!(refs[0].span, (0, 0));
}

#[test]
fn malformed_toml_gives_no_references() {
    assert!(extract_toml_refs("a = = \"$(anchor root)/x\"", &src()).is_empty());
}
