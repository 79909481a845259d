use anchor::frontmatter::{
    extract_backtick, insert_schema_version, parse_base_required_from_md, scaffold_frontmatter, split_frontmatter,
};

#[test]
fn split_no_frontmatter() {
    let (fm, body) = split_frontmatter("# Title\nBody\n");
    assert!(fm.is_none());
    assert_eq!(body, "# Title\nBody\n");
}

#[test]
fn split_valid_frontmatter() {
    let (fm, body) = split_frontmatter("---\ntitle: Test\n---\n# Body\n");
    assert_eq!(fm.as_deref(), Some("title: Test"));
    assert_eq!(body, "# Body\n");
}

#[test]
fn split_empty_body() {
    let (fm, body) = split_frontmatter("---\ntitle: Test\n---\n");
    assert_eq!(fm.as_deref(), Some("title: Test"));
    assert_eq!(body, "");
}

#[test]
fn split_horizontal_rule_in_body_not_confused() {
    let content = "---\ntitle: Test\n---\n# Body\n\n---\n\nMore\n";
    let (fm, body) = split_frontmatter(content);
    assert_eq!(fm.as_deref(), Some("title: Test"));
    assert!(
        body.contains("---"),
        "horizontal rule in body must be preserved"
    );
}

#[test]
fn insert_schema_version_at_end_when_no_anchor() {
    let raw = "title: Test\ntype: gap\n";
    let result = insert_schema_version(raw, 1);
    assert!(result.contains("schema_version: 1"), "result: {result}");
}

#[test]
fn insert_schema_version_after_updated() {
    let raw = "title: Test\nupdated: 2026-04-29\ntype: gap\n";
    let result = insert_schema_version(raw, 1);
    let lines: Vec<&str> = result.lines().collect();
    let updated_pos = lines
        .iter()
        .position(|l| l.starts_with("updated:"))
        .unwrap();
    let sv_pos = lines
        .iter()
        .position(|l| l.starts_with("schema_version:"))
        .unwrap();
    assert_eq!(
        sv_pos,
        updated_pos + 1,
        "schema_version should follow updated; lines: {lines:?}"
    );
}

#[test]
fn replace_existing_schema_version_zero() {
    let raw = "title: Test\nschema_version: 0\ntype: gap\n";
    let result = insert_schema_version(raw, 1);
    assert!(result.contains("schema_version: 1"), "result: {result}");
    assert!(
        !result.contains("schema_version: 0"),
        "old version must be replaced; result: {result}"
    );
}

#[test]
fn scaffold_frontmatter_heading_present() {
    let body = "# My Gap Document\n\nSome content here.\n";
    let result = scaffold_frontmatter("some-file.md", body);
    assert!(result.contains("schema_version: 1"), "result: {result}");
    assert!(
        result.contains("title: \"My Gap Document\""),
        "result: {result}"
    );
    assert!(
        !result.contains("---"),
        "raw_fm must not contain delimiters; result: {result}"
    );
}

#[test]
fn scaffold_frontmatter_no_heading_filename_fallback() {
    let body = "Some content without a heading.\n";
    let result = scaffold_frontmatter("my-gap-file.md", body);
    assert!(result.contains("schema_version: 1"), "result: {result}");
    assert!(
        result.contains("title: \"My Gap File\""),
        "result: {result}"
    );
}

#[test]
fn extract_backtick_valid() {
    assert_eq!(extract_backtick("`title`"), Some("title".to_string()));
    assert_eq!(extract_backtick("  `engine`  "), Some("engine".to_string()));
}

#[test]
fn extract_backtick_none_for_plain_text() {
    assert_eq!(extract_backtick("Field"), None);
}

#[test]
fn parse_base_required_extracts_fields() {
    let md = "## Base layer — required for every file\n\n\
| Field | Type | Values | Purpose |\n\
|-------|------|--------|--------|\n\
| `title` | string | text | Display |\n\
| `type` | enum | ... | Class |\n\
\n## Next section\n";
    let fields = parse_base_required_from_md(md);
    assert!(fields.contains(&"title".to_string()), "fields: {fields:?}");
    assert!(fields.contains(&"type".to_string()), "fields: {fields:?}");
}
