use anchor::validator::{line_of, link_checks, validate_files, BrokenRef};

/// Validate `files` against a workspace whose existing files are `on_disk`.
fn validate(on_disk: &[&str], files: &[(String, String)]) -> Vec<BrokenRef> {
    let checks = link_checks(files);
    let exists: Vec<bool> = checks.iter().map(|c| on_disk.contains(&c.resolved.as_str())).collect();
    validate_files(&checks, &exists)
}

#[test]
fn test_all_valid_returns_empty() {
    let files = vec![("source.md".to_string(), "[link](target.md)\n".to_string())];
    let result = validate(&["target.md", "source.md"], &files);
    assert!(result.is_empty(), "expected no broken refs, got: {result:?}");
}

#[test]
fn test_broken_ref_reported() {
    let files = vec![("source.md".to_string(), "[missing](missing.md)\n".to_string())];
    let result = validate(&["source.md"], &files);
    assert_eq!(result.len(), 1, "expected one broken ref");
    assert_eq!(result[0].file, "source.md");
    assert_eq!(result[0].target, "missing.md");
    assert_eq!(result[0].line, 1);
}

#[test]
fn test_mixed_returns_only_broken() {
    let files = vec![("source.md".to_string(), "[ok](exists.md)\n[broken](ghost.md)\n".to_string())];
    let result = validate(&["exists.md", "source.md"], &files);
    assert_eq!(result.len(), 1);
    assert_eq!(result[0].target, "ghost.md");
    assert_eq!(result[0].line, 2);
}

#[test]
fn test_line_number_accuracy() {
    let files = vec![(
        "doc.md".to_string(),
        "# Header\n\nSome text.\n[broken](missing.md)\nmore text.\n".to_string(),
    )];
    let result = validate(&["doc.md"], &files);
    assert_eq!(result.len(), 1);
    assert_eq!(result[0].line, 4, "broken ref is on line 4");
}

#[test]
fn links_resolve_relative_to_the_source_folder() {
    let files = vec![("docs/a.md".to_string(), "[b](b.md) [up](../c.md)\n".to_string())];
    let checks = link_checks(&files);
    let resolved: Vec<&str> = checks.iter().map(|c| c.resolved.as_str()).collect();
    assert_eq!(resolved, vec!["docs/b.md", "c.md"]);
}

#[test]
fn line_numbers_count_newlines_before_the_offset() {
    assert_eq!(line_of("a\nb\nc", 0), 1);
    assert_eq!(line_of("a\nb\nc", 2), 2);
    assert_eq!(line_of("a\nb\nc", 4), 3);
    assert_eq!(line_of("a\nb\nc", 100), 3);
}
