use anchor::acked::AckedPatterns;
use anchor::acked::{parse_ref_line, AckedRefs};

#[test]
fn test_parse_ref_line_valid() {
    assert_eq!(
        parse_ref_line("foundations/engine.md:42"),
        Some(("foundations/engine.md".to_string(), 42))
    );
}

#[test]
fn test_parse_ref_line_comment_skipped() {
    assert_eq!(parse_ref_line("# comment"), None);
}

#[test]
fn test_parse_ref_line_gitignore_pattern_skipped() {
    // gitignore-style pattern — no numeric suffix
    assert_eq!(parse_ref_line("my-workspace/projects/archive/"), None);
}

#[test]
fn test_parse_ref_line_empty_skipped() {
    assert_eq!(parse_ref_line(""), None);
    assert_eq!(parse_ref_line("   "), None);
}

#[test]
fn test_parse_ref_line_no_file_skipped() {
    assert_eq!(parse_ref_line(":42"), None);
}

#[test]
fn test_add_and_contains() {
    let mut acked = AckedRefs::empty();
    assert!(!acked.contains("file.md", 1));
    acked.add("file.md", 1);
    assert!(acked.contains("file.md", 1));
    assert!(!acked.contains("file.md", 2));
    assert!(!acked.contains("other.md", 1));
}

#[test]
fn test_absent_returns_false() {
    let acked = AckedPatterns::absent("/ws");
    assert!(!acked.is_acked("my-workspace/projects/archive/foo.md"));
    assert!(!acked.is_acked("any/path.md"));
}

#[test]
fn test_matching_pattern_returns_true() {
    let acked = AckedPatterns::from_content("/ws", "my-workspace/projects/archive/\n");
    assert!(acked.is_acked("my-workspace/projects/archive/old-contract.md"));
}

#[test]
fn test_non_matching_pattern_returns_false() {
    let acked = AckedPatterns::from_content("/ws", "my-workspace/projects/archive/\n");
    assert!(!acked.is_acked("my-workspace/projects/active/current.md"));
}

#[test]
fn test_multiple_patterns() {
    let acked = AckedPatterns::from_content("/ws", "my-workspace/projects/archive/\nother-repo/\n");
    assert!(acked.is_acked("my-workspace/projects/archive/foo.md"));
    assert!(acked.is_acked("other-repo/design/old.md"));
    assert!(!acked.is_acked("my-workspace/active/current.md"));
}

#[test]
fn test_empty_file_no_patterns() {
    let acked = AckedPatterns::from_content("/ws", "");
    assert!(!acked.is_acked("any/path.md"));
}

#[test]
fn test_comments_only() {
    let acked = AckedPatterns::from_content("/ws", "# this is a comment\n# another comment\n");
    assert!(!acked.is_acked("any/path.md"));
}

#[test]
fn file_line_entries_are_no_patterns() {
    let acked = AckedPatterns::from_content("/ws", "docs/a.md:12\n");
    assert!(!acked.is_acked("docs/a.md"));
}

#[test]
fn absolute_paths_are_left_to_the_caller() {
    // relative paths under a directory pattern match; nested ones too
    let acked = AckedPatterns::from_content("/ws", "archive/\n");
    assert!(acked.is_acked("archive/deep/x.md"));
    assert!(!acked.is_acked(""));
}

#[test]
fn test_leading_byte_order_mark_is_ignored() {
    let acked = AckedPatterns::from_content("/ws", "\u{feff}my-workspace/projects/archive/\n");
    assert!(acked.is_acked("my-workspace/projects/archive/old-contract.md"));
}
