use anchor::post_apply_scan::{format_plain_text_warning, PlainTextHit};

/// Both lists empty → None.
#[test]
fn test_format_returns_none_when_both_empty() {
    let result = format_plain_text_warning(&[], &[], "os-council");
    assert!(result.is_none());
}

/// Full-path lines only → warning block with them only.
#[test]
fn test_format_full_path_lines_only() {
    let full = vec![("STATUS.md".to_string(), 3usize)];
    let result = format_plain_text_warning(&full, &[], "os-council").unwrap();
    assert!(result.contains("⚠ Plain-text occurrences"));
    assert!(result.contains("STATUS.md: 3 occurrence(s) of 'os-council'"));
    assert!(result.contains("anchor refs --plain os-council"));
}

/// Partial hits only → warning block.
#[test]
fn test_format_partial_hits_only() {
    let hits = vec![PlainTextHit {
        file: "docs/guide.md".to_string(),
        segment: "os-council".to_string(),
        count: 2,
    }];
    let result = format_plain_text_warning(&[], &hits, "os-council").unwrap();
    assert!(result.contains("docs/guide.md: 2 occurrence(s) of 'os-council'"));
}

/// Both full-path and partial hits → combined block.
#[test]
fn test_format_combined() {
    let full = vec![("a.md".to_string(), 1usize)];
    let partial = vec![PlainTextHit {
        file: "b.md".to_string(),
        segment: "os-council".to_string(),
        count: 4,
    }];
    let result = format_plain_text_warning(&full, &partial, "os-council").unwrap();
    assert!(result.contains("a.md: 1 occurrence(s) of 'os-council'"));
    assert!(result.contains("b.md: 4 occurrence(s) of 'os-council'"));
    assert!(result.contains("anchor refs --plain os-council"));
}
