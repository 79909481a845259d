use anchor::diff::suggest_similar;

/// Close basename match → suggestion returned.
#[test]
fn test_suggest_similar_close_match() {
    let candidates = vec![
        "foundations/guide.md".to_string(),
        "unrelated/other.md".to_string(),
    ];
    // "guide.md" == "guide.md" → distance 0 → included
    let result = suggest_similar("foundtion/guide.md", &candidates);
    assert!(!result.is_empty(), "should find a close match");
    assert_eq!(result[0], "foundations/guide.md");
}

/// Completely unrelated name → no suggestions.
#[test]
fn test_suggest_similar_no_match() {
    let candidates = vec!["anchor-foundation/identity.md".to_string()];
    let result = suggest_similar("xyz123qwerty", &candidates);
    assert!(result.is_empty(), "unrelated name must return no suggestions");
}

/// Single-character typo in basename → suggestion returned.
#[test]
fn test_suggest_similar_single_typo() {
    let candidates = vec!["docs/status.md".to_string()];
    // "status.md" vs "statis.md" → distance 1 / 9 = 0.11 → included
    let result = suggest_similar("docs/statis.md", &candidates);
    assert!(!result.is_empty(), "single-char typo must be a match");
    assert_eq!(result[0], "docs/status.md");
}

/// Returns at most 1 result even with multiple close candidates.
#[test]
fn test_suggest_similar_capped_at_one() {
    let candidates = vec![
        "a/guide.md".to_string(),
        "b/guide.md".to_string(),
        "c/guide.md".to_string(),
    ];
    let result = suggest_similar("x/guide.md", &candidates);
    assert!(
        result.len() <= 1,
        "suggest_similar must return at most 1 result; got: {result:?}"
    );
}

/// Empty candidates list → empty result, no panic.
#[test]
fn test_suggest_similar_empty_candidates() {
    let result = suggest_similar("anything", &[]);
    assert!(result.is_empty());
}
