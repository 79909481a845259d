use anchor::suggest::{format_suggestions, suggest_similar};

#[test]
fn test_exact_basename_match_always_included() {
    let result = suggest_similar("docs/design.md", &["docs/design.md".to_string()]);
    assert_eq!(result, vec!["docs/design.md"]);
}

#[test]
fn test_single_char_typo_included() {
    // Exit criterion 1: "anchor-foundtion" vs ["anchor-foundation/", "other.md"]
    // basename("anchor-foundation/") = "anchor-foundation"
    // levenshtein("anchor-foundtion", "anchor-foundation") = 1 → normalized 1/17 ≈ 0.06 ≤ 0.6
    // basename("other.md") = "other.md"
    // levenshtein("anchor-foundtion", "other.md") >> 0.6 → excluded
    let result = suggest_similar(
        "anchor-foundtion",
        &["anchor-foundation/".to_string(), "other.md".to_string()],
    );
    assert_eq!(result, vec!["anchor-foundation/"]);
}

#[test]
fn test_unrelated_name_excluded() {
    // Exit criterion 2: "xyz123qwe" vs ["anchor-foundation/"] → []
    let result = suggest_similar("xyz123qwe", &["anchor-foundation/".to_string()]);
    assert!(result.is_empty());
}

#[test]
fn test_top_3_of_5_close_candidates_returned() {
    // Exit criterion 3: 5 close candidates → exactly 3 returned
    // "desig.md" vs "design.md":  dist=1, max=9, normalized=0.11 ≤ 0.6
    // "desig.md" vs "design1.md": dist=2, max=10, normalized=0.20 ≤ 0.6
    // (same for design2..4)
    let candidates: Vec<String> = vec![
        "design.md".to_string(),
        "design1.md".to_string(),
        "design2.md".to_string(),
        "design3.md".to_string(),
        "design4.md".to_string(),
    ];
    let result = suggest_similar("desig.md", &candidates);
    assert_eq!(result.len(), 3);
}

#[test]
fn test_empty_candidates_returns_empty() {
    let result = suggest_similar("anything.md", &[]);
    assert!(result.is_empty());
}

#[test]
fn test_format_suggestions_with_corrected_command() {
    // Exit criterion 4: output contains "Did you mean?" and numbered list
    let suggestions = vec![
        "anchor-foundation/".to_string(),
        "anchor-forge/".to_string(),
    ];
    let output = format_suggestions(
        "anchor-foundtion",
        &suggestions,
        Some("Try: anchor file mv anchor-foundation/ ..."),
    );
    assert!(output.contains("Could not find 'anchor-foundtion'"));
    assert!(output.contains("Did you mean?"));
    assert!(output.contains("1. anchor-foundation/"));
    assert!(output.contains("2. anchor-forge/"));
    assert!(output.contains("Try: anchor file mv anchor-foundation/ ..."));
}

#[test]
fn test_format_suggestions_empty_no_did_you_mean() {
    // Exit criterion 5: empty → "Could not find" line only, no "Did you mean?" block
    let output = format_suggestions("xyz123qwe", &[], None);
    assert_eq!(output, "Could not find 'xyz123qwe'");
    assert!(!output.contains("Did you mean?"));
}
