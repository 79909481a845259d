use anchor::diagnostics::format_broken_ref;

#[test]
fn test_format_broken_ref_no_similar() {
    // "xyz-qwerty-9k3j.md" has no close match in the candidate list
    let candidates = vec!["completely-unrelated-zxywv.md".to_string()];
    let result = format_broken_ref("src/file.md", 5, "xyz-qwerty-9k3j.md", &candidates);
    assert!(result.contains("  src/file.md:5\n"));
    assert!(result.contains("    → xyz-qwerty-9k3j.md  (target not found)\n"));
    assert!(
        !result.contains("similar:"),
        "no similar when no close match"
    );
    assert!(result.ends_with('\n'), "trailing blank line appended");
}

#[test]
fn test_format_broken_ref_with_similar() {
    // Target "docs/gudie.md" (typo) — candidate "docs/guide.md" (existing) is close match
    let candidates = vec!["docs/guide.md".to_string()];
    let result = format_broken_ref("src/note.md", 3, "docs/gudie.md", &candidates);
    assert!(
        result.contains("    similar: docs/guide.md"),
        "similar suggestion must appear"
    );
}

#[test]
fn test_format_broken_ref_trailing_blank_line() {
    let result = format_broken_ref("a.md", 1, "b.md", &[]);
    assert!(
        result.ends_with("\n\n"),
        "output must end with blank line (two newlines); got: {result:?}"
    );
}
