use anchor::transaction::{compute_relative_path, inside_src, rebuild_form1_ref, rewrite_partial_backtick};

/// Verify inside_src correctly handles file move (exact match) and directory move (prefix).
#[test]
fn test_inside_src() {
    let src = "projects/foo".to_string();

    // Exact match — file move case
    assert!(inside_src(&"projects/foo".to_string(), &src));
    // File inside directory
    assert!(inside_src(&"projects/foo/bar.md".to_string(), &src));
    // Nested directory inside src
    assert!(inside_src(&"projects/foo/sub/baz.md".to_string(), &src));
    // Same prefix but different name — must NOT match (projects/foobar != projects/foo/)
    assert!(!inside_src(&"projects/foobar.md".to_string(), &src));
    // Completely different path
    assert!(!inside_src(&"docs/guide.md".to_string(), &src));
}

/// Verify compute_relative_path produces correct relative paths.
#[test]
fn test_compute_relative_path() {
    // Same directory
    assert_eq!(
        compute_relative_path(&"a/b/source.md".to_string(), &"a/b/target.md".to_string()),
        "target.md"
    );
    // One level up
    assert_eq!(
        compute_relative_path(&"a/b/source.md".to_string(), &"a/target.md".to_string()),
        "../target.md"
    );
    // Two levels up, different branch
    assert_eq!(
        compute_relative_path(
            &"projects/foo/source.md".to_string(),
            &"docs/guide.md".to_string()
        ),
        "../../docs/guide.md"
    );
    // Source at root level
    assert_eq!(
        compute_relative_path(&"ROOT.md".to_string(), &"projects/foo/bar.md".to_string()),
        "projects/foo/bar.md"
    );
}

/// REF-001: link text that is an exact copy of target_raw is updated to new_rel_path.
/// Before: `[gateway-foundation/README.md](gateway-foundation/README.md)`
/// After:  `[foundations/gateway-engine/README.md](foundations/gateway-engine/README.md)`
#[test]
fn test_link_text_sync_when_text_equals_path() {
    let old_text = "[gateway-foundation/README.md](gateway-foundation/README.md)";
    let new_rel = "foundations/gateway-engine/README.md";
    let old_target_raw = "gateway-foundation/README.md";
    let result = rebuild_form1_ref(old_text, new_rel, &None, old_target_raw);
    assert_eq!(
        result, "[foundations/gateway-engine/README.md](foundations/gateway-engine/README.md)",
        "link text matching target_raw must be updated"
    );
}

/// REF-001: link text that differs from target_raw is preserved unchanged.
/// Before: `[Gateway Foundation](gateway-foundation/README.md)`
/// After:  `[Gateway Foundation](foundations/gateway-engine/README.md)`
#[test]
fn test_link_text_preserved_when_text_differs() {
    let old_text = "[Gateway Foundation](gateway-foundation/README.md)";
    let new_rel = "foundations/gateway-engine/README.md";
    let old_target_raw = "gateway-foundation/README.md";
    let result = rebuild_form1_ref(old_text, new_rel, &None, old_target_raw);
    assert_eq!(
        result, "[Gateway Foundation](foundations/gateway-engine/README.md)",
        "link text that differs from target_raw must be preserved"
    );
}

/// Gap 1: rewrite_partial_backtick unit test — verifies matching and no-op filtering.
#[test]
fn test_rewrite_partial_backtick_unit() {
    let src = "accelmars-guild/projects/os-council";
    let dst = "accelmars-guild/councils/os-council";

    // Directory partial match (n=1: omit "accelmars-guild/")
    assert_eq!(
        rewrite_partial_backtick("projects/os-council", src, dst),
        Some("councils/os-council".to_string()),
        "directory partial match must rewrite suffix"
    );

    // File under directory partial match
    assert_eq!(
        rewrite_partial_backtick("projects/os-council/decisions/foo.md", src, dst),
        Some("councils/os-council/decisions/foo.md".to_string()),
        "file-under-dir partial match must rewrite suffix"
    );

    // Unrelated path — no match
    assert_eq!(
        rewrite_partial_backtick("projects/other-dir/foo.md", src, dst),
        None,
        "unrelated path must not match"
    );

    // No-op (stem unchanged across move) — filtered out
    let src2 = "a/b/same";
    let dst2 = "x/y/same";
    assert_eq!(
        rewrite_partial_backtick("same", src2, dst2),
        None,
        "no-op rewrite (new == old) must return None"
    );
}
