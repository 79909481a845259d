use anchor::resolver::{resolve_form1, resolve_form2, ResolveResult};

#[test]
fn resolver_test_form1_same_directory() {
    let result = resolve_form1(&"a/b/c.md".to_string(), "d.md");
    assert_eq!(result, "a/b/d.md");
}

#[test]
fn test_form1_subdirectory() {
    let result = resolve_form1(&"a/b.md".to_string(), "sub/c.md");
    assert_eq!(result, "a/sub/c.md");
}

#[test]
fn test_form1_parent_directory() {
    let result = resolve_form1(&"a/b/c.md".to_string(), "../d.md");
    assert_eq!(result, "a/d.md");
}

#[test]
fn test_form1_multilevel_dotdot() {
    let result = resolve_form1(&"a/b/c/d.md".to_string(), "../../e.md");
    assert_eq!(result, "a/e.md");
}

#[test]
fn test_form1_root_level_source() {
    let result = resolve_form1(&"GUIDE.md".to_string(), "protocols/FOO.md");
    assert_eq!(result, "protocols/FOO.md");
}

#[test]
fn test_form2_zero_matches() {
    let workspace = vec![
        "projects/team/STATUS.md".to_string(),
        "docs/members/alice.md".to_string(),
    ];
    let result = resolve_form2("nonexistent-decision", &workspace);
    assert_eq!(result, ResolveResult::BrokenRef);
}

#[test]
fn test_form2_one_match() {
    let workspace = vec![
        "docs/decisions/2026-decision.md".to_string(),
        "docs/members/alice.md".to_string(),
    ];
    let result = resolve_form2("2026-decision", &workspace);
    assert_eq!(
        result,
        ResolveResult::Resolved("docs/decisions/2026-decision.md".to_string())
    );
}

#[test]
fn test_form2_ambiguous() {
    let workspace = vec![
        "projects/alpha/shared-stem.md".to_string(),
        "projects/beta/shared-stem.md".to_string(),
        "docs/members/alice.md".to_string(),
    ];
    let result = resolve_form2("shared-stem", &workspace);
    match result {
        ResolveResult::Ambiguous(candidates) => {
            assert_eq!(candidates.len(), 2, "must include ALL matching candidates");
            assert!(candidates.contains(&"projects/alpha/shared-stem.md".to_string()));
            assert!(candidates.contains(&"projects/beta/shared-stem.md".to_string()));
        }
        other => panic!("expected Ambiguous, got {:?}", other),
    }
}

#[test]
fn test_canonical_form_normalization() {
    // Source at root so parent is empty; raw path starts with ./
    let result = resolve_form1(&"ROOT.md".to_string(), "./foo/../bar/baz.md");
    assert_eq!(result, "bar/baz.md");
    assert!(
        !result.starts_with("./"),
        "canonical must not start with ./"
    );
    assert!(!result.contains(".."), "canonical must not contain ..");
}

#[test]
fn test_canonical_form_identical_for_same_target() {
    // Both raw paths refer to `a/b/target.md` from different angles
    let canonical_a = resolve_form1(&"a/b/source.md".to_string(), "target.md");
    let canonical_b = resolve_form1(&"a/b/other/source2.md".to_string(), "../target.md");
    assert_eq!(
        canonical_a, canonical_b,
        "different raw paths to same file must produce identical canonical paths"
    );
    assert_eq!(canonical_a, "a/b/target.md");
}

#[test]
fn test_form1_climbing_above_root_stops_at_root() {
    assert_eq!(resolve_form1(&"ROOT.md".to_string(), "../x.md"), "x.md");
    assert_eq!(resolve_form1(&"a/b.md".to_string(), "../../x.md"), "x.md");
    assert_eq!(resolve_form1(&"a/b.md".to_string(), "../../../c/x.md"), "c/x.md");
}
