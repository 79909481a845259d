use anchor::context_scope::{is_in_scope, is_inward_ref, RewriteDomain, Scope};

/// File inside repo scope → in scope.
#[test]
fn test_is_in_scope_inside_repo() {
    let scope = Scope {
        domain: RewriteDomain::Repo("org-workspace".to_string()),
        root: "org-workspace".to_string(),
    };

    assert!(is_in_scope(
        &"org-workspace/foundations/engine/workflows/foo.md".to_string(),
        &scope
    ));
    assert!(is_in_scope(&"org-workspace/README.md".to_string(), &scope));
}

/// File outside repo scope → not in scope.
#[test]
fn test_is_in_scope_outside_repo() {
    let scope = Scope {
        domain: RewriteDomain::Repo("org-workspace".to_string()),
        root: "org-workspace".to_string(),
    };

    assert!(!is_in_scope(
        &"org-sibling-repo/BOUNDARY.md".to_string(),
        &scope
    ));
    assert!(!is_in_scope(
        &"org-guild/projects/foo.md".to_string(),
        &scope
    ));
}

/// Workspace scope → everything is in scope.
#[test]
fn test_is_in_scope_workspace_includes_all() {
    let scope = Scope {
        domain: RewriteDomain::Workspace,
        root: String::new(),
    };

    assert!(is_in_scope(
        &"org-sibling-repo/BOUNDARY.md".to_string(),
        &scope
    ));
    assert!(is_in_scope(
        &"org-workspace/foundations/engine/workflows/foo.md".to_string(),
        &scope
    ));
}

/// Full canonical path matching src → inward ref.
#[test]
fn test_is_inward_ref_exact_match() {
    let src = "org-workspace/foundations/engine/workflows".to_string();
    assert!(is_inward_ref(
        "org-workspace/foundations/engine/workflows",
        &src
    ));
}

/// Path under src → inward ref.
#[test]
fn test_is_inward_ref_subpath() {
    let src = "org-workspace/foundations/engine/workflows".to_string();
    assert!(is_inward_ref(
        "org-workspace/foundations/engine/workflows/design.md",
        &src
    ));
}

/// Bare name suffix (the AENG-001 false-positive class) → NOT inward ref.
#[test]
fn test_is_inward_ref_bare_name_not_inward() {
    let src = "org-workspace/foundations/engine/workflows".to_string();
    assert!(!is_inward_ref("workflows", &src));
    assert!(!is_inward_ref("engine/workflows", &src));
    assert!(!is_inward_ref("foundations/engine/workflows", &src));
}

/// Trailing slash stripped before comparison.
#[test]
fn test_is_inward_ref_trailing_slash_stripped() {
    let src = "org-workspace/foundations/engine/workflows".to_string();
    assert!(is_inward_ref(
        "org-workspace/foundations/engine/workflows/",
        &src
    ));
}

/// Prefix-component boundary: `workflowsExtra` must not match `workflows`.
#[test]
fn test_is_inward_ref_no_false_prefix_match() {
    let src = "a/workflows".to_string();
    assert!(!is_inward_ref("a/workflowsExtra", &src));
    assert!(!is_inward_ref("a/workflowsExtra/foo.md", &src));
}

/// `is_in_scope` correctly admits files inside a `Defined` boundary and rejects
/// sibling-foundation files (the v0.6.0 false-positive class).
#[test]
fn test_is_in_scope_defined_admits_inside_rejects_sibling() {
    let scope = Scope {
        domain: RewriteDomain::Defined("test-workspace/foundations/gateway-engine".to_string()),
        root: "test-workspace/foundations/gateway-engine".to_string(),
    };

    // In-scope file inside the foundation
    assert!(is_in_scope(
        &"test-workspace/foundations/gateway-engine/workflows/foo.md".to_string(),
        &scope
    ));
    // Sibling foundation — out of scope (this is the AENG-001 fix)
    assert!(!is_in_scope(
        &"test-workspace/foundations/anchor-engine/41-gaps/AENG-001.md".to_string(),
        &scope
    ));
    // File outside test-workspace entirely — out of scope
    assert!(!is_in_scope(&"test-codex/BOUNDARY.md".to_string(), &scope));
}
