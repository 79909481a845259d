use anchor::tenancy::{manifest_default_tenant, resolve_slug, resolve_slug_with_manifest, WorkspaceError};

fn slugs(v: &[&str]) -> Vec<String> {
    v.iter().map(|s| s.to_string()).collect()
}

const DOT: &str = "/ws/.accelmars";

#[test]
fn resolve_ambiguous_error() {
    let err = resolve_slug(None, None, &slugs(&["AOS", "acme"]), DOT, "/ws", None).expect_err("should fail — ambiguous");
    match err {
        WorkspaceError::AmbiguousTenant(all) => {
            assert!(all.contains(&"AOS".to_string()));
            assert!(all.contains(&"acme".to_string()));
        }
        other => panic!("expected AmbiguousTenant, got: {:?}", other),
    }
}

#[test]
fn resolve_tenant_not_found() {
    let err = resolve_slug(Some("missing"), None, &slugs(&["AOS"]), DOT, "/ws", None).expect_err("should fail — tenant not found");
    match err {
        WorkspaceError::TenantNotFound(slug) => assert_eq!(slug, "missing"),
        other => panic!("expected TenantNotFound, got: {:?}", other),
    }
}

#[test]
fn resolve_slug_via_tenant_flag() {
    let s = resolve_slug(Some("AOS"), Some("acme"), &slugs(&["AOS", "acme"]), DOT, "/ws", None).unwrap();
    assert_eq!(s, "AOS");
}

#[test]
fn resolve_slug_via_env_var() {
    let s = resolve_slug(None, Some("acme"), &slugs(&["AOS", "acme"]), DOT, "/ws", None).unwrap();
    assert_eq!(s, "acme");
}

#[test]
fn empty_env_var_is_ignored() {
    let s = resolve_slug(None, Some(""), &slugs(&["AOS"]), DOT, "/ws", None).unwrap();
    assert_eq!(s, "AOS");
}

#[test]
fn unknown_env_tenant_is_not_found() {
    match resolve_slug(None, Some("zzz"), &slugs(&["AOS"]), DOT, "/ws", None) {
        Err(WorkspaceError::TenantNotFound(s)) => assert_eq!(s, "zzz"),
        other => panic!("expected TenantNotFound, got: {:?}", other),
    }
}

#[test]
fn resolve_slug_via_cwd_context() {
    let s = resolve_slug(None, None, &slugs(&["AOS", "acme"]), DOT, "/ws/.accelmars/AOS/anchor", None).unwrap();
    assert_eq!(s, "AOS");
    // whole components only: `AOSX` is not inside `AOS`
    let e = resolve_slug(None, None, &slugs(&["AOS", "acme"]), DOT, "/ws/.accelmars/AOSX", None);
    assert!(matches!(e, Err(WorkspaceError::AmbiguousTenant(_))));
}

#[test]
fn resolve_slug_via_default_manifest() {
    let s = resolve_slug(None, None, &slugs(&["AOS", "acme"]), DOT, "/ws", Some("acme")).unwrap();
    assert_eq!(s, "acme");
    let e = resolve_slug(None, None, &slugs(&["AOS", "acme"]), DOT, "/ws", Some("other"));
    assert!(matches!(e, Err(WorkspaceError::AmbiguousTenant(_))));
}

#[test]
fn single_tenant_is_chosen() {
    assert_eq!(resolve_slug(None, None, &slugs(&["AOS"]), DOT, "/ws", None).unwrap(), "AOS");
}

#[test]
fn workspace_errors_read_as_messages() {
    assert_eq!(
        WorkspaceError::AmbiguousTenant(slugs(&["AOS", "acme"])).describe(),
        "multiple tenants exist (AOS, acme); specify --tenant=<slug> or cd into one"
    );
    assert_eq!(WorkspaceError::TenantNotFound("x".to_string()).describe(), "tenant \"x\" not found in .accelmars/");
    assert_eq!(WorkspaceError::NotFound.describe(), "no workspace found. Run 'anchor init' to configure.");
    assert_eq!(WorkspaceError::InvalidConfig("bad".to_string()).describe(), "invalid config.json: bad");
}

#[test]
fn tenant_folders_are_listed_sorted() {
    let entries = vec![
        ("acme".to_string(), true),
        ("anchor".to_string(), false),
        ("AOS".to_string(), true),
        ("notes.md".to_string(), false),
    ];
    assert_eq!(anchor::tenancy::tenant_slugs(&entries), slugs(&["AOS", "acme"]));
    assert!(anchor::tenancy::tenant_slugs(&vec![]).is_empty());
}

#[test]
fn only_schema_version_one_is_supported() {
    assert!(anchor::tenancy::check_schema_version("1").is_ok());
    match anchor::tenancy::check_schema_version("2") {
        Err(WorkspaceError::UnsupportedSchemaVersion(v)) => assert_eq!(v, "2"),
        other => panic!("unexpected {other:?}"),
    }
}

#[test]
fn outer_manifest_default_tenant_is_read() {
    assert_eq!(manifest_default_tenant("default_tenant = \"acme\"\n"), Some("acme".to_string()));
    assert_eq!(manifest_default_tenant("title = \"x\"\ndefault_tenant = \"AOS\"\n"), Some("AOS".to_string()));
    assert_eq!(manifest_default_tenant("default_tenant = 3\n"), None);
    assert_eq!(manifest_default_tenant("[x\n"), None);
    assert_eq!(manifest_default_tenant("[tenants]\ndefault_tenant = \"acme\"\n"), None);
}

#[test]
fn outer_manifest_default_breaks_the_tie() {
    let all = slugs(&["AOS", "acme"]);
    let s = resolve_slug_with_manifest(None, None, &all, DOT, "/ws", Some("default_tenant = \"acme\"\n")).unwrap();
    assert_eq!(s, "acme");
    let err = resolve_slug_with_manifest(None, None, &all, DOT, "/ws", Some("default_tenant = \"other\"\n")).unwrap_err();
    assert!(matches!(err, WorkspaceError::AmbiguousTenant(_)));
    let err = resolve_slug_with_manifest(None, None, &all, DOT, "/ws", None).unwrap_err();
    assert!(matches!(err, WorkspaceError::AmbiguousTenant(_)));
}
