use anchor::report::{format_human, write_verbose_output};

/// `--verbose` output contains the confirmation summary with correct counts.
#[test]
fn test_mv_verbose_emits_confirmation() {
    let mut out = Vec::new();
    write_verbose_output(&mut out, "projects/foo", "projects/archive/foo", 12, 5).unwrap();
    let s = String::from_utf8(out).unwrap();
    assert!(
        s.contains("Moved. Rewrote 12 references in 5 files."),
        "verbose output must contain summary, got: {s}"
    );
}

#[test]
fn test_zero_refs_emits_confirmation() {
    let mut out = Vec::new();
    format_human(&mut out, "docs/guide.md", &[]).unwrap();
    assert_eq!(
        String::from_utf8(out).unwrap().trim(),
        "No references found."
    );
}
