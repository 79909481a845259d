use anchor::mv_run::{mv_step, resolve_dst, MvAction, MvEvent, MvRequest, MvState, TxOutcome};

fn req(src: &str, dst: &str, cwd: Option<&str>) -> MvRequest {
    MvRequest {
        src: src.to_string(),
        dst: dst.to_string(),
        verbose: true,
        format_given: false,
        json: false,
        root: "/ws".to_string(),
        cwd: cwd.map(|c| c.to_string()),
    }
}

fn step(s: MvState, ev: MvEvent) -> (MvState, Vec<String>, Vec<String>, MvAction) {
    let r = mv_step(s, ev);
    (r.state, r.err, r.out, r.action)
}

fn exists_target(a: &MvAction) -> &str {
    match a {
        MvAction::CheckExists(p) => p.as_str(),
        other => panic!("expected an existence check, got {other:?}"),
    }
}

#[test]
fn mv_resolves_destination_from_current_folder() {
    assert_eq!(resolve_dst("/ws", "x.md", &Some("/ws/docs".to_string())), "docs/x.md");
    assert_eq!(resolve_dst("/ws", "/ws/c/d.md", &None), "c/d.md");
    assert_eq!(resolve_dst("/ws", "./e.md", &None), "e.md");
    assert_eq!(resolve_dst("/ws", "x.md", &Some("/elsewhere".to_string())), "x.md");
}

#[test]
fn mv_verbose_run_reports_counts() {
    let (s, _, _, a) = step(MvState::Start(req("a.md", "b/a.md", Some("/ws"))), MvEvent::Begin);
    assert_eq!(exists_target(&a), "/ws/a.md");
    let (s, _, _, a) = step(s, MvEvent::Exists(true));
    assert_eq!(exists_target(&a), "/ws/b/a.md");
    let (s, _, _, a) = step(s, MvEvent::Exists(false));
    match &a {
        MvAction::Transact { src, dst, lock_op } => {
            assert_eq!(src, "a.md");
            assert_eq!(dst, "b/a.md");
            assert_eq!(lock_op, "file mv a.md b/a.md");
        }
        other => panic!("expected the transaction, got {other:?}"),
    }
    let (s, _, _, a) = step(s, MvEvent::TxDone(TxOutcome::Committed { refs: 12, files: 5 }));
    assert!(matches!(a, MvAction::PostCommit { .. }));
    let (_, err, out, a) = step(s, MvEvent::PostCommit { non_md: 0, plaintext: 0 });
    assert!(err.is_empty());
    assert_eq!(out, vec!["Moved. Rewrote 12 references in 5 files.".to_string()]);
    assert!(matches!(a, MvAction::Exit { code: 0, json: None }));
}

#[test]
fn mv_refuses_existing_destination() {
    let (s, _, _, _) = step(MvState::Start(req("a.md", "b.md", None)), MvEvent::Begin);
    let (s, _, _, _) = step(s, MvEvent::Exists(true));
    let (_, err, _, a) = step(s, MvEvent::Exists(true));
    assert_eq!(err, vec!["dst already exists: b.md".to_string()]);
    assert!(matches!(a, MvAction::Exit { code: 1, .. }));
}

#[test]
fn mv_conflicting_flags_fail_first() {
    let mut r = req("a.md", "b.md", None);
    r.format_given = true;
    let (_, err, _, a) = step(MvState::Start(r), MvEvent::Begin);
    assert_eq!(err, vec!["error: --verbose and --format are mutually exclusive".to_string()]);
    assert!(matches!(a, MvAction::Exit { code: 1, .. }));
}

#[test]
fn mv_missing_source_is_suggested_with_hint() {
    let (s, _, _, _) = step(MvState::Start(req("a.md", "b.md", Some("/ws/docs"))), MvEvent::Begin);
    let (s, _, _, a) = step(s, MvEvent::Exists(false));
    assert_eq!(exists_target(&a), "/ws/docs/a.md");
    let (s, _, _, a) = step(s, MvEvent::Exists(false));
    assert!(matches!(a, MvAction::ListFiles));
    let (_, err, _, a) = step(s, MvEvent::Files(vec!["notes/a.md".to_string()]));
    assert!(err[0].starts_with("Could not find 'a.md'"), "{}", err[0]);
    assert!(err[0].contains("anchor file mv \"notes/a.md\" b.md"), "{}", err[0]);
    assert_eq!(
        err[1],
        "  Hint: paths are resolved from workspace root (/ws)\n  If you meant '/ws/docs/a.md', use the path 'docs/a.md'"
    );
    assert!(matches!(a, MvAction::Exit { code: 1, .. }));
}

#[test]
fn mv_source_found_from_current_folder() {
    let (s, _, _, _) = step(MvState::Start(req("a.md", "b.md", Some("/ws/docs"))), MvEvent::Begin);
    let (s, _, _, _) = step(s, MvEvent::Exists(false));
    let (s, _, _, _) = step(s, MvEvent::Exists(true));
    let (_, _, _, a) = step(s, MvEvent::Exists(false));
    match &a {
        MvAction::Transact { src, dst, .. } => {
            assert_eq!(src, "docs/a.md");
            assert_eq!(dst, "docs/b.md");
        }
        other => panic!("expected the transaction, got {other:?}"),
    }
}

#[test]
fn mv_broken_references_roll_back() {
    let (s, _, _, _) = step(MvState::Start(req("a.md", "b.md", None)), MvEvent::Begin);
    let (s, _, _, _) = step(s, MvEvent::Exists(true));
    let (s, _, _, _) = step(s, MvEvent::Exists(false));
    let (_, err, _, a) = step(s, MvEvent::TxDone(TxOutcome::Broken(vec![("x.md".to_string(), 3, "gone.md".to_string())])));
    assert_eq!(
        err,
        vec![
            "".to_string(),
            "BROKEN REFERENCES AFTER REWRITE (1):".to_string(),
            "  x.md:3 \u{2192} gone.md  (not found)".to_string(),
            "".to_string(),
            "Rolled back. No changes applied.".to_string(),
        ]
    );
    assert!(matches!(a, MvAction::Exit { code: 1, .. }));
}
