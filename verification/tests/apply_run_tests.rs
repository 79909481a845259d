use anchor::apply_run::{apply_step, ApplyAction, ApplyEvent, ApplyState, ApplyStep};
use anchor::plan::{Op, Plan};

fn plan(ops: Vec<Op>) -> Plan {
    Plan { version: "1".to_string(), description: None, ops }
}

fn mv(s: &str, d: &str) -> Op {
    Op::Move { src: s.to_string(), dst: d.to_string() }
}

/// Feed the events in turn from the start; the steps taken.
fn run(p: &Plan, events: Vec<ApplyEvent>) -> Vec<ApplyStep> {
    let mut state = ApplyState::Preflight;
    let mut steps = Vec::new();
    for ev in events {
        let step = apply_step(p, state, ev);
        state = match &step.state {
            ApplyState::Running { next } => ApplyState::Running { next: *next },
            ApplyState::Committing { warnings } => ApplyState::Committing { warnings: warnings.clone() },
            ApplyState::Preflight => ApplyState::Preflight,
            ApplyState::CheckInit => ApplyState::CheckInit,
            ApplyState::Locking => ApplyState::Locking,
            ApplyState::Staging => ApplyState::Staging,
            ApplyState::Scanning => ApplyState::Scanning,
            ApplyState::Planning => ApplyState::Planning,
            ApplyState::StagingRewrites => ApplyState::StagingRewrites,
            ApplyState::Validating => ApplyState::Validating,
            ApplyState::PostCommit { next } => ApplyState::PostCommit { next: *next },
            ApplyState::Finished => ApplyState::Finished,
        };
        steps.push(step);
    }
    steps
}

fn setup() -> Vec<ApplyEvent> {
    vec![
        ApplyEvent::Preflighted { error: None, already_applied: false },
        ApplyEvent::Initialized(true),
        ApplyEvent::Locked(Ok(())),
        ApplyEvent::StagingDir(Ok(())),
    ]
}

#[test]
fn successful_plan_reports_progress_and_done() {
    let p = plan(vec![mv("a.md", "b.md"), Op::CreateDir { path: "docs".to_string() }]);
    let mut events = setup();
    events.extend(vec![
        ApplyEvent::OpDone(Ok(())),
        ApplyEvent::OpDone(Ok(())),
        ApplyEvent::Scanned(Ok(())),
        ApplyEvent::Planned(Ok(())),
        ApplyEvent::Staged(Ok(())),
        ApplyEvent::Validated(Ok(vec!["warning: acked".to_string()])),
        ApplyEvent::Committed(Ok(())),
        ApplyEvent::PostMoved { non_md: 0, files: vec![], contents: vec![] },
    ]);
    let steps = run(&p, events);
    assert!(matches!(&steps[1].action, ApplyAction::AcquireLock(t) if t == "apply: batch 2 ops"));
    assert!(matches!(&steps[3].action, ApplyAction::MoveFile(s, d) if s == "a.md" && d == "b.md"));
    assert_eq!(steps[4].out, vec!["[1/2] moved a.md \u{2192} b.md".to_string()]);
    assert!(matches!(&steps[4].action, ApplyAction::CreateDir(p) if p == "docs"));
    assert_eq!(steps[5].out, vec!["[2/2] created docs/".to_string()]);
    assert!(matches!(steps[5].action, ApplyAction::ScanWorkspace));
    let committed = &steps[steps.len() - 2];
    assert_eq!(committed.out, vec!["warning: acked".to_string(), "Done. 2/2 operations completed.".to_string()]);
    assert!(matches!(&committed.action, ApplyAction::PostMove { src, dst, release_lock: true } if src == "a.md" && dst == "b.md"));
    let last = steps.last().unwrap();
    assert!(last.err.is_empty());
    assert!(matches!(last.action, ApplyAction::Exit { code: 0, cleanup: false, release_lock: false }));
}

#[test]
fn test_failed_move_prints_stopped_message() {
    let p = plan(vec![mv("a.md", "b.md"), mv("a.md", "c.md")]);
    let mut events = setup();
    events.extend(vec![ApplyEvent::OpDone(Ok(())), ApplyEvent::OpDone(Err("denied".to_string()))]);
    let steps = run(&p, events);
    let last = steps.last().unwrap();
    assert_eq!(last.out, vec!["Stopped after 1/2 operations completed.".to_string()]);
    assert_eq!(last.err, vec!["error moving a.md \u{2192} c.md: denied".to_string()]);
    assert!(matches!(last.action, ApplyAction::Exit { code: 1, cleanup: true, release_lock: true }));
}

#[test]
fn preflight_failure_stops_before_any_change() {
    let p = plan(vec![mv("a.md", "b.md")]);
    let steps = run(&p, vec![ApplyEvent::Preflighted { error: Some("preflight failed: src not found: a.md".to_string()), already_applied: false }]);
    assert_eq!(steps[0].err, vec!["preflight failed: src not found: a.md".to_string()]);
    assert!(matches!(steps[0].action, ApplyAction::Exit { code: 1, cleanup: false, release_lock: false }));
    let steps = run(&p, vec![ApplyEvent::Preflighted { error: Some("x".to_string()), already_applied: true }]);
    assert!(steps[0].err[0].starts_with("note: all sources are missing"));
}

#[test]
fn uninitialized_workspace_and_lock_errors_exit_2() {
    let p = plan(vec![]);
    let steps = run(&p, vec![ApplyEvent::Preflighted { error: None, already_applied: false }, ApplyEvent::Initialized(false)]);
    assert_eq!(steps[1].err, vec!["error: workspace not initialized. Run 'anchor init' first.".to_string()]);
    assert!(matches!(steps[1].action, ApplyAction::Exit { code: 2, .. }));
    let steps = run(&p, vec![
        ApplyEvent::Preflighted { error: None, already_applied: false },
        ApplyEvent::Initialized(true),
        ApplyEvent::Locked(Err("held by 12".to_string())),
    ]);
    assert_eq!(steps[2].err, vec!["error: lock: held by 12".to_string()]);
}

#[test]
fn empty_plan_goes_straight_to_the_scan() {
    let p = plan(vec![]);
    let steps = run(&p, setup());
    assert!(matches!(steps[3].action, ApplyAction::ScanWorkspace));
}

#[test]
fn later_failures_clean_up_and_commit_failure_does_not() {
    let p = plan(vec![]);
    let mut events = setup();
    events.extend(vec![ApplyEvent::Scanned(Ok(())), ApplyEvent::Planned(Err("bad".to_string()))]);
    let steps = run(&p, events);
    assert_eq!(steps.last().unwrap().err, vec!["error: plan: bad".to_string()]);
    assert!(matches!(steps.last().unwrap().action, ApplyAction::Exit { code: 1, cleanup: true, release_lock: true }));
    let mut events = setup();
    events.extend(vec![
        ApplyEvent::Scanned(Ok(())),
        ApplyEvent::Planned(Ok(())),
        ApplyEvent::Staged(Ok(())),
        ApplyEvent::Validated(Ok(vec![])),
        ApplyEvent::Committed(Err("io".to_string())),
    ]);
    let steps = run(&p, events);
    assert_eq!(steps.last().unwrap().err, vec!["error: commit: io".to_string()]);
    assert!(matches!(steps.last().unwrap().action, ApplyAction::Exit { code: 1, cleanup: false, release_lock: true }));
}

#[test]
fn after_the_commit_each_move_reports_what_it_left() {
    let p = plan(vec![mv("docs/old.md", "docs/new.md"), Op::CreateDir { path: "x".to_string() }, mv("a/b.md", "c.md")]);
    let mut events = setup();
    events.extend(vec![
        ApplyEvent::OpDone(Ok(())),
        ApplyEvent::OpDone(Ok(())),
        ApplyEvent::OpDone(Ok(())),
        ApplyEvent::Scanned(Ok(())),
        ApplyEvent::Planned(Ok(())),
        ApplyEvent::Staged(Ok(())),
        ApplyEvent::Validated(Ok(vec![])),
        ApplyEvent::Committed(Ok(())),
        ApplyEvent::PostMoved {
            non_md: 2,
            files: vec!["n.md".to_string(), "z.toml".to_string()],
            contents: vec![Some("see docs/old.md and docs/old.md\n".to_string()), Some("docs/old.md".to_string())],
        },
        ApplyEvent::PostMoved { non_md: 0, files: vec!["n.md".to_string()], contents: vec![Some("nothing\n".to_string())] },
    ]);
    let steps = run(&p, events);
    let first = &steps[steps.len() - 2];
    assert_eq!(first.err[0], "2 non-markdown file(s) updated.");
    assert!(first.err[1].starts_with("\u{26a0} Plain-text occurrences not rewritten (may be bare prose refs):"), "{}", first.err[1]);
    assert!(first.err[1].contains("  n.md: 2 occurrence(s) of 'old.md'"), "{}", first.err[1]);
    assert!(first.err[1].ends_with("Run 'anchor refs --plain old.md' to inspect before closing."), "{}", first.err[1]);
    assert!(matches!(&first.action, ApplyAction::PostMove { src, release_lock: false, .. } if src == "a/b.md"));
    let last = steps.last().unwrap();
    assert!(last.err.is_empty());
    assert!(matches!(last.action, ApplyAction::Exit { code: 0, .. }));
}

#[test]
fn other_files_rewritten_after_a_move() {
    use_rewrites_other_file();
}

fn use_rewrites_other_file() {
    assert!(anchor::apply_run::rewrites_other_file("config/app.toml"));
    assert!(anchor::apply_run::rewrites_other_file("src/x.py"));
    assert!(!anchor::apply_run::rewrites_other_file("tool/Cargo.toml"));
    assert!(!anchor::apply_run::rewrites_other_file("docs/a.md"));
    assert!(!anchor::apply_run::rewrites_other_file("Makefile"));
}
