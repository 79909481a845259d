use anchor::init_run::{init_step, InitAction, InitEvent, InitOutcome, InitState, PathCheck};

fn step(s: InitState, ev: InitEvent) -> (InitState, Vec<String>, InitAction) {
    let r = init_step(s, ev);
    (r.state, r.out, r.action)
}

fn prompt_of(a: &InitAction) -> &str {
    match a {
        InitAction::Prompt(t) => t.as_str(),
        other => panic!("expected a prompt, got {other:?}"),
    }
}

#[test]
fn init_interactive_detection_places_workspace() {
    let (s, out, a) = step(InitState::Start { yes: false, explicit: None }, InitEvent::Begin);
    assert!(out.is_empty() && matches!(a, InitAction::Detect));
    let (s, out, a) = step(
        s,
        InitEvent::Detected { candidate: "/ws".to_string(), repos: 2, is_repo: false, initialized: false },
    );
    assert_eq!(out, vec!["", "Detecting workspace root...", "  Candidate: /ws  (contains 2 git repos)", ""]);
    assert_eq!(prompt_of(&a), "[1/2] Workspace root [/ws]: ");
    let (s, _, a) = step(s, InitEvent::Answer(String::new()));
    assert!(matches!(&a, InitAction::Check(p) if p == "/ws"));
    let (s, _, a) = step(s, InitEvent::Checked(PathCheck::Fine));
    assert!(matches!(&a, InitAction::Probe(p) if p == "/ws"));
    let (s, out, a) = step(s, InitEvent::Probed { repos: vec!["a".to_string(), "b".to_string()], initialized: false });
    assert_eq!(out, vec!["\u{2192} /ws", "    a/  \u{2713} git repo", "    b/  \u{2713} git repo", ""]);
    assert_eq!(prompt_of(&a), "[2/2] Place .accelmars/ here? [Y/n]: ");
    let (s, _, a) = step(s, InitEvent::Answer(String::new()));
    assert!(matches!(&a, InitAction::Init(p) if p == "/ws"));
    let (s, out, a) = step(s, InitEvent::Written(Ok((true, false))));
    assert_eq!(out[0], "\u{2192} Created  .accelmars/");
    assert_eq!(out[3], "\u{2192} Skipped  .accelmars/anchor/acked (already exists)");
    assert_eq!(out[5], "Done. Workspace root: /ws");
    assert!(matches!(a, InitAction::Exit(InitOutcome::Done)));
    assert!(matches!(s, InitState::Finished));
}

#[test]
fn init_yes_without_candidate_fails() {
    let (s, _, _) = step(InitState::Start { yes: true, explicit: None }, InitEvent::Begin);
    let (_, out, a) = step(
        s,
        InitEvent::Detected { candidate: "/repo".to_string(), repos: 0, is_repo: true, initialized: false },
    );
    assert!(out.is_empty());
    assert!(matches!(a, InitAction::Exit(InitOutcome::NoCandidate)));
}

#[test]
fn init_explicit_missing_path_suggests_siblings() {
    let (s, _, a) = step(InitState::Start { yes: false, explicit: Some("/top/note".to_string()) }, InitEvent::Begin);
    assert!(matches!(&a, InitAction::Check(p) if p == "/top/note"));
    let (s, _, a) = step(s, InitEvent::Checked(PathCheck::Missing));
    assert!(matches!(&a, InitAction::ListSiblings(p) if p == "/top/note"));
    let (_, out, a) = step(s, InitEvent::Siblings(vec!["notes".to_string(), "zzzzzzzz".to_string()]));
    assert_eq!(out.len(), 1);
    assert!(out[0].starts_with("Could not find 'note'"), "{}", out[0]);
    assert!(out[0].contains("notes") && !out[0].contains("zzzzzzzz"), "{}", out[0]);
    assert!(matches!(&a, InitAction::Exit(InitOutcome::DirectoryNotFound(p)) if p == "/top/note"));
}

#[test]
fn init_explicit_reinit_asks_and_counts_steps() {
    let (s, _, _) = step(InitState::Start { yes: false, explicit: Some("/ws".to_string()) }, InitEvent::Begin);
    let (s, _, _) = step(s, InitEvent::Checked(PathCheck::Fine));
    let (s, out, a) = step(s, InitEvent::Probed { repos: vec![], initialized: true });
    assert_eq!(out, vec!["\u{2192} /ws", ""]);
    assert_eq!(prompt_of(&a), "[1/3] No git repos found here. Continue anyway? [y/N]: ");
    let (s, _, a) = step(s, InitEvent::Answer("Y".to_string()));
    assert_eq!(prompt_of(&a), "[2/3] Already initialized at /ws. Reinitialize? [y/N]: ");
    let (s, out, a) = step(s, InitEvent::Answer("y".to_string()));
    assert_eq!(out, vec!["[3/3] Writing workspace files..."]);
    assert!(matches!(&a, InitAction::Reinit(p) if p == "/ws"));
    let (_, out, _) = step(s, InitEvent::Written(Ok((false, false))));
    assert_eq!(out[0], "\u{2192} Created  .accelmars/anchor/config.json  {\"schema_version\": \"1\"}");
}

#[test]
fn init_declined_placement_aborts() {
    let (s, _, _) = step(InitState::Start { yes: false, explicit: Some("/ws".to_string()) }, InitEvent::Begin);
    let (s, _, _) = step(s, InitEvent::Checked(PathCheck::Fine));
    let (s, _, a) = step(s, InitEvent::Probed { repos: vec!["r".to_string()], initialized: false });
    assert_eq!(prompt_of(&a), "[1/1] Place .accelmars/ here? [Y/n]: ");
    let (_, _, a) = step(s, InitEvent::Answer("N".to_string()));
    assert!(matches!(a, InitAction::Exit(InitOutcome::Aborted)));
}

#[test]
fn init_typed_missing_path_gets_one_retry() {
    let (s, _, _) = step(InitState::Start { yes: false, explicit: None }, InitEvent::Begin);
    let (s, _, _) = step(
        s,
        InitEvent::Detected { candidate: "/ws".to_string(), repos: 1, is_repo: false, initialized: false },
    );
    let (s, _, a) = step(s, InitEvent::Answer("/nope".to_string()));
    assert!(matches!(&a, InitAction::Check(p) if p == "/nope"));
    let (s, out, a) = step(s, InitEvent::Checked(PathCheck::Missing));
    assert_eq!(out, vec!["Directory not found: /nope"]);
    assert_eq!(prompt_of(&a), "Enter a different path: ");
    let (s, _, a) = step(s, InitEvent::Answer("/still-nope".to_string()));
    assert!(matches!(&a, InitAction::Check(p) if p == "/still-nope"));
    let (_, _, a) = step(s, InitEvent::Checked(PathCheck::Missing));
    assert!(matches!(&a, InitAction::Exit(InitOutcome::DirectoryNotFound(p)) if p == "/still-nope"));
}
