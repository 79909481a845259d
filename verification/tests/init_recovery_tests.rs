use anchor::init_steps::{answer_is, compute_step_total, repo_listing, setup_report, step_prefix};
use anchor::recovery::{already_running_message, can_roll_back, lock_verdict, manual_lines, stale_op_folders, LockVerdict};

#[test]
fn step_totals_count_the_questions() {
    assert_eq!(compute_step_total(true, false, false), 2);
    assert_eq!(compute_step_total(true, true, true), 4);
    assert_eq!(compute_step_total(false, false, true), 2);
    assert_eq!(step_prefix(1, 3), "[1/3] ");
}

#[test]
fn answers_ignore_ascii_case() {
    assert!(answer_is("y", 'y'));
    assert!(answer_is("Y", 'y'));
    assert!(!answer_is("yes", 'y'));
    assert!(!answer_is("", 'n'));
    assert!(answer_is("N", 'n'));
}

#[test]
fn repo_listing_shows_at_most_four() {
    let names: Vec<String> = ["a", "b", "c", "d", "e", "f"].iter().map(|s| s.to_string()).collect();
    let lines = repo_listing("/ws", &names);
    assert_eq!(lines[0], "\u{2192} /ws");
    assert_eq!(lines[1], "    a/  \u{2713} git repo");
    assert_eq!(lines[4], "    d/  \u{2713} git repo");
    assert_eq!(lines[5], "    ... and 2 more");
    assert_eq!(lines[6], "");
    assert_eq!(lines.len(), 7);
    assert_eq!(repo_listing("/ws", &vec![]), vec!["\u{2192} /ws".to_string(), String::new()]);
}

#[test]
fn setup_report_names_created_and_skipped_files() {
    let fresh = setup_report(false, true, false, "/ws");
    assert_eq!(fresh[0], "\u{2192} Created  .accelmars/");
    assert_eq!(fresh[2], "\u{2192} Created  .accelmars/anchor/ignore");
    assert_eq!(fresh[3], "\u{2192} Skipped  .accelmars/anchor/acked (already exists)");
    assert_eq!(fresh[5], "Done. Workspace root: /ws");
    let again = setup_report(true, false, false, "/ws");
    assert_eq!(again.len(), 6);
    assert!(again[0].contains("config.json"));
}

#[test]
fn lock_is_refused_while_held_or_stale() {
    assert_eq!(lock_verdict(Some((12, true)), false, None, "record.json"), LockVerdict::AlreadyRunning { pid: 12 });
    match lock_verdict(Some((12, false)), true, Some("7"), "record.json") {
        LockVerdict::Stale { message } => assert!(message.contains("tmp/op-7/record.json")),
        other => panic!("{other:?}"),
    }
    match lock_verdict(None, true, None, "record.json") {
        LockVerdict::Stale { message } => assert!(message.contains("tmp/op-?/record.json")),
        other => panic!("{other:?}"),
    }
    assert_eq!(lock_verdict(None, false, None, "record.json"), LockVerdict::Acquire);
    assert_eq!(already_running_message(42), "anchor is already running (pid 42). Wait for it to finish.");
}

#[test]
fn recover_rolls_back_before_commit_only() {
    assert!(can_roll_back(None));
    assert!(can_roll_back(Some("PLAN")));
    assert!(can_roll_back(Some("VALIDATE")));
    assert!(!can_roll_back(Some("COMMIT")));
    let lines = manual_lines("op-1", "COMMIT", "record.json");
    assert_eq!(lines[0], "Warning: op-1 is in phase COMMIT \u{2014} some renames may have been applied.");
    assert_eq!(lines[4], "  3. Once resolved, delete: .accelmars/anchor/tmp/op-1");
}

#[test]
fn only_op_folders_are_recovered_in_name_order() {
    let entries = vec![
        ("op-b".to_string(), true),
        ("notes".to_string(), true),
        ("op-a".to_string(), true),
        ("op-file".to_string(), false),
    ];
    assert_eq!(stale_op_folders(&entries), vec!["op-a".to_string(), "op-b".to_string()]);
}

#[test]
fn recover_report_lists_outcomes_and_sets_the_exit_status() {
    use_recover_report();
}

fn use_recover_report() {
    use_outcomes(vec![], 0);
    let ops = vec![
        ("op-1".to_string(), anchor::recovery::OpOutcome::RolledBack),
        ("op-2".to_string(), anchor::recovery::OpOutcome::NeedsManual("APPLY".to_string())),
        ("op-3".to_string(), anchor::recovery::OpOutcome::Failed("could not delete x: denied".to_string())),
    ];
    let (out, err, code) = anchor::recovery::recover_report(&ops, "record.json");
    assert_eq!(out, vec!["Rolled back: op-1".to_string()]);
    assert_eq!(err[0], "Warning: op-2 is in phase APPLY \u{2014} some renames may have been applied.");
    assert_eq!(err[2], "  1. Inspect: .accelmars/anchor/tmp/op-2/record.json");
    assert_eq!(err[5], "error processing op-3: could not delete x: denied");
    assert_eq!(code, 1);
}

fn use_outcomes(ops: Vec<(String, anchor::recovery::OpOutcome)>, want: i32) {
    let (out, err, code) = anchor::recovery::recover_report(&ops, "record.json");
    assert!(out.is_empty() && err.is_empty());
    assert_eq!(code, want);
}
