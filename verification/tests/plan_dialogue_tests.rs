use anchor::plan::Op;
use anchor::plan_dialogue::{dialogue_step, Dialogue};

/// Answer the dialogue with the lines of `input` (end of input once they run
/// out); the plan's operations and description, or `None` when it failed, and
/// everything shown.
fn wizard(input: &str) -> (Option<(Vec<Op>, Option<String>)>, String) {
    let mut lines: Vec<String> = input.split_inclusive('\n').map(|l| l.trim_end_matches('\n').trim_end_matches('\r').to_string()).collect();
    lines.reverse();
    let mut d = Dialogue::Select;
    let mut shown = String::new();
    loop {
        match d {
            Dialogue::Done { ops, description } => return (Some((ops, description)), shown),
            Dialogue::Failed => return (None, shown),
            other => {
                let (next, text) = dialogue_step(other, lines.pop());
                shown.push_str(&text);
                d = next;
            }
        }
    }
}

fn mv(s: &str, d: &str) -> Op {
    Op::Move { src: s.to_string(), dst: d.to_string() }
}

fn mkdir(p: &str) -> Op {
    Op::CreateDir { path: p.to_string() }
}

#[test]
fn dialogue_scaffold_two_dirs() {
    let (plan, _) = wizard("5\nfoundations\narchive\n\n\n");
    let (ops, desc) = plan.unwrap();
    assert_eq!(ops, vec![mkdir("foundations"), mkdir("archive")]);
    assert_eq!(desc, None);
}

#[test]
fn dialogue_batch_move_two_items() {
    let (plan, shown) = wizard("1\n2\nfile-a.md\nnew-a.md\nfile-b.md\nnew-b.md\n\n");
    assert_eq!(plan.unwrap().0, vec![mv("file-a.md", "new-a.md"), mv("file-b.md", "new-b.md")]);
    assert!(shown.contains("Move 2/2 destination: "));
}

#[test]
fn dialogue_categorize_two_items() {
    let (plan, _) = wizard("2\ndocs\nold-a.md\nold-b.md\n\na.md\n\n\n");
    assert_eq!(
        plan.unwrap().0,
        vec![mkdir("docs"), mv("old-a.md", "docs/a.md"), mv("old-b.md", "docs/old-b.md")]
    );
}

#[test]
fn dialogue_archive_items() {
    let (plan, _) = wizard("3\narchive\nproject-a.md\nproject-b.md\n\n\n");
    assert_eq!(
        plan.unwrap().0,
        vec![mkdir("archive"), mv("project-a.md", "archive/project-a.md"), mv("project-b.md", "archive/project-b.md")]
    );
}

#[test]
fn dialogue_rename_skip() {
    let (plan, shown) = wizard("4\nold-a.md\nold-b.md\n\nnew-a.md\n\n\n");
    assert_eq!(plan.unwrap().0, vec![mv("old-a.md", "new-a.md")]);
    assert!(shown.contains("New name for old-b.md [Enter to skip]: "));
}

#[test]
fn dialogue_refuses_bad_selection_and_no_input() {
    let (plan, shown) = wizard("9\n");
    assert!(plan.is_none());
    assert_eq!(shown, "error: invalid selection '9'\n");
    let (plan, shown) = wizard("");
    assert!(plan.is_none());
    assert_eq!(shown, "error: no input\n");
}

#[test]
fn dialogue_keeps_a_description() {
    let (plan, shown) = wizard("5\nd\n\n  tidy up \n");
    assert_eq!(plan.unwrap().1, Some("tidy up".to_string()));
    assert!(shown.ends_with("Plan description (optional, Enter to skip): "));
}

#[test]
fn all_templates_finish_at_end_of_input() {
    for input in ["1\n1\na.md\nb.md\n\n", "2\nparent\nitem.md\n\n\n\n", "3\narc\nfile.md\n\n\n", "4\nfile.md\n\nnew.md\n\n", "5\ndir1\n\n\n"] {
        let (plan, _) = wizard(input);
        assert!(plan.is_some(), "{input:?}");
    }
}
