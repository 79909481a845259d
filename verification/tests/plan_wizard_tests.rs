use anchor::plan::Op;
use anchor::plan_wizard::{
    archive_ops, basename_of, batch_move_ops, categorize_ops, plan_description, rename_ops, scaffold_ops,
    selection_index,
};

fn strings(v: &[&str]) -> Vec<String> {
    v.iter().map(|s| s.to_string()).collect()
}

fn mv(src: &str, dst: &str) -> Op {
    Op::Move { src: src.to_string(), dst: dst.to_string() }
}

fn mkdir(path: &str) -> Op {
    Op::CreateDir { path: path.to_string() }
}

#[test]
fn test_scaffold_two_dirs() {
    let ops = scaffold_ops(&strings(&["foundations", "archive"]));
    assert_eq!(ops.len(), 2);
    assert_eq!(ops[0], mkdir("foundations"));
    assert_eq!(ops[1], mkdir("archive"));
}

#[test]
fn test_batch_move_two_items() {
    let pairs = vec![
        ("file-a.md".to_string(), "new-a.md".to_string()),
        ("file-b.md".to_string(), "new-b.md".to_string()),
    ];
    let ops = batch_move_ops(&pairs);
    assert_eq!(ops.len(), 2);
    assert_eq!(ops[0], mv("file-a.md", "new-a.md"));
    assert_eq!(ops[1], mv("file-b.md", "new-b.md"));
}

#[test]
fn batch_move_skips_pairs_with_a_blank_side() {
    let pairs = vec![(" a.md ".to_string(), "".to_string()), (" b.md".to_string(), "c.md ".to_string())];
    assert_eq!(batch_move_ops(&pairs), vec![mv("b.md", "c.md")]);
}

#[test]
fn test_categorize_two_items() {
    let ops = categorize_ops("docs", &strings(&["old-a.md", "old-b.md"]), &strings(&["a.md", ""]));
    assert_eq!(ops.len(), 3);
    assert_eq!(ops[0], mkdir("docs"));
    assert_eq!(ops[1], mv("old-a.md", "docs/a.md"));
    assert_eq!(ops[2], mv("old-b.md", "docs/old-b.md"));
}

#[test]
fn test_archive_items() {
    let ops = archive_ops("archive", &strings(&["project-a.md", "project-b.md"]));
    assert_eq!(ops.len(), 3);
    assert_eq!(ops[0], mkdir("archive"));
    assert_eq!(ops[1], mv("project-a.md", "archive/project-a.md"));
    assert_eq!(ops[2], mv("project-b.md", "archive/project-b.md"));
}

#[test]
fn archive_uses_the_base_name() {
    let ops = archive_ops("arc", &strings(&["deep/dir/file.md"]));
    assert_eq!(ops[1], mv("deep/dir/file.md", "arc/file.md"));
    assert_eq!(basename_of("deep/dir/file.md"), "file.md");
    assert_eq!(basename_of("file.md"), "file.md");
}

#[test]
fn test_rename_skip() {
    let ops = rename_ops(&strings(&["old-a.md", "old-b.md"]), &strings(&["new-a.md", ""]));
    assert_eq!(ops.len(), 1);
    assert_eq!(ops[0], mv("old-a.md", "new-a.md"));
}

#[test]
fn rename_keeps_the_parent_folder() {
    let ops = rename_ops(&strings(&["docs/old.md"]), &strings(&["new.md"]));
    assert_eq!(ops, vec![mv("docs/old.md", "docs/new.md")]);
}

#[test]
fn template_selection_is_one_based_and_bounded() {
    assert_eq!(selection_index("1", 5), Some(0));
    assert_eq!(selection_index(" 5 ", 5), Some(4));
    assert_eq!(selection_index("0", 5), None);
    assert_eq!(selection_index("6", 5), None);
    assert_eq!(selection_index("x", 5), None);
}

#[test]
fn blank_description_is_none() {
    assert_eq!(plan_description(Some("  ".to_string())), None);
    assert_eq!(plan_description(None), None);
    assert_eq!(plan_description(Some(" tidy up ".to_string())), Some("tidy up".to_string()));
}
