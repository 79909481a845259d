use anchor::plan::{Op, Plan, TextRenameOp};
use anchor::plan_validate::{join_path, validate_globs, validate_plan, ValidationOutcome};

const ROOT: &str = "/ws";

/// Whether `rel` names one of `files` or a directory above one.
fn on_disk(files: &[&str], rel: &str) -> bool {
    let rel = rel.trim_end_matches('/');
    files.iter().any(|f| *f == rel || f.starts_with(&format!("{rel}/")))
}

/// The disk facts of each operation for a workspace holding `files`.
fn disk_for(plan: &Plan, files: &[&str]) -> Vec<(bool, bool, bool)> {
    plan.ops
        .iter()
        .map(|op| match op {
            Op::Move { src, dst } => {
                let parent = std::path::Path::new(dst).parent().and_then(|p| p.to_str()).unwrap_or("").to_string();
                (on_disk(files, src), on_disk(files, dst), parent.is_empty() || on_disk(files, &parent))
            }
            _ => (false, false, false),
        })
        .collect()
}

fn check(ops: Vec<Op>, files: &[&str]) -> ValidationOutcome {
    let plan = Plan { version: "1".to_string(), description: None, ops };
    let disk = disk_for(&plan, files);
    validate_plan(&plan, ROOT, &disk)
}

fn mv(src: &str, dst: &str) -> Op {
    Op::Move { src: src.to_string(), dst: dst.to_string() }
}

fn mkdir(path: &str) -> Op {
    Op::CreateDir { path: path.to_string() }
}

fn rename(from: &str, to: &str, literal: bool) -> Op {
    Op::TextRename(TextRenameOp {
        from: from.to_string(),
        to: to.to_string(),
        include_paths: vec![],
        exclude_paths: vec![],
        file_types: vec!["md".to_string()],
        literal,
        match_in_code_blocks: false,
        match_in_frontmatter: true,
    })
}

#[test]
fn test_validate_valid_plan() {
    let out = check(vec![mv("docs/guide.md", "docs/renamed.md")], &["docs/guide.md"]);
    assert!(out.errors.is_empty());
    assert!(out.notes.is_empty());
}

#[test]
fn test_validate_missing_src() {
    let out = check(vec![mv("nonexistent/file.md", "other.md")], &[]);
    assert_eq!(out.errors, vec!["operation 1: src not found: nonexistent/file.md".to_string()]);
}

#[test]
fn test_validate_dst_exists() {
    let out = check(vec![mv("src/file.md", "dst/file.md")], &["src/file.md", "dst/file.md"]);
    assert_eq!(out.errors, vec!["operation 1: dst already exists: dst/file.md".to_string()]);
}

#[test]
fn test_validate_dst_parent_missing_exits_0() {
    let out = check(vec![mv("src/guide.md", "new-parent/guide.md")], &["src/guide.md"]);
    assert!(out.errors.is_empty());
    assert_eq!(
        out.notes,
        vec!["operation 1: destination parent 'new-parent' does not exist and will be created automatically".to_string()]
    );
}

#[test]
fn test_validate_dst_parent_exists_no_note() {
    let out = check(vec![mv("src/guide.md", "existing-parent/guide.md")], &["src/guide.md", "existing-parent/x.md"]);
    assert!(out.errors.is_empty());
    assert!(out.notes.is_empty());
}

#[test]
fn test_validate_create_dir_then_move_no_note() {
    let out = check(
        vec![mkdir("new-parent"), mv("old-name", "new-parent/renamed"), mv("another", "new-parent/also-renamed")],
        &["old-name/foo.md", "another/bar.md"],
    );
    assert!(out.errors.is_empty(), "{:?}", out.errors);
    assert!(out.notes.is_empty(), "{:?}", out.notes);
}

#[test]
fn test_validate_chained_moves_recognize_virtual_src() {
    let out = check(vec![mv("a", "b"), mv("b", "c")], &["a/file.md"]);
    assert!(out.errors.is_empty(), "{:?}", out.errors);
}

#[test]
fn test_validate_chained_moves_detect_virtual_removal() {
    let out = check(vec![mv("a", "b"), mv("a", "c")], &["a/file.md"]);
    assert!(out.errors.iter().any(|e| e.contains("operation 2") && e.contains("src not found")), "{:?}", out.errors);
}

#[test]
fn test_validate_create_dir_covers_nested_ancestor() {
    let out = check(vec![mkdir("new-parent/sub"), mv("src-file.md", "new-parent/sub/dest.md")], &["src-file.md"]);
    assert!(out.errors.is_empty() && out.notes.is_empty(), "{:?} {:?}", out.errors, out.notes);
}

#[test]
fn create_dir_covers_deeper_moves() {
    let out = check(vec![mkdir("top"), mv("f.md", "top/a/b/f.md")], &["f.md"]);
    assert!(out.notes.is_empty(), "{:?}", out.notes);
}

#[test]
fn text_rename_checks_texts_and_pattern() {
    let out = check(vec![rename("", "", true)], &[]);
    assert_eq!(
        out.errors,
        vec![
            "operation 1: text_rename from must be non-empty".to_string(),
            "operation 1: text_rename to must be non-empty".to_string(),
        ]
    );
    let out = check(vec![rename("foo(", "bar", false)], &[]);
    assert_eq!(out.errors.len(), 1);
    assert!(out.errors[0].starts_with("operation 1: invalid text_rename regex: "));
    let out = check(vec![rename("foo(", "bar", true)], &[]);
    assert!(out.errors.is_empty());
}

#[test]
fn text_rename_checks_globs() {
    let mut op = TextRenameOp {
        from: "a".to_string(),
        to: "b".to_string(),
        include_paths: vec!["docs/[".to_string()],
        exclude_paths: vec!["ok/**".to_string()],
        file_types: vec![],
        literal: true,
        match_in_code_blocks: false,
        match_in_frontmatter: true,
    };
    let out = check(vec![Op::TextRename(op.clone())], &[]);
    assert_eq!(out.errors.len(), 1);
    assert!(out.errors[0].starts_with("operation 1: include_paths: invalid glob pattern \"docs/[\": "), "{:?}", out.errors);
    op.include_paths = vec![];
    let out = check(vec![Op::TextRename(op)], &[]);
    assert!(out.errors.is_empty());
}

#[test]
fn globs_are_checked_one_by_one() {
    assert!(validate_globs(ROOT, &vec!["docs/**".to_string(), "*.md".to_string()]).is_ok());
    let e = validate_globs(ROOT, &vec!["a/**".to_string(), "b/{".to_string()]).unwrap_err();
    assert!(e.starts_with("invalid glob pattern \"b/{\": "), "{e}");
}

#[test]
fn join_follows_path_join() {
    assert_eq!(join_path("/ws", "a/b"), "/ws/a/b");
    assert_eq!(join_path("/ws/", "a"), "/ws/a");
    assert_eq!(join_path("/ws", "/abs"), "/abs");
    assert_eq!(join_path("", "a"), "a");
    for (r, p) in [("/ws", "a/b"), ("/ws/", "a"), ("/ws", "/abs"), ("", "a")] {
        assert_eq!(join_path(r, p), std::path::Path::new(r).join(p).to_str().unwrap());
    }
}

#[test]
fn moved_path_of_the_same_name_is_not_resurrected() {
    // move b away, move a into b's place, then b is seen as removed
    let out = check(vec![mv("b", "x"), mv("a", "b"), mv("b", "c")], &["a/1.md", "b/2.md"]);
    assert_eq!(out.errors, vec!["operation 3: src not found: b".to_string()]);
}
