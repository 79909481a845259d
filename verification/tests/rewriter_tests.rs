use anchor::model::RewriteEntry;
use anchor::rewriter::{apply_rewrites, compute_form1_new_text, compute_form2_new_text};

/// Single rewrite at the start of content.
#[test]
fn test_apply_single_rewrite_at_start() {
    let content = "[text](old/path.md) other content";
    let entries = vec![RewriteEntry {
        file: "source.md".to_string(),
        span: (0, "[text](old/path.md)".len()),
        old_text: "[text](old/path.md)".to_string(),
        new_text: "[text](new/path.md)".to_string(),
    }];
    let result = apply_rewrites(content, &entries);
    assert_eq!(result, "[text](new/path.md) other content");
}

/// Multiple rewrites in the same file — applied end-to-start so spans stay valid.
#[test]
fn test_apply_multiple_rewrites_preserves_spans() {
    let content = "[a](old/a.md) some text [b](old/b.md) end";
    // span of [b](old/b.md): starts at 21
    let b_start = content.find("[b](old/b.md)").unwrap();
    let b_end = b_start + "[b](old/b.md)".len();
    let a_start = 0usize;
    let a_end = "[a](old/a.md)".len();

    let entries = vec![
        RewriteEntry {
            file: "s.md".to_string(),
            span: (a_start, a_end),
            old_text: "[a](old/a.md)".to_string(),
            new_text: "[a](new/a.md)".to_string(),
        },
        RewriteEntry {
            file: "s.md".to_string(),
            span: (b_start, b_end),
            old_text: "[b](old/b.md)".to_string(),
            new_text: "[b](new/b.md)".to_string(),
        },
    ];
    let result = apply_rewrites(content, &entries);
    assert_eq!(result, "[a](new/a.md) some text [b](new/b.md) end");
}

/// Zero entries returns content unchanged.
#[test]
fn test_apply_no_entries_unchanged() {
    let content = "no rewrites here";
    let result = apply_rewrites(content, &[]);
    assert_eq!(result, content);
}

/// Source in subdirectory, dst in a different branch — verify relative path.
#[test]
fn test_form1_cross_directory() {
    let rel = compute_form1_new_text(
        &"projects/foo/notes.md".to_string(),
        &"people/anna/SKILL.md".to_string(),
        &None,
    );
    assert_eq!(rel, "../../people/anna/SKILL.md");
}

/// Source at workspace root — no leading `..` in relative path.
#[test]
fn test_form1_source_at_root() {
    let rel = compute_form1_new_text(
        &"GUIDE.md".to_string(),
        &"projects/foo/bar.md".to_string(),
        &None,
    );
    assert_eq!(rel, "projects/foo/bar.md");
}

/// Anchor is appended with `#`.
#[test]
fn test_form1_with_anchor() {
    let rel = compute_form1_new_text(
        &"docs/README.md".to_string(),
        &"projects/foo/bar.md".to_string(),
        &Some("section".to_string()),
    );
    assert_eq!(rel, "../projects/foo/bar.md#section");
}

/// Same directory — no `..` needed.
#[test]
fn rewriter_test_form1_same_directory() {
    let rel = compute_form1_new_text(
        &"a/b/source.md".to_string(),
        &"a/b/target.md".to_string(),
        &None,
    );
    assert_eq!(rel, "target.md");
}

/// Deep path → stem of filename.
#[test]
fn test_form2_deep_path() {
    let stem = compute_form2_new_text(&"projects/archive/my-decision.md".to_string());
    assert_eq!(stem, "my-decision");
}

/// Root-level file.
#[test]
fn test_form2_root_file() {
    let stem = compute_form2_new_text(&"README.md".to_string());
    assert_eq!(stem, "README");
}

/// File without `.md` extension (unusual but shouldn't panic).
#[test]
fn test_form2_no_md_extension() {
    let stem = compute_form2_new_text(&"projects/foo/bar".to_string());
    assert_eq!(stem, "bar");
}

fn entry(s: usize, e: usize, old: &str, new: &str) -> RewriteEntry {
    RewriteEntry { file: "a.md".to_string(), span: (s, e), old_text: old.to_string(), new_text: new.to_string() }
}

#[test]
fn rewrite_order_gives_the_same_text() {
    let content = "see [a](a.md) and [b](b.md)";
    let e1 = vec![entry(8, 12, "a.md", "x/a.md"), entry(22, 26, "b.md", "y/b.md")];
    let e2 = vec![entry(22, 26, "b.md", "y/b.md"), entry(8, 12, "a.md", "x/a.md")];
    let r1 = apply_rewrites(content, &e1);
    assert_eq!(r1, apply_rewrites(content, &e2));
    assert_eq!(r1, "see [a](x/a.md) and [b](y/b.md)");
}

#[test]
fn anchor_appends_to_the_relative_path() {
    let base = compute_form1_new_text(&"docs/a.md".to_string(), &"notes/b.md".to_string(), &None);
    let anchored = compute_form1_new_text(&"docs/a.md".to_string(), &"notes/b.md".to_string(), &Some("sec".to_string()));
    assert_eq!(anchored, format!("{base}#sec"));
}

#[test]
fn test_form1_new_text_leads_back_to_target() {
    let src = "docs/a.md".to_string();
    let dst = "notes/b.md".to_string();
    let text = compute_form1_new_text(&src, &dst, &None);
    assert_eq!(text, "../notes/b.md");
    assert_eq!(anchor::resolver::resolve_form1(&src, &text), dst);
    let deep = compute_form1_new_text(&"a/b/c/d.md".to_string(), &"a/x/y.md".to_string(), &None);
    assert_eq!(deep, "../../x/y.md");
    assert_eq!(anchor::resolver::resolve_form1(&"a/b/c/d.md".to_string(), &deep), "a/x/y.md");
    let same = compute_form1_new_text(&"a/d.md".to_string(), &"a/e.md".to_string(), &Some("sec".to_string()));
    assert_eq!(same, "e.md#sec");
}
