use anchor::plan::TextRenameOp;
use anchor::selection::{has_allowed_extension, rename_selects};
use anchor::text_rename::{execute_rename, rename_in_content, rename_warnings, TextRenameResult};

fn op(from: &str, to: &str) -> TextRenameOp {
    TextRenameOp {
        from: from.to_string(),
        to: to.to_string(),
        include_paths: vec![],
        exclude_paths: vec![],
        file_types: vec!["md".to_string()],
        literal: true,
        match_in_code_blocks: false,
        match_in_frontmatter: true,
    }
}

/// A workspace as (relative path, text) pairs.
fn workspace(files: &[(&str, &str)]) -> Vec<(String, String)> {
    files.iter().map(|(p, c)| (p.to_string(), c.to_string())).collect()
}

/// Run the rename and give back the result and the workspace after it.
fn run(ws: &[(String, String)], rename: &TextRenameOp) -> (TextRenameResult, Vec<(String, String)>) {
    let files: Vec<(String, String)> = ws.to_vec();
    let result = execute_rename("/ws", &files, rename).unwrap();
    let mut after = files.clone();
    for (rel, text) in &result.rewrites {
        for entry in after.iter_mut() {
            if &entry.0 == rel {
                entry.1 = text.clone();
            }
        }
    }
    (result, after)
}

fn text_of<'a>(ws: &'a [(String, String)], rel: &str) -> &'a str {
    ws.iter().find(|(p, _)| p == rel).map(|(_, c)| c.as_str()).unwrap()
}

#[test]
fn test_literal_substitution_in_single_file() {
    let ws = workspace(&[("a.md", "old old\n")]);
    let (result, after) = run(&ws, &op("old", "new"));
    assert_eq!(result.total_substitutions, 2);
    assert_eq!(text_of(&after, "a.md"), "new new\n");
}

#[test]
fn test_regex_substitution() {
    let ws = workspace(&[("a.md", "ticket-12 ticket-34\n")]);
    let mut rename = op(r"ticket-(\d+)", "issue-$1");
    rename.literal = false;
    let (result, after) = run(&ws, &rename);
    assert_eq!(result.total_substitutions, 2);
    assert_eq!(text_of(&after, "a.md"), "issue-12 issue-34\n");
}

#[test]
fn test_multiple_files_include_paths_filter() {
    let ws = workspace(&[("docs/a.md", "old\n"), ("notes/b.md", "old\n")]);
    let mut rename = op("old", "new");
    rename.include_paths = vec!["docs/**".to_string()];
    let (result, after) = run(&ws, &rename);
    assert_eq!(result.files_changed, vec!["docs/a.md".to_string()]);
    assert_eq!(text_of(&after, "docs/a.md"), "new\n");
    assert_eq!(text_of(&after, "notes/b.md"), "old\n");
}

#[test]
fn test_exclude_paths_filter() {
    let ws = workspace(&[("docs/a.md", "old\n"), ("docs/archive/b.md", "old\n")]);
    let mut rename = op("old", "new");
    rename.exclude_paths = vec!["docs/archive/**".to_string()];
    let (result, after) = run(&ws, &rename);
    assert_eq!(result.files_changed, vec!["docs/a.md".to_string()]);
    assert_eq!(text_of(&after, "docs/archive/b.md"), "old\n");
}

#[test]
fn test_file_types_filter() {
    let ws = workspace(&[("a.md", "old\n"), ("b.markdown", "old\n")]);
    let mut rename = op("old", "new");
    rename.file_types = vec!["markdown".to_string()];
    let (result, after) = run(&ws, &rename);
    assert_eq!(result.files_changed, vec!["b.markdown".to_string()]);
    assert_eq!(text_of(&after, "a.md"), "old\n");
}

#[test]
fn test_skips_fenced_code_blocks_by_default() {
    let ws = workspace(&[("a.md", "old\n```\nold\n```\n")]);
    let (result, after) = run(&ws, &op("old", "new"));
    assert_eq!(result.total_substitutions, 1);
    assert_eq!(text_of(&after, "a.md"), "new\n```\nold\n```\n");
}

#[test]
fn test_match_in_code_blocks_true_includes_code_blocks() {
    let ws = workspace(&[("a.md", "old\n```\nold\n```\n")]);
    let mut rename = op("old", "new");
    rename.match_in_code_blocks = true;
    let (result, after) = run(&ws, &rename);
    assert_eq!(result.total_substitutions, 2);
    assert_eq!(text_of(&after, "a.md"), "new\n```\nnew\n```\n");
}

#[test]
fn test_match_in_frontmatter_false_skips_frontmatter() {
    let ws = workspace(&[("a.md", "---\ntitle: old\n---\nold\n")]);
    let mut rename = op("old", "new");
    rename.match_in_frontmatter = false;
    let (result, after) = run(&ws, &rename);
    assert_eq!(result.total_substitutions, 1);
    assert_eq!(text_of(&after, "a.md"), "---\ntitle: old\n---\nnew\n");
}

#[test]
fn test_no_op_when_no_matches_leaves_file_untouched() {
    let ws = workspace(&[("a.md", "clean\n")]);
    let (result, after) = run(&ws, &op("old", "new"));
    assert_eq!(result.total_substitutions, 0);
    assert!(result.rewrites.is_empty());
    assert_eq!(text_of(&after, "a.md"), "clean\n");
}

#[test]
fn test_idempotent_second_run_has_no_changes() {
    let ws = workspace(&[("a.md", "old\n")]);
    let (first, after) = run(&ws, &op("old", "new"));
    let (second, _) = run(&after, &op("old", "new"));
    assert_eq!(first.total_substitutions, 1);
    assert_eq!(second.total_substitutions, 0);
    assert!(second.files_changed.is_empty());
}

#[test]
fn test_compound_match_warning() {
    let ws = workspace(&[("a.md", "apps-monorepo-deploy\n")]);
    let (result, _) = run(&ws, &op("apps-monorepo", "apps"));
    assert!(result.warnings.iter().any(|warning| warning.contains("compound match in a.md")));
}

#[test]
fn test_to_already_in_file_warning() {
    let ws = workspace(&[("a.md", "new\nold\n")]);
    let (result, _) = run(&ws, &op("old", "new"));
    assert!(result.warnings.iter().any(|warning| warning.contains("to already present in a.md")));
}

#[test]
fn changed_files_and_warnings_come_back_sorted() {
    let ws = workspace(&[("b.md", "new old\n"), ("a.md", "new old\n"), ("c.md", "clean\n")]);
    let (result, _) = run(&ws, &op("old", "new"));
    assert_eq!(result.files_changed, vec!["a.md".to_string(), "b.md".to_string()]);
    assert_eq!(
        result.warnings,
        vec!["to already present in a.md".to_string(), "to already present in b.md".to_string()]
    );
    assert_eq!(result.total_substitutions, 2);
    assert_eq!(result.rewrites.len(), 2);
    assert_eq!(result.rewrites[0], ("b.md".to_string(), "new new\n".to_string()));
    assert!(rename_selects("/ws", "b.md", &op("old", "new")));
    assert!(!rename_selects("/ws", "b.txt", &op("old", "new")));
}

#[test]
fn bad_globs_and_patterns_are_refused_before_any_file() {
    let ws = workspace(&[("a.md", "old\n")]);
    let mut bad_glob = op("old", "new");
    bad_glob.include_paths = vec!["a[".to_string()];
    assert!(execute_rename("/ws", &ws, &bad_glob).unwrap_err().starts_with("invalid glob pattern \"a[\": "));
    let mut bad_regex = op("(", "new");
    bad_regex.literal = false;
    assert!(execute_rename("/ws", &ws, &bad_regex).unwrap_err().starts_with("invalid regex: "));
}

#[test]
fn rename_outcome_of_one_text() {
    let outcome = rename_in_content("apps-monorepo and new\n", &op("apps-monorepo", "new"));
    assert_eq!(outcome.rewritten, "new and new\n");
    assert_eq!(outcome.substitutions, 1);
    assert!(outcome.had_to_before);
    assert!(!outcome.had_compound);
    assert_eq!(
        rename_warnings("x.md", true, true),
        vec!["to already present in x.md".to_string(), "compound match in x.md".to_string()]
    );
    assert!(rename_warnings("x.md", false, false).is_empty());
}

#[test]
fn extensions_are_compared_without_the_leading_dot() {
    assert!(has_allowed_extension("a.md", &vec![".md".to_string()]));
    assert!(has_allowed_extension("a.md", &vec!["md".to_string()]));
    assert!(!has_allowed_extension("a.md", &vec!["markdown".to_string()]));
    assert!(!has_allowed_extension("README", &vec!["md".to_string()]));
}

#[test]
fn test_occurrence_after_closed_fence_is_replaced() {
    let ws = workspace(&[("a.md", "```\nold\n```\nold\n")]);
    let (result, after) = run(&ws, &op("old", "new"));
    assert_eq!(result.total_substitutions, 1);
    assert_eq!(text_of(&after, "a.md"), "```\nold\n```\nnew\n");
}
