use anchor::commands::{FindArgs, Occurrence};
use anchor::find::{
    check_find_globs, check_pattern, collect_context, detect_code_block_lines, detect_frontmatter_end, do_find,
    find_in_file, is_compound, line_for_display, literal_spans, split_raw_lines,
};
use anchor::selection::{extension_matches, find_selects, path_matches_any};

/// A workspace as (relative path, text) pairs.
fn workspace(files: &[(&str, &str)]) -> Vec<(String, String)> {
    files.iter().map(|(p, c)| (p.to_string(), c.to_string())).collect()
}

fn args(pattern: &str) -> FindArgs {
    FindArgs { pattern: pattern.to_string(), ..FindArgs::default() }
}

/// The occurrences in one file `a.md` with `content`, or the pattern's error.
fn find(content: &str, a: &FindArgs) -> Result<Vec<Occurrence>, String> {
    check_pattern(a)?;
    let mut out = Vec::new();
    find_in_file("a.md", content, a, &mut out);
    Ok(out)
}

#[test]
fn no_match_returns_empty() {
    let result = find("hello world\n", &args("missing-string")).unwrap();
    assert!(result.is_empty());
}

#[test]
fn regex_search_finds_pattern() {
    let mut a = args(r"foo-\d+");
    a.regex = true;
    let result = find("foo-123 and foo-456\n", &a).unwrap();
    assert_eq!(result.len(), 2);
    assert_eq!(result[0].match_text, "foo-123");
    assert_eq!(result[1].match_text, "foo-456");
}

#[test]
fn invalid_regex_returns_error() {
    let mut a = args("foo(unclosed");
    a.regex = true;
    let result = find("x\n", &a);
    assert!(result.is_err());
    assert!(result.unwrap_err().starts_with("invalid regex pattern: "));
}

#[test]
fn skips_fenced_code_blocks_by_default() {
    let result = find(
        "apps-monorepo in prose\n```\napps-monorepo in code\n```\napps-monorepo again\n",
        &args("apps-monorepo"),
    )
    .unwrap();
    assert_eq!(result.len(), 2);
    assert!(result.iter().all(|o| !o.in_code_block));
}

#[test]
fn include_code_blocks_finds_matches_inside_fences() {
    let mut a = args("apps-monorepo");
    a.include_code_blocks = true;
    let result = find("before\n```\napps-monorepo inside\n```\nafter\n", &a).unwrap();
    assert_eq!(result.len(), 1);
    assert!(result[0].in_code_block);
}

#[test]
fn frontmatter_matches_are_flagged() {
    let result = find("---\ntitle: apps-monorepo\n---\n\n# body apps-monorepo\n", &args("apps-monorepo")).unwrap();
    assert_eq!(result.len(), 2);
    assert!(result.iter().any(|o| o.in_frontmatter));
    assert!(result.iter().any(|o| !o.in_frontmatter));
}

#[test]
fn exclude_frontmatter_skips_yaml_block() {
    let mut a = args("apps-monorepo");
    a.include_frontmatter = false;
    let result = find("---\ntitle: apps-monorepo\n---\n\n# body apps-monorepo\n", &a).unwrap();
    assert_eq!(result.len(), 1);
    assert!(!result[0].in_frontmatter);
}

#[test]
fn context_lines_captured_before_and_after() {
    let result = find("line1\nline2\nline3 apps-monorepo here\nline4\nline5\n", &args("apps-monorepo")).unwrap();
    assert_eq!(result.len(), 1);
    let occ = &result[0];
    assert_eq!(occ.context_before, vec!["line1".to_string(), "line2".to_string()]);
    assert_eq!(occ.context_after, vec!["line4".to_string(), "line5".to_string()]);
    assert_eq!(occ.line, 3);
    assert_eq!(occ.column, 7);
}

#[test]
fn match_at_file_start_truncates_context_before() {
    let result = find("apps-monorepo first\nline2\nline3\n", &args("apps-monorepo")).unwrap();
    assert_eq!(result.len(), 1);
    assert!(result[0].context_before.is_empty());
}

#[test]
fn match_at_file_end_truncates_context_after() {
    let result = find("line1\nline2\nlast apps-monorepo\n", &args("apps-monorepo")).unwrap();
    assert_eq!(result.len(), 1);
    assert!(result[0].context_after.is_empty());
}

#[test]
fn compound_match_detected_when_followed_by_ident_char() {
    let result = find("see apps-monorepo-deploy.yml file\n", &args("apps-monorepo")).unwrap();
    assert_eq!(result.len(), 1);
    assert!(result[0].compound_match);
}

#[test]
fn compound_match_false_when_followed_by_slash() {
    let result = find("see accelmars/apps-monorepo/foo path\n", &args("apps-monorepo")).unwrap();
    assert_eq!(result.len(), 1);
    assert!(!result[0].compound_match);
}

#[test]
fn regex_matches_skip_compound_detection() {
    let mut a = args(r"apps-monorepo");
    a.regex = true;
    let result = find("see apps-monorepo-deploy.yml\n", &a).unwrap();
    assert!(!result[0].compound_match);
}

#[test]
fn empty_pattern_returns_error() {
    let result = find("x\n", &args(""));
    assert_eq!(result.unwrap_err(), "pattern must not be empty");
}

#[test]
fn multiple_matches_on_same_line_all_captured() {
    let result = find("apps-monorepo and apps-monorepo and apps-monorepo\n", &args("apps-monorepo")).unwrap();
    assert_eq!(result.len(), 3);
    assert!(result.iter().all(|o| o.line == 1));
    let cols: Vec<usize> = result.iter().map(|o| o.column).collect();
    assert_eq!(cols, vec![1, 19, 37]);
}

#[test]
fn column_counts_bytes_before_a_literal_match() {
    let result = find("é apps\n", &args("apps")).unwrap();
    assert_eq!(result[0].column, 4);
    let mut a = args("apps");
    a.regex = true;
    let result = find("é apps\n", &a).unwrap();
    assert_eq!(result[0].column, 4);
    assert_eq!(result[0].match_text, "apps");
}

#[test]
fn raw_lines_keep_carriage_returns() {
    assert_eq!(split_raw_lines("a\r\nb\n"), vec!["a\r".to_string(), "b".to_string()]);
    assert_eq!(split_raw_lines("a\n\nb"), vec!["a".to_string(), "".to_string(), "b".to_string()]);
    assert!(split_raw_lines("").is_empty());
}

#[test]
fn frontmatter_end_is_the_closing_line() {
    let lines = split_raw_lines("---\ntitle: x\n---\nbody\n");
    assert_eq!(detect_frontmatter_end(&lines), Some(3));
    let lines = split_raw_lines("title\n---\n");
    assert_eq!(detect_frontmatter_end(&lines), None);
    let lines = split_raw_lines("---\nunclosed\n");
    assert_eq!(detect_frontmatter_end(&lines), None);
}

#[test]
fn code_block_flags_cover_fence_lines() {
    let lines = split_raw_lines("a\n~~~\nb\n~~~\nc\n");
    assert_eq!(detect_code_block_lines(&lines), vec![false, true, true, true, false]);
}

#[test]
fn context_window_is_clipped_to_the_file() {
    let lines = split_raw_lines("l1\nl2\nl3\nl4\n");
    assert_eq!(collect_context(&lines, 1, 5, true), vec!["l1".to_string()]);
    assert_eq!(collect_context(&lines, 1, 1, false), vec!["l3".to_string()]);
    assert!(collect_context(&lines, 1, 0, false).is_empty());
}

#[test]
fn literal_spans_do_not_overlap() {
    assert_eq!(literal_spans("aaaa", "aa"), vec![(0, 2), (2, 4)]);
    assert!(literal_spans("abc", "").is_empty());
}

#[test]
fn compound_checks_both_neighbours() {
    assert!(is_compound("x_apps", 2, 6));
    assert!(is_compound("apps2", 0, 4));
    assert!(!is_compound("(apps)", 1, 5));
}

#[test]
fn display_marks_the_occurrence() {
    let o = Occurrence {
        file: "a.md".to_string(),
        line: 1,
        column: 1,
        match_text: "apps".to_string(),
        context_before: vec![],
        context_after: vec![],
        in_code_block: true,
        in_frontmatter: true,
        compound_match: true,
    };
    assert_eq!(line_for_display(&o), "[frontmatter] [code-block] apps  (compound match)");
}

#[test]
fn finds_literal_matches_across_files() {
    let ws = workspace(&[
        ("a.md", "hello apps-monorepo today\n"),
        ("b.md", "another apps-monorepo line\nand a second apps-monorepo here\n"),
    ]);
    let result = do_find("/ws", &ws, &args("apps-monorepo")).unwrap();
    assert_eq!(result.len(), 3);
    let files: Vec<_> = result.iter().map(|o| o.file.as_str()).collect();
    assert!(files.iter().any(|f| f.contains("a.md")));
    assert!(files.iter().any(|f| f.contains("b.md")));
}

#[test]
fn include_paths_filters_files() {
    let ws = workspace(&[("docs/a.md", "apps-monorepo\n"), ("src/b.md", "apps-monorepo\n")]);
    let mut a = args("apps-monorepo");
    a.includes = vec!["docs/**".to_string()];
    let result = do_find("/ws", &ws, &a).unwrap();
    assert_eq!(result.len(), 1);
    assert!(result[0].file.starts_with("docs/"));
}

#[test]
fn exclude_paths_filters_files() {
    let ws = workspace(&[("docs/a.md", "apps-monorepo\n"), ("decisions/b.md", "apps-monorepo\n")]);
    let mut a = args("apps-monorepo");
    a.exclude = vec!["decisions/**".to_string()];
    let result = do_find("/ws", &ws, &a).unwrap();
    assert_eq!(result.len(), 1);
    assert!(result[0].file.starts_with("docs/"));
}

#[test]
fn file_types_filter_skips_non_matching_extensions() {
    let ws = workspace(&[("a.md", "apps-monorepo\n"), ("config.toml", "apps-monorepo\n")]);
    let result = do_find("/ws", &ws, &args("apps-monorepo")).unwrap();
    assert_eq!(result.len(), 1);
    assert!(result[0].file.ends_with(".md"));
}

#[test]
fn do_find_reports_pattern_errors_first() {
    let ws = workspace(&[("a.md", "x\n")]);
    assert_eq!(do_find("/ws", &ws, &args("")).unwrap_err(), "pattern must not be empty");
    let mut a = args("(");
    a.regex = true;
    assert!(do_find("/ws", &ws, &a).unwrap_err().starts_with("invalid regex pattern: "));
}

#[test]
fn bad_include_glob_is_reported() {
    let e = check_find_globs("/ws", &vec!["a[".to_string()]).unwrap_err();
    assert!(e.starts_with("invalid glob pattern 'a[': "), "{e}");
    assert!(check_find_globs("/ws", &vec!["docs/**".to_string()]).is_ok());
    assert!(check_find_globs("/ws", &vec![]).is_ok());
}

#[test]
fn empty_extension_filter_takes_every_file() {
    assert!(extension_matches("Makefile", &vec![]));
    assert!(extension_matches("a.md", &vec!["md".to_string()]));
    assert!(!extension_matches("a.toml", &vec!["md".to_string()]));
    assert!(!extension_matches("Makefile", &vec!["md".to_string()]));
}

#[test]
fn unparsable_globs_are_left_out_of_matching() {
    assert!(path_matches_any("docs/a.md", &vec!["a[".to_string(), "docs/**".to_string()]));
    assert!(!path_matches_any("src/a.md", &vec!["docs/**".to_string()]));
    assert!(!path_matches_any("src/a.md", &vec!["a[".to_string()]));
}

#[test]
fn selection_combines_extension_include_and_exclude() {
    let mut a = args("x");
    a.includes = vec!["docs/**".to_string()];
    a.exclude = vec!["docs/old/**".to_string()];
    assert!(find_selects("docs/a.md", &a));
    assert!(!find_selects("docs/old/a.md", &a));
    assert!(!find_selects("notes/a.md", &a));
    assert!(!find_selects("docs/a.txt", &a));
}
