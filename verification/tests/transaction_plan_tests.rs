use anchor::model::RewritePlan;
use anchor::transaction::{plan, plan_reads, FileRead};

fn write_file(disk: &mut Vec<(String, String)>, canonical: &str, content: &str) {
    disk.push((canonical.to_string(), content.to_string()));
}

/// Plan the move with the files of `disk` as the workspace's contents.
fn plan_in(disk: &[(String, String)], src: &String, dst: &String, workspace_files: &[String]) -> RewritePlan {
    let contents: Vec<Option<String>> = workspace_files
        .iter()
        .map(|f| disk.iter().rev().find(|(p, _)| p == f).map(|(_, c)| c.clone()))
        .collect();
    plan(src, dst, workspace_files, &contents)
}

/// Test 6: External file references file inside src/ → classified as Case A.
///         A RewriteEntry must be generated for the external file.
#[test]
fn test_case_a_external_references_inside_src() {
    let mut disk: Vec<(String, String)> = Vec::new();

    // src directory being moved
    let src = "projects/foo".to_string();
    let dst = "projects/archive/foo".to_string();

    // File INSIDE src
    write_file(&mut disk, "projects/foo/bar.md", "# Bar\n");

    // File OUTSIDE src that references something inside src (Case A)
    // From "docs/README.md", the path to "projects/foo/bar.md" is "../projects/foo/bar.md"
    write_file(&mut disk,
        "docs/README.md",
        "See [bar](../projects/foo/bar.md).\n",
    );

    let workspace_files = vec![
        "projects/foo/bar.md".to_string(),
        "docs/README.md".to_string(),
    ];

    let plan = plan_in(&disk, &src, &dst, &workspace_files);

    // Must have exactly one RewriteEntry for docs/README.md (Case A)
    assert_eq!(plan.entries.len(), 1, "exactly one Case A entry expected");
    let entry = &plan.entries[0];
    assert_eq!(
        entry.file, "docs/README.md",
        "entry must be in the external file"
    );
    assert!(
        entry.old_text.contains("projects/foo/bar.md"),
        "old_text must contain old path, got: {}",
        entry.old_text
    );
    assert!(
        entry.new_text.contains("projects/archive/foo/bar.md"),
        "new_text must contain new path after remap, got: {}",
        entry.new_text
    );
}

/// Test 7: File inside src/ references external file → classified as Case B.
///         A RewriteEntry must be generated for the inside-src file.
#[test]
fn test_case_b_inside_src_references_external() {
    let mut disk: Vec<(String, String)> = Vec::new();

    let src = "projects/foo".to_string();
    let dst = "projects/archive/foo".to_string();

    // External file (target of the reference)
    write_file(&mut disk, "docs/guide.md", "# Guide\n");

    // File INSIDE src that references the external file (Case B)
    // From "projects/foo/notes.md", path to "docs/guide.md" is "../../docs/guide.md"
    write_file(&mut disk,
        "projects/foo/notes.md",
        "See [guide](../../docs/guide.md).\n",
    );

    let workspace_files = vec![
        "docs/guide.md".to_string(),
        "projects/foo/notes.md".to_string(),
    ];

    let plan = plan_in(&disk, &src, &dst, &workspace_files);

    // Must have exactly one RewriteEntry for projects/foo/notes.md (Case B)
    assert_eq!(plan.entries.len(), 1, "exactly one Case B entry expected");
    let entry = &plan.entries[0];
    assert_eq!(
        entry.file, "projects/foo/notes.md",
        "entry must be in the inside-src file"
    );
    assert!(
        entry.old_text.contains("../../docs/guide.md"),
        "old_text must contain old relative path, got: {}",
        entry.old_text
    );
    // After move: "projects/archive/foo/notes.md" → "../../../docs/guide.md"
    assert!(
        entry.new_text.contains("docs/guide.md"),
        "new_text must reference the external target, got: {}",
        entry.new_text
    );
}

/// Test 8: File inside src/ references another file inside src/ → Case C.
///         NO RewriteEntry must appear for this reference (relative path stable).
#[test]
fn test_case_c_both_inside_src_skipped() {
    let mut disk: Vec<(String, String)> = Vec::new();

    let src = "projects/foo".to_string();
    let dst = "projects/archive/foo".to_string();

    // Both files are inside src/
    write_file(&mut disk, "projects/foo/a.md", "# A\n");
    // File b.md references a.md — both inside src/ → Case C
    write_file(&mut disk, "projects/foo/b.md", "See [a](a.md).\n");

    let workspace_files = vec![
        "projects/foo/a.md".to_string(),
        "projects/foo/b.md".to_string(),
    ];

    let plan = plan_in(&disk, &src, &dst, &workspace_files);

    // Case C: relative path between a.md and b.md is stable — NO entries
    assert!(
        plan.entries.is_empty(),
        "Case C references must not produce RewriteEntry, got: {:?}",
        plan.entries
    );
}

/// Backtick Case A: external .md file with `src-dir/` in backtick span → RewriteEntry generated.
#[test]
fn test_backtick_case_a_produces_rewrite_entry() {
    let mut disk: Vec<(String, String)> = Vec::new();

    let src = "gateway-foundation".to_string();
    let dst = "foundations/gateway-engine".to_string();

    // File inside src (being moved)
    write_file(&mut disk, "gateway-foundation/README.md", "# GW\n");

    // External file with backtick mention of the moved directory
    write_file(&mut disk,
        "CONSTELLATION.md",
        "The `gateway-foundation/` directory holds all gateway logic.\n",
    );

    let workspace_files = vec![
        "gateway-foundation/README.md".to_string(),
        "CONSTELLATION.md".to_string(),
    ];

    let plan = plan_in(&disk, &src, &dst, &workspace_files);

    let bt_entries: Vec<_> = plan
        .entries
        .iter()
        .filter(|e| e.old_text.contains("`gateway-foundation/`"))
        .collect();
    assert_eq!(
        bt_entries.len(),
        1,
        "expected 1 backtick rewrite entry, got: {:?}",
        plan.entries
    );
    assert_eq!(bt_entries[0].file, "CONSTELLATION.md");
    assert_eq!(bt_entries[0].old_text, "`gateway-foundation/`");
    assert_eq!(bt_entries[0].new_text, "`foundations/gateway-engine/`");
}

/// Backtick ref: file inside src with backtick ref to something inside src → Case C, no entry.
#[test]
fn test_backtick_inside_src_no_entry() {
    let mut disk: Vec<(String, String)> = Vec::new();

    let src = "projects/foo".to_string();
    let dst = "archive/foo".to_string();

    // Both files inside src
    write_file(&mut disk, "projects/foo/a.md", "# A\n");
    write_file(&mut disk, "projects/foo/b.md", "See `projects/foo/` for more.\n");

    let workspace_files = vec![
        "projects/foo/a.md".to_string(),
        "projects/foo/b.md".to_string(),
    ];

    let plan = plan_in(&disk, &src, &dst, &workspace_files);

    // Case C: source and target both inside src → no backtick rewrite entry
    let bt_entries: Vec<_> = plan
        .entries
        .iter()
        .filter(|e| e.old_text.starts_with('`'))
        .collect();
    assert!(
        bt_entries.is_empty(),
        "Case C backtick: no entry expected, got: {:?}",
        bt_entries
    );
}

/// Backtick ref: path unrelated to the move → no RewriteEntry generated.
#[test]
fn test_backtick_non_src_path_no_entry() {
    let mut disk: Vec<(String, String)> = Vec::new();

    let src = "projects/foo".to_string();
    let dst = "archive/foo".to_string();

    write_file(&mut disk, "projects/foo/note.md", "# Note\n");
    // External file with backtick ref to something UNRELATED to the move
    write_file(&mut disk,
        "docs/overview.md",
        "See `other-project/` for details.\n",
    );

    let workspace_files = vec![
        "projects/foo/note.md".to_string(),
        "docs/overview.md".to_string(),
    ];

    let plan = plan_in(&disk, &src, &dst, &workspace_files);

    let bt_entries: Vec<_> = plan
        .entries
        .iter()
        .filter(|e| e.old_text.starts_with('`'))
        .collect();
    assert!(
        bt_entries.is_empty(),
        "unrelated backtick path: no entry expected, got: {:?}",
        bt_entries
    );
}

/// SIM-F: external .md file with `<a href="...">` pointing into src → RewriteEntry generated (Case A).
#[test]
fn test_href_case_a_produces_rewrite_entry() {
    let mut disk: Vec<(String, String)> = Vec::new();

    let src = "docs-foundation".to_string();
    let dst = "foundations/docs-engine".to_string();

    // File inside src being moved
    write_file(&mut disk, "docs-foundation/guide.md", "# Guide\n");

    // External file with html href pointing into src
    write_file(&mut disk,
        "README.md",
        r#"See <a href="docs-foundation/guide.md">Guide</a>."#,
    );

    let workspace_files = vec![
        "docs-foundation/guide.md".to_string(),
        "README.md".to_string(),
    ];

    let plan = plan_in(&disk, &src, &dst, &workspace_files);

    let href_entries: Vec<_> = plan
        .entries
        .iter()
        .filter(|e| e.old_text.starts_with("href="))
        .collect();
    assert_eq!(href_entries.len(), 1, "expected 1 HtmlHref rewrite entry");
    assert_eq!(href_entries[0].file, "README.md");
    assert!(
        href_entries[0]
            .old_text
            .contains("docs-foundation/guide.md"),
        "old_text must contain old path, got: {}",
        href_entries[0].old_text
    );
    assert!(
        href_entries[0]
            .new_text
            .contains("foundations/docs-engine/guide.md"),
        "new_text must contain new path, got: {}",
        href_entries[0].new_text
    );
}

/// Gap 1 — partial-path directory ref: external file with `projects/os-council/`
/// (guild-relative partial path) is matched and rewritten during the move of
/// `accelmars-guild/projects/os-council` → `accelmars-guild/councils/os-council`.
#[test]
fn test_partial_backtick_directory_ref_matched() {
    let mut disk: Vec<(String, String)> = Vec::new();

    let src = "accelmars-guild/projects/os-council".to_string();
    let dst = "accelmars-guild/councils/os-council".to_string();

    write_file(&mut disk, "accelmars-guild/projects/os-council/README.md", "# OS Council\n");
    write_file(&mut disk,
        "accelmars-guild/projects/accelmars-gtm/proposals/MKT-039.md",
        "See `projects/os-council/` for decisions.\n",
    );

    let workspace_files = vec![
        "accelmars-guild/projects/os-council/README.md".to_string(),
        "accelmars-guild/projects/accelmars-gtm/proposals/MKT-039.md".to_string(),
    ];

    let plan = plan_in(&disk, &src, &dst, &workspace_files);

    let bt: Vec<_> = plan.entries.iter().filter(|e| e.old_text.starts_with('`')).collect();
    assert_eq!(bt.len(), 1, "expected 1 partial-path backtick entry, got: {:?}", plan.entries);
    assert_eq!(bt[0].old_text, "`projects/os-council/`");
    assert_eq!(bt[0].new_text, "`councils/os-council/`");
}

/// Gap 1 — partial-path file ref: `projects/os-council/decisions/foo.md` is matched and
/// rewritten to `councils/os-council/decisions/foo.md`.
#[test]
fn test_partial_backtick_file_ref_matched() {
    let mut disk: Vec<(String, String)> = Vec::new();

    let src = "accelmars-guild/projects/os-council".to_string();
    let dst = "accelmars-guild/councils/os-council".to_string();

    write_file(&mut disk,
        "accelmars-guild/projects/os-council/decisions/foo.md",
        "# Decision\n",
    );
    write_file(&mut disk,
        "accelmars-guild/projects/accelmars-gtm/STATUS.md",
        "See `projects/os-council/decisions/foo.md` for context.\n",
    );

    let workspace_files = vec![
        "accelmars-guild/projects/os-council/decisions/foo.md".to_string(),
        "accelmars-guild/projects/accelmars-gtm/STATUS.md".to_string(),
    ];

    let plan = plan_in(&disk, &src, &dst, &workspace_files);

    let bt: Vec<_> = plan.entries.iter().filter(|e| e.old_text.starts_with('`')).collect();
    assert_eq!(bt.len(), 1, "expected 1 partial-path file ref entry, got: {:?}", plan.entries);
    assert_eq!(bt[0].old_text, "`projects/os-council/decisions/foo.md`");
    assert_eq!(bt[0].new_text, "`councils/os-council/decisions/foo.md`");
}

/// Gap 1 — unrelated partial path: `projects/other-dir/foo.md` must NOT be matched when
/// moving `accelmars-guild/projects/os-council`.
#[test]
fn test_partial_backtick_unrelated_path_not_matched() {
    let mut disk: Vec<(String, String)> = Vec::new();

    let src = "accelmars-guild/projects/os-council".to_string();
    let dst = "accelmars-guild/councils/os-council".to_string();

    write_file(&mut disk, "accelmars-guild/projects/os-council/README.md", "# OS Council\n");
    write_file(&mut disk,
        "docs/overview.md",
        "See `projects/other-dir/foo.md` for more.\n",
    );

    let workspace_files = vec![
        "accelmars-guild/projects/os-council/README.md".to_string(),
        "docs/overview.md".to_string(),
    ];

    let plan = plan_in(&disk, &src, &dst, &workspace_files);

    let bt: Vec<_> = plan.entries.iter().filter(|e| e.old_text.starts_with('`')).collect();
    assert!(
        bt.is_empty(),
        "unrelated partial path must not produce entry, got: {:?}",
        bt
    );
}

/// Gap 2: external file with `$(anchor root)/src-dir/` backtick ref → matched and rewritten with prefix preserved.
#[test]
fn test_anchor_root_prefix_external_dir_ref() {
    let mut disk: Vec<(String, String)> = Vec::new();

    let src = "accelmars-guild/projects/os-council".to_string();
    let dst = "accelmars-guild/councils/os-council".to_string();

    write_file(&mut disk, "accelmars-guild/projects/os-council/README.md", "# OS Council\n");
    write_file(&mut disk,
        "accelmars-guild/projects/accelmars-gtm/proposals/MKT-144.md",
        "See `$(anchor root)/accelmars-guild/projects/os-council/` for decisions.\n",
    );

    let workspace_files = vec![
        "accelmars-guild/projects/os-council/README.md".to_string(),
        "accelmars-guild/projects/accelmars-gtm/proposals/MKT-144.md".to_string(),
    ];

    let plan = plan_in(&disk, &src, &dst, &workspace_files);

    let bt: Vec<_> = plan.entries.iter().filter(|e| e.old_text.starts_with('`')).collect();
    assert_eq!(bt.len(), 1, "expected 1 $(anchor root)/ dir ref entry, got: {:?}", plan.entries);
    assert_eq!(
        bt[0].old_text,
        "`$(anchor root)/accelmars-guild/projects/os-council/`"
    );
    assert_eq!(
        bt[0].new_text,
        "`$(anchor root)/accelmars-guild/councils/os-council/`"
    );
}

/// Gap 2: external file with `$(anchor root)/src-dir/sub/file.md` backtick ref → rewritten, prefix preserved.
#[test]
fn test_anchor_root_prefix_external_file_ref() {
    let mut disk: Vec<(String, String)> = Vec::new();

    let src = "accelmars-guild/projects/os-council".to_string();
    let dst = "accelmars-guild/councils/os-council".to_string();

    write_file(&mut disk,
        "accelmars-guild/projects/os-council/decisions/foo.md",
        "# Decision\n",
    );
    write_file(&mut disk,
        "accelmars-guild/contracts/SKW-002.md",
        "start_dir: `$(anchor root)/accelmars-guild/projects/os-council/decisions/foo.md`\n",
    );

    let workspace_files = vec![
        "accelmars-guild/projects/os-council/decisions/foo.md".to_string(),
        "accelmars-guild/contracts/SKW-002.md".to_string(),
    ];

    let plan = plan_in(&disk, &src, &dst, &workspace_files);

    let bt: Vec<_> = plan.entries.iter().filter(|e| e.old_text.starts_with('`')).collect();
    assert_eq!(bt.len(), 1, "expected 1 $(anchor root)/ file ref entry, got: {:?}", plan.entries);
    assert_eq!(
        bt[0].old_text,
        "`$(anchor root)/accelmars-guild/projects/os-council/decisions/foo.md`"
    );
    assert_eq!(
        bt[0].new_text,
        "`$(anchor root)/accelmars-guild/councils/os-council/decisions/foo.md`"
    );
}

/// Gap 5: file INSIDE moved dir with `$(anchor root)/` self-ref → rewritten (Case C inverted for absolute refs).
#[test]
fn test_anchor_root_prefix_internal_self_ref() {
    let mut disk: Vec<(String, String)> = Vec::new();

    let src = "accelmars-guild/projects/skill-council".to_string();
    let dst = "accelmars-guild/councils/skill-council".to_string();

    write_file(&mut disk,
        "accelmars-guild/projects/skill-council/contracts/SKW-002.md",
        "start_dir: `$(anchor root)/accelmars-guild/projects/skill-council/proposals`\n",
    );

    let workspace_files = vec![
        "accelmars-guild/projects/skill-council/contracts/SKW-002.md".to_string(),
    ];

    let plan = plan_in(&disk, &src, &dst, &workspace_files);

    let bt: Vec<_> = plan.entries.iter().filter(|e| e.old_text.starts_with('`')).collect();
    assert_eq!(
        bt.len(),
        1,
        "expected 1 internal self-ref entry (Gap 5), got: {:?}",
        plan.entries
    );
    assert_eq!(
        bt[0].old_text,
        "`$(anchor root)/accelmars-guild/projects/skill-council/proposals`"
    );
    assert_eq!(
        bt[0].new_text,
        "`$(anchor root)/accelmars-guild/councils/skill-council/proposals`"
    );
}

/// Gap 3: external file with `../os-council/decisions/foo.md` in backtick → matched and
/// rewritten to a depth-adjusted relative path after the os-council dir moves.
#[test]
fn test_relative_backtick_external_file_matched_and_rewritten() {
    let mut disk: Vec<(String, String)> = Vec::new();

    let src = "accelmars-guild/projects/os-council".to_string();
    let dst = "accelmars-guild/councils/os-council".to_string();

    write_file(&mut disk,
        "accelmars-guild/projects/os-council/decisions/foo.md",
        "# Decision\n",
    );
    // External file (sibling of os-council under projects/) with relative backtick ref.
    // From accelmars-guild/projects/accelmars-gtm/GUIDE.md, `../os-council/decisions/foo.md`
    // resolves to accelmars-guild/projects/os-council/decisions/foo.md (inside src).
    write_file(&mut disk,
        "accelmars-guild/projects/accelmars-gtm/GUIDE.md",
        "Path: `../os-council/decisions/foo.md`\n",
    );

    let workspace_files = vec![
        "accelmars-guild/projects/os-council/decisions/foo.md".to_string(),
        "accelmars-guild/projects/accelmars-gtm/GUIDE.md".to_string(),
    ];

    let plan = plan_in(&disk, &src, &dst, &workspace_files);

    let bt: Vec<_> = plan.entries.iter().filter(|e| e.old_text.starts_with('`')).collect();
    assert_eq!(bt.len(), 1, "expected 1 relative backtick entry (Gap 3), got: {:?}", plan.entries);
    assert_eq!(bt[0].file, "accelmars-guild/projects/accelmars-gtm/GUIDE.md");
    assert_eq!(bt[0].old_text, "`../os-council/decisions/foo.md`");
    // After move: source stays at accelmars-guild/projects/accelmars-gtm/GUIDE.md,
    // target moves to accelmars-guild/councils/os-council/decisions/foo.md.
    // New relative: ../../councils/os-council/decisions/foo.md
    assert_eq!(bt[0].new_text, "`../../councils/os-council/decisions/foo.md`");
}

/// Gap 3: relative backtick dir ref `../os-council/` → matched and rewritten with trailing slash preserved.
#[test]
fn test_relative_backtick_dir_ref_trailing_slash_preserved() {
    let mut disk: Vec<(String, String)> = Vec::new();

    let src = "accelmars-guild/projects/os-council".to_string();
    let dst = "accelmars-guild/councils/os-council".to_string();

    write_file(&mut disk, "accelmars-guild/projects/os-council/README.md", "# OS Council\n");
    write_file(&mut disk,
        "accelmars-guild/projects/accelmars-gtm/STATUS.md",
        "Council dir: `../os-council/`\n",
    );

    let workspace_files = vec![
        "accelmars-guild/projects/os-council/README.md".to_string(),
        "accelmars-guild/projects/accelmars-gtm/STATUS.md".to_string(),
    ];

    let plan = plan_in(&disk, &src, &dst, &workspace_files);

    let bt: Vec<_> = plan.entries.iter().filter(|e| e.old_text.starts_with('`')).collect();
    assert_eq!(bt.len(), 1, "expected 1 relative dir ref entry (Gap 3), got: {:?}", plan.entries);
    assert_eq!(bt[0].old_text, "`../os-council/`");
    assert_eq!(bt[0].new_text, "`../../councils/os-council/`");
}

/// Gap 3 negative: relative backtick ref that resolves to a path NOT inside src → no entry.
#[test]
fn test_relative_backtick_resolves_outside_src_no_entry() {
    let mut disk: Vec<(String, String)> = Vec::new();

    let src = "accelmars-guild/projects/os-council".to_string();
    let dst = "accelmars-guild/councils/os-council".to_string();

    write_file(&mut disk, "accelmars-guild/projects/os-council/README.md", "# OS\n");
    write_file(&mut disk,
        "accelmars-guild/projects/accelmars-gtm/GUIDE.md",
        "Other: `../other-project/docs.md`\n",
    );

    let workspace_files = vec![
        "accelmars-guild/projects/os-council/README.md".to_string(),
        "accelmars-guild/projects/accelmars-gtm/GUIDE.md".to_string(),
    ];

    let plan = plan_in(&disk, &src, &dst, &workspace_files);

    let bt: Vec<_> = plan.entries.iter().filter(|e| e.old_text.starts_with('`')).collect();
    assert!(
        bt.is_empty(),
        "relative backtick resolving outside src must not produce entry, got: {:?}",
        bt
    );
}

/// Gap 2 negative: unrelated `$(anchor root)/` path must not match when moving a different src.
#[test]
fn test_anchor_root_prefix_unrelated_path_not_matched() {
    let mut disk: Vec<(String, String)> = Vec::new();

    let src = "accelmars-guild/projects/os-council".to_string();
    let dst = "accelmars-guild/councils/os-council".to_string();

    write_file(&mut disk, "accelmars-guild/projects/os-council/README.md", "# OS Council\n");
    write_file(&mut disk,
        "docs/overview.md",
        "See `$(anchor root)/accelmars-guild/projects/other-project/` for details.\n",
    );

    let workspace_files = vec![
        "accelmars-guild/projects/os-council/README.md".to_string(),
        "docs/overview.md".to_string(),
    ];

    let plan = plan_in(&disk, &src, &dst, &workspace_files);

    let bt: Vec<_> = plan.entries.iter().filter(|e| e.old_text.starts_with('`')).collect();
    assert!(
        bt.is_empty(),
        "unrelated $(anchor root)/ path must not produce entry, got: {:?}",
        bt
    );
}

#[test]
fn plan_reads_skips_vanished_files_and_stops_on_other_errors() {

    let src = "b.md".to_string();
    let dst = "d/b.md".to_string();
    let files = vec!["a.md".to_string(), "b.md".to_string(), "c.md".to_string()];
    let failed = plan_reads(
        &src,
        &dst,
        &files,
        vec![FileRead::Text("[x](b.md)\n".to_string()), FileRead::Vanished, FileRead::Failed("denied".to_string())],
    );
    assert_eq!(failed.unwrap_err(), "denied");
    let ok = plan_reads(
        &src,
        &dst,
        &files,
        vec![FileRead::Text("[x](b.md)\n".to_string()), FileRead::Text("# B\n".to_string()), FileRead::Vanished],
    )
    .unwrap();
    assert_eq!(ok.entries.len(), 1);
    assert_eq!(ok.entries[0].file, "a.md");
    assert_eq!(ok.entries[0].new_text, "[x](d/b.md)");
}
