use anchor::doc_values::{get_str, has_key};
use anchor::fm_add::add_required;
use anchor::fm_schema::SchemaRules;

fn schema() -> SchemaRules {
    SchemaRules {
        base_required: vec![],
        properties: vec![],
        type_conditionals: vec![
            ("analysis".to_string(), vec!["depends_on".to_string(), "id".to_string()]),
            ("eval".to_string(), vec!["pass_status".to_string()]),
            ("workflow".to_string(), vec!["entry_point".to_string()]),
        ],
        synonyms: vec![],
        canonical_key_order: vec![],
    }
}

fn ok(path: &str, text: &str) -> (String, Result<String, String>) {
    (path.to_string(), Ok(text.to_string()))
}

#[test]
fn add_required_without_auto_stops_at_first_typed_file() {
    let files = vec![
        ("gone.md".to_string(), Err("No such file".to_string())),
        ok("plain.md", "# no frontmatter\n"),
        ok("a.md", "---\ntype: analysis\n---\nbody\n"),
        ("later.md".to_string(), Err("denied".to_string())),
    ];
    let run = add_required(false, &files, &schema());
    assert_eq!(run.exit_code, 1);
    assert_eq!(
        run.errors,
        vec![
            "error reading gone.md: No such file".to_string(),
            "hint: use --auto to apply safe defaults, or --interactive for prompts".to_string(),
        ]
    );
    assert!(run.changes.is_empty());
}

#[test]
fn add_required_aborts_when_a_file_cannot_be_read() {
    let files = vec![ok("a.md", "---\ntype: eval\n---\n"), ("b.md".to_string(), Err("denied".to_string()))];
    let run = add_required(true, &files, &schema());
    assert_eq!(run.exit_code, 1);
    assert_eq!(
        run.errors,
        vec!["error reading b.md: denied".to_string(), "error: 1 file(s) could not be read \u{2014} aborting".to_string()]
    );
    assert!(run.changes.is_empty() && run.report.is_empty() && run.summary.is_empty());
}

#[test]
fn add_required_fills_safe_defaults_and_reports_gaps() {
    let files = vec![
        ok("a.md", "---\ntype: analysis\ntitle: A\n---\nbody\n"),
        ok("b.md", "---\ntitle: untyped\n---\n"),
        ok("e.md", "---\ntype: eval\nschema_version: 2\n---\n"),
        ok("w.md", "---\ntype: workflow\nentry_point: run.sh\n---\n"),
    ];
    let run = add_required(true, &files, &schema());
    assert_eq!(run.exit_code, 0);
    assert!(run.errors.is_empty());
    let paths: Vec<&str> = run.changes.iter().map(|c| c.path.as_str()).collect();
    assert_eq!(paths, vec!["a.md", "e.md", "w.md"]);
    let a = &run.changes[0];
    assert_eq!(a.body, "body\n");
    assert!(has_key(&a.frontmatter, "schema_version"));
    assert!(has_key(&a.frontmatter, "depends_on"));
    assert_eq!(a.gaps, vec!["id".to_string()]);
    let e = &run.changes[1];
    assert_eq!(get_str(&e.frontmatter, "pass_status"), Some("NOT_RUN"));
    assert!(e.gaps.is_empty());
    assert!(run.changes[2].gaps.is_empty());
    assert_eq!(
        run.report,
        vec![
            "GAP REPORT \u{2014} fields requiring human judgment (not auto-filled):".to_string(),
            "  a.md".to_string(),
            "    'id' \u{2014} non-deterministic; provide manually".to_string(),
            "".to_string(),
        ]
    );
    assert_eq!(
        run.summary,
        vec![
            "\u{2713} add-required: updated 3 file(s).".to_string(),
            "  1 file(s) have non-deterministic fields requiring manual entry.".to_string(),
        ]
    );
}

#[test]
fn add_required_with_nothing_typed_updates_nothing() {
    let files = vec![ok("plain.md", "text\n")];
    let run = add_required(false, &files, &schema());
    assert_eq!(run.exit_code, 0);
    assert!(run.report.is_empty());
    assert_eq!(run.summary, vec!["\u{2713} add-required: updated 0 file(s).".to_string()]);
}
