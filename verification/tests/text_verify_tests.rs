use anchor::commands::{Occurrence, VerifyArgs};
use anchor::find::do_find;
use anchor::text_verify::{allowlist, collect_violations, find_args_of, format_human, parse_allow_value};
use std::collections::BTreeSet;

fn workspace(files: &[(&str, &str)]) -> Vec<(String, String)> {
    files.iter().map(|(p, c)| (p.to_string(), c.to_string())).collect()
}

fn args(pattern: &str) -> VerifyArgs {
    VerifyArgs { pattern: pattern.to_string(), ..VerifyArgs::default() }
}

/// The occurrences of the verification's search and the indices of the violations.
fn check(ws: &[(String, String)], a: &VerifyArgs, from: Option<&str>) -> (Vec<Occurrence>, Vec<usize>) {
    let (allow, _warnings) = allowlist(from, &a.allow);
    let occurrences = do_find("/ws", &ws.to_vec(), &find_args_of(a)).unwrap();
    let violations = collect_violations(&occurrences, &allow);
    (occurrences, violations)
}

/// The exit status of a verification: 0 when clean, 1 when something remains.
fn exit_code(ws: &[(String, String)], a: &VerifyArgs) -> i32 {
    let (_, v) = check(ws, a, None);
    if v.is_empty() {
        0
    } else {
        1
    }
}

#[test]
fn allow_exempts_exact_line() {
    let ws = workspace(&[("a.md", "term\n"), ("b.md", "term\n")]);
    let mut one_allowed = args("term");
    one_allowed.allow = vec!["a.md:1".to_string()];
    assert_eq!(exit_code(&ws, &one_allowed), 1);

    let (occurrences, violations) = check(&ws, &one_allowed, None);
    assert_eq!(violations.len(), 1);
    assert_eq!(occurrences[violations[0]].file, "b.md");
    assert_eq!(occurrences[violations[0]].line, 1);

    let mut both_allowed = args("term");
    both_allowed.allow = vec!["a.md:1".to_string(), "b.md:1".to_string()];
    assert_eq!(exit_code(&ws, &both_allowed), 0);
}

#[test]
fn scope_parity() {
    let ws = workspace(&[
        ("a.md", "term here\n```\nterm hidden\n```\n"),
        ("b.txt", "term ignored\n"),
        ("c.md", "---\ntitle: term\n---\nbody term\n"),
    ]);
    let a = args("term");
    let (occurrences, violations) = check(&ws, &a, None);
    let find_set: BTreeSet<_> = occurrences.iter().map(|o| (o.file.clone(), o.line)).collect();
    let verify_set: BTreeSet<_> =
        violations.iter().map(|&i| (occurrences[i].file.clone(), occurrences[i].line)).collect();
    assert_eq!(find_set, verify_set);
    assert_eq!(verify_set.len(), 3);
}

#[test]
fn allow_from_file_parsed() {
    let ws = workspace(&[("a.md", "term\n"), ("b.md", "term\n")]);
    let a = args("term");
    let (occurrences, violations) = check(&ws, &a, Some("\na.md:1\n"));
    assert_eq!(violations.len(), 1);
    assert_eq!(occurrences[violations[0]].file, "b.md");
}

#[test]
fn malformed_allow_warns_not_fails() {
    let ws = workspace(&[("a.md", "term\n")]);
    let mut a = args("term");
    a.allow = vec!["garbage".to_string()];
    let (entries, warnings) = allowlist(None, &a.allow);
    assert!(entries.is_empty());
    assert_eq!(warnings, vec!["warning: invalid --allow value: garbage".to_string()]);
    assert_eq!(exit_code(&ws, &a), 1);
}

#[test]
fn respects_include_exclude_and_frontmatter() {
    let ws = workspace(&[("excluded.md", "term\n"), ("front.md", "---\ntitle: term\n---\nbody\n")]);
    let mut excluded = args("term");
    excluded.exclude = vec!["excluded.md".to_string()];
    excluded.include_frontmatter = false;
    assert_eq!(exit_code(&ws, &excluded), 0);

    let ws = workspace(&[("front.md", "---\ntitle: term\n---\nbody\n")]);
    let mut frontmatter = args("term");
    frontmatter.include_frontmatter = false;
    assert_eq!(exit_code(&ws, &frontmatter), 0);
}

#[test]
fn allow_values_split_at_the_last_colon() {
    assert_eq!(parse_allow_value("a:b.md:3"), Some(("a:b.md".to_string(), 3)));
    assert_eq!(parse_allow_value("a.md:0"), None);
    assert_eq!(parse_allow_value(":3"), None);
    assert_eq!(parse_allow_value("a.md"), None);
}

#[test]
fn human_report_lists_what_remains() {
    let ws = workspace(&[("a.md", "term\n")]);
    let a = args("term");
    let (occurrences, violations) = check(&ws, &a, None);
    let text = format_human("term", &occurrences, &violations, 0);
    assert_eq!(text, "  a.md:1: term\n✗ FAILED: 1 occurrence(s) of \"term\" remain (0 allow-listed)\n");
    let clean = format_human("term", &occurrences, &vec![], 1);
    assert_eq!(clean, "✓ verified: no remaining occurrences of \"term\" in scope (1 allow-listed)\n");
}

#[test]
fn verification_searches_without_context() {
    let mut a = args("x");
    a.regex = true;
    a.includes = vec!["docs/**".to_string()];
    let f = find_args_of(&a);
    assert_eq!(f.context, 0);
    assert!(f.regex);
    assert_eq!(f.includes, vec!["docs/**".to_string()]);
    assert_eq!(f.file_types, vec!["md".to_string()]);
}
