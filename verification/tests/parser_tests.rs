use anchor::model::RefForm;
use anchor::parser::parse_references;

fn src() -> String {
    "test/source.md".to_string()
}

#[test]
fn test_form1_basic() {
    let content = "[text](path.md)";
    let refs = parse_references(&src(), content);
    assert_eq!(refs.len(), 1);
    let r = &refs[0];
    assert_eq!(r.target_raw, "path.md");
    assert_eq!(r.form, RefForm::Standard);
    assert_eq!(r.anchor, None);
    assert_eq!(r.span, (0, content.len()));
    assert_eq!(&content[r.span.0..r.span.1], "[text](path.md)");
}

#[test]
fn test_form1_anchor() {
    let content = "[text](path.md#section)";
    let refs = parse_references(&src(), content);
    assert_eq!(refs.len(), 1);
    let r = &refs[0];
    assert_eq!(r.target_raw, "path.md");
    assert_eq!(r.anchor, Some("section".to_string()));
    assert_eq!(r.span, (0, content.len()));
}

#[test]
fn test_form1_external_url_skipped() {
    let content = "[text](https://example.com)";
    let refs = parse_references(&src(), content);
    assert_eq!(refs.len(), 0);
}

#[test]
fn test_form1_inside_backticks_skipped() {
    let content = "`[text](path.md)`";
    let refs = parse_references(&src(), content);
    assert_eq!(refs.len(), 0);
}

#[test]
fn test_form1_inside_fence_skipped() {
    let content = "```\n[text](path.md)\n```";
    let refs = parse_references(&src(), content);
    assert_eq!(refs.len(), 0);
}

#[test]
fn test_form1_relative_with_dotdot() {
    let content = "[text](../other/path.md)";
    let refs = parse_references(&src(), content);
    assert_eq!(refs.len(), 1);
    assert_eq!(refs[0].target_raw, "../other/path.md");
}

#[test]
fn test_form2_basic() {
    let content = "[[260405-decision]]";
    let refs = parse_references(&src(), content);
    assert_eq!(refs.len(), 1);
    let r = &refs[0];
    assert_eq!(r.target_raw, "260405-decision");
    assert_eq!(r.form, RefForm::Wiki);
    assert_eq!(r.anchor, None);
}

#[test]
fn test_form2_with_alias() {
    let content = "[[260405-decision|click here]]";
    let refs = parse_references(&src(), content);
    assert_eq!(refs.len(), 1);
    assert_eq!(refs[0].target_raw, "260405-decision");
}

#[test]
fn test_form2_md_extension_stripped() {
    let content = "[[path.md]]";
    let refs = parse_references(&src(), content);
    assert_eq!(refs.len(), 1);
    assert_eq!(refs[0].target_raw, "path");
}

#[test]
fn test_backtick_path_extracted() {
    let content = "See `gateway-foundation/` for details.";
    let refs = parse_references(&src(), content);
    let bt: Vec<_> = refs
        .iter()
        .filter(|r| r.form == RefForm::Backtick)
        .collect();
    assert_eq!(bt.len(), 1, "expected 1 Backtick ref, got: {}", bt.len());
    assert_eq!(bt[0].target_raw, "gateway-foundation");
    assert_eq!(bt[0].anchor, None);
}

#[test]
fn test_backtick_non_path_skipped() {
    let content = "Use `foo` as the key.";
    let refs = parse_references(&src(), content);
    let bt: Vec<_> = refs
        .iter()
        .filter(|r| r.form == RefForm::Backtick)
        .collect();
    assert_eq!(
        bt.len(),
        0,
        "backtick with no slash must not produce Backtick ref"
    );
}

#[test]
fn test_backtick_url_skipped() {
    let content = "See `https://example.com/path/` for more.";
    let refs = parse_references(&src(), content);
    let bt: Vec<_> = refs
        .iter()
        .filter(|r| r.form == RefForm::Backtick)
        .collect();
    assert_eq!(bt.len(), 0, "backtick URL must not produce Backtick ref");
}

#[test]
fn test_backtick_inside_fence_skipped() {
    let content = "```\nSee `gateway-foundation/` for details.\n```";
    let refs = parse_references(&src(), content);
    let bt: Vec<_> = refs
        .iter()
        .filter(|r| r.form == RefForm::Backtick)
        .collect();
    assert_eq!(
        bt.len(),
        0,
        "backtick path inside fence must not produce Backtick ref"
    );
}

#[test]
fn test_html_href_extracted() {
    let content = r#"<a href="docs-foundation/guide.md">Guide</a>"#;
    let refs = parse_references(&src(), content);
    let href_refs: Vec<_> = refs
        .iter()
        .filter(|r| r.form == RefForm::HtmlHref)
        .collect();
    assert_eq!(href_refs.len(), 1, "expected 1 HtmlHref ref");
    assert_eq!(href_refs[0].target_raw, "docs-foundation/guide.md");
    assert_eq!(href_refs[0].anchor, None);
}

#[test]
fn test_html_href_double_and_single_quotes() {
    let content =
        "<a href=\"path/a.md\">A</a> and <a href='path/b.md'>B</a>";
    let refs = parse_references(&src(), content);
    let href_refs: Vec<_> = refs
        .iter()
        .filter(|r| r.form == RefForm::HtmlHref)
        .collect();
    assert_eq!(href_refs.len(), 2, "expected 2 HtmlHref refs (double + single quote)");
    let targets: Vec<&str> = href_refs.iter().map(|r| r.target_raw.as_str()).collect();
    assert!(targets.contains(&"path/a.md"), "double-quote href must be extracted");
    assert!(targets.contains(&"path/b.md"), "single-quote href must be extracted");
}

#[test]
fn test_html_href_external_url_skipped() {
    let content = r#"<a href="https://example.com">External</a>"#;
    let refs = parse_references(&src(), content);
    let href_refs: Vec<_> = refs
        .iter()
        .filter(|r| r.form == RefForm::HtmlHref)
        .collect();
    assert_eq!(href_refs.len(), 0, "external URL href must not be extracted");
}
