use anchor::plan_list::format_output;

#[test]
fn test_list_output_contains_header() {
    let output = format_output();
    assert!(output.contains("BUILT-IN TEMPLATES"));
}

#[test]
fn test_list_output_all_template_names() {
    let output = format_output();
    assert!(output.contains("batch-move"));
    assert!(output.contains("categorize"));
    assert!(output.contains("archive"));
    assert!(output.contains("rename"));
    assert!(output.contains("scaffold"));
}

#[test]
fn test_list_output_workspace_section() {
    let output = format_output();
    assert!(output.contains("WORKSPACE TEMPLATES (.accelmars/templates/)"));
    assert!(output.contains("  (none)"));
}

#[test]
fn test_list_output_user_section() {
    let output = format_output();
    assert!(output.contains("USER TEMPLATES (~/.config/anchor/templates/)"));
    assert!(output.contains("  (none)"));
}

#[test]
fn test_template_names() {
    let names: Vec<&str> = anchor::plan_list::templates().iter().map(|t| t.name).collect();
    assert_eq!(names, vec!["Batch Move", "Categorize", "Archive", "Rename", "Scaffold"]);
}
