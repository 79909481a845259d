use anchor::fence_state::FenceState;

fn fs() -> FenceState {
    FenceState::default()
}

#[test]
fn test_backtick_open_close() {
    let mut s = fs();
    s.observe_line("```");
    assert!(s.in_code_block());
    s.observe_line("content line");
    assert!(s.in_code_block());
    s.observe_line("```");
    assert!(!s.in_code_block());
}

#[test]
fn test_tilde_open_close() {
    let mut s = fs();
    s.observe_line("~~~");
    assert!(s.in_code_block());
    s.observe_line("~~~");
    assert!(!s.in_code_block());
}

#[test]
fn test_info_string_on_open() {
    let mut s = fs();
    s.observe_line("```bash");
    assert!(s.in_code_block());
    s.observe_line("```");
    assert!(!s.in_code_block());
}

#[test]
fn test_tilde_with_info_string() {
    let mut s = fs();
    s.observe_line("~~~rust");
    assert!(s.in_code_block());
    s.observe_line("~~~");
    assert!(!s.in_code_block());
}

#[test]
fn test_mismatched_markers_tilde_does_not_close_backtick() {
    let mut s = fs();
    s.observe_line("```");
    assert!(s.in_code_block());
    s.observe_line("~~~"); // tilde must NOT close a backtick fence
    assert!(s.in_code_block(), "tilde line must not close a backtick fence");
    s.observe_line("```"); // correct closer
    assert!(!s.in_code_block());
}

#[test]
fn test_mismatched_markers_backtick_does_not_close_tilde() {
    let mut s = fs();
    s.observe_line("~~~");
    assert!(s.in_code_block());
    s.observe_line("```"); // backtick must NOT close a tilde fence
    assert!(s.in_code_block(), "backtick line must not close a tilde fence");
    s.observe_line("~~~");
    assert!(!s.in_code_block());
}

#[test]
fn test_longer_close_closes_fence() {
    let mut s = fs();
    s.observe_line("```");   // 3-backtick opener
    assert!(s.in_code_block());
    s.observe_line("````");  // 4-backtick line: length ≥ 3 → closes
    assert!(!s.in_code_block(), "4-backtick line must close 3-backtick opener");
}

#[test]
fn test_shorter_close_does_not_close_fence() {
    let mut s = fs();
    s.observe_line("````");  // 4-backtick opener
    assert!(s.in_code_block());
    s.observe_line("```");   // 3-backtick line: length < 4 → does NOT close
    assert!(s.in_code_block(), "3-backtick line must not close 4-backtick opener");
    s.observe_line("````");  // correct closer
    assert!(!s.in_code_block());
}

#[test]
fn test_indented_fence_inside_list() {
    let mut s = fs();
    s.observe_line("    ```bash"); // 4-space indent (list item body)
    assert!(s.in_code_block());
    s.observe_line("    code here");
    assert!(s.in_code_block());
    s.observe_line("    ```"); // same indent → closes
    assert!(!s.in_code_block());
}

#[test]
fn test_two_space_indent_fence() {
    let mut s = fs();
    s.observe_line("  ```");
    assert!(s.in_code_block());
    s.observe_line("  ```");
    assert!(!s.in_code_block());
}

#[test]
fn test_crlf_open_close() {
    let mut s = fs();
    s.observe_line("```\r");
    assert!(s.in_code_block());
    s.observe_line("```\r");
    assert!(!s.in_code_block());
}

#[test]
fn test_crlf_with_info_string() {
    let mut s = fs();
    s.observe_line("```bash\r");
    assert!(s.in_code_block());
    s.observe_line("```\r");
    assert!(!s.in_code_block());
}

#[test]
fn test_two_backticks_not_a_fence() {
    let mut s = fs();
    s.observe_line("``");
    assert!(!s.in_code_block(), "two backticks are not a fence opener");
}

#[test]
fn test_sequential_fences() {
    let mut s = fs();
    // First block
    s.observe_line("```");
    assert!(s.in_code_block());
    s.observe_line("```");
    assert!(!s.in_code_block());
    // Second block
    s.observe_line("~~~");
    assert!(s.in_code_block());
    s.observe_line("~~~");
    assert!(!s.in_code_block());
}

#[test]
fn test_backtick_info_string_with_backtick_is_not_fence() {
    // Info string containing backtick → not a valid opening fence
    let mut s = fs();
    s.observe_line("``` `code`"); // info string contains backtick → invalid opener
    assert!(!s.in_code_block());
}

#[test]
fn closing_fence_allows_only_spaces_and_tabs_after_it() {
    let mut s = fs();
    s.observe_line("```rust");
    assert!(s.in_code_block());
    s.observe_line("``` x");
    assert!(s.in_code_block());
    s.observe_line("````\t \r");
    assert!(!s.in_code_block());
    s.observe_line("~~~~");
    s.observe_line("~~~");
    assert!(s.in_code_block());
    s.observe_line("   ~~~~~");
    assert!(!s.in_code_block());
    s.observe_line("``` a ` b");
    assert!(!s.in_code_block());
}

#[test]
fn test_closing_fence_followed_by_form_feed_closes() {
    let mut s = fs();
    s.observe_line("```");
    assert!(s.in_code_block());
    s.observe_line("```\u{c}");
    assert!(!s.in_code_block());
}

#[test]
fn test_closing_fence_followed_by_newline_closes() {
    let mut s = fs();
    s.observe_line("```\n");
    assert!(s.in_code_block());
    s.observe_line("```\n");
    assert!(!s.in_code_block());
}

#[test]
fn test_closing_fence_followed_by_text_stays_open() {
    let mut s = fs();
    s.observe_line("```");
    s.observe_line("``` x");
    assert!(s.in_code_block());
}
