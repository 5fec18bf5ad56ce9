use m87::format::{format_log, pad_cell, strip_ansi, truncate_str, visible_len};

const RESET: &str = "\x1b[0m";
const CYAN: &str = "\x1b[36m";
const WHITE: &str = "\x1b[37m";

#[test]
fn test_format_log_with_ansi() {
    let result = format_log("myapp", "Hello world", true);
    // Should contain ANSI escape codes
    assert!(result.contains(CYAN));
    assert!(result.contains(WHITE));
    assert!(result.contains(RESET));
    // Should still contain the content
    assert!(result.contains("myapp"));
    assert!(result.contains("Hello world"));
}

#[test]
fn test_format_log_trims_trailing_newline() {
    let result = format_log("src", "message\n", false);
    assert!(result.ends_with("message"));
    assert!(!result.ends_with("message\n"));

    // Multiple newlines - only trailing ones trimmed
    let result = format_log("src", "line1\nline2\n", false);
    assert!(result.contains("line1\nline2"));
    assert!(!result.ends_with('\n'));
}

#[test]
fn test_format_log_empty_message() {
    let result = format_log("src", "", false);
    assert!(result.contains("src: "));
}

#[test]
fn test_format_log_empty_source() {
    let result = format_log("", "message", false);
    assert!(result.contains(": message"));
}

#[test]
fn test_strip_ansi_removes_color_codes() {
    let colored = format!("{CYAN}hello{RESET} world");
    assert_eq!(strip_ansi(&colored), "hello world");
    assert_eq!(strip_ansi("plain"), "plain");
}

#[test]
fn test_visible_len_ignores_color_codes() {
    let colored = format!("{CYAN}online{RESET}");
    assert_eq!(visible_len(&colored), 6);
    assert_eq!(visible_len("abc"), 3);
}

#[test]
fn test_pad_cell_aligns_colored_text() {
    let colored = format!("{CYAN}ok{RESET}");
    let padded = pad_cell(&colored, 5);
    assert_eq!(visible_len(&padded), 5);
    let wide = pad_cell("abcdef", 3);
    assert_eq!(wide, "abcdef");
}

#[test]
fn test_truncate_str_adds_dots() {
    assert_eq!(truncate_str("abcdefgh", 5), "ab...");
    assert_eq!(truncate_str("abc", 5), "abc");
}
