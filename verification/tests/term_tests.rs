use tasktrack::term::display_width;
use tasktrack::term::strip_ansi;
use tasktrack::term::truncate_to_width;
use tasktrack::term::LineFormatter;

#[test]
fn test_strip_ansi_no_codes() {
    assert_eq!(strip_ansi("hello"), "hello");
}

#[test]
fn test_strip_ansi_with_codes() {
    // Red text: ESC[31m ... ESC[0m
    assert_eq!(strip_ansi("\x1b[31mred\x1b[0m"), "red");
}

#[test]
fn test_strip_ansi_bold() {
    // Bold: ESC[1m ... ESC[0m
    assert_eq!(strip_ansi("\x1b[1mbold\x1b[0m"), "bold");
}

#[test]
fn test_display_width_ascii() {
    assert_eq!(display_width("hello"), 5);
}

#[test]
fn test_display_width_with_ansi() {
    assert_eq!(display_width("\x1b[31mhello\x1b[0m"), 5);
}

#[test]
fn test_display_width_unicode() {
    // CJK characters are typically 2 columns wide
    assert_eq!(display_width("日本"), 4);
}

#[test]
fn test_truncate_short_string() {
    assert_eq!(truncate_to_width("hi", 10), "hi");
}

#[test]
fn test_truncate_exact_fit() {
    assert_eq!(truncate_to_width("hello", 5), "hello");
}

#[test]
fn test_truncate_needs_ellipsis() {
    assert_eq!(truncate_to_width("hello world", 8), "hello...");
}

#[test]
fn test_truncate_very_narrow() {
    assert_eq!(truncate_to_width("hello", 3), "...");
}

#[test]
fn test_line_formatter_no_truncation() {
    let fmt = LineFormatter::new(None);
    assert_eq!(fmt.truncate("hello world", 0), "hello world");
}

#[test]
fn test_line_formatter_with_width() {
    let fmt = LineFormatter::new(Some(20));
    assert_eq!(fmt.truncate("hello world", 10), "hello w...");
}

#[test]
fn test_line_formatter_prefix_too_large() {
    let fmt = LineFormatter::new(Some(20));
    // Prefix of 15 leaves only 5 chars, which is < 10 minimum
    assert_eq!(fmt.truncate("hello world", 15), "hello world");
}

#[test]
fn test_available_width() {
    let fmt = LineFormatter::new(Some(30));
    assert_eq!(fmt.available_width(5), Some(25));
    assert_eq!(fmt.available_width(21), None);
    assert_eq!(fmt.max_width(), Some(30));
}
