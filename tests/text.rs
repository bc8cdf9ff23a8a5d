use browser_use::text::{decimal, trim_text, truncate_text};

#[test]
fn trims_unicode_whitespace() {
    assert_eq!(trim_text("  a b \t\n"), "a b");
    assert_eq!(trim_text("\u{3000}x\u{a0}"), "x");
    assert_eq!(trim_text("   "), "");
    assert_eq!(trim_text(""), "");
}

#[test]
fn truncates_by_characters() {
    assert_eq!(truncate_text("abcdef", 5), "ab...");
    assert_eq!(truncate_text("abcde", 5), "abcde");
    assert_eq!(truncate_text("ééééééé", 6), "ééé...");
}

#[test]
fn decimal_notation() {
    assert_eq!(decimal(0), "0");
    assert_eq!(decimal(7), "7");
    assert_eq!(decimal(10), "10");
    assert_eq!(decimal(4096), "4096");
    assert_eq!(decimal(usize::MAX), usize::MAX.to_string());
}
