use gader::common::{str_trim, LogEntry};
use gader::ui::{decimal_string, level_style, truncate, try_truncate, LevelColor};

#[test]
fn display_string_formats_all_fields() {
    let e = LogEntry {
        service: "immich".to_string(),
        timestamp: "2024-02-28 12:00".to_string(),
        level: "INFO".to_string(),
        context: "Context".to_string(),
        message: "Message".to_string(),
    };
    assert_eq!(e.to_display_string(), "[2024-02-28 12:00] [IMMICH] [INFO] (Context) Message");
}

#[test]
fn display_string_uses_unicode_upper_case() {
    let e = LogEntry {
        service: "straße".to_string(),
        timestamp: "t".to_string(),
        level: "WARN".to_string(),
        context: "".to_string(),
        message: "m".to_string(),
    };
    assert_eq!(e.to_display_string(), "[t] [STRASSE] [WARN] () m");
}

#[test]
fn duplicate_is_equal() {
    let e = LogEntry {
        service: "s".to_string(),
        timestamp: "t".to_string(),
        level: "l".to_string(),
        context: "c".to_string(),
        message: "m".to_string(),
    };
    assert_eq!(e.duplicate(), e);
}

#[test]
fn level_colours() {
    assert_eq!(level_style("ERROR"), LevelColor::Red);
    assert_eq!(level_style("FATAL"), LevelColor::Red);
    assert_eq!(level_style("WARN"), LevelColor::Yellow);
    assert_eq!(level_style("INFO"), LevelColor::Green);
    assert_eq!(level_style("DEBUG"), LevelColor::Blue);
    assert_eq!(level_style("TRACE"), LevelColor::White);
    assert_eq!(level_style("error"), LevelColor::White);
}

#[test]
fn truncate_trims_and_keeps_short_text() {
    assert_eq!(truncate("  hello world \n", 80), "hello world");
    assert_eq!(truncate("exactly10!", 10), "exactly10!");
}

#[test]
fn truncate_cuts_long_text_with_ellipsis() {
    assert_eq!(truncate("abcdefghijk", 10), "abcdefg...");
    assert_eq!(truncate(" ééééé ", 4), "é...");
    assert_eq!(truncate("abcd", 3), "...");
}

#[test]
fn try_truncate_refuses_only_when_no_room() {
    assert_eq!(try_truncate("abcdef", 2), None);
    assert_eq!(try_truncate("ab", 2), Some("ab".to_string()));
    assert_eq!(try_truncate("  abcdef  ", 5), Some("ab...".to_string()));
}

#[test]
fn decimal_notation() {
    assert_eq!(decimal_string(0), "0");
    assert_eq!(decimal_string(7), "7");
    assert_eq!(decimal_string(10), "10");
    assert_eq!(decimal_string(1234567890), "1234567890");
    assert_eq!(decimal_string(usize::MAX), usize::MAX.to_string());
}

#[test]
fn trim_removes_unicode_white_space_only() {
    assert_eq!(str_trim("\u{3000}\t x y \u{2003}\u{85}"), "x y");
    assert_eq!(str_trim("   "), "");
    assert_eq!(str_trim(""), "");
    // a zero-width space is not white space
    assert_eq!(str_trim("\u{200B}a\u{200B}"), "\u{200B}a\u{200B}");
    for s in ["  a b  ", "\u{A0}x\u{1680}", "\r\n z \u{2028}", "\u{200B} q"] {
        assert_eq!(str_trim(s), s.trim());
    }
}

#[test]
fn truncating_twice_is_truncating_once() {
    for s in ["  hello world  ", "abcdefghijklmnop", " ab ", "xyz    "] {
        for max in [3usize, 4, 5, 10, 80] {
            let once = truncate(s, max);
            assert_eq!(truncate(&once, max), once);
        }
    }
}
