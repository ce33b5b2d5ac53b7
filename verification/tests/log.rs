//! The log's lines.

use dextui::log::{format_line, is_oversized, resolve, stamped_line, CAP};

/// The area column is what makes the file skimmable; a ragged one is not.
#[test]
fn the_area_column_is_aligned() {
    let a = format_line("watch", "one");
    let b = format_line("registry", "two");
    let col = |s: &str| s.find("one").or_else(|| s.find("two")).unwrap();
    assert_eq!(col(&a), col(&b), "ragged columns:\n{a}\n{b}");
}

#[test]
fn a_line_holds_the_time_the_area_and_the_message() {
    assert_eq!(stamped_line("12:34:56", "dex", "listed"), "12:34:56  dex       listed\n");
    assert_eq!(stamped_line("12:34:56", "registry", "x"), "12:34:56  registry  x\n");
    assert_eq!(stamped_line("12:34:56", "longer-than-that", "x"), "12:34:56  longer-than-that  x\n");
    let now = format_line("dex", "listed");
    assert!(now.ends_with("  dex       listed\n"), "{now:?}");
    assert_eq!(now.find("  dex"), Some(8), "{now:?}");
    for (i, c) in now[..8].chars().enumerate() {
        assert!(if i == 2 || i == 5 { c == ':' } else { c.is_ascii_digit() }, "{now:?}");
    }
}

#[test]
fn only_a_log_past_the_cap_is_truncated() {
    assert!(!is_oversized(0));
    assert!(!is_oversized(CAP));
    assert!(is_oversized(CAP + 1));
}

#[test]
fn the_log_is_state_not_config() {
    assert_eq!(resolve(Some("/s"), None), Some("/s/dextui/log".to_string()));
    assert_eq!(
        resolve(Some(""), Some("/home/u")),
        Some("/home/u/.local/state/dextui/log".to_string())
    );
    assert_eq!(resolve(None, None), None);
}
