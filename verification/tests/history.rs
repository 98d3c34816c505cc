use envhist::history::{
    contains_text, entry_passes, log_line, matches_since, parse_number, show_line, status_line, to_chars,
};
use envhist::session::Timestamp;
use envhist::storage::Action;
use envhist::{EnvDiff, TimelineEntry};

fn entry(action: Action, key: &str, value: Option<&str>, prev: Option<&str>) -> TimelineEntry {
    TimelineEntry {
        timestamp: Timestamp::new(0, 0),
        action,
        key: key.to_string(),
        value: value.map(|v| v.to_string()),
        prev: prev.map(|p| p.to_string()),
    }
}

#[test]
fn to_chars_gives_the_characters() {
    assert_eq!(to_chars("aé日"), vec!['a', 'é', '日']);
    assert_eq!(to_chars(""), Vec::<char>::new());
}

#[test]
fn contains_text_finds_parts() {
    assert!(contains_text("1 hour ago", "hour"));
    assert!(contains_text("hours", "hour"));
    assert!(contains_text("hour", "hour"));
    assert!(!contains_text("hou", "hour"));
    assert!(!contains_text("h o u r", "hour"));
    assert!(contains_text("anything", ""));
    assert!(contains_text("", ""));
    assert!(!contains_text("", "x"));
    assert!(contains_text("aab", "ab"));
    assert!(contains_text("xxday", "day"));
    assert!(!contains_text("Day", "day"));
}

#[test]
fn contains_text_agrees_with_the_standard_library() {
    let words = ["", "a", "ab", "ba", "aab", "aba", "abab", "bbb", "日本", "本"];
    for whole in words {
        for part in words {
            assert_eq!(contains_text(whole, part), whole.contains(part));
        }
    }
}

#[test]
fn parse_number_reads_the_digits_at_the_start() {
    assert_eq!(parse_number("1 hour ago"), Some(1));
    assert_eq!(parse_number("12days"), Some(12));
    assert_eq!(parse_number("007"), Some(7));
    assert_eq!(parse_number("0"), Some(0));
    assert_eq!(parse_number("4294967295"), Some(4294967295));
    assert_eq!(parse_number("4294967296"), None);
    assert_eq!(parse_number("99999999999999999999999 hours"), None);
    assert_eq!(parse_number(""), None);
    assert_eq!(parse_number("hour"), None);
    assert_eq!(parse_number(" 1 hour"), None);
    assert_eq!(parse_number("+1"), None);
    assert_eq!(parse_number("-1"), None);
    assert_eq!(parse_number("3.5"), Some(3));
}

#[test]
fn matches_since_counts_hours_or_days() {
    assert!(matches_since(0, 0, "1 hour ago"));
    assert!(!matches_since(1, 0, "1 hour ago"));
    assert!(matches_since(47, 1, "48 hours"));
    assert!(!matches_since(48, 2, "48 hours"));
    assert!(matches_since(30, 1, "2 days ago"));
    assert!(!matches_since(48, 2, "2 days ago"));
    assert!(matches_since(-5, 0, "1 hour ago"));
}

#[test]
fn matches_since_falls_back_to_a_day() {
    // neither hours nor days
    assert!(matches_since(23, 0, "yesterday"));
    assert!(!matches_since(24, 1, "yesterday"));
    assert!(matches_since(23, 0, ""));
    // hours or days without a number at the start
    assert!(matches_since(23, 0, "an hour ago"));
    assert!(!matches_since(24, 1, "an hour ago"));
    assert!(!matches_since(24, 1, "a day ago"));
    // hours come before days
    assert!(matches_since(2, 0, "3 hours of the day"));
    assert!(!matches_since(3, 0, "3 hours of the day"));
    // a word for hours without a number does not fall through to days
    assert!(matches_since(23, 5, "hour 9 days"));
    assert!(!matches_since(24, 0, "hour 9 days"));
}

#[test]
fn entry_passes_when_recent_and_named() {
    let e = entry(Action::SetVar, "MY_VAR", Some("1"), None);
    assert!(entry_passes(&e, true, None));
    assert!(!entry_passes(&e, false, None));
    assert!(entry_passes(&e, true, Some("VAR")));
    assert!(entry_passes(&e, true, Some("")));
    assert!(!entry_passes(&e, true, Some("var")));
    assert!(!entry_passes(&e, false, Some("VAR")));
}

#[test]
fn log_lines_show_action_name_value_and_the_value_before() {
    assert_eq!(
        log_line("2024-01-02 03:04:05", &entry(Action::SetVar, "FOO", Some("baz"), Some("bar"))),
        "[2024-01-02 03:04:05] SET FOO  = baz (was: bar)"
    );
    assert_eq!(log_line("t", &entry(Action::SetVar, "FOO", Some("bar"), None)), "[t] SET FOO  = bar");
    assert_eq!(log_line("t", &entry(Action::Unset, "FOO", None, Some("bar"))), "[t] UNSET FOO  (was: bar)");
    assert_eq!(log_line("t", &entry(Action::Unset, "FOO", None, None)), "[t] UNSET FOO ");
}

#[test]
fn show_lines_leave_the_name_out() {
    assert_eq!(
        show_line("2024-01-02 03:04:05", &entry(Action::SetVar, "FOO", Some("baz"), Some("bar"))),
        "  [2024-01-02 03:04:05] SET  = baz (was: bar)"
    );
    assert_eq!(show_line("t", &entry(Action::Unset, "FOO", None, None)), "  [t] UNSET ");
}

#[test]
fn status_lines_show_what_changed() {
    assert_eq!(
        status_line(&EnvDiff::Added { key: "A".to_string(), value: "1".to_string() }),
        Some("+ A: 1".to_string())
    );
    assert_eq!(
        status_line(&EnvDiff::Removed { key: "B".to_string(), old_value: "2".to_string() }),
        Some("- B: 2".to_string())
    );
    assert_eq!(
        status_line(&EnvDiff::Changed {
            key: "C".to_string(),
            old_value: "3".to_string(),
            new_value: "4".to_string()
        }),
        Some("~ C: 3 -> 4".to_string())
    );
    assert_eq!(status_line(&EnvDiff::Unchanged { key: "D".to_string(), value: "5".to_string() }), None);
}
