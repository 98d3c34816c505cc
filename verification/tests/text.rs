use envhist::text::{is_blank, key_order, push_decimal, same_text, trim, KeyOrder};

#[test]
fn key_order_is_that_of_the_bytes() {
    assert_eq!(key_order("a", "b"), KeyOrder::Less);
    assert_eq!(key_order("b", "a"), KeyOrder::Greater);
    assert_eq!(key_order("abc", "abc"), KeyOrder::Equal);
    assert_eq!(key_order("", ""), KeyOrder::Equal);
    assert_eq!(key_order("", "a"), KeyOrder::Less);
    assert_eq!(key_order("ab", "abc"), KeyOrder::Less);
    assert_eq!(key_order("abc", "ab"), KeyOrder::Greater);
    assert_eq!(key_order("Z", "a"), KeyOrder::Less);
    assert_eq!(key_order("VAR10", "VAR2"), KeyOrder::Less);
    assert_eq!(key_order("é", "z"), KeyOrder::Greater);
}

#[test]
fn key_order_agrees_with_the_order_of_strings() {
    let words = ["", "A", "PATH", "PATHS", "Path", "_", "a", "ab", "b", "é", "日本"];
    for a in words {
        for b in words {
            let expected = match a.cmp(b) {
                std::cmp::Ordering::Less => KeyOrder::Less,
                std::cmp::Ordering::Equal => KeyOrder::Equal,
                std::cmp::Ordering::Greater => KeyOrder::Greater,
            };
            assert_eq!(key_order(a, b), expected);
        }
    }
}

#[test]
fn same_text_compares_whole_strings() {
    assert!(same_text("FOO", "FOO"));
    assert!(!same_text("FOO", "FOO "));
    assert!(!same_text("FOO", "foo"));
    assert!(same_text("", ""));
}

#[test]
fn trim_takes_white_space_off_both_ends() {
    assert_eq!(trim("  hello  "), "hello");
    assert_eq!(trim("hello"), "hello");
    assert_eq!(trim("\t{\"a\": 1}\r\n"), "{\"a\": 1}");
    assert_eq!(trim("a b"), "a b");
    assert_eq!(trim("  a  b  "), "a  b");
    assert_eq!(trim(""), "");
    assert_eq!(trim(" \n\t "), "");
    assert_eq!(trim("\u{a0}x\u{3000}"), "x");
    assert_eq!(trim(" é "), "é");
}

#[test]
fn trim_agrees_with_the_standard_library() {
    let samples = ["", " ", "x", " x", "x ", "\n", "a\nb", "  日本 語 \u{2003}", "\u{85}z", "_\u{200b}_"];
    for s in samples {
        assert_eq!(trim(s), s.trim());
        assert_eq!(is_blank(s), s.trim().is_empty());
    }
}

#[test]
fn blank_lines_are_white_space_only() {
    assert!(is_blank(""));
    assert!(is_blank("   "));
    assert!(is_blank("\r\n"));
    assert!(!is_blank(" . "));
    assert!(!is_blank("{}"));
}

#[test]
fn decimal_writes_numbers() {
    let cases: [(usize, &str); 8] = [
        (0, "0"),
        (7, "7"),
        (9, "9"),
        (10, "10"),
        (42, "42"),
        (100, "100"),
        (1234567890, "1234567890"),
        (4294967295, "4294967295"),
    ];
    for (n, text) in cases {
        let mut out = String::from("n=");
        push_decimal(&mut out, n);
        assert_eq!(out, format!("n={}", text));
    }
}
