use squillion::text::bytes_equal;
use squillion::text::appended;
use squillion::text::decimal;
use squillion::text::join;
use squillion::text::lines;
use squillion::text::split;
use squillion::text::strip_prefix;
use squillion::text::text_equal;
use squillion::text::trim_quotes;
use squillion::text::unquote;

#[test]
fn splitting_is_undone_by_joining() {
    for s in ["", "/", "a", "a/b", "/a//b/", "ä/ö/ü"] {
        let pieces = split(s, '/');
        let expected: Vec<&str> = s.split('/').collect();
        assert_eq!(pieces, expected);
        assert_eq!(join(&pieces, pieces.len(), '/'), s);
    }
}

#[test]
fn lines_end_with_line_feeds() {
    for s in ["", "a", "a\n", "a\r\nb", "\n\n", "a\rb\n\r\n", "x\r"] {
        let expected: Vec<&str> = s.lines().collect();
        assert_eq!(lines(s), expected);
    }
}

#[test]
fn numbers_in_digits() {
    for n in [0u64, 7, 10, 99, 1883, u64::MAX] {
        assert_eq!(decimal(n), n.to_string());
    }
}

#[test]
fn comparing_and_cutting() {
    assert!(text_equal("ä", "ä"));
    assert!(!text_equal("ä", "a"));
    assert!(bytes_equal(&[1, 2], &[1, 2]));
    assert!(!bytes_equal(&[1, 2], &[1]));
    assert_eq!(appended("ab", "cd"), "abcd");
    assert_eq!(strip_prefix("{SHA}x", "{SHA}"), Some("x".to_string()));
    assert_eq!(strip_prefix("{SH", "{SHA}"), None);
    assert_eq!(strip_prefix("x{SHA}", "{SHA}"), None);
}

#[test]
fn quotation_marks() {
    for s in ["", "\"", "\"\"", "\"a\"", "a", "\"\"a\"b\"\"\"", "a\""] {
        assert_eq!(trim_quotes(s), s.trim_matches('"'));
    }
    assert_eq!(unquote("\"a\""), Some("a".to_string()));
    assert_eq!(unquote("\"\""), Some("".to_string()));
    assert_eq!(unquote("\""), None);
    assert_eq!(unquote("5"), None);
}
