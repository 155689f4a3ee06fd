use squillion::messages::validation::client_id_valid;
use squillion::messages::validation::publish_topic_valid;
use squillion::messages::validation::qos_valid;
use squillion::messages::validation::topic_filter_valid;
use squillion::messages::validation::UTF8Iterator;

fn to_str_vec(s: &str) -> Vec<u8> {
    String::from(s).as_bytes().to_vec()
}

#[test]
fn test_qos_valid() {
    assert!(qos_valid(0));

    assert!(qos_valid(1));

    assert!(qos_valid(2));

    assert!(!qos_valid(3));
}

#[test]
fn test_publish_topic() {
    assert!(publish_topic_valid(&to_str_vec("hello")));

    assert!(publish_topic_valid(&to_str_vec("a/b/c")));

    assert!(!publish_topic_valid(&to_str_vec("abc/+")));

    assert!(!publish_topic_valid(&to_str_vec("abc/+/def")));

    assert!(!publish_topic_valid(&to_str_vec("abc/#")));

    assert!(!publish_topic_valid(&to_str_vec("abc/#/def")));
}

#[test]
fn test_filter_topic() {
    assert!(topic_filter_valid(&to_str_vec("hello")));

    assert!(topic_filter_valid(&to_str_vec("a/b/c")));

    assert!(topic_filter_valid(&to_str_vec("abc/+/def")));

    assert!(topic_filter_valid(&to_str_vec("abc/#")));

    assert!(!topic_filter_valid(&to_str_vec("abc/#/")));

    assert!(!topic_filter_valid(&to_str_vec("abc/#/def")));

    assert!(!topic_filter_valid(&to_str_vec("abc/def+/ghi")));

    assert!(!topic_filter_valid(&to_str_vec("abc/+def/ghi")));
}

#[test]
fn wildcards_alone() {
    assert!(topic_filter_valid(&to_str_vec("#")));
    assert!(topic_filter_valid(&to_str_vec("+")));
    assert!(topic_filter_valid(&to_str_vec("+/+/#")));
    assert!(!topic_filter_valid(&to_str_vec("a#")));
    assert!(!topic_filter_valid(&to_str_vec("")));
    assert!(!publish_topic_valid(&to_str_vec("")));
}

#[test]
fn every_topic_is_a_filter() {
    for t in ["a", "/", "a/b", "sport/tennis", "ä/ö"] {
        assert!(publish_topic_valid(&to_str_vec(t)));
        assert!(topic_filter_valid(&to_str_vec(t)));
    }
}

#[test]
fn client_identifiers() {
    assert!(client_id_valid(&to_str_vec("")));
    assert!(client_id_valid(&to_str_vec("client-1")));
    assert!(!client_id_valid(&[b'a', 0, b'b']));
    assert!(!client_id_valid(&vec![b'a'; 65536]));
    assert!(client_id_valid(&vec![b'a'; 65535]));
}

#[test]
fn ascii_is_scanned_byte_by_byte() {
    let mut it = UTF8Iterator::new(b"a/+");
    assert_eq!(it.next(), Some(0x61));
    assert_eq!(it.next(), Some(0x2f));
    assert_eq!(it.next(), Some(0x2b));
    assert_eq!(it.next(), None);
}

#[test]
fn continuation_bytes_count() {
    let mut it = UTF8Iterator::new("\u{c0}\u{12b}\u{e3}\u{20ac}\u{1f600}a".as_bytes());
    assert_eq!(it.next(), Some(0));
    assert_eq!(it.next(), Some(0x2b));
    assert_eq!(it.next(), Some(0x23));
    assert_eq!(it.next(), Some(0x0ac));
    assert_eq!(it.next(), Some(0x1f600));
    assert_eq!(it.next(), Some(0x61));
    assert_eq!(it.next(), None);
}

#[test]
fn letters_that_count_as_others() {
    // U+00C0 counts as a null, U+012B as `+`, U+00E3 as `#`.
    assert!(!client_id_valid(&to_str_vec("\u{c0}")));
    assert!(client_id_valid(&to_str_vec("\u{12b}")));
    assert!(!publish_topic_valid(&to_str_vec("\u{12b}")));
    assert!(!publish_topic_valid(&to_str_vec("\u{e3}")));
    assert!(topic_filter_valid(&to_str_vec("\u{12b}")));
    assert!(!topic_filter_valid(&to_str_vec("a\u{12b}")));
    assert!(!topic_filter_valid(&to_str_vec("\u{e3}/a")));
    assert!(publish_topic_valid(&to_str_vec("\u{e4}/\u{20ac}")));
}

#[test]
fn what_is_no_text_is_refused() {
    assert!(!client_id_valid(&[0x80]));
    assert!(!client_id_valid(&[b'a', 0xc3]));
    assert!(!publish_topic_valid(&[0xc3, 0x28]));
    assert!(!topic_filter_valid(&[0xff]));
}
