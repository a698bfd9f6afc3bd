use sailfish::Buffer;
use std::fmt::Write;

#[test]
fn test1() {
    let mut buffer = Buffer::new();
    assert_eq!(buffer.len(), 0);
    assert_eq!(buffer.capacity(), 0);

    buffer.push_str("apple");
    assert_eq!(buffer.len(), 5);
    assert_eq!(buffer.capacity(), 5);

    buffer.push_str("pie");
    assert_eq!(buffer.len(), 8);
    assert_eq!(buffer.capacity(), 10);
}

#[test]
fn test2() {
    let mut buffer = Buffer::with_capacity(1);
    assert!(buffer.is_empty());
    assert_eq!(buffer.len(), 0);
    assert!(buffer.capacity() >= 1);

    buffer += "pie";
    assert!(!buffer.is_empty());
}

#[test]
fn string_conversion() {
    // from empty string
    let s = String::new();
    let mut buf = Buffer::from(s);
    assert_eq!(buf.as_str(), "");
    buf.push_str("abc");
    assert_eq!(buf.as_str(), "abc");

    // into non-empty string
    let mut s = buf.into_string();
    assert_eq!(s, "abc");

    s.push_str("defghijklmn");
    assert_eq!(s, "abcdefghijklmn");

    // from non-empty string
    let mut buf = Buffer::from(s);
    assert_eq!(buf.as_str(), "abcdefghijklmn");
    buf.clear();
    assert_eq!(buf.as_str(), "");

    // into empty string
    let buf = Buffer::default();
    let mut s = buf.into_string();
    assert_eq!(s, "");

    s.push_str("apple");
    assert_eq!(s, "apple");
}

#[test]
fn clone() {
    let mut s1 = Buffer::with_capacity(0);
    let mut s2 = s1.clone();

    s1.push('a');
    s2.push_str("b");

    assert_eq!(s1.as_str(), "a");
    assert_eq!(s2.as_str(), "b");

    let mut s1 = Buffer::from("foo");
    let mut s2 = s1.clone();

    s1 = s1 + "bar";
    s2.write_str("baz").unwrap();

    assert_eq!(s1.as_str(), "foobar");
    assert_eq!(s2.as_str(), "foobaz");
}

#[test]
fn new_holds_nothing() {
    let buffer = Buffer::new();
    assert!(buffer.is_empty());
    assert_eq!(buffer.len(), 0);
    assert_eq!(buffer.capacity(), 0);
    assert_eq!(buffer.as_str(), "");
    assert_eq!(buffer.into_string(), "");
}

#[test]
fn with_capacity_is_exact_and_empty() {
    let buffer = Buffer::with_capacity(0);
    assert_eq!(buffer.capacity(), 0);
    let buffer = Buffer::with_capacity(37);
    assert_eq!(buffer.capacity(), 37);
    assert_eq!(buffer.len(), 0);
    assert_eq!(buffer.as_str(), "");
}

#[test]
fn push_str_concatenates_in_order() {
    let spans = ["", "a", "bc", "", "déf", "→", "ghij", "\u{1F600}"];
    let mut buffer = Buffer::new();
    let mut expected = String::new();
    for span in spans {
        buffer.push_str(span);
        expected.push_str(span);
        assert_eq!(buffer.as_str(), expected);
        assert_eq!(buffer.len(), expected.len());
        assert!(buffer.len() <= buffer.capacity());
    }
    assert_eq!(buffer.as_str(), "abcdéf→ghij\u{1F600}");
}

#[test]
fn growth_doubles_or_extends() {
    // nothing allocated: the capacity is extended by the size
    let mut buffer = Buffer::new();
    buffer.push_str("0123456");
    assert_eq!(buffer.capacity(), 7);
    // one byte too many: twice the capacity is the larger
    buffer.push_str("7");
    assert_eq!(buffer.capacity(), 14);
    assert_eq!(buffer.len(), 8);
    // room left: no growth
    buffer.push_str("89abcd");
    assert_eq!(buffer.capacity(), 14);
    assert_eq!(buffer.len(), 14);
    // a large append: the capacity extended by the size is the larger
    let big = "x".repeat(100);
    buffer.push_str(&big);
    assert_eq!(buffer.capacity(), 114);
    assert_eq!(buffer.len(), 114);
    assert_eq!(&buffer.as_str()[..14], "0123456789abcd");
    assert_eq!(&buffer.as_str()[14..], big);
}

#[test]
fn reserve_keeps_content_and_length() {
    let mut buffer = Buffer::from("abc");
    assert_eq!(buffer.capacity(), 3);
    buffer.reserve(0);
    assert_eq!(buffer.capacity(), 3);
    buffer.reserve(2);
    assert_eq!(buffer.capacity(), 6);
    assert_eq!(buffer.len(), 3);
    assert_eq!(buffer.as_str(), "abc");
    // satisfied already
    buffer.reserve(3);
    assert_eq!(buffer.capacity(), 6);
    buffer.reserve(10);
    assert_eq!(buffer.capacity(), 16);
    assert_eq!(buffer.as_str(), "abc");
    assert!(buffer.capacity() - buffer.len() >= 10);
}

#[test]
fn clear_keeps_capacity() {
    let mut buffer = Buffer::with_capacity(8);
    buffer.push_str("hello");
    buffer.clear();
    assert_eq!(buffer.len(), 0);
    assert_eq!(buffer.capacity(), 8);
    assert!(buffer.is_empty());
    assert_eq!(buffer.as_str(), "");
    buffer.push_str("again");
    assert_eq!(buffer.as_str(), "again");
    assert_eq!(buffer.capacity(), 8);
}

#[test]
fn push_encodes_characters_of_every_width() {
    let mut buffer = Buffer::new();
    buffer.push('a');
    assert_eq!(buffer.len(), 1);
    buffer.push('é');
    assert_eq!(buffer.len(), 3);
    buffer.push('→');
    assert_eq!(buffer.len(), 6);
    buffer.push('\u{1F600}');
    assert_eq!(buffer.len(), 10);
    assert_eq!(buffer.as_str(), "aé→\u{1F600}");
    assert_eq!(buffer.as_str().chars().count(), 4);
}

#[test]
fn write_spare_then_advance() {
    let mut buffer = Buffer::with_capacity(8);
    buffer.push_str("ab");
    buffer.write_spare(b"cde");
    // written ahead, not live yet
    assert_eq!(buffer.len(), 2);
    assert_eq!(buffer.as_str(), "ab");
    buffer.advance(3);
    assert_eq!(buffer.len(), 5);
    assert_eq!(buffer.as_str(), "abcde");
    assert_eq!(buffer.capacity(), 8);
    buffer.advance(0);
    assert_eq!(buffer.as_str(), "abcde");
}

#[test]
fn write_spare_takes_multi_byte_text() {
    let mut buffer = Buffer::new();
    buffer.reserve(16);
    buffer.write_spare("né→".as_bytes());
    buffer.advance(6);
    assert_eq!(buffer.as_str(), "né→");
}

#[test]
fn set_len_truncates() {
    let mut buffer = Buffer::from("hello world");
    buffer._set_len(5);
    assert_eq!(buffer.as_str(), "hello");
    assert_eq!(buffer.len(), 5);
    assert_eq!(buffer.capacity(), 11);
    buffer._set_len(11);
    assert_eq!(buffer.as_str(), "hello world");
}

#[test]
fn clone_has_capacity_of_length() {
    let mut source = Buffer::with_capacity(64);
    source.push_str("content");
    let mut copy = source.clone();
    assert_eq!(copy.capacity(), 7);
    assert_eq!(copy.len(), 7);
    assert_eq!(copy.as_str(), "content");
    assert_eq!(source.capacity(), 64);

    // neither follows the other
    copy.push_str("!");
    assert_eq!(source.as_str(), "content");
    source.clear();
    assert_eq!(copy.as_str(), "content!");

    // a buffer with capacity and no content
    let empty = Buffer::with_capacity(16).clone();
    assert_eq!(empty.capacity(), 0);
    assert_eq!(empty.len(), 0);
}

#[test]
fn string_round_trip_keeps_content() {
    let mut buffer = Buffer::with_capacity(32);
    buffer.push_str("round → trip");
    let first = buffer.into_string();
    assert_eq!(first, "round → trip");
    let again = Buffer::from(first.clone());
    assert_eq!(again.len(), first.len());
    assert_eq!(again.capacity(), first.len());
    let second = again.into_string();
    assert_eq!(second, first);
}

#[test]
fn from_str_copies() {
    let buffer = Buffer::from("añb");
    assert_eq!(buffer.as_str(), "añb");
    assert_eq!(buffer.len(), 4);
    assert_eq!(buffer.capacity(), 4);
    let empty = Buffer::from("");
    assert_eq!(empty.capacity(), 0);
}

#[test]
fn default_is_new() {
    let buffer = Buffer::default();
    assert_eq!(buffer.len(), 0);
    assert_eq!(buffer.capacity(), 0);
}

#[test]
fn add_and_add_assign_append() {
    let buffer = Buffer::new() + "apple";
    assert_eq!(buffer.as_str(), "apple");
    assert_eq!(buffer.capacity(), 5);
    let mut buffer = buffer + "";
    assert_eq!(buffer.capacity(), 5);
    buffer += "pie";
    assert_eq!(buffer.as_str(), "applepie");
    assert_eq!(buffer.capacity(), 10);
}

#[test]
fn write_str_appends_and_succeeds() {
    let mut buffer = Buffer::new();
    assert!(buffer.write_str("ab").is_ok());
    assert!(buffer.write_str("cd").is_ok());
    assert_eq!(buffer.as_str(), "abcd");
    assert_eq!(buffer.capacity(), 4);
}

#[test]
fn debug_shows_the_text() {
    let buffer = Buffer::from("a\"b");
    assert_eq!(format!("{:?}", buffer), "\"a\\\"b\"");
}

#[test]
fn can_hold_knows_the_ceiling() {
    let ceiling = usize::MAX / 2;
    let buffer = Buffer::with_capacity(8);
    assert!(buffer.can_hold(0));
    assert!(buffer.can_hold(8));
    assert!(buffer.can_hold(9));
    assert!(buffer.can_hold(ceiling - 8));
    assert!(!buffer.can_hold(ceiling - 7));
    assert!(!buffer.can_hold(usize::MAX));
    assert!(Buffer::new().can_hold(ceiling));
    assert!(!Buffer::new().can_hold(ceiling + 1));
}

#[test]
fn room_for_counts_from_the_length() {
    let most = usize::MAX / 4 - 40;
    let empty = Buffer::new();
    assert!(empty.room_for(0));
    assert!(empty.room_for(most));
    assert!(!empty.room_for(most + 1));
    assert!(!empty.room_for(usize::MAX));
    let buffer = Buffer::from("abc");
    assert!(buffer.room_for(most - 3));
    assert!(!buffer.room_for(most - 2));
}
