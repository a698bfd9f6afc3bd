use sailfish::escape::{escape_to_buf, escaped_len};
use sailfish::Buffer;

fn escaped(feed: &str) -> String {
    let mut buffer = Buffer::new();
    escape_to_buf(feed, &mut buffer);
    buffer.into_string()
}

#[test]
fn escape_replaces_the_five() {
    assert_eq!(escaped("\""), "&quot;");
    assert_eq!(escaped("&"), "&amp;");
    assert_eq!(escaped("<"), "&lt;");
    assert_eq!(escaped(">"), "&gt;");
    assert_eq!(escaped("'"), "&#039;");
}

#[test]
fn escape_copies_the_rest() {
    assert_eq!(escaped(""), "");
    assert_eq!(escaped("plain text, no markup; é → \u{1F600}"), "plain text, no markup; é → \u{1F600}");
}

#[test]
fn escape_keeps_encounter_order() {
    assert_eq!(
        escaped("<a href=\"x\">Tom & 'Jerry'</a>"),
        "&lt;a href=&quot;x&quot;&gt;Tom &amp; &#039;Jerry&#039;&lt;/a&gt;"
    );
    assert_eq!(escaped("<<>>"), "&lt;&lt;&gt;&gt;");
}

#[test]
fn escape_escapes_entities_again() {
    assert_eq!(escaped("&amp;"), "&amp;amp;");
    assert_eq!(escaped("&lt;"), "&amp;lt;");
}

#[test]
fn escape_appends_to_what_is_there() {
    let mut buffer = Buffer::from("<kept>");
    escape_to_buf("<new>", &mut buffer);
    assert_eq!(buffer.as_str(), "<kept>&lt;new&gt;");
    assert_eq!(buffer.len(), 17);
}

#[test]
fn escape_output_has_no_raw_markup() {
    let out = escaped("a<b>c\"d'e&f");
    assert!(!out.contains('<'));
    assert!(!out.contains('>'));
    assert!(!out.contains('"'));
    assert!(!out.contains('\''));
    assert_eq!(out, "a&lt;b&gt;c&quot;d&#039;e&amp;f");
}

#[test]
fn escape_tells_texts_apart() {
    assert_ne!(escaped("&lt;"), escaped("<"));
    assert_ne!(escaped("&"), escaped("&amp;"));
}

#[test]
fn escaped_len_counts_the_bytes() {
    assert_eq!(escaped_len(""), Some(0));
    assert_eq!(escaped_len("plain"), Some(5));
    assert_eq!(escaped_len("\""), Some(6));
    assert_eq!(escaped_len("'"), Some(6));
    assert_eq!(escaped_len("&"), Some(5));
    assert_eq!(escaped_len("<"), Some(4));
    assert_eq!(escaped_len(">"), Some(4));
    assert_eq!(escaped_len("é<→>\u{1F600}"), Some(2 + 4 + 3 + 4 + 4));
    for feed in ["", "a<b", "<a href=\"x\">Tom & 'Jerry'</a>", "ünï & cödé"] {
        assert_eq!(escaped_len(feed), Some(escaped(feed).len()));
    }
}
