use hyper_sse::path::channel_segment;

#[test]
fn channel_is_the_last_segment() {
    assert_eq!(channel_segment("/push/0"), "0");
    assert_eq!(channel_segment("/channel/news"), "news");
    assert_eq!(channel_segment("/42"), "42");
}

#[test]
fn path_without_slash_is_its_own_segment() {
    assert_eq!(channel_segment("news"), "news");
    assert_eq!(channel_segment(""), "");
}

#[test]
fn trailing_slash_leaves_an_empty_segment() {
    assert_eq!(channel_segment("/push/"), "");
    assert_eq!(channel_segment("/"), "");
    assert_eq!(channel_segment("//"), "");
}

#[test]
fn segments_may_hold_any_characters() {
    assert_eq!(channel_segment("/caf\u{e9}/\u{1f600}x"), "\u{1f600}x");
    assert_eq!(channel_segment("\u{e9}/a b"), "a b");
}
