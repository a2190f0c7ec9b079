use hyper_sse::event::{format_event, format_heartbeat};

#[test]
fn event_has_a_name_and_data() {
    assert_eq!(format_event("update", "\"hi\""), "event: update\ndata: \"hi\"\n\n");
    assert_eq!(format_event("", ""), "event: \ndata: \n\n");
}

#[test]
fn event_of_single_lines_is_one_block() {
    let text = format_event("update", "{\"a\":1}");
    assert_eq!(text.find("\n\n"), Some(text.len() - 2));
}

#[test]
fn events_with_different_parts_differ() {
    assert_ne!(format_event("a", "bc"), format_event("ab", "c"));
    assert_ne!(format_event("a", "b"), format_event("a", "c"));
}

#[test]
fn event_is_read_back_from_its_lines() {
    let text = format_event("update", "{\"a\":1}");
    let lines: Vec<&str> = text.split('\n').collect();
    assert_eq!(lines, vec!["event: update", "data: {\"a\":1}", "", ""]);
}

#[test]
fn heartbeat_is_an_empty_comment() {
    assert_eq!(format_heartbeat(), ":\n\n");
}
