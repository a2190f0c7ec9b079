use futures::stream::Wait;
use futures::Stream;
use hyper::Body;
use hyper_sse::broadcast::{line_kind, Broadcast, Command, LineKind, PageBody, PageResponse};

fn text(response: &PageResponse) -> Option<&'static str> {
    match response.body {
        PageBody::Text(text) => Some(text),
        PageBody::Stream(_) => None,
    }
}

fn connect(server: &mut Broadcast) -> Wait<Body> {
    match server.sse("/events").body {
        PageBody::Stream(body) => body.wait(),
        PageBody::Text(_) => panic!(),
    }
}

fn next(stream: &mut Wait<Body>) -> Option<String> {
    stream.next().map(|chunk| String::from_utf8(chunk.unwrap().to_vec()).unwrap())
}

fn sent(server: &mut Broadcast, line: &str) -> Vec<(usize, bool)> {
    match server.terminal(line) {
        Command::Sent(results) => results,
        _ => panic!(),
    }
}

#[test]
fn root_is_the_page() {
    let response = Broadcast::new().sse("/");
    assert_eq!(response.status, 200);
    assert!(response.headers.is_empty());
    let page = text(&response).unwrap();
    assert!(page.starts_with("<html>\n"));
    assert!(page.contains("new EventSource('http://10.0.11.10:3000/events')"));
    assert!(page.ends_with("</body>"));
}

#[test]
fn events_is_a_stream() {
    let response = Broadcast::new().sse("/events");
    assert_eq!(response.status, 200);
    assert_eq!(
        response.headers,
        vec![("Cache-Control", "no-cache"), ("Content-Type", "text/event-stream")]
    );
    assert!(text(&response).is_none());
}

#[test]
fn anything_else_is_not_found() {
    for path in ["", "/event", "/events/", "//"] {
        let response = Broadcast::new().sse(path);
        assert_eq!(response.status, 404);
        assert!(response.headers.is_empty());
        assert_eq!(text(&response), Some("Not found!"));
    }
}

#[test]
fn line_is_sent_to_every_listener() {
    let mut server = Broadcast::new();
    let mut first = connect(&mut server);
    let mut second = connect(&mut server);
    assert_eq!(sent(&mut server, "hello"), vec![(0, true), (1, true)]);
    assert_eq!(next(&mut first).unwrap(), "event: update\ndata: hello\n\n");
    // The second listener has not read the first line.
    assert_eq!(sent(&mut server, "again"), vec![(0, true), (1, false)]);
    assert_eq!(next(&mut first).unwrap(), "event: update\ndata: again\n\n");
    assert_eq!(next(&mut second).unwrap(), "event: update\ndata: hello\n\n");
}

#[test]
fn failing_listener_is_tried_again() {
    let mut server = Broadcast::new();
    let mut first = connect(&mut server);
    let mut second = connect(&mut server);
    assert_eq!(sent(&mut server, "one"), vec![(0, true), (1, true)]);
    assert_eq!(next(&mut second).unwrap(), "event: update\ndata: one\n\n");
    // The first listener has not read the line. The second one is reached all the same.
    assert_eq!(sent(&mut server, "two"), vec![(0, false), (1, true)]);
    assert_eq!(next(&mut second).unwrap(), "event: update\ndata: two\n\n");
    assert_eq!(next(&mut first).unwrap(), "event: update\ndata: one\n\n");
    assert_eq!(server.send_heartbeats(), vec![(0, true), (1, true)]);
    assert_eq!(next(&mut first).unwrap(), ": heatbeat\n\n");
    assert_eq!(next(&mut second).unwrap(), ": heatbeat\n\n");
}

#[test]
fn empty_line_is_skipped() {
    let mut server = Broadcast::new();
    let mut listener = connect(&mut server);
    assert!(matches!(server.terminal(""), Command::Skipped));
    assert_eq!(sent(&mut server, "x"), vec![(0, true)]);
    assert_eq!(next(&mut listener).unwrap(), "event: update\ndata: x\n\n");
}

#[test]
fn drop_drops_all_listeners() {
    let mut server = Broadcast::new();
    let mut listener = connect(&mut server);
    assert!(matches!(server.terminal("drop"), Command::Dropped));
    assert_eq!(next(&mut listener), None);
    assert_eq!(sent(&mut server, "x"), vec![]);
    // Numbers are not given out again.
    let _next = connect(&mut server);
    assert_eq!(sent(&mut server, "x"), vec![(1, true)]);
}

#[test]
fn heartbeat_is_sent_to_every_listener() {
    let mut server = Broadcast::new();
    let mut listener = connect(&mut server);
    drop(connect(&mut server));
    assert_eq!(server.send_heartbeats(), vec![(0, true), (1, false)]);
    assert_eq!(next(&mut listener).unwrap(), ": heatbeat\n\n");
}

#[test]
fn listeners_are_numbered_in_order_of_registration() {
    let mut server = Broadcast::new();
    assert_eq!(server.numbers(), vec![]);
    let _first = connect(&mut server);
    server.sse("/");
    server.sse("/nothing");
    let _second = connect(&mut server);
    server.terminal("");
    server.terminal("hello");
    server.send_heartbeats();
    assert_eq!(server.numbers(), vec![0, 1]);
    server.terminal("drop");
    assert_eq!(server.numbers(), vec![]);
    let _third = connect(&mut server);
    server.terminal("drop");
    let _fourth = connect(&mut server);
    let _fifth = connect(&mut server);
    assert_eq!(server.numbers(), vec![3, 4]);
}

#[test]
fn lines_are_told_apart() {
    assert_eq!(line_kind(""), LineKind::Nothing);
    assert_eq!(line_kind("drop"), LineKind::Drop);
    assert_eq!(line_kind("drop "), LineKind::Send);
    assert_eq!(line_kind("hello"), LineKind::Send);
}
