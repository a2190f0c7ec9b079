use futures::stream::Wait;
use futures::Stream;
use hyper::Body;
use hyper_sse::response::StreamResponse;
use hyper_sse::server::read_request;
use hyper_sse::token::{AuthToken, TOKEN_LIFETIME};
use hyper_sse::Server;

const KEY: [u8; 32] = [7; 32];

fn server() -> Server<u8> {
    Server::new(KEY)
}

fn token(allowed_channel: Option<u8>) -> Option<AuthToken<u8>> {
    Some(AuthToken { created: 0, allowed_channel })
}

/// Opens a stream on the channel.
fn connect(server: &mut Server<u8>, channel: u8) -> Wait<Body> {
    let response = server.open_stream(Some(channel), token(None), 1);
    assert_eq!(response.status, 200);
    response.body.unwrap().wait()
}

/// The next chunk of a stream, or `None` if the server has closed it.
fn next(stream: &mut Wait<Body>) -> Option<String> {
    stream.next().map(|chunk| String::from_utf8(chunk.unwrap().to_vec()).unwrap())
}

fn push(server: &mut Server<u8>, channel: u8, payload: &str) {
    assert_eq!(server.push::<()>(channel, "update", Ok(payload.to_string())), Ok(()));
}

fn is_refusal(response: &StreamResponse, status: u16) -> bool {
    response.status == status && response.headers.is_empty() && response.body.is_none()
}

#[test]
fn pushed_event_reaches_the_stream() {
    let mut server = server();
    let mut stream = connect(&mut server, 3);
    push(&mut server, 3, "\"hi\"");
    assert_eq!(next(&mut stream).unwrap(), "event: update\ndata: \"hi\"\n\n");
    push(&mut server, 3, "2");
    assert_eq!(next(&mut stream).unwrap(), "event: update\ndata: 2\n\n");
}

#[test]
fn pushed_event_reaches_all_clients_of_the_channel() {
    let mut server = server();
    let mut first = connect(&mut server, 3);
    let mut second = connect(&mut server, 3);
    push(&mut server, 3, "1");
    assert_eq!(next(&mut first).unwrap(), "event: update\ndata: 1\n\n");
    assert_eq!(next(&mut second).unwrap(), "event: update\ndata: 1\n\n");
}

#[test]
fn failing_clients_do_not_keep_the_others_from_the_event() {
    let mut server = server();
    let mut failing = connect(&mut server, 3);
    let mut working = connect(&mut server, 3);
    for payload in ["1", "2", "3"] {
        push(&mut server, 3, payload);
        assert_eq!(next(&mut working).unwrap(), format!("event: update\ndata: {}\n\n", payload));
    }
    // Only the first chunk had room. Once it is read, the next one is offered and taken.
    assert_eq!(next(&mut failing).unwrap(), "event: update\ndata: 1\n\n");
    push(&mut server, 3, "4");
    assert_eq!(next(&mut failing).unwrap(), "event: update\ndata: 4\n\n");
    assert_eq!(next(&mut working).unwrap(), "event: update\ndata: 4\n\n");
}

#[test]
fn heartbeat_is_offered_to_clients_that_failed_before() {
    let mut server = server();
    let mut stream = connect(&mut server, 3);
    push(&mut server, 3, "1");
    server.send_heartbeats();
    assert_eq!(next(&mut stream).unwrap(), "event: update\ndata: 1\n\n");
    server.send_heartbeats();
    assert_eq!(next(&mut stream).unwrap(), ":\n\n");
    // The failure was cleared.
    server.remove_stale_clients_at(u128::MAX);
    push(&mut server, 3, "2");
    assert_eq!(next(&mut stream).unwrap(), "event: update\ndata: 2\n\n");
}

#[test]
fn failing_client_is_gone_after_two_rounds() {
    let mut server = server();
    let mut failing = connect(&mut server, 3);
    let mut working = connect(&mut server, 3);
    push(&mut server, 3, "1");
    assert_eq!(next(&mut working).unwrap(), "event: update\ndata: 1\n\n");
    // The first round, whose heartbeat the first client refuses.
    server.maintain();
    assert_eq!(next(&mut working).unwrap(), ":\n\n");
    push(&mut server, 3, "2");
    assert_eq!(next(&mut working).unwrap(), "event: update\ndata: 2\n\n");
    // The second round, much later.
    server.remove_stale_clients_at(u128::MAX);
    server.send_heartbeats();
    assert_eq!(next(&mut working).unwrap(), ":\n\n");
    assert_eq!(next(&mut failing).unwrap(), "event: update\ndata: 1\n\n");
    assert_eq!(next(&mut failing), None);
}

#[test]
fn other_channels_get_nothing() {
    let mut server = server();
    let mut other = connect(&mut server, 4);
    let mut stream = connect(&mut server, 3);
    push(&mut server, 3, "1");
    push(&mut server, 4, "2");
    assert_eq!(next(&mut other).unwrap(), "event: update\ndata: 2\n\n");
    assert_eq!(next(&mut stream).unwrap(), "event: update\ndata: 1\n\n");
}

#[test]
fn push_without_clients_is_fine() {
    let mut server = server();
    push(&mut server, 3, "1");
    let mut stream = connect(&mut server, 3);
    push(&mut server, 3, "2");
    assert_eq!(next(&mut stream).unwrap(), "event: update\ndata: 2\n\n");
}

#[test]
fn error_of_the_serializer_is_returned_and_nothing_is_sent() {
    let mut server = server();
    let mut stream = connect(&mut server, 3);
    assert_eq!(server.push(3, "update", Err("broken")), Err("broken"));
    push(&mut server, 3, "2");
    assert_eq!(next(&mut stream).unwrap(), "event: update\ndata: 2\n\n");
}

#[test]
fn heartbeat_reaches_all_channels() {
    let mut server = server();
    let mut first = connect(&mut server, 3);
    let mut second = connect(&mut server, 4);
    let mut third = connect(&mut server, 4);
    server.send_heartbeats();
    assert_eq!(next(&mut first).unwrap(), ":\n\n");
    assert_eq!(next(&mut second).unwrap(), ":\n\n");
    assert_eq!(next(&mut third).unwrap(), ":\n\n");
    push(&mut server, 4, "1");
    assert_eq!(next(&mut second).unwrap(), "event: update\ndata: 1\n\n");
}

#[test]
fn working_clients_are_never_removed() {
    let mut server = server();
    let mut stream = connect(&mut server, 3);
    server.remove_stale_clients_at(u128::MAX);
    push(&mut server, 3, "1");
    assert_eq!(next(&mut stream).unwrap(), "event: update\ndata: 1\n\n");
    server.remove_stale_clients_at(u128::MAX);
    push(&mut server, 3, "2");
    assert_eq!(next(&mut stream).unwrap(), "event: update\ndata: 2\n\n");
}

#[test]
fn failing_clients_are_removed_after_a_while() {
    let mut server = server();
    let mut failing = connect(&mut server, 3);
    let mut working = connect(&mut server, 3);
    push(&mut server, 3, "1");
    assert_eq!(next(&mut working).unwrap(), "event: update\ndata: 1\n\n");
    // The stream of the first client is full: it has not read what was sent.
    push(&mut server, 3, "2");
    assert_eq!(next(&mut working).unwrap(), "event: update\ndata: 2\n\n");
    // Too early to give it up.
    server.remove_stale_clients_at(0);
    server.remove_stale_clients();
    server.remove_stale_clients_at(u128::MAX);
    server.remove_stale_clients_at(u128::MAX);
    push(&mut server, 3, "3");
    assert_eq!(next(&mut failing).unwrap(), "event: update\ndata: 1\n\n");
    assert_eq!(next(&mut failing), None);
    assert_eq!(next(&mut working).unwrap(), "event: update\ndata: 3\n\n");
}

#[test]
fn failing_clients_are_kept_for_five_seconds() {
    let mut server = server();
    let mut stream = connect(&mut server, 3);
    push(&mut server, 3, "1");
    push(&mut server, 3, "2");
    server.remove_stale_clients();
    server.remove_stale_clients_at(5_000_000_000);
    assert_eq!(next(&mut stream).unwrap(), "event: update\ndata: 1\n\n");
    push(&mut server, 3, "3");
    assert_eq!(next(&mut stream).unwrap(), "event: update\ndata: 3\n\n");
}

#[test]
fn clients_that_recover_are_kept() {
    let mut server = server();
    let mut stream = connect(&mut server, 3);
    push(&mut server, 3, "1");
    push(&mut server, 3, "2");
    assert_eq!(next(&mut stream).unwrap(), "event: update\ndata: 1\n\n");
    push(&mut server, 3, "3");
    server.remove_stale_clients_at(u128::MAX);
    assert_eq!(next(&mut stream).unwrap(), "event: update\ndata: 3\n\n");
    push(&mut server, 3, "4");
    assert_eq!(next(&mut stream).unwrap(), "event: update\ndata: 4\n\n");
}

#[test]
fn channel_can_be_used_again_after_its_clients_are_gone() {
    let mut server = server();
    drop(connect(&mut server, 3));
    push(&mut server, 3, "1");
    server.remove_stale_clients_at(u128::MAX);
    push(&mut server, 3, "2");
    let mut stream = connect(&mut server, 3);
    push(&mut server, 3, "3");
    assert_eq!(next(&mut stream).unwrap(), "event: update\ndata: 3\n\n");
}

#[test]
fn maintenance_sends_a_heartbeat() {
    let mut server = server();
    let mut stream = connect(&mut server, 3);
    server.maintain();
    assert_eq!(next(&mut stream).unwrap(), ":\n\n");
}

#[test]
fn stream_has_the_headers_of_an_event_stream() {
    let response = server().open_stream(Some(3), token(Some(3)), 1);
    assert_eq!(response.status, 200);
    assert_eq!(
        response.headers,
        vec![
            ("Cache-Control", "no-cache"),
            ("X-Accel-Buffering", "no"),
            ("Content-Type", "text/event-stream"),
            ("Access-Control-Allow-Origin", "*"),
        ]
    );
    assert!(response.body.is_some());
}

#[test]
fn bad_requests_are_refused() {
    let mut server = server();
    assert!(is_refusal(&server.open_stream(None, token(None), 1), 400));
    assert!(is_refusal(&server.open_stream(Some(3), None, 1), 400));
    assert!(is_refusal(&server.open_stream(None, None, 1), 400));
}

#[test]
fn unauthorized_requests_are_refused() {
    let mut server = server();
    assert!(is_refusal(&server.open_stream(Some(3), token(Some(4)), 1), 401));
    assert!(is_refusal(&server.open_stream(Some(3), token(Some(3)), TOKEN_LIFETIME), 401));
    assert!(is_refusal(&server.open_stream(Some(3), token(None), TOKEN_LIFETIME), 401));
}

#[test]
fn channels_may_be_texts() {
    let mut server: Server<String> = Server::new(KEY);
    let token = AuthToken { created: 0, allowed_channel: Some("news".to_string()) };
    let response = server.open_stream(Some("news".to_string()), Some(token), 1);
    let mut stream = response.body.unwrap().wait();
    assert_eq!(server.push::<()>("news".to_string(), "e", Ok("1".to_string())), Ok(()));
    assert_eq!(next(&mut stream).unwrap(), "event: e\ndata: 1\n\n");
}

/// Hands a request to the server, with a cipher that does nothing and a token that is the time and
/// the channel in two bytes, counted from the present.
fn request(server: &mut Server<u8>, path: &str, query: Option<&str>) -> StreamResponse {
    server.create_stream(
        path,
        query,
        |segment: &str| segment.parse().ok(),
        |sealed: &[u8], id: u64, context: &str, key: &[u8; 32]| {
            assert_eq!((id, context, key), (0, "ssetoken", &KEY));
            if sealed.is_empty() { None } else { Some(sealed.to_vec()) }
        },
        |plain: &[u8]| match plain {
            [0, channel] => Some(AuthToken { created: 0, allowed_channel: Some(*channel) }),
            [1, channel] => Some(AuthToken { created: i128::MAX, allowed_channel: Some(*channel) }),
            [1] => Some(AuthToken { created: i128::MAX, allowed_channel: None }),
            _ => None,
        },
    )
}

#[test]
fn request_with_a_token_opens_a_stream() {
    let mut server = server();
    // The bytes 1 and 3: a fresh token for channel 3.
    let response = request(&mut server, "/push/3", Some("AQM"));
    assert_eq!(response.status, 200);
    let mut stream = response.body.unwrap().wait();
    push(&mut server, 3, "1");
    assert_eq!(next(&mut stream).unwrap(), "event: update\ndata: 1\n\n");
    // The byte 1: a fresh token for all channels.
    assert_eq!(request(&mut server, "4", Some("AQ")).status, 200);
}

#[test]
fn request_that_cannot_be_parsed_is_bad() {
    let mut server = server();
    assert!(is_refusal(&request(&mut server, "/push/3", None), 400));
    assert!(is_refusal(&request(&mut server, "/push/3", Some("!")), 400));
    assert!(is_refusal(&request(&mut server, "/push/3", Some("")), 400));
    assert!(is_refusal(&request(&mut server, "/push/3", Some("AgM")), 400));
    assert!(is_refusal(&request(&mut server, "/push/three", Some("AQM")), 400));
    assert!(is_refusal(&request(&mut server, "/push/3/", Some("AQM")), 400));
}

#[test]
fn request_with_the_wrong_token_is_unauthorized() {
    let mut server = server();
    // The token is for channel 3.
    assert!(is_refusal(&request(&mut server, "/push/4", Some("AQM")), 401));
    // The token was made at the Unix epoch.
    assert!(is_refusal(&request(&mut server, "/push/3", Some("AAM")), 401));
}

#[test]
fn token_can_be_used_again() {
    let mut server = server();
    let mut streams: Vec<Wait<Body>> = Vec::new();
    for _ in 0..3 {
        let response = request(&mut server, "/push/3", Some("AQM"));
        assert_eq!(response.status, 200);
        streams.push(response.body.unwrap().wait());
    }
    push(&mut server, 3, "1");
    for stream in streams.iter_mut() {
        assert_eq!(next(stream).unwrap(), "event: update\ndata: 1\n\n");
    }
}

#[test]
fn what_precedes_the_last_segment_does_not_matter() {
    for path in ["3", "/3", "//3", "/push/3", "/3/4/5/3"] {
        let mut server = server();
        let granted = request(&mut server, path, Some("AQM"));
        assert_eq!((granted.status, granted.headers.len()), (200, 4));
        let mut stream = granted.body.unwrap().wait();
        push(&mut server, 3, "1");
        assert_eq!(next(&mut stream).unwrap(), "event: update\ndata: 1\n\n");
        assert!(is_refusal(&request(&mut server, path, Some("AQQ")), 401));
        assert!(is_refusal(&request(&mut server, path, None), 400));
    }
}

#[test]
fn token_that_the_cipher_refuses_is_a_bad_request() {
    let mut server = server();
    let mut stream = connect(&mut server, 3);
    let response = server.create_stream(
        "/push/3",
        Some("AQM"),
        |segment: &str| segment.parse().ok(),
        |sealed: &[u8], _: u64, _: &str, _: &[u8; 32]| {
            assert_eq!(sealed, [1, 3]);
            None
        },
        |_: &[u8]| panic!(),
    );
    assert!(is_refusal(&response, 400));
    push(&mut server, 3, "1");
    assert_eq!(next(&mut stream).unwrap(), "event: update\ndata: 1\n\n");
}

#[test]
fn key_is_the_one_that_was_given() {
    assert_eq!(server().token_key(), KEY);
}

#[test]
fn request_is_read_from_path_and_query() {
    let (channel, token) = read_request(
        "/push/3",
        Some("AQM"),
        &KEY,
        |segment: &str| segment.parse::<u8>().ok(),
        |sealed: &[u8], _: u64, _: &str, _: &[u8; 32]| Some(sealed.to_vec()),
        |plain: &[u8]| {
            assert_eq!(plain, [1, 3]);
            Some(AuthToken { created: 5, allowed_channel: Some(3) })
        },
    );
    assert_eq!(channel, Some(3));
    let token = token.unwrap();
    assert_eq!((token.created, token.allowed_channel), (5, Some(3)));
}

#[test]
fn stream_is_opened_at_the_present() {
    let mut server = server();
    let expired = AuthToken { created: 0, allowed_channel: Some(3) };
    assert!(is_refusal(&server.open_stream_now(Some(3), Some(expired)), 401));
    let future = AuthToken { created: i128::MAX, allowed_channel: Some(3) };
    assert_eq!(server.open_stream_now(Some(3), Some(future)).status, 200);
    assert!(is_refusal(&server.open_stream_now(None, token(None)), 400));
}
