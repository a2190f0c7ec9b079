//! What is answered to a request for a stream.

use hyper::Body;

use vstd::prelude::*;

verus! {

/// A response, before it is handed to the HTTP server.
pub struct StreamResponse {
    /// The status code.
    pub status: u16,
    /// The headers, each with its value.
    pub headers: Vec<(&'static str, &'static str)>,
    /// The stream of events. `None` stands for an empty body.
    pub body: Option<Body>,
}

/// The texts of headers and their values.
pub open spec fn header_texts(headers: Seq<(&'static str, &'static str)>) -> Seq<
    (Seq<char>, Seq<char>),
> {
    headers.map_values(|header: (&'static str, &'static str)| (header.0@, header.1@))
}

/// The headers of a stream of events.
pub open spec fn stream_headers() -> Seq<(Seq<char>, Seq<char>)> {
    seq![
        ("Cache-Control"@, "no-cache"@),
        ("X-Accel-Buffering"@, "no"@),
        ("Content-Type"@, "text/event-stream"@),
        ("Access-Control-Allow-Origin"@, "*"@),
    ]
}

impl StreamResponse {
    /// Whether this is a refusal with the status code: no headers and no body.
    pub open spec fn is_refusal(self, status: u16) -> bool {
        &&& self.status == status
        &&& self.headers@.len() == 0
        &&& self.body is None
    }

    /// Whether this is a stream of events.
    pub open spec fn is_stream(self) -> bool {
        &&& self.status == 200
        &&& header_texts(self.headers@) == stream_headers()
        &&& self.body is Some
    }

    /// A refusal with the status code.
    pub fn refusal(status: u16) -> (response: StreamResponse)
        ensures
            response.is_refusal(status),
    {
        StreamResponse { status, headers: Vec::new(), body: None }
    }

    /// A stream of events that is read from the body.
    pub fn stream(body: Body) -> (response: StreamResponse)
        ensures
            response.is_stream(),
            response.body == Some(body),
    {
        let mut headers: Vec<(&'static str, &'static str)> = Vec::new();
        headers.push(("Cache-Control", "no-cache"));
        headers.push(("X-Accel-Buffering", "no"));
        headers.push(("Content-Type", "text/event-stream"));
        headers.push(("Access-Control-Allow-Origin", "*"));
        assert(header_texts(headers@) =~= stream_headers());
        StreamResponse { status: 200, headers, body: Some(body) }
    }
}

/// A refusal is nothing but its status code. A stream has the status 200, the body that it is read
/// from, and the four headers that keep it from being cached or held back, say what it is, and let
/// any page read it.
pub proof fn lemma_refusals_and_streams(
    status: u16,
    refused: StreamResponse,
    body: Body,
    opened: StreamResponse,
)
    requires
        call_ensures(StreamResponse::refusal, (status,), refused),
        call_ensures(StreamResponse::stream, (body,), opened),
    ensures
        refused.status == status,
        refused.headers@.len() == 0,
        refused.body is None,
        opened.status == 200,
        opened.body == Some(body),
        opened.headers@.len() == 4,
        opened.headers@[0].0@ == "Cache-Control"@,
        opened.headers@[0].1@ == "no-cache"@,
        opened.headers@[1].0@ == "X-Accel-Buffering"@,
        opened.headers@[1].1@ == "no"@,
        opened.headers@[2].0@ == "Content-Type"@,
        opened.headers@[2].1@ == "text/event-stream"@,
        opened.headers@[3].0@ == "Access-Control-Allow-Origin"@,
        opened.headers@[3].1@ == "*"@,
{
    let texts = header_texts(opened.headers@);
    assert(texts.len() == opened.headers@.len());
    assert(texts[0] == ("Cache-Control"@, "no-cache"@));
    assert(texts[1] == ("X-Accel-Buffering"@, "no"@));
    assert(texts[2] == ("Content-Type"@, "text/event-stream"@));
    assert(texts[3] == ("Access-Control-Allow-Origin"@, "*"@));
    assert forall|i: int| 0 <= i < 4 implies #[trigger] texts[i] == (
        opened.headers@[i].0@,
        opened.headers@[i].1@,
    ) by {}
}

} // verus!
