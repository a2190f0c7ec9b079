//! A server without channels: whatever is typed at the terminal goes to every listener.

use hyper::body::Sender;
use hyper::Body;

use vstd::prelude::*;
use vstd::utf8::encode_utf8;

use crate::event::{event_text, format_event};
use crate::response::header_texts;
use crate::server::following;
use crate::transport::{body_channel, offered, queued, send_data, source_of, stream_of};

verus! {

/// The page that listens to the events and lists them.
pub const INDEX_PAGE: &'static str = "<html>
                    <head>
                        <title>EventSource Test</title>
                        <meta charset=\"utf-8\" />
                    </head>
                    <body>
                        <ol></ol>
                        <script>
                            var evtSource = new EventSource('http://10.0.11.10:3000/events');
                            evtSource.addEventListener('update', event => {
                                var newElement = document.createElement('li');
                                var eventList = document.querySelector('ol');

                                newElement.innerHTML = event.data;
                                eventList.appendChild(newElement);
                            });
                        </script>
                    </body>";

/// The text of the answer to a path that is not served.
pub const NOT_FOUND_PAGE: &'static str = "Not found!";

/// The block that keeps the connections of listeners alive.
pub const LISTENER_HEARTBEAT: &'static str = ": heatbeat\n\n";

/// What a listener is, to the rest of the library.
pub struct ListenerState {
    /// The number that the listener was given when it connected.
    pub id: usize,
    /// The stream that leads to the listener.
    pub stream: nat,
    /// The chunks that were put into that stream, the oldest first.
    pub queued: Seq<Seq<u8>>,
    /// The chunks that were offered to the listener, the oldest first, whether or not they were
    /// taken.
    pub offered: Seq<Seq<u8>>,
}

impl ListenerState {
    /// After the chunk was offered: it is the newest of the stream if it was taken.
    pub open spec fn after_attempt(self, chunk: Seq<u8>, taken: bool) -> ListenerState {
        ListenerState {
            queued: if taken {
                self.queued.push(chunk)
            } else {
                self.queued
            },
            offered: self.offered.push(chunk),
            ..self
        }
    }
}

/// What the server holds, to the rest of the library.
#[verifier::ext_equal]
pub struct BroadcastState {
    /// The listeners, in the order in which they connected.
    pub listeners: Seq<ListenerState>,
    /// The number that the next listener is given.
    pub next_id: usize,
}

impl BroadcastState {
    /// After a listener connected over the stream.
    pub open spec fn with_listener(self, stream: nat) -> BroadcastState {
        BroadcastState {
            listeners: self.listeners.push(
                ListenerState {
                    id: self.next_id,
                    stream,
                    queued: Seq::empty(),
                    offered: Seq::empty(),
                },
            ),
            next_id: following(self.next_id),
        }
    }

    /// Whether `after` is what offering the chunk once to every listener leaves behind, with the
    /// results: the number of each listener, and whether it took the chunk.
    pub open spec fn sent_to_all(
        self,
        after: BroadcastState,
        chunk: Seq<u8>,
        results: Seq<(usize, bool)>,
    ) -> bool {
        &&& after.next_id == self.next_id
        &&& after.listeners.len() == self.listeners.len()
        &&& results.len() == self.listeners.len()
        &&& forall|i: int|
            0 <= i < self.listeners.len() ==> {
                &&& (#[trigger] results[i]).0 == self.listeners[i].id
                &&& after.listeners[i] == self.listeners[i].after_attempt(chunk, results[i].1)
            }
    }
}

/// Something that the server is given to handle.
pub enum Input {
    /// A request for the path.
    Request(Seq<char>),
    /// A line that was typed at the terminal.
    Line(Seq<char>),
    /// It is time for a heartbeat.
    Heartbeat,
}

impl Input {
    /// Whether this registers a listener.
    pub open spec fn is_registration(self) -> bool {
        self matches Input::Request(path) && path == "/events"@
    }
}

impl BroadcastState {
    /// Whether `after` is what handling the input can leave behind.
    pub open spec fn handled(self, after: BroadcastState, input: Input) -> bool {
        match input {
            Input::Request(path) => if path == "/events"@ {
                exists|stream: nat| after == #[trigger] self.with_listener(stream)
            } else {
                after == self
            },
            Input::Line(line) => if line.len() == 0 {
                after == self
            } else if line == "drop"@ {
                after.listeners.len() == 0 && after.next_id == self.next_id
            } else {
                exists|results: Seq<(usize, bool)>| #[trigger]
                    self.sent_to_all(after, encode_utf8(event_text("update"@, line)), results)
            },
            Input::Heartbeat => exists|results: Seq<(usize, bool)>| #[trigger]
                self.sent_to_all(after, encode_utf8(LISTENER_HEARTBEAT@), results),
        }
    }
}

/// Someone who listens to the events.
pub struct Listener {
    tx: Sender,
    id: usize,
}

impl View for Listener {
    type V = ListenerState;

    closed spec fn view(&self) -> ListenerState {
        ListenerState {
            id: self.id,
            stream: stream_of(self.tx),
            queued: queued(self.tx),
            offered: offered(self.tx),
        }
    }
}

impl Listener {
    /// Sends one chunk to the listener: it is offered once. A chunk that was not taken comes back.
    pub fn send_chunk(&mut self, chunk: String) -> (sent: Result<(), Vec<u8>>)
        ensures
            final(self)@ == old(self)@.after_attempt(encode_utf8(chunk@), sent is Ok),
            sent matches Err(back) ==> back@ == encode_utf8(chunk@),
    {
        send_data(&mut self.tx, chunk)
    }
}

/// The body of an answer.
pub enum PageBody {
    /// A text.
    Text(&'static str),
    /// A stream of events.
    Stream(Body),
}

/// An answer, before it is handed to the HTTP server.
pub struct PageResponse {
    /// The status code.
    pub status: u16,
    /// The headers, each with its value.
    pub headers: Vec<(&'static str, &'static str)>,
    /// The body.
    pub body: PageBody,
}

/// The headers of a stream of events.
pub open spec fn listener_headers() -> Seq<(Seq<char>, Seq<char>)> {
    seq![("Cache-Control"@, "no-cache"@), ("Content-Type"@, "text/event-stream"@)]
}

impl PageResponse {
    /// Whether this is the text with the status code, and no headers.
    pub open spec fn is_text(self, status: u16, text: Seq<char>) -> bool {
        &&& self.status == status
        &&& self.headers@.len() == 0
        &&& self.body matches PageBody::Text(body) && body@ == text
    }

    /// Whether this is a stream of events.
    pub open spec fn is_stream(self) -> bool {
        &&& self.status == 200
        &&& header_texts(self.headers@) == listener_headers()
        &&& self.body is Stream
    }
}

/// What a line that was typed at the terminal asks for.
#[derive(Debug, Clone, Copy, PartialEq, Eq, Structural)]
pub enum LineKind {
    /// Nothing: the line is empty.
    Nothing,
    /// That all listeners be dropped.
    Drop,
    /// That the line be sent to every listener.
    Send,
}

/// What the line asks for.
pub open spec fn kind_of(line: Seq<char>) -> LineKind {
    if line.len() == 0 {
        LineKind::Nothing
    } else if line == "drop"@ {
        LineKind::Drop
    } else {
        LineKind::Send
    }
}

/// What the line asks for.
pub fn line_kind(line: &str) -> (kind: LineKind)
    ensures
        kind == kind_of(line@),
{
    if line.is_empty() {
        LineKind::Nothing
    } else if line.to_owned() == "drop".to_owned() {
        LineKind::Drop
    } else {
        LineKind::Send
    }
}

/// What was done with a line that was typed at the terminal.
pub enum Command {
    /// The line was empty: nothing was done.
    Skipped,
    /// All listeners were dropped.
    Dropped,
    /// The line was sent to every listener. The number of each, and whether it took the line.
    Sent(Vec<(usize, bool)>),
}

/// The listeners that are connected.
pub struct Broadcast {
    clients: Vec<Listener>,
    next_id: usize,
}

impl View for Broadcast {
    type V = BroadcastState;

    closed spec fn view(&self) -> BroadcastState {
        BroadcastState {
            listeners: self.clients@.map_values(|listener: Listener| listener@),
            next_id: self.next_id,
        }
    }
}

impl Broadcast {
    /// A server that nobody listens to yet.
    pub fn new() -> (server: Broadcast)
        ensures
            server@.listeners.len() == 0,
            server@.next_id == 0,
    {
        Broadcast { clients: Vec::new(), next_id: 0 }
    }

    /// Sends the chunk to every listener, and says which of them took it.
    fn send_to_all(&mut self, chunk: String) -> (results: Vec<(usize, bool)>)
        ensures
            old(self)@.sent_to_all(final(self)@, encode_utf8(chunk@), results@),
    {
        let mut results: Vec<(usize, bool)> = Vec::new();
        let mut i: usize = 0;
        while i < self.clients.len()
            invariant
                i <= self.clients.len(),
                results.len() == i,
                self.clients.len() == old(self).clients.len(),
                self.next_id == old(self).next_id,
                forall|j: int|
                    0 <= j < i ==> {
                        let before = old(self).clients@[j]@;
                        &&& (#[trigger] results@[j]).0 == before.id
                        &&& self.clients@[j]@ == before.after_attempt(
                            encode_utf8(chunk@),
                            results@[j].1,
                        )
                    },
                forall|j: int|
                    i <= j < self.clients.len() ==> #[trigger] self.clients@[j] == old(
                        self,
                    ).clients@[j],
            decreases self.clients.len() - i,
        {
            let id: usize = self.clients[i].id;
            let sent = self.clients[i].send_chunk(chunk.clone());
            results.push((id, sent.is_ok()));
            i = i + 1;
        }
        results
    }

    /// Answers a request: the page, a stream of events, or that there is no such thing.
    pub fn sse(&mut self, path: &str) -> (response: PageResponse)
        ensures
            old(self)@.handled(final(self)@, Input::Request(path@)),
            if path@ == "/"@ {
                response.is_text(200, INDEX_PAGE@) && final(self)@ == old(self)@
            } else if path@ == "/events"@ {
                response.is_stream() && final(self)@ == old(self)@.with_listener(
                    source_of(response.body->Stream_0),
                )
            } else {
                response.is_text(404, NOT_FOUND_PAGE@) && final(self)@ == old(self)@
            },
    {
        proof {
            reveal_strlit("/");
            reveal_strlit("/events");
            assert("/"@.len() != "/events"@.len());
        }
        let path: String = path.to_owned();
        if path == "/".to_owned() {
            PageResponse { status: 200, headers: Vec::new(), body: PageBody::Text(INDEX_PAGE) }
        } else if path == "/events".to_owned() {
            let (sender, body) = body_channel();
            let id: usize = self.next_id;
            self.next_id = id.wrapping_add(1);
            self.clients.push(Listener { tx: sender, id });
            assert(self@ =~= old(self)@.with_listener(source_of(body)));
            let mut headers: Vec<(&'static str, &'static str)> = Vec::new();
            headers.push(("Cache-Control", "no-cache"));
            headers.push(("Content-Type", "text/event-stream"));
            assert(header_texts(headers@) =~= listener_headers());
            PageResponse { status: 200, headers, body: PageBody::Stream(body) }
        } else {
            PageResponse { status: 404, headers: Vec::new(), body: PageBody::Text(NOT_FOUND_PAGE) }
        }
    }

    /// Carries out a line that was typed at the terminal. An empty line does nothing, `drop` drops
    /// all listeners, and any other line is sent to all of them as an update.
    pub fn terminal(&mut self, line: &str) -> (done: Command)
        ensures
            old(self)@.handled(final(self)@, Input::Line(line@)),
            if line@.len() == 0 {
                done is Skipped && final(self)@ == old(self)@
            } else if line@ == "drop"@ {
                done is Dropped && final(self)@.listeners.len() == 0 && final(self)@.next_id
                    == old(self)@.next_id
            } else {
                done is Sent && old(self)@.sent_to_all(
                    final(self)@,
                    encode_utf8(event_text("update"@, line@)),
                    done->Sent_0@,
                )
            },
    {
        match line_kind(line) {
            LineKind::Nothing => Command::Skipped,
            LineKind::Drop => {
                self.clients.clear();
                Command::Dropped
            },
            LineKind::Send => {
                let message: String = format_event("update", line);
                Command::Sent(self.send_to_all(message))
            },
        }
    }

    /// The numbers of the listeners, in the order in which they connected.
    pub fn numbers(&self) -> (numbers: Vec<usize>)
        ensures
            numbers@ == self@.listeners.map_values(|listener: ListenerState| listener.id),
    {
        let mut numbers: Vec<usize> = Vec::new();
        let mut i: usize = 0;
        while i < self.clients.len()
            invariant
                i <= self.clients.len(),
                numbers.len() == i,
                forall|j: int| 0 <= j < i ==> #[trigger] numbers@[j] == self.clients@[j]@.id,
            decreases self.clients.len() - i,
        {
            numbers.push(self.clients[i].id);
            i = i + 1;
        }
        assert(numbers@ =~= self@.listeners.map_values(|listener: ListenerState| listener.id));
        numbers
    }

    /// Sends a heartbeat to every listener. The number of each, and whether it took the heartbeat.
    pub fn send_heartbeats(&mut self) -> (results: Vec<(usize, bool)>)
        ensures
            old(self)@.handled(final(self)@, Input::Heartbeat),
            old(self)@.sent_to_all(final(self)@, encode_utf8(LISTENER_HEARTBEAT@), results@),
    {
        self.send_to_all(LISTENER_HEARTBEAT.to_owned())
    }
}

/// Whether the listeners are listed by their numbers, the lowest first, and all of them were given
/// out before. In particular, no two listeners have the same number.
pub open spec fn numbers_increase(server: BroadcastState) -> bool {
    &&& forall|i: int|
        0 <= i < server.listeners.len() ==> (#[trigger] server.listeners[i]).id < server.next_id
    &&& forall|i: int, j: int|
        0 <= i < j < server.listeners.len() ==> (#[trigger] server.listeners[i]).id < (
        #[trigger] server.listeners[j]).id
}

/// The listeners stay listed by their numbers, whatever the server handles, until the last number
/// has been given out.
pub proof fn lemma_numbers_keep_increasing(
    before: BroadcastState,
    after: BroadcastState,
    input: Input,
)
    requires
        numbers_increase(before),
        before.handled(after, input),
        input.is_registration() ==> before.next_id < usize::MAX,
    ensures
        numbers_increase(after),
{
    if after.listeners.len() == before.listeners.len() {
        assert forall|i: int| 0 <= i < after.listeners.len() implies (
        #[trigger] after.listeners[i]).id == before.listeners[i].id by {
            if after != before {
                let (chunk, results) = choose|chunk: Seq<u8>, results: Seq<(usize, bool)>|
                    #[trigger] before.sent_to_all(after, chunk, results);
                assert(results[i].0 == before.listeners[i].id);
            }
        }
    }
}

/// A line that is sent, and a heartbeat, is offered exactly once to every listener, whether or not
/// sending failed before, to this listener or to one before it. No listener is removed.
pub proof fn lemma_every_listener_is_offered_the_chunk(
    before: BroadcastState,
    after: BroadcastState,
    chunk: Seq<u8>,
    results: Seq<(usize, bool)>,
    i: int,
)
    requires
        before.sent_to_all(after, chunk, results),
        0 <= i < before.listeners.len(),
    ensures
        after.listeners.len() == before.listeners.len(),
        results[i].0 == before.listeners[i].id,
        after.listeners[i].id == before.listeners[i].id,
        after.listeners[i].stream == before.listeners[i].stream,
        after.listeners[i].offered == before.listeners[i].offered.push(chunk),
        after.listeners[i].queued == if results[i].1 {
            before.listeners[i].queued.push(chunk)
        } else {
            before.listeners[i].queued
        },
{
    assert(results[i].0 == before.listeners[i].id);
}

/// Whether the states are those of a server from its start on, which handled the inputs one after
/// the other: `states[k]` is the state before `inputs[k]`.
pub open spec fn is_run(states: Seq<BroadcastState>, inputs: Seq<Input>) -> bool {
    &&& states.len() == inputs.len() + 1
    &&& states[0].listeners.len() == 0
    &&& states[0].next_id == 0
    &&& forall|k: int|
        0 <= k < inputs.len() ==> states[k].handled(states[k + 1], #[trigger] inputs[k])
}

/// How many of the inputs register a listener.
pub open spec fn registrations(inputs: Seq<Input>) -> nat
    decreases inputs.len(),
{
    if inputs.len() == 0 {
        0
    } else if inputs.last().is_registration() {
        registrations(inputs.drop_last()) + 1
    } else {
        registrations(inputs.drop_last())
    }
}

proof fn lemma_next_number(states: Seq<BroadcastState>, inputs: Seq<Input>, k: int)
    requires
        is_run(states, inputs),
        0 <= k <= inputs.len(),
        registrations(inputs.take(k)) <= usize::MAX,
    ensures
        states[k].next_id == registrations(inputs.take(k)),
    decreases k,
{
    if k > 0 {
        assert(inputs.take(k).drop_last() =~= inputs.take(k - 1));
        assert(inputs.take(k).last() == inputs[k - 1]);
        lemma_next_number(states, inputs, k - 1);
        assert(states[k - 1].handled(states[k - 1 + 1], inputs[k - 1]));
    }
}

proof fn lemma_registrations_grow(inputs: Seq<Input>, j: int, k: int)
    requires
        0 <= j <= k <= inputs.len(),
    ensures
        registrations(inputs.take(j)) <= registrations(inputs.take(k)),
    decreases k - j,
{
    if j < k {
        assert(inputs.take(k).drop_last() =~= inputs.take(k - 1));
        lemma_registrations_grow(inputs, j, k - 1);
    }
}

/// Listeners are numbered 0, 1, 2 and so on in the order in which they register, whatever else the
/// server handles in between: the number of a listener is how many have registered before it, from
/// the start of the server on. Only a registration uses up a number. This holds up to the last
/// number that there is.
pub proof fn lemma_listeners_are_numbered_in_order(
    states: Seq<BroadcastState>,
    inputs: Seq<Input>,
    k: int,
)
    requires
        is_run(states, inputs),
        0 <= k < inputs.len(),
        registrations(inputs.take(k)) <= usize::MAX,
    ensures
        inputs[k].is_registration() ==> {
            &&& states[k + 1].listeners.drop_last() == states[k].listeners
            &&& states[k + 1].listeners.last().id == registrations(inputs.take(k))
        },
        !inputs[k].is_registration() ==> states[k + 1].next_id == states[k].next_id,
{
    lemma_next_number(states, inputs, k);
    assert(states[k].handled(states[k + 1], inputs[k]));
    if inputs[k].is_registration() {
        assert(states[k + 1].listeners.drop_last() =~= states[k].listeners);
    }
}

/// A number is never given out again, whether or not its listener has been dropped: of two
/// registrations the later one gets the greater number. This holds up to the last number that
/// there is.
pub proof fn lemma_numbers_are_not_given_out_again(
    states: Seq<BroadcastState>,
    inputs: Seq<Input>,
    j: int,
    k: int,
)
    requires
        is_run(states, inputs),
        0 <= j < k < inputs.len(),
        inputs[j].is_registration(),
        inputs[k].is_registration(),
        registrations(inputs.take(k)) <= usize::MAX,
    ensures
        states[j + 1].listeners.last().id < states[k + 1].listeners.last().id,
{
    lemma_registrations_grow(inputs, j, k);
    lemma_registrations_grow(inputs, j + 1, k);
    assert(inputs.take(j + 1).drop_last() =~= inputs.take(j));
    assert(inputs.take(j + 1).last() == inputs[j]);
    lemma_listeners_are_numbered_in_order(states, inputs, j);
    lemma_listeners_are_numbered_in_order(states, inputs, k);
}

/// A line asks for nothing if it is empty, for all listeners to be dropped if it is exactly `drop`,
/// and to be sent otherwise.
pub proof fn lemma_what_a_line_asks_for(line: &str, kind: LineKind)
    requires
        call_ensures(line_kind, (line,), kind),
    ensures
        kind == LineKind::Nothing <==> line@.len() == 0,
        kind == LineKind::Drop <==> line@ == seq!['d', 'r', 'o', 'p'],
{
    reveal_strlit("drop");
    assert("drop"@ =~= seq!['d', 'r', 'o', 'p']);
}

/// A server starts without listeners, and the first one gets the number zero.
pub proof fn lemma_broadcast_starts_without_listeners(server: Broadcast)
    requires
        call_ensures(Broadcast::new, (), server),
    ensures
        server@.listeners.len() == 0,
        server@.next_id == 0,
{
}

/// Sending offers the chunk once. The stream has it as its newest if it was taken, and is as before
/// if it was not; then the chunk comes back. The number and the stream stay the same.
pub proof fn lemma_listener_is_offered_the_chunk_once(
    listener: &mut Listener,
    chunk: String,
    sent: Result<(), Vec<u8>>,
)
    requires
        call_ensures(Listener::send_chunk, (listener, chunk), sent),
    ensures
        final(listener)@.id == old(listener)@.id,
        final(listener)@.stream == old(listener)@.stream,
        final(listener)@.offered == old(listener)@.offered.push(encode_utf8(chunk@)),
        sent is Ok ==> final(listener)@.queued == old(listener)@.queued.push(encode_utf8(chunk@)),
        sent is Err ==> final(listener)@.queued == old(listener)@.queued && sent->Err_0@
            == encode_utf8(chunk@),
{
}

/// A request for `/` is answered with the page, one for `/events` with a stream of events, and any
/// other with 404. Only the stream changes something: a listener that reads from it, with the next
/// number and nothing offered yet, comes after the others.
pub proof fn lemma_paths_that_are_served(
    server: &mut Broadcast,
    path: &str,
    response: PageResponse,
)
    requires
        call_ensures(Broadcast::sse, (server, path), response),
    ensures
        path@ == seq!['/'] ==> {
            &&& response.status == 200
            &&& response.headers@.len() == 0
            &&& response.body is Text
            &&& response.body->Text_0@ == INDEX_PAGE@
        },
        path@ == seq!['/', 'e', 'v', 'e', 'n', 't', 's'] ==> {
            &&& response.status == 200
            &&& response.headers@.len() == 2
            &&& response.headers@[0].0@ == "Cache-Control"@
            &&& response.headers@[0].1@ == "no-cache"@
            &&& response.headers@[1].0@ == "Content-Type"@
            &&& response.headers@[1].1@ == "text/event-stream"@
            &&& response.body is Stream
            &&& final(server)@.listeners.len() == old(server)@.listeners.len() + 1
            &&& final(server)@.listeners.drop_last() == old(server)@.listeners
            &&& final(server)@.listeners.last().id == old(server)@.next_id
            &&& final(server)@.listeners.last().stream == source_of(response.body->Stream_0)
            &&& final(server)@.listeners.last().queued.len() == 0
            &&& final(server)@.listeners.last().offered.len() == 0
            &&& old(server)@.next_id < usize::MAX ==> final(server)@.next_id == old(
                server,
            )@.next_id + 1
        },
        path@ != seq!['/'] && path@ != seq!['/', 'e', 'v', 'e', 'n', 't', 's'] ==> {
            &&& response.status == 404
            &&& response.headers@.len() == 0
            &&& response.body is Text
            &&& response.body->Text_0@ == "Not found!"@
        },
        path@ != seq!['/', 'e', 'v', 'e', 'n', 't', 's'] ==> final(server)@ == old(server)@,
{
    reveal_strlit("/");
    reveal_strlit("/events");
    assert("/"@ =~= seq!['/']);
    assert("/events"@ =~= seq!['/', 'e', 'v', 'e', 'n', 't', 's']);
    assert("/"@.len() != "/events"@.len());
    if path@ == "/events"@ {
        let texts = header_texts(response.headers@);
        assert(texts.len() == response.headers@.len());
        assert(texts[0] == ("Cache-Control"@, "no-cache"@));
        assert(texts[1] == ("Content-Type"@, "text/event-stream"@));
        assert forall|i: int| 0 <= i < 2 implies #[trigger] texts[i] == (
            response.headers@[i].0@,
            response.headers@[i].1@,
        ) by {}
        assert(final(server)@.listeners.drop_last() =~= old(server)@.listeners);
    }
}

/// An empty line does nothing. The line `drop` drops all listeners, and only them: numbers are not
/// given out again. Neither sends anything.
pub proof fn lemma_lines_that_are_not_sent(server: &mut Broadcast, line: &str, done: Command)
    requires
        call_ensures(Broadcast::terminal, (server, line), done),
    ensures
        line@.len() == 0 ==> done is Skipped && final(server)@ == old(server)@,
        line@ == seq!['d', 'r', 'o', 'p'] ==> {
            &&& done is Dropped
            &&& final(server)@.listeners.len() == 0
            &&& final(server)@.next_id == old(server)@.next_id
        },
{
    reveal_strlit("drop");
    assert("drop"@ =~= seq!['d', 'r', 'o', 'p']);
}

/// Any other line is sent as the data of an event with the name `update`, as it is. It is offered
/// exactly once to every listener, and the results are the number of each, in their order, and
/// whether it took the line. Nobody is added or removed.
pub proof fn lemma_line_is_sent_to_every_listener(
    server: &mut Broadcast,
    line: &str,
    results: Vec<(usize, bool)>,
    done: Command,
    text: Seq<char>,
    i: int,
)
    requires
        call_ensures(Broadcast::terminal, (server, line), done),
        line@.len() > 0,
        line@ != seq!['d', 'r', 'o', 'p'],
        text == "event: update\ndata: "@ + line@ + "\n\n"@,
        done is Sent ==> results == done->Sent_0,
    ensures
        done is Sent,
        final(server)@.next_id == old(server)@.next_id,
        final(server)@.listeners.len() == old(server)@.listeners.len(),
        results@.len() == old(server)@.listeners.len(),
        0 <= i < results@.len() ==> {
            let was = old(server)@.listeners[i];
            let is_now = final(server)@.listeners[i];
            &&& results@[i].0 == was.id
            &&& is_now.id == was.id
            &&& is_now.stream == was.stream
            &&& is_now.offered == was.offered.push(encode_utf8(text))
            &&& results@[i].1 ==> is_now.queued == was.queued.push(encode_utf8(text))
            &&& !results@[i].1 ==> is_now.queued == was.queued
        },
{
    reveal_strlit("drop");
    reveal_strlit("update");
    reveal_strlit("event: ");
    reveal_strlit("\ndata: ");
    reveal_strlit("event: update\ndata: ");
    assert("drop"@ =~= seq!['d', 'r', 'o', 'p']);
    assert("event: update\ndata: "@ =~= "event: "@ + "update"@ + "\ndata: "@);
    assert(event_text("update"@, line@) =~= text);
    assert(old(server)@.sent_to_all(final(server)@, encode_utf8(text), results@));
    if 0 <= i < results@.len() {
        lemma_every_listener_is_offered_the_chunk(
            old(server)@,
            final(server)@,
            encode_utf8(text),
            results@,
            i,
        );
    }
}

/// A heartbeat is the comment `: heatbeat` and a blank line. It is offered exactly once to every
/// listener, and the results are the number of each, in their order, and whether it was taken.
/// Nobody is added or removed.
pub proof fn lemma_heartbeat_is_sent_to_every_listener(
    server: &mut Broadcast,
    results: Vec<(usize, bool)>,
    text: Seq<char>,
    i: int,
)
    requires
        call_ensures(Broadcast::send_heartbeats, (server,), results),
        text == ": heatbeat"@ + seq!['\n', '\n'],
    ensures
        final(server)@.next_id == old(server)@.next_id,
        final(server)@.listeners.len() == old(server)@.listeners.len(),
        results@.len() == old(server)@.listeners.len(),
        0 <= i < results@.len() ==> {
            let was = old(server)@.listeners[i];
            let is_now = final(server)@.listeners[i];
            &&& results@[i].0 == was.id
            &&& is_now.id == was.id
            &&& is_now.stream == was.stream
            &&& is_now.offered == was.offered.push(encode_utf8(text))
            &&& results@[i].1 ==> is_now.queued == was.queued.push(encode_utf8(text))
            &&& !results@[i].1 ==> is_now.queued == was.queued
        },
{
    assert(LISTENER_HEARTBEAT@ =~= text) by {
        reveal_strlit(": heatbeat");
        reveal_strlit(": heatbeat\n\n");
    }
    assert(old(server)@.sent_to_all(final(server)@, encode_utf8(text), results@));
    if 0 <= i < results@.len() {
        lemma_every_listener_is_offered_the_chunk(
            old(server)@,
            final(server)@,
            encode_utf8(text),
            results@,
            i,
        );
    }
}

/// The numbers that are listed are those of the listeners, in their order.
pub proof fn lemma_numbers_are_those_of_the_listeners(server: &Broadcast, numbers: Vec<usize>)
    requires
        call_ensures(Broadcast::numbers, (server,), numbers),
    ensures
        numbers@.len() == server@.listeners.len(),
        forall|i: int|
            0 <= i < numbers@.len() ==> #[trigger] numbers@[i] == server@.listeners[i].id,
{
}

/// The page listens to what the server sends: it opens a stream from the path that registers a
/// listener, and adds an item for each event with the name that lines are sent under.
pub proof fn lemma_page_listens_to_what_is_sent(
    server: &mut Broadcast,
    path: &str,
    response: PageResponse,
)
    requires
        call_ensures(Broadcast::sse, (server, path), response),
        path@ == seq!['/'],
    ensures
        response.body is Text,
        response.body->Text_0@.len() == 816,
        response.body->Text_0@.skip(305).take(48)
            == "new EventSource('http://10.0.11.10:3000/events')"@,
        response.body->Text_0@.skip(383).take(45)
            == "evtSource.addEventListener('update', event =>"@,
        response.body->Text_0@ == "<html>
                    <head>
                        <title>EventSource Test</title>
                        <meta charset=\"utf-8\" />
                    </head>
                    <body>
                        <ol></ol>
                        <script>
                            var evtSource = new EventSource('http://10.0.11.10:3000/events');
                            evtSource.addEventListener('update', event => {
                                var newElement = document.createElement('li');
                                var eventList = document.querySelector('ol');

                                newElement.innerHTML = event.data;
                                eventList.appendChild(newElement);
                            });
                        </script>
                    </body>"@,
{
    lemma_paths_that_are_served(server, path, response);
    reveal_strlit("<html>
                    <head>
                        <title>EventSource Test</title>
                        <meta charset=\"utf-8\" />
                    </head>
                    <body>
                        <ol></ol>
                        <script>
                            var evtSource = new EventSource('http://10.0.11.10:3000/events');
                            evtSource.addEventListener('update', event => {
                                var newElement = document.createElement('li');
                                var eventList = document.querySelector('ol');

                                newElement.innerHTML = event.data;
                                eventList.appendChild(newElement);
                            });
                        </script>
                    </body>");
    reveal_strlit("new EventSource('http://10.0.11.10:3000/events')");
    reveal_strlit("evtSource.addEventListener('update', event =>");
    assert(response.body->Text_0@.skip(305).take(48)
        =~= "new EventSource('http://10.0.11.10:3000/events')"@);
    assert(response.body->Text_0@.skip(383).take(45)
        =~= "evtSource.addEventListener('update', event =>"@);
}

} // verus!
