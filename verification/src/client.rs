//! One connected client.

use std::time::Instant;

use hyper::body::Sender;

use vstd::prelude::*;
use vstd::utf8::encode_utf8;

use crate::clock::{elapsed_gives, lemma_elapsed_is_read, nanos_since};
use crate::transport::{offered, queued, send_data, stream_of};

verus! {

/// How long sending may fail before a client counts as gone, in nanoseconds: five seconds.
pub const STALE_AFTER: u128 = 5_000_000_000;

/// What a client is, to the rest of the library.
pub struct ClientState {
    /// The number that the client was given when it connected.
    pub id: usize,
    /// When sending first failed since the last chunk that was taken.
    pub first_error: Option<u128>,
    /// The stream that leads to the client.
    pub stream: nat,
    /// The chunks that were put into that stream, the oldest first.
    pub queued: Seq<Seq<u8>>,
    /// The chunks that were offered to the client, the oldest first, whether or not they were taken.
    pub offered: Seq<Seq<u8>>,
}

impl ClientState {
    /// A client that has just connected.
    pub open spec fn connected(id: usize, stream: nat) -> ClientState {
        ClientState {
            id,
            first_error: None,
            stream,
            queued: Seq::empty(),
            offered: Seq::empty(),
        }
    }

    /// After a chunk was offered and taken: it is the newest of the stream, and earlier failures are
    /// forgotten.
    pub open spec fn accepted(self, chunk: Seq<u8>) -> ClientState {
        ClientState {
            first_error: None,
            queued: self.queued.push(chunk),
            offered: self.offered.push(chunk),
            ..self
        }
    }

    /// After a chunk was offered and not taken at `now`: the time of the first failure is kept.
    pub open spec fn rejected(self, chunk: Seq<u8>, now: u128) -> ClientState {
        ClientState {
            first_error: first_error_after(self.first_error, false, now),
            offered: self.offered.push(chunk),
            ..self
        }
    }

    /// Whether sending has been failing for more than five seconds at `now`.
    pub open spec fn is_stale(self, now: u128) -> bool {
        self.first_error matches Some(since) && now - since > STALE_AFTER
    }

    /// Whether `after` is what offering the chunk once can leave behind. A failure is noted at the
    /// time since `started` that the clock gave.
    pub open spec fn sent(self, after: ClientState, chunk: Seq<u8>, started: Instant) -> bool {
        ||| after == self.accepted(chunk)
        ||| exists|now: u128|
            elapsed_gives(started, now) && after == #[trigger] self.rejected(chunk, now)
    }
}

/// The time of the first failure, after one more attempt to send at `now`.
pub open spec fn first_error_after(first_error: Option<u128>, sent: bool, now: u128) -> Option<
    u128,
> {
    if sent {
        None
    } else if first_error is None {
        Some(now)
    } else {
        first_error
    }
}

/// The time of the first failure, after one more attempt to send at `now`.
pub fn note_attempt(first_error: Option<u128>, sent: bool, now: u128) -> (after: Option<u128>)
    ensures
        after == first_error_after(first_error, sent, now),
{
    match (sent, first_error) {
        // Store the time when an error was first seen.
        (false, None) => Some(now),
        // Clear the error when a write succeeds.
        (true, Some(_)) => None,
        _ => first_error,
    }
}

/// A client that is connected to the server.
pub struct Client {
    tx: Sender,
    id: usize,
    first_error: Option<u128>,
}

impl View for Client {
    type V = ClientState;

    closed spec fn view(&self) -> ClientState {
        ClientState {
            id: self.id,
            first_error: self.first_error,
            stream: stream_of(self.tx),
            queued: queued(self.tx),
            offered: offered(self.tx),
        }
    }
}

impl Client {
    /// A client that has just connected over `tx`.
    pub fn new(tx: Sender, id: usize) -> (client: Client)
        ensures
            client@ == (ClientState {
                id,
                first_error: None,
                stream: stream_of(tx),
                queued: queued(tx),
                offered: offered(tx),
            }),
    {
        Client { tx, id, first_error: None }
    }

    /// Whether sending has been failing for more than five seconds at `now`.
    pub fn is_stale(&self, now: u128) -> (stale: bool)
        ensures
            stale == self@.is_stale(now),
    {
        match self.first_error {
            Some(since) => now > since && now - since > STALE_AFTER,
            None => false,
        }
    }

    /// Sends one chunk to the client: it is offered once, whatever happened before. Keeps the time
    /// when sending first failed. The clock is read as the time since `started`. A chunk that was
    /// not taken comes back.
    pub fn send_chunk(&mut self, chunk: String, started: &Instant) -> (sent: Result<(), Vec<u8>>)
        ensures
            old(self)@.sent(final(self)@, encode_utf8(chunk@), *started),
            match sent {
                Ok(_) => final(self)@ == old(self)@.accepted(encode_utf8(chunk@)),
                Err(back) => {
                    &&& back@ == encode_utf8(chunk@)
                    &&& exists|now: u128|
                        elapsed_gives(*started, now) && final(self)@
                            == #[trigger] old(self)@.rejected(encode_utf8(chunk@), now)
                },
            },
    {
        let sent = send_data(&mut self.tx, chunk);
        let now: u128 = nanos_since(started);
        self.first_error = note_attempt(self.first_error, sent.is_ok(), now);
        proof {
            lemma_elapsed_is_read(*started, now);
            if sent is Err {
                assert(self@ == old(self)@.rejected(encode_utf8(chunk@), now));
            }
        }
        sent
    }
}

/// A success forgets the failures before it. The first failure is noted when it happens, and later
/// ones leave it as it was noted.
pub proof fn lemma_first_failure_is_noted(
    first_error: Option<u128>,
    sent: bool,
    now: u128,
    after: Option<u128>,
)
    requires
        call_ensures(note_attempt, (first_error, sent, now), after),
    ensures
        sent ==> after is None,
        !sent && first_error is None ==> after == Some(now),
        !sent && first_error is Some ==> after == first_error,
{
}

/// A client is stale exactly if a failure is noted and more than five times a thousand million
/// nanoseconds have passed since then.
pub proof fn lemma_stale_means_failing_for_five_seconds(client: &Client, now: u128, stale: bool)
    requires
        call_ensures(Client::is_stale, (client, now), stale),
    ensures
        stale <==> client@.first_error is Some && now - client@.first_error->0 > 5 * 1_000_000_000,
{
}

/// A client that has just connected keeps its number, has no failure noted, and reads from the
/// stream that it was given.
pub proof fn lemma_new_client_has_not_failed(tx: Sender, id: usize, client: Client)
    requires
        call_ensures(Client::new, (tx, id), client),
    ensures
        client@.id == id,
        client@.first_error is None,
        client@.stream == stream_of(tx),
        client@.queued == queued(tx),
        client@.offered == offered(tx),
{
}

/// Sending offers the chunk once. If it is taken, it is the newest of the stream, and no failure is
/// noted any longer. If it is not taken, it comes back and the stream is as before; a failure that
/// was noted stays as it was, and otherwise it is noted at the time since `started` that measuring
/// it gave, as it is. The number and the stream of the client stay the same.
pub(crate) proof fn lemma_sending_notes_the_time_of_the_first_failure(
    client: &mut Client,
    chunk: String,
    started: &Instant,
    sent: Result<(), Vec<u8>>,
)
    requires
        call_ensures(Client::send_chunk, (client, chunk, started), sent),
    ensures
        final(client)@.id == old(client)@.id,
        final(client)@.stream == old(client)@.stream,
        final(client)@.offered == old(client)@.offered.push(encode_utf8(chunk@)),
        sent is Ok ==> {
            &&& final(client)@.queued == old(client)@.queued.push(encode_utf8(chunk@))
            &&& final(client)@.first_error is None
        },
        sent is Err ==> {
            &&& sent->Err_0@ == encode_utf8(chunk@)
            &&& final(client)@.queued == old(client)@.queued
            &&& old(client)@.first_error is Some ==> final(client)@.first_error == old(
                client,
            )@.first_error
            &&& old(client)@.first_error is None ==> {
                &&& final(client)@.first_error is Some
                &&& call_ensures(nanos_since, (started,), final(client)@.first_error->0)
            }
        },
{
    if sent is Err {
        let now = choose|now: u128|
            elapsed_gives(*started, now) && final(client)@ == #[trigger] old(client)@.rejected(
                encode_utf8(chunk@),
                now,
            );
        lemma_elapsed_is_read(*started, now);
    }
}

/// A client keeps nothing but its stream, its number and the time of its first failure.
proof fn lemma_client_is_what_it_shows(client: Client, other: Client)
    requires
        client.tx == other.tx,
        client@.id == other@.id,
        client@.first_error == other@.first_error,
    ensures
        client == other,
{
}

/// What a client shows is its number, the time of its first failure, its stream, and what was offered
/// to it and put into it, and nothing else.
pub proof fn lemma_what_a_client_shows(state: ClientState, other: ClientState)
    requires
        state.id == other.id,
        state.first_error == other.first_error,
        state.stream == other.stream,
        state.queued == other.queued,
        state.offered == other.offered,
    ensures
        state == other,
{
}

} // verus!
