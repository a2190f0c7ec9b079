//! What the operations of the server do, in terms of what goes in and what comes out.
//!
//! Each law here speaks of calls: whatever a call can return, and whatever it can leave behind, is as
//! the law says. Times are those that the clocks gave when the calls read them.

use std::hash::Hash;
use std::time::Instant;

use hyper::body::Sender;

use vstd::prelude::*;
use vstd::std_specs::cmp::PartialEqSpec;
use vstd::std_specs::hash::obeys_key_model;
use vstd::utf8::encode_utf8;

use crate::channels::{all_sent, lemma_live_positions, live, live_positions};
use crate::client::{Client, ClientState};
use crate::clock::{
    elapsed_gives, is_clock_time, is_reading, monotonic_clock_gives, system_clock_gives, unix_nanos,
};
use crate::encoding::{decoded, encoded};
use crate::event::heartbeat_text;
use crate::path::{last_segment, lemma_last_segment, lemma_only_one_tail};
use crate::response::{header_texts, StreamResponse};
use crate::seal::{decrypts, encrypts, parses, reads_token, seals_token, unseals};
use crate::server::{
    answered, decided, is_channel_type, names_channel, read_request, Server, ServerState,
    MAINTENANCE_INTERVAL,
};
use crate::token::AuthToken;
use crate::transport::{offered, queued, source_of, stream_of};

verus! {

/// Whether a request for the path is one for the name: the path is the name, or some text, a slash
/// and the name, and the name has no slash.
pub open spec fn ends_with_segment(path: Seq<char>, name: Seq<char>) -> bool {
    &&& !name.contains('/')
    &&& path == name || exists|prefix: Seq<char>| path == #[trigger] prefix.push('/') + name
}

proof fn lemma_name_is_the_segment(path: Seq<char>, name: Seq<char>)
    requires
        ends_with_segment(path, name),
    ensures
        last_segment(path) == name,
{
    lemma_last_segment(path);
    assert(path.skip(path.len() - name.len()) =~= name);
    lemma_only_one_tail(path, last_segment(path), name);
}

/// A server starts without channels and without a number given out, with the key that it was given,
/// at the point that the monotonic clock gave.
pub proof fn lemma_server_starts_empty<C: Eq + Hash>(token_key: [u8; 32], server: Server<C>)
    requires
        call_ensures(Server::<C>::new, (token_key,), server),
    ensures
        forall|channel: C| !(#[trigger] server@.channels.contains_key(channel)),
        server@.next_id == 0,
        server@.token_key == token_key,
        monotonic_clock_gives(server@.started),
{
}

/// The key that a server shows is the one that it seals tokens with. That no operation changes it is
/// part of the laws of the operations.
pub proof fn lemma_server_shows_its_key<C: Eq + Hash>(server: &Server<C>, key: [u8; 32])
    requires
        call_ensures(Server::<C>::token_key, (server,), key),
    ensures
        key == server@.token_key,
{
}

/// Adding a client puts it last on its channel, which is held from then on. It gets the next number,
/// is reached over the stream that was given, and has no failure noted. The clients that were there
/// stay as they were, and so do the other channels. The next number grows by one, or starts over.
pub proof fn lemma_added_client_comes_last<C: Eq + Hash>(
    server: &mut Server<C>,
    channel: C,
    tx: Sender,
)
    requires
        call_ensures(Server::<C>::add_client, (server, channel, tx), ()),
        obeys_key_model::<C>(),
    ensures
        final(server)@.channels.contains_key(channel),
        final(server)@.channels[channel].len() > 0,
        final(server)@.channels[channel].last().id == old(server)@.next_id,
        final(server)@.channels[channel].last().first_error is None,
        final(server)@.channels[channel].last().stream == stream_of(tx),
        final(server)@.channels[channel].last().queued == queued(tx),
        final(server)@.channels[channel].last().offered == offered(tx),
        old(server)@.channels.contains_key(channel) ==> final(server)@.channels[channel].drop_last()
            == old(server)@.channels[channel],
        !old(server)@.channels.contains_key(channel) ==> final(server)@.channels[channel].len()
            == 1,
        forall|other: C|
            other != channel ==> (#[trigger] final(server)@.channels.contains_key(other)
                <==> old(server)@.channels.contains_key(other)),
        forall|other: C|
            other != channel && old(server)@.channels.contains_key(other)
                ==> #[trigger] final(server)@.channels[other] == old(server)@.channels[other],
        old(server)@.next_id < usize::MAX ==> final(server)@.next_id == old(server)@.next_id + 1,
        old(server)@.next_id == usize::MAX ==> final(server)@.next_id == 0,
        final(server)@.token_key == old(server)@.token_key,
        final(server)@.started == old(server)@.started,
{
    if old(server)@.channels.contains_key(channel) {
        assert(final(server)@.channels[channel].drop_last() =~= old(server)@.channels[channel]);
    }
}

/// What one attempt to send leaves behind.
proof fn lemma_attempt(was: ClientState, is_now: ClientState, bytes: Seq<u8>, started: Instant)
    requires
        was.sent(is_now, bytes, started),
    ensures
        is_now.id == was.id,
        is_now.stream == was.stream,
        is_now.offered == was.offered.push(bytes),
        is_now.first_error is None ==> is_now.queued == was.queued.push(bytes),
        is_now.first_error is Some ==> is_now.queued == was.queued,
        is_now.first_error is Some && was.first_error is Some ==> is_now.first_error
            == was.first_error,
        is_now.first_error is Some && was.first_error is None ==> elapsed_gives(
            started,
            is_now.first_error->0,
        ),
{
    if is_now != was.accepted(bytes) {
        let now = choose|now: u128|
            elapsed_gives(started, now) && is_now == #[trigger] was.rejected(bytes, now);
    }
}

/// A chunk for a channel is offered exactly once to each of its clients, and to nobody else. A client
/// that takes it has it as the newest of its stream, and no failure noted. One that does not keeps
/// its stream, and the time of its first failure: the one that was noted, or else the time since the
/// start of the server that the clock gave. Numbers and order stay the same, and nobody is added or
/// removed.
pub proof fn lemma_chunk_goes_to_the_channel<C: Eq + Hash>(
    server: &mut Server<C>,
    chunk: String,
    channel: C,
)
    requires
        call_ensures(Server::<C>::send_chunk_to_channel, (server, chunk, channel), ()),
        obeys_key_model::<C>(),
    ensures
        forall|other: C| #[trigger]
            final(server)@.channels.contains_key(other) <==> old(server)@.channels.contains_key(
                other,
            ),
        forall|other: C|
            other != channel && old(server)@.channels.contains_key(other)
                ==> #[trigger] final(server)@.channels[other] == old(server)@.channels[other],
        old(server)@.channels.contains_key(channel) ==> final(server)@.channels[channel].len()
            == old(server)@.channels[channel].len(),
        old(server)@.channels.contains_key(channel) ==> forall|i: int|
            0 <= i < old(server)@.channels[channel].len() ==> {
                let was = old(server)@.channels[channel][i];
                let is_now = #[trigger] final(server)@.channels[channel][i];
                &&& is_now.id == was.id
                &&& is_now.stream == was.stream
                &&& is_now.offered == was.offered.push(encode_utf8(chunk@))
                &&& is_now.first_error is None ==> is_now.queued == was.queued.push(encode_utf8(chunk@))
                &&& is_now.first_error is Some ==> is_now.queued == was.queued
                &&& is_now.first_error is Some && was.first_error is Some ==> is_now.first_error
                    == was.first_error
                &&& is_now.first_error is Some && was.first_error is None ==> elapsed_gives(
                    old(server)@.started,
                    is_now.first_error->0,
                )
            },
        final(server)@.next_id == old(server)@.next_id,
        final(server)@.token_key == old(server)@.token_key,
        final(server)@.started == old(server)@.started,
{
    assert forall|other: C| #[trigger]
        final(server)@.channels.contains_key(other) <==> old(server)@.channels.contains_key(
            other,
        ) by {
        assert(final(server)@.channels.dom().contains(other) == old(
            server,
        )@.channels.dom().contains(other));
    }
    assert forall|other: C|
        other != channel && old(server)@.channels.contains_key(
            other,
        ) implies #[trigger] final(server)@.channels[other] == old(server)@.channels[other] by {
        assert(final(server)@.channels.contains_key(other));
        assert(final(server)@.clients(other) == old(server)@.clients(other));
    }
    if old(server)@.channels.contains_key(channel) {
        let before = old(server)@.channels[channel];
        let after = final(server)@.channels[channel];
        assert(final(server)@.channels.contains_key(channel));
        assert(all_sent(
            old(server)@.clients(channel),
            final(server)@.clients(channel),
            encode_utf8(chunk@),
            old(server)@.started,
        ));
        assert forall|i: int| 0 <= i < before.len() implies before[i].sent(
            #[trigger] after[i],
            encode_utf8(chunk@),
            old(server)@.started,
        ) by {
            assert(before[i] == old(server)@.clients(channel)[i]);
            assert(after[i] == final(server)@.clients(channel)[i]);
        }
        assert forall|i: int| 0 <= i < before.len() implies {
            let was = before[i];
            let is_now = #[trigger] after[i];
            &&& is_now.id == was.id
            &&& is_now.stream == was.stream
            &&& is_now.offered == was.offered.push(encode_utf8(chunk@))
            &&& is_now.first_error is None ==> is_now.queued == was.queued.push(encode_utf8(chunk@))
            &&& is_now.first_error is Some ==> is_now.queued == was.queued
            &&& is_now.first_error is Some && was.first_error is Some ==> is_now.first_error
                == was.first_error
            &&& is_now.first_error is Some && was.first_error is None ==> elapsed_gives(
                old(server)@.started,
                is_now.first_error->0,
            )
        } by {
            lemma_attempt(before[i], after[i], encode_utf8(chunk@), old(server)@.started);
        }
    }
}

/// A chunk for all is offered exactly once to each client of each channel, and what is noted of it is
/// as for a chunk for one channel.
pub proof fn lemma_chunk_goes_to_all_channels<C: Eq + Hash>(
    server: &mut Server<C>,
    chunk: String,
    channel: C,
)
    requires
        call_ensures(Server::<C>::send_chunk_to_all_clients, (server, chunk), ()),
        obeys_key_model::<C>(),
    ensures
        forall|other: C| #[trigger]
            final(server)@.channels.contains_key(other) <==> old(server)@.channels.contains_key(
                other,
            ),
        old(server)@.channels.contains_key(channel) ==> final(server)@.channels[channel].len()
            == old(server)@.channels[channel].len(),
        old(server)@.channels.contains_key(channel) ==> forall|i: int|
            0 <= i < old(server)@.channels[channel].len() ==> {
                let was = old(server)@.channels[channel][i];
                let is_now = #[trigger] final(server)@.channels[channel][i];
                &&& is_now.id == was.id
                &&& is_now.stream == was.stream
                &&& is_now.offered == was.offered.push(encode_utf8(chunk@))
                &&& is_now.first_error is None ==> is_now.queued == was.queued.push(encode_utf8(chunk@))
                &&& is_now.first_error is Some ==> is_now.queued == was.queued
                &&& is_now.first_error is Some && was.first_error is Some ==> is_now.first_error
                    == was.first_error
                &&& is_now.first_error is Some && was.first_error is None ==> elapsed_gives(
                    old(server)@.started,
                    is_now.first_error->0,
                )
            },
        final(server)@.next_id == old(server)@.next_id,
        final(server)@.token_key == old(server)@.token_key,
        final(server)@.started == old(server)@.started,
{
    assert forall|other: C| #[trigger]
        final(server)@.channels.contains_key(other) <==> old(server)@.channels.contains_key(
            other,
        ) by {
        assert(final(server)@.channels.dom().contains(other) == old(
            server,
        )@.channels.dom().contains(other));
    }
    if old(server)@.channels.contains_key(channel) {
        let before = old(server)@.channels[channel];
        let after = final(server)@.channels[channel];
        assert(final(server)@.channels.contains_key(channel));
        assert(all_sent(
            old(server)@.clients(channel),
            final(server)@.clients(channel),
            encode_utf8(chunk@),
            old(server)@.started,
        ));
        assert forall|i: int| 0 <= i < before.len() implies before[i].sent(
            #[trigger] after[i],
            encode_utf8(chunk@),
            old(server)@.started,
        ) by {
            assert(before[i] == old(server)@.clients(channel)[i]);
            assert(after[i] == final(server)@.clients(channel)[i]);
        }
        assert forall|i: int| 0 <= i < before.len() implies {
            let was = before[i];
            let is_now = #[trigger] after[i];
            &&& is_now.id == was.id
            &&& is_now.stream == was.stream
            &&& is_now.offered == was.offered.push(encode_utf8(chunk@))
            &&& is_now.first_error is None ==> is_now.queued == was.queued.push(encode_utf8(chunk@))
            &&& is_now.first_error is Some ==> is_now.queued == was.queued
            &&& is_now.first_error is Some && was.first_error is Some ==> is_now.first_error
                == was.first_error
            &&& is_now.first_error is Some && was.first_error is None ==> elapsed_gives(
                old(server)@.started,
                is_now.first_error->0,
            )
        } by {
            lemma_attempt(before[i], after[i], encode_utf8(chunk@), old(server)@.started);
        }
    }
}

/// A heartbeat, which is a colon and a blank line, is offered exactly once to each client of each
/// channel, one that failed before included.
pub proof fn lemma_heartbeat_goes_to_all_channels<C: Eq + Hash>(
    server: &mut Server<C>,
    text: Seq<char>,
    channel: C,
)
    requires
        call_ensures(Server::<C>::send_heartbeats, (server,), ()),
        obeys_key_model::<C>(),
        text == seq![':', '\n', '\n'],
    ensures
        forall|other: C| #[trigger]
            final(server)@.channels.contains_key(other) <==> old(server)@.channels.contains_key(
                other,
            ),
        old(server)@.channels.contains_key(channel) ==> final(server)@.channels[channel].len()
            == old(server)@.channels[channel].len(),
        old(server)@.channels.contains_key(channel) ==> forall|i: int|
            0 <= i < old(server)@.channels[channel].len() ==> {
                let was = old(server)@.channels[channel][i];
                let is_now = #[trigger] final(server)@.channels[channel][i];
                &&& is_now.id == was.id
                &&& is_now.stream == was.stream
                &&& is_now.offered == was.offered.push(encode_utf8(text))
                &&& is_now.first_error is None ==> is_now.queued == was.queued.push(encode_utf8(text))
                &&& is_now.first_error is Some ==> is_now.queued == was.queued
                &&& is_now.first_error is Some && was.first_error is Some ==> is_now.first_error
                    == was.first_error
                &&& is_now.first_error is Some && was.first_error is None ==> elapsed_gives(
                    old(server)@.started,
                    is_now.first_error->0,
                )
            },
        final(server)@.next_id == old(server)@.next_id,
        final(server)@.token_key == old(server)@.token_key,
        final(server)@.started == old(server)@.started,
{
    reveal_strlit(":\n\n");
    assert(heartbeat_text() =~= text);
    assert forall|other: C| #[trigger]
        final(server)@.channels.contains_key(other) <==> old(server)@.channels.contains_key(
            other,
        ) by {
        assert(final(server)@.channels.dom().contains(other) == old(
            server,
        )@.channels.dom().contains(other));
    }
    if old(server)@.channels.contains_key(channel) {
        let before = old(server)@.channels[channel];
        let after = final(server)@.channels[channel];
        assert(final(server)@.channels.contains_key(channel));
        assert(all_sent(
            old(server)@.clients(channel),
            final(server)@.clients(channel),
            encode_utf8(text),
            old(server)@.started,
        ));
        assert forall|i: int| 0 <= i < before.len() implies before[i].sent(
            #[trigger] after[i],
            encode_utf8(text),
            old(server)@.started,
        ) by {
            assert(before[i] == old(server)@.clients(channel)[i]);
            assert(after[i] == final(server)@.clients(channel)[i]);
        }
        assert forall|i: int| 0 <= i < before.len() implies {
            let was = before[i];
            let is_now = #[trigger] after[i];
            &&& is_now.id == was.id
            &&& is_now.stream == was.stream
            &&& is_now.offered == was.offered.push(encode_utf8(text))
            &&& is_now.first_error is None ==> is_now.queued == was.queued.push(encode_utf8(text))
            &&& is_now.first_error is Some ==> is_now.queued == was.queued
            &&& is_now.first_error is Some && was.first_error is Some ==> is_now.first_error
                == was.first_error
            &&& is_now.first_error is Some && was.first_error is None ==> elapsed_gives(
                old(server)@.started,
                is_now.first_error->0,
            )
        } by {
            lemma_attempt(before[i], after[i], encode_utf8(text), old(server)@.started);
        }
    }
}

/// A message that could be serialized is pushed as one event, with its name and its data as they are.
/// The event is offered exactly once to each client of the channel, and to nobody else. What is
/// noted of it is as for any chunk.
pub proof fn lemma_pushed_event_goes_to_the_channel<C: Eq + Hash, E>(
    server: &mut Server<C>,
    channel: C,
    event: &str,
    payload: String,
    text: Seq<char>,
    pushed: Result<(), E>,
)
    requires
        call_ensures(
            Server::<C>::push::<E>,
            (server, channel, event, Ok::<String, E>(payload)),
            pushed,
        ),
        obeys_key_model::<C>(),
        text == "event: "@ + event@ + "\ndata: "@ + payload@ + "\n\n"@,
    ensures
        pushed is Ok,
        forall|other: C| #[trigger]
            final(server)@.channels.contains_key(other) <==> old(server)@.channels.contains_key(
                other,
            ),
        forall|other: C|
            other != channel && old(server)@.channels.contains_key(other)
                ==> #[trigger] final(server)@.channels[other] == old(server)@.channels[other],
        old(server)@.channels.contains_key(channel) ==> final(server)@.channels[channel].len()
            == old(server)@.channels[channel].len(),
        old(server)@.channels.contains_key(channel) ==> forall|i: int|
            0 <= i < old(server)@.channels[channel].len() ==> {
                let was = old(server)@.channels[channel][i];
                let is_now = #[trigger] final(server)@.channels[channel][i];
                &&& is_now.id == was.id
                &&& is_now.stream == was.stream
                &&& is_now.offered == was.offered.push(encode_utf8(text))
                &&& is_now.first_error is None ==> is_now.queued == was.queued.push(encode_utf8(text))
                &&& is_now.first_error is Some ==> is_now.queued == was.queued
                &&& is_now.first_error is Some && was.first_error is Some ==> is_now.first_error
                    == was.first_error
                &&& is_now.first_error is Some && was.first_error is None ==> elapsed_gives(
                    old(server)@.started,
                    is_now.first_error->0,
                )
            },
        final(server)@.next_id == old(server)@.next_id,
        final(server)@.token_key == old(server)@.token_key,
        final(server)@.started == old(server)@.started,
{
    assert forall|other: C| #[trigger]
        final(server)@.channels.contains_key(other) <==> old(server)@.channels.contains_key(
            other,
        ) by {
        assert(final(server)@.channels.dom().contains(other) == old(
            server,
        )@.channels.dom().contains(other));
    }
    assert forall|other: C|
        other != channel && old(server)@.channels.contains_key(
            other,
        ) implies #[trigger] final(server)@.channels[other] == old(server)@.channels[other] by {
        assert(final(server)@.channels.contains_key(other));
        assert(final(server)@.clients(other) == old(server)@.clients(other));
    }
    if old(server)@.channels.contains_key(channel) {
        let before = old(server)@.channels[channel];
        let after = final(server)@.channels[channel];
        assert(final(server)@.channels.contains_key(channel));
        assert(all_sent(
            old(server)@.clients(channel),
            final(server)@.clients(channel),
            encode_utf8(text),
            old(server)@.started,
        ));
        assert forall|i: int| 0 <= i < before.len() implies before[i].sent(
            #[trigger] after[i],
            encode_utf8(text),
            old(server)@.started,
        ) by {
            assert(before[i] == old(server)@.clients(channel)[i]);
            assert(after[i] == final(server)@.clients(channel)[i]);
        }
        assert forall|i: int| 0 <= i < before.len() implies {
            let was = before[i];
            let is_now = #[trigger] after[i];
            &&& is_now.id == was.id
            &&& is_now.stream == was.stream
            &&& is_now.offered == was.offered.push(encode_utf8(text))
            &&& is_now.first_error is None ==> is_now.queued == was.queued.push(encode_utf8(text))
            &&& is_now.first_error is Some ==> is_now.queued == was.queued
            &&& is_now.first_error is Some && was.first_error is Some ==> is_now.first_error
                == was.first_error
            &&& is_now.first_error is Some && was.first_error is None ==> elapsed_gives(
                old(server)@.started,
                is_now.first_error->0,
            )
        } by {
            lemma_attempt(before[i], after[i], encode_utf8(text), old(server)@.started);
        }
    }
}

/// A message that could not be serialized is not pushed: the error comes back, and nothing changes.
pub proof fn lemma_error_is_returned_and_nothing_is_pushed<C: Eq + Hash, E>(
    server: &mut Server<C>,
    channel: C,
    event: &str,
    error: E,
    pushed: Result<(), E>,
)
    requires
        call_ensures(
            Server::<C>::push::<E>,
            (server, channel, event, Err::<String, E>(error)),
            pushed,
        ),
    ensures
        pushed is Err,
        pushed->Err_0 == error,
        final(server)@ == old(server)@,
{
}

/// The clients that are kept at `now`: those without a failure, and those whose first failure was
/// noted at most five times a thousand million nanoseconds before. They keep their order.
proof fn lemma_live_is_at_most_five_seconds(clients: Seq<ClientState>, now: u128)
    ensures
        live(clients, now) == clients.filter(
            |client: ClientState|
                client.first_error is None || now - client.first_error->0 <= 5 * 1_000_000_000,
        ),
{
    let kept = |client: ClientState| !client.is_stale(now);
    let few = |client: ClientState|
        client.first_error is None || now - client.first_error->0 <= 5 * 1_000_000_000;
    assert(kept =~= few);
}

/// Removing stale clients at a time keeps, of each channel, exactly the clients without a failure and
/// those whose first failure was noted at most five seconds before, in their order. A channel that
/// keeps no client is not held any longer. Nothing else changes.
pub proof fn lemma_sweep_keeps_who_failed_for_at_most_five_seconds<C: Eq + Hash>(
    server: &mut Server<C>,
    now: u128,
    channel: C,
)
    requires
        call_ensures(Server::<C>::remove_stale_clients_at, (server, now), ()),
        obeys_key_model::<C>(),
    ensures
        ({
            let kept = old(server)@.channels[channel].filter(
                |client: ClientState|
                    client.first_error is None || now - client.first_error->0 <= 5 * 1_000_000_000,
            );
            &&& final(server)@.channels.contains_key(channel) <==> old(
                server,
            )@.channels.contains_key(channel) && kept.len() > 0
            &&& final(server)@.channels.contains_key(channel)
                ==> final(server)@.channels[channel] == kept
        }),
        final(server)@.next_id == old(server)@.next_id,
        final(server)@.token_key == old(server)@.token_key,
        final(server)@.started == old(server)@.started,
{
    lemma_live_is_at_most_five_seconds(old(server)@.clients(channel), now);
    if !old(server)@.channels.contains_key(channel) {
        reveal(Seq::filter);
    }
}

/// Removing stale clients does so at one time since the start of the server, which measuring it gave
/// at the call, in nanoseconds: what is kept of each channel is what a sweep at that time keeps.
pub proof fn lemma_sweep_is_done_at_the_time_that_is_measured<C: Eq + Hash>(server: &mut Server<C>)
    requires
        call_ensures(Server::<C>::remove_stale_clients, (server,), ()),
        obeys_key_model::<C>(),
    ensures
        exists|now: u128|
            {
                &&& #[trigger] elapsed_gives(old(server)@.started, now)
                &&& forall|channel: C|
                    {
                        let kept = old(server)@.channels[channel].filter(
                            |client: ClientState|
                                client.first_error is None || now - client.first_error->0 <= 5
                                    * 1_000_000_000,
                        );
                        &&& #[trigger] final(server)@.channels.contains_key(channel) <==> old(
                            server,
                        )@.channels.contains_key(channel) && kept.len() > 0
                        &&& final(server)@.channels.contains_key(channel)
                            ==> final(server)@.channels[channel] == kept
                    }
            },
        final(server)@.next_id == old(server)@.next_id,
        final(server)@.token_key == old(server)@.token_key,
        final(server)@.started == old(server)@.started,
{
    let now = choose|now: u128|
        elapsed_gives(old(server)@.started, now) && final(server)@ == #[trigger] old(
            server,
        )@.without_stale(now);
    assert(elapsed_gives(old(server)@.started, now));
    assert forall|channel: C|
        {
            let kept = old(server)@.channels[channel].filter(
                |client: ClientState|
                    client.first_error is None || now - client.first_error->0 <= 5 * 1_000_000_000,
            );
            &&& #[trigger] final(server)@.channels.contains_key(channel) <==> old(
                server,
            )@.channels.contains_key(channel) && kept.len() > 0
            &&& final(server)@.channels.contains_key(channel) ==> final(server)@.channels[channel]
                == kept
        } by {
        lemma_live_is_at_most_five_seconds(old(server)@.clients(channel), now);
        if !old(server)@.channels.contains_key(channel) {
            reveal(Seq::filter);
        }
    }
}

/// A client has five seconds to recover, and no more. A push to its channel fails for a client that
/// had not failed before, and the stale clients are removed afterwards. The failure is noted at the
/// time since the start of the server that the clock gave at the push, and the removal is done at the
/// time that it gave then. The client is still there exactly if these two lie at most five seconds
/// apart.
pub proof fn lemma_failing_client_has_five_seconds<C: Eq + Hash, E>(
    server: &mut Server<C>,
    channel: C,
    event: &str,
    payload: String,
    pushed: Result<(), E>,
    swept: &mut Server<C>,
    i: int,
)
    requires
        obeys_key_model::<C>(),
        call_ensures(
            Server::<C>::push::<E>,
            (server, channel, event, Ok::<String, E>(payload)),
            pushed,
        ),
        old(server)@.channels.contains_key(channel),
        0 <= i < old(server)@.channels[channel].len(),
        old(server)@.channels[channel][i].first_error is None,
        final(server)@.channels[channel][i].first_error is Some,
        old(swept)@ == final(server)@,
        call_ensures(Server::<C>::remove_stale_clients, (swept,), ()),
    ensures
        exists|failed: u128, now: u128|
            {
                &&& #[trigger] elapsed_gives(old(server)@.started, failed)
                &&& #[trigger] elapsed_gives(old(server)@.started, now)
                &&& final(server)@.channels[channel][i].first_error == Some(failed)
                &&& now - failed <= 5 * 1_000_000_000 <==> final(swept)@.channels.contains_key(
                    channel,
                ) && final(swept)@.channels[channel].contains(final(server)@.channels[channel][i])
            },
{
    let text = "event: "@ + event@ + "\ndata: "@ + payload@ + "\n\n"@;
    lemma_pushed_event_goes_to_the_channel(server, channel, event, payload, text, pushed);
    let client = final(server)@.channels[channel][i];
    let failed = client.first_error->0;
    let now = choose|now: u128|
        elapsed_gives(old(swept)@.started, now) && final(swept)@ == #[trigger] old(
            swept,
        )@.without_stale(now);
    let clients = old(swept)@.clients(channel);
    assert(old(swept)@.channels.contains_key(channel));
    assert(clients[i] == client);
    lemma_live_positions(clients, now);
    let kept = live(clients, now);
    if now - failed <= 5 * 1_000_000_000 {
        assert(live_positions(clients, now).contains(i));
        let k = choose|k: int|
            0 <= k < live_positions(clients, now).len() && live_positions(clients, now)[k] == i;
        assert(kept[k] == client);
        assert(final(swept)@.channels[channel].contains(client));
    } else if final(swept)@.channels.contains_key(channel) && final(swept)@.channels[channel].contains(
        client,
    ) {
        let k = choose|k: int| 0 <= k < kept.len() && kept[k] == client;
        assert(!kept[k].is_stale(now));
    }
    assert(elapsed_gives(old(server)@.started, failed));
    assert(elapsed_gives(old(server)@.started, now));
}

/// One round of maintenance removes stale clients, at the time since the start of the server that
/// measuring it gave, and then offers a heartbeat exactly once to each of those that are left.
pub proof fn lemma_maintenance_sweeps_and_sends_heartbeats<C: Eq + Hash>(
    server: &mut Server<C>,
    text: Seq<char>,
)
    requires
        call_ensures(Server::<C>::maintain, (server,), ()),
        obeys_key_model::<C>(),
        text == seq![':', '\n', '\n'],
    ensures
        exists|now: u128|
            {
                &&& #[trigger] elapsed_gives(old(server)@.started, now)
                &&& forall|channel: C|
                    {
                        let kept = old(server)@.channels[channel].filter(
                            |client: ClientState|
                                client.first_error is None || now - client.first_error->0 <= 5
                                    * 1_000_000_000,
                        );
                        &&& #[trigger] final(server)@.channels.contains_key(channel) <==> old(
                            server,
                        )@.channels.contains_key(channel) && kept.len() > 0
                        &&& final(server)@.channels.contains_key(channel)
                            ==> final(server)@.channels[channel].len() == kept.len() && forall|
                            i: int,
                        |
                            0 <= i < kept.len() ==> {
                                let is_now = #[trigger] final(server)@.channels[channel][i];
                                &&& is_now.id == kept[i].id
                                &&& is_now.stream == kept[i].stream
                                &&& is_now.offered == kept[i].offered.push(encode_utf8(text))
                                &&& is_now.first_error is None ==> is_now.queued
                                    == kept[i].queued.push(encode_utf8(text))
                                &&& is_now.first_error is Some ==> is_now.queued == kept[i].queued
                            }
                    }
            },
        final(server)@.next_id == old(server)@.next_id,
        final(server)@.token_key == old(server)@.token_key,
        final(server)@.started == old(server)@.started,
{
    reveal_strlit(":\n\n");
    assert(heartbeat_text() =~= text);
    let bytes = encode_utf8(text);
    let now = choose|now: u128|
        elapsed_gives(old(server)@.started, now) && #[trigger] old(server)@.without_stale(
            now,
        ).sent_to_all(final(server)@, encode_utf8(heartbeat_text()));
    let swept = old(server)@.without_stale(now);
    assert(elapsed_gives(old(server)@.started, now));
    assert forall|channel: C|
        {
            let kept = old(server)@.channels[channel].filter(
                |client: ClientState|
                    client.first_error is None || now - client.first_error->0 <= 5 * 1_000_000_000,
            );
            &&& #[trigger] final(server)@.channels.contains_key(channel) <==> old(
                server,
            )@.channels.contains_key(channel) && kept.len() > 0
            &&& final(server)@.channels.contains_key(channel)
                ==> final(server)@.channels[channel].len() == kept.len() && forall|i: int|
                0 <= i < kept.len() ==> {
                    let is_now = #[trigger] final(server)@.channels[channel][i];
                    &&& is_now.id == kept[i].id
                    &&& is_now.stream == kept[i].stream
                    &&& is_now.offered == kept[i].offered.push(bytes)
                    &&& is_now.first_error is None ==> is_now.queued == kept[i].queued.push(bytes)
                    &&& is_now.first_error is Some ==> is_now.queued == kept[i].queued
                }
        } by {
        let clients = old(server)@.clients(channel);
        lemma_live_is_at_most_five_seconds(clients, now);
        if !old(server)@.channels.contains_key(channel) {
            reveal(Seq::filter);
        }
        assert(final(server)@.channels.dom().contains(channel) == swept.channels.dom().contains(
            channel,
        ));
        if final(server)@.channels.contains_key(channel) {
            let kept = live(clients, now);
            let after = final(server)@.channels[channel];
            assert(swept.clients(channel) == kept);
            assert(all_sent(kept, final(server)@.clients(channel), bytes, swept.started));
            assert forall|i: int| 0 <= i < kept.len() implies {
                let is_now = #[trigger] after[i];
                &&& is_now.id == kept[i].id
                &&& is_now.stream == kept[i].stream
                &&& is_now.offered == kept[i].offered.push(bytes)
                &&& is_now.first_error is None ==> is_now.queued == kept[i].queued.push(bytes)
                &&& is_now.first_error is Some ==> is_now.queued == kept[i].queued
            } by {
                assert(kept[i].sent(after[i], bytes, swept.started));
                lemma_attempt(kept[i], after[i], bytes, swept.started);
            }
        }
    }
}

/// The shape of an answer, and what it leaves behind.
proof fn lemma_answer<C: Eq + Hash>(
    before: ServerState<C>,
    after: ServerState<C>,
    channel: Option<C>,
    token: Option<AuthToken<C>>,
    now: i128,
    response: StreamResponse,
)
    requires
        decided(channel, token, now, response),
        response.is_stream() || after == before,
        is_channel_type::<C>() ==> answered(before, after, channel, token, now, response),
    ensures
        channel is None || token is None ==> response.status == 400,
        channel is Some && token is Some && now - token->0.created >= 24 * 3600 * 1_000_000_000
            ==> response.status == 401,
        channel is Some && token is Some && token->0.allowed_channel is None && now
            - token->0.created < 24 * 3600 * 1_000_000_000 ==> response.status == 200,
        C::obeys_eq_spec() && channel is Some && token is Some && token->0.allowed_channel is Some
            && now - token->0.created < 24 * 3600 * 1_000_000_000 ==> response.status == if channel->0.eq_spec(
            &token->0.allowed_channel->0,
        ) {
            200u16
        } else {
            401u16
        },
        response.status == 200 ==> {
            &&& response.headers@.len() == 4
            &&& response.headers@[0].0@ == "Cache-Control"@
            &&& response.headers@[0].1@ == "no-cache"@
            &&& response.headers@[1].0@ == "X-Accel-Buffering"@
            &&& response.headers@[1].1@ == "no"@
            &&& response.headers@[2].0@ == "Content-Type"@
            &&& response.headers@[2].1@ == "text/event-stream"@
            &&& response.headers@[3].0@ == "Access-Control-Allow-Origin"@
            &&& response.headers@[3].1@ == "*"@
            &&& response.body is Some
        },
        response.status != 200 ==> {
            &&& response.headers@.len() == 0
            &&& response.body is None
            &&& after == before
        },
        obeys_key_model::<C>() && C::obeys_eq_spec() && response.status == 200 ==> {
            let added = after.channels[channel->0].last();
            &&& after.channels.contains_key(channel->0)
            &&& after.channels[channel->0].len() > 0
            &&& added.id == before.next_id
            &&& added.first_error is None
            &&& added.stream == source_of(response.body->0)
            &&& added.queued.len() == 0
            &&& added.offered.len() == 0
            &&& before.channels.contains_key(channel->0)
                ==> after.channels[channel->0].drop_last() == before.channels[channel->0]
            &&& !before.channels.contains_key(channel->0)
                ==> after.channels[channel->0].len() == 1
            &&& forall|other: C|
                other != channel->0 ==> (#[trigger] after.channels.contains_key(other)
                    <==> before.channels.contains_key(other))
            &&& forall|other: C|
                other != channel->0 && before.channels.contains_key(other)
                    ==> #[trigger] after.channels[other] == before.channels[other]
            &&& before.next_id < usize::MAX ==> after.next_id == before.next_id + 1
        },
{
    if response.status == 200 {
        let texts = header_texts(response.headers@);
        assert(texts[0] == ("Cache-Control"@, "no-cache"@));
        assert(texts[1] == ("X-Accel-Buffering"@, "no"@));
        assert(texts[2] == ("Content-Type"@, "text/event-stream"@));
        assert(texts[3] == ("Access-Control-Allow-Origin"@, "*"@));
        assert(texts.len() == response.headers@.len());
        assert forall|i: int| 0 <= i < 4 implies #[trigger] texts[i] == (
            response.headers@[i].0@,
            response.headers@[i].1@,
        ) by {}
    }
    if is_channel_type::<C>() && response.status == 200 && before.channels.contains_key(
        channel->0,
    ) {
        assert(after.channels[channel->0].drop_last() =~= before.channels[channel->0]);
    }
}

/// A request that names a channel and carries a token is answered with a stream exactly if the token
/// is for that channel or for all and less than 24 hours old at `now`. Without a channel or a token
/// it is answered with 400, and otherwise with 401. A stream has the headers of an event stream, and
/// a client that reads from it, with the next number and nothing offered yet, comes last on the
/// channel. Nothing else changes, and a refusal changes nothing.
pub proof fn lemma_stream_is_opened_exactly_if_allowed<C: Eq + Hash>(
    server: &mut Server<C>,
    channel: Option<C>,
    token: Option<AuthToken<C>>,
    now: i128,
    response: StreamResponse,
)
    requires
        call_ensures(Server::<C>::open_stream, (server, channel, token, now), response),
    ensures
        channel is None || token is None ==> response.status == 400,
        channel is Some && token is Some && now - token->0.created >= 24 * 3600 * 1_000_000_000
            ==> response.status == 401,
        channel is Some && token is Some && token->0.allowed_channel is None && now
            - token->0.created < 24 * 3600 * 1_000_000_000 ==> response.status == 200,
        C::obeys_eq_spec() && channel is Some && token is Some && token->0.allowed_channel is Some
            && now - token->0.created < 24 * 3600 * 1_000_000_000 ==> response.status == if channel->0.eq_spec(
            &token->0.allowed_channel->0,
        ) {
            200u16
        } else {
            401u16
        },
        response.status == 200 ==> {
            &&& response.headers@.len() == 4
            &&& response.headers@[0].0@ == "Cache-Control"@
            &&& response.headers@[0].1@ == "no-cache"@
            &&& response.headers@[1].0@ == "X-Accel-Buffering"@
            &&& response.headers@[1].1@ == "no"@
            &&& response.headers@[2].0@ == "Content-Type"@
            &&& response.headers@[2].1@ == "text/event-stream"@
            &&& response.headers@[3].0@ == "Access-Control-Allow-Origin"@
            &&& response.headers@[3].1@ == "*"@
            &&& response.body is Some
        },
        response.status != 200 ==> {
            &&& response.headers@.len() == 0
            &&& response.body is None
            &&& final(server)@ == old(server)@
        },
        obeys_key_model::<C>() && C::obeys_eq_spec() && response.status == 200 ==> {
            let added = final(server)@.channels[channel->0].last();
            &&& final(server)@.channels.contains_key(channel->0)
            &&& final(server)@.channels[channel->0].len() > 0
            &&& added.id == old(server)@.next_id
            &&& added.first_error is None
            &&& added.stream == source_of(response.body->0)
            &&& added.queued.len() == 0
            &&& added.offered.len() == 0
            &&& old(server)@.channels.contains_key(channel->0)
                ==> final(server)@.channels[channel->0].drop_last() == old(
                server,
            )@.channels[channel->0]
            &&& !old(server)@.channels.contains_key(channel->0)
                ==> final(server)@.channels[channel->0].len() == 1
            &&& forall|other: C|
                other != channel->0 ==> (#[trigger] final(server)@.channels.contains_key(other)
                    <==> old(server)@.channels.contains_key(other))
            &&& forall|other: C|
                other != channel->0 && old(server)@.channels.contains_key(other)
                    ==> #[trigger] final(server)@.channels[other] == old(server)@.channels[other]
            &&& old(server)@.next_id < usize::MAX ==> final(server)@.next_id == old(
                server,
            )@.next_id + 1
        },
        final(server)@.token_key == old(server)@.token_key,
        final(server)@.started == old(server)@.started,
{
    lemma_answer(old(server)@, final(server)@, channel, token, now, response);
}

/// A request is judged at the time that the system clock gave when it was read for the request, in
/// seconds and nanoseconds: the token is fresh if less than 24 hours lie between its making and that
/// reading. Everything else is as for a request that is answered at a given time.
pub proof fn lemma_request_is_judged_at_the_reading<C: Eq + Hash>(
    server: &mut Server<C>,
    channel: Option<C>,
    token: Option<AuthToken<C>>,
    response: StreamResponse,
)
    requires
        call_ensures(Server::<C>::open_stream_now, (server, channel, token), response),
    ensures
        exists|reading: Result<(u64, u32), (u64, u32)>|
            {
                let now = match reading {
                    Ok(since) => since.0 * 1_000_000_000 + since.1,
                    Err(until) => -(until.0 * 1_000_000_000 + until.1),
                };
                &&& #[trigger] system_clock_gives(reading)
                &&& channel is None || token is None ==> response.status == 400
                &&& channel is Some && token is Some && now - token->0.created >= 24 * 3600 * 1_000_000_000
                    ==> response.status == 401
                &&& channel is Some && token is Some && token->0.allowed_channel is None && now
                    - token->0.created < 24 * 3600 * 1_000_000_000 ==> response.status == 200
                &&& C::obeys_eq_spec() && channel is Some && token is Some && token->0.allowed_channel is Some
                    && now - token->0.created < 24 * 3600 * 1_000_000_000 ==> response.status == if channel->0.eq_spec(
                    &token->0.allowed_channel->0,
                ) {
                    200u16
                } else {
                    401u16
                }
            },
        response.status == 200 ==> {
            &&& response.headers@.len() == 4
            &&& response.headers@[0].0@ == "Cache-Control"@
            &&& response.headers@[0].1@ == "no-cache"@
            &&& response.headers@[1].0@ == "X-Accel-Buffering"@
            &&& response.headers@[1].1@ == "no"@
            &&& response.headers@[2].0@ == "Content-Type"@
            &&& response.headers@[2].1@ == "text/event-stream"@
            &&& response.headers@[3].0@ == "Access-Control-Allow-Origin"@
            &&& response.headers@[3].1@ == "*"@
            &&& response.body is Some
        },
        response.status != 200 ==> {
            &&& response.headers@.len() == 0
            &&& response.body is None
            &&& final(server)@ == old(server)@
        },
        obeys_key_model::<C>() && C::obeys_eq_spec() && response.status == 200 ==> {
            let added = final(server)@.channels[channel->0].last();
            &&& final(server)@.channels.contains_key(channel->0)
            &&& final(server)@.channels[channel->0].len() > 0
            &&& added.id == old(server)@.next_id
            &&& added.first_error is None
            &&& added.stream == source_of(response.body->0)
            &&& added.queued.len() == 0
            &&& added.offered.len() == 0
            &&& old(server)@.channels.contains_key(channel->0)
                ==> final(server)@.channels[channel->0].drop_last() == old(
                server,
            )@.channels[channel->0]
            &&& !old(server)@.channels.contains_key(channel->0)
                ==> final(server)@.channels[channel->0].len() == 1
            &&& forall|other: C|
                other != channel->0 ==> (#[trigger] final(server)@.channels.contains_key(other)
                    <==> old(server)@.channels.contains_key(other))
            &&& forall|other: C|
                other != channel->0 && old(server)@.channels.contains_key(other)
                    ==> #[trigger] final(server)@.channels[other] == old(server)@.channels[other]
            &&& old(server)@.next_id < usize::MAX ==> final(server)@.next_id == old(
                server,
            )@.next_id + 1
        },
        final(server)@.token_key == old(server)@.token_key,
        final(server)@.started == old(server)@.started,
{
    let time = choose|time: i128|
        {
            &&& is_clock_time(time)
            &&& #[trigger] decided(channel, token, time, response)
            &&& is_channel_type::<C>() ==> answered(
                old(server)@,
                final(server)@,
                channel,
                token,
                time,
                response,
            )
        };
    let reading = choose|reading: Result<(u64, u32), (u64, u32)>| #[trigger]
        system_clock_gives(reading) && is_reading(reading) && time == unix_nanos(reading);
    assert(system_clock_gives(reading));
    lemma_answer(old(server)@, final(server)@, channel, token, time, response);
}

/// Whether reading the query can give nothing but the token. There is none if there is no query, if
/// it does not decode, or if the cipher refuses what it decodes to. Otherwise the cipher gives
/// `plain` for it, with the message number zero, the domain `ssetoken` and the key, and the parser
/// gives the token for `plain`.
pub open spec fn query_gives<C, D, J>(
    query: Option<&str>,
    key: [u8; 32],
    decrypt: D,
    parse_token: J,
    plain: Seq<u8>,
    token: Option<AuthToken<C>>,
) -> bool where
    D: FnOnce(&[u8], u64, &str, &[u8; 32]) -> Option<Vec<u8>>,
    J: FnOnce(&[u8]) -> Option<AuthToken<C>>,
 {
    ||| query is None && token is None
    ||| query is Some && decoded(encode_utf8(query->0@)) is None && token is None
    ||| {
        &&& query is Some && encode_utf8(query->0@).len() <= usize::MAX / 4
        &&& decoded(encode_utf8(query->0@)) is Some
        &&& token is None
        &&& forall|input: &[u8], domain: &str, opened: Option<Vec<u8>>|
            input@ == decoded(encode_utf8(query->0@))->0 && domain@ == "ssetoken"@
                && #[trigger] call_ensures(decrypt, (input, 0u64, domain, &key), opened) ==> opened
                is None
    }
    ||| {
        &&& query is Some && encode_utf8(query->0@).len() <= usize::MAX / 4
        &&& decoded(encode_utf8(query->0@)) is Some
        &&& forall|input: &[u8], domain: &str, opened: Option<Vec<u8>>|
            input@ == decoded(encode_utf8(query->0@))->0 && domain@ == "ssetoken"@
                && #[trigger] call_ensures(decrypt, (input, 0u64, domain, &key), opened) ==> opened
                is Some && opened->0@ == plain
        &&& forall|input: &[u8], read: Option<AuthToken<C>>|
            input@ == plain && #[trigger] call_ensures(parse_token, (input,), read) ==> read
                == token
    }
}

proof fn lemma_query_gives<C, D, J>(
    query: Option<&str>,
    key: [u8; 32],
    decrypt: D,
    parse_token: J,
    plain: Seq<u8>,
    token: Option<AuthToken<C>>,
    read: Option<AuthToken<C>>,
) where
    D: FnOnce(&[u8], u64, &str, &[u8; 32]) -> Option<Vec<u8>>,
    J: FnOnce(&[u8]) -> Option<AuthToken<C>>,

    requires
        query_gives(query, key, decrypt, parse_token, plain, token),
        reads_token(query, key, decrypt, parse_token, read),
    ensures
        read == token,
{
    if query is Some && decoded(encode_utf8(query->0@)) is Some {
        let sealed = decoded(encode_utf8(query->0@))->0;
        assert(unseals(sealed, key, decrypt, parse_token, read));
        let opened = choose|opened: Option<Seq<u8>>| #[trigger]
            decrypts(decrypt, key, sealed, opened) && match opened {
                None => read is None,
                Some(bytes) => parses(parse_token, bytes, read),
            };
        assert(decrypts(decrypt, key, sealed, opened));
    }
}

/// A request is read as what the parser gives for the whole name that follows the last slash of its
/// path, and as the token that its query gives: the parser is called with exactly that name.
pub proof fn lemma_request_is_read_from_its_last_segment<C, P, D, J>(
    path: &str,
    query: Option<&str>,
    key: &[u8; 32],
    parse_channel: P,
    decrypt: D,
    parse_token: J,
    request: (Option<C>, Option<AuthToken<C>>),
    name: Seq<char>,
    plain: Seq<u8>,
    channel: Option<C>,
    token: Option<AuthToken<C>>,
) where
    P: FnOnce(&str) -> Option<C>,
    D: FnOnce(&[u8], u64, &str, &[u8; 32]) -> Option<Vec<u8>>,
    J: FnOnce(&[u8]) -> Option<AuthToken<C>>,

    requires
        call_ensures(
            read_request::<C, P, D, J>,
            (path, query, key, parse_channel, decrypt, parse_token),
            request,
        ),
        ends_with_segment(path@, name),
    ensures
        exists|segment: &str|
            segment@ == name && #[trigger] call_ensures(parse_channel, (segment,), request.0),
        (forall|segment: &str, parsed: Option<C>|
            segment@ == name && #[trigger] call_ensures(parse_channel, (segment,), parsed)
                ==> parsed == channel) ==> request.0 == channel,
        query_gives(query, *key, decrypt, parse_token, plain, token) ==> request.1 == token,
{
    lemma_name_is_the_segment(path@, name);
    if query_gives(query, *key, decrypt, parse_token, plain, token) {
        lemma_query_gives(query, *key, decrypt, parse_token, plain, token, request.1);
    }
}

/// A request for a name, whose query gives the token, is answered as follows. The channel is what the
/// parser gives for the whole name that follows the last slash of the path. The token is judged at
/// the time that the system clock gave when it was read for the request. The answer is a stream
/// exactly if there are a channel and a token, the token is for that channel or for all, and it is
/// less than 24 hours old. Without a channel or a token it is 400, and otherwise 401. With a stream
/// comes a client that reads from it, last on that channel. A refusal changes nothing.
pub proof fn lemma_request_is_answered_for_its_last_segment<C: Eq + Hash, P, D, J>(
    server: &mut Server<C>,
    path: &str,
    query: Option<&str>,
    parse_channel: P,
    decrypt: D,
    parse_token: J,
    response: StreamResponse,
    name: Seq<char>,
    plain: Seq<u8>,
    channel: Option<C>,
    token: Option<AuthToken<C>>,
) where
    P: FnOnce(&str) -> Option<C>,
    D: FnOnce(&[u8], u64, &str, &[u8; 32]) -> Option<Vec<u8>>,
    J: FnOnce(&[u8]) -> Option<AuthToken<C>>,

    requires
        call_ensures(
            Server::<C>::create_stream::<P, D, J>,
            (server, path, query, parse_channel, decrypt, parse_token),
            response,
        ),
        ends_with_segment(path@, name),
        forall|segment: &str, parsed: Option<C>|
            segment@ == name && #[trigger] call_ensures(parse_channel, (segment,), parsed)
                ==> parsed == channel,
        query_gives(query, old(server)@.token_key, decrypt, parse_token, plain, token),
    ensures
        exists|reading: Result<(u64, u32), (u64, u32)>|
            {
                let now = match reading {
                    Ok(since) => since.0 * 1_000_000_000 + since.1,
                    Err(until) => -(until.0 * 1_000_000_000 + until.1),
                };
                &&& #[trigger] system_clock_gives(reading)
                &&& channel is None || token is None ==> response.status == 400
                &&& channel is Some && token is Some && now - token->0.created >= 24 * 3600 * 1_000_000_000
                    ==> response.status == 401
                &&& channel is Some && token is Some && token->0.allowed_channel is None && now
                    - token->0.created < 24 * 3600 * 1_000_000_000 ==> response.status == 200
                &&& C::obeys_eq_spec() && channel is Some && token is Some && token->0.allowed_channel is Some
                    && now - token->0.created < 24 * 3600 * 1_000_000_000 ==> response.status == if channel->0.eq_spec(
                    &token->0.allowed_channel->0,
                ) {
                    200u16
                } else {
                    401u16
                }
            },
        response.status == 200 ==> {
            &&& response.headers@.len() == 4
            &&& response.headers@[0].0@ == "Cache-Control"@
            &&& response.headers@[0].1@ == "no-cache"@
            &&& response.headers@[1].0@ == "X-Accel-Buffering"@
            &&& response.headers@[1].1@ == "no"@
            &&& response.headers@[2].0@ == "Content-Type"@
            &&& response.headers@[2].1@ == "text/event-stream"@
            &&& response.headers@[3].0@ == "Access-Control-Allow-Origin"@
            &&& response.headers@[3].1@ == "*"@
            &&& response.body is Some
        },
        response.status != 200 ==> {
            &&& response.headers@.len() == 0
            &&& response.body is None
            &&& final(server)@ == old(server)@
        },
        obeys_key_model::<C>() && C::obeys_eq_spec() && response.status == 200 ==> {
            let added = final(server)@.channels[channel->0].last();
            &&& final(server)@.channels.contains_key(channel->0)
            &&& final(server)@.channels[channel->0].len() > 0
            &&& added.id == old(server)@.next_id
            &&& added.first_error is None
            &&& added.stream == source_of(response.body->0)
            &&& added.queued.len() == 0
            &&& added.offered.len() == 0
            &&& old(server)@.channels.contains_key(channel->0)
                ==> final(server)@.channels[channel->0].drop_last() == old(
                server,
            )@.channels[channel->0]
            &&& !old(server)@.channels.contains_key(channel->0)
                ==> final(server)@.channels[channel->0].len() == 1
            &&& forall|other: C|
                other != channel->0 ==> (#[trigger] final(server)@.channels.contains_key(other)
                    <==> old(server)@.channels.contains_key(other))
            &&& forall|other: C|
                other != channel->0 && old(server)@.channels.contains_key(other)
                    ==> #[trigger] final(server)@.channels[other] == old(server)@.channels[other]
            &&& old(server)@.next_id < usize::MAX ==> final(server)@.next_id == old(
                server,
            )@.next_id + 1
        },
        final(server)@.token_key == old(server)@.token_key,
        final(server)@.started == old(server)@.started,
{
    lemma_name_is_the_segment(path@, name);
    let (named, read, time) = choose|
        named: Option<C>,
        read: Option<AuthToken<C>>,
        time: i128,
    |
        {
            &&& names_channel(parse_channel, path@, named)
            &&& reads_token(query, old(server)@.token_key, decrypt, parse_token, read)
            &&& is_clock_time(time)
            &&& #[trigger] decided(named, read, time, response)
            &&& is_channel_type::<C>() ==> answered(
                old(server)@,
                final(server)@,
                named,
                read,
                time,
                response,
            )
        };
    assert(named == channel);
    lemma_query_gives(
        query,
        old(server)@.token_key,
        decrypt,
        parse_token,
        plain,
        token,
        read,
    );
    let reading = choose|reading: Result<(u64, u32), (u64, u32)>| #[trigger]
        system_clock_gives(reading) && is_reading(reading) && time == unix_nanos(reading);
    assert(system_clock_gives(reading));
    lemma_answer(old(server)@, final(server)@, channel, token, time, response);
}

/// A token that the server makes at a given time says so: that time and the channel, as they were
/// given, go to the serializer. What comes back goes to the cipher, with the message number zero,
/// the domain `ssetoken` and the key of the server, and the text decodes to what the cipher gives.
pub proof fn lemma_generated_token_says_when_and_where<C: Eq + Hash, E, J, S>(
    server: &Server<C>,
    channel: Option<C>,
    created: i128,
    serialize: J,
    encrypt: S,
    text: Result<String, E>,
) where
    J: FnOnce(&AuthToken<C>) -> Result<Vec<u8>, E>,
    S: FnOnce(&[u8], u64, &str, &[u8; 32]) -> Vec<u8>,

    requires
        call_ensures(
            Server::<C>::generate_auth_token_at::<E, J, S>,
            (server, channel, created, serialize, encrypt),
            text,
        ),
    ensures
        exists|token: AuthToken<C>, plain: Result<Vec<u8>, E>|
            {
                &&& token.created == created
                &&& token.allowed_channel == channel
                &&& #[trigger] call_ensures(serialize, (&token,), plain)
                &&& plain is Err ==> text is Err && text->Err_0 == plain->Err_0
                &&& plain is Ok ==> text is Ok && exists|input: &[u8], domain: &str, out: Vec<u8>|
                    {
                        &&& input@ == plain->Ok_0@
                        &&& domain@ == "ssetoken"@
                        &&& #[trigger] call_ensures(
                            encrypt,
                            (input, 0u64, domain, &server@.token_key),
                            out,
                        )
                        &&& decoded(encode_utf8(text->Ok_0@)) == Some(out@)
                    }
            },
{
    let token = AuthToken { created, allowed_channel: channel };
    lemma_sealed(token, server@.token_key, serialize, encrypt, text);
}

/// A token that the server generates says that it was made when the clock was read for it: the
/// seconds and nanoseconds that the system clock gave are the time that goes to the serializer.
pub proof fn lemma_generated_token_is_made_at_the_reading<C: Eq + Hash, E, J, S>(
    server: &Server<C>,
    channel: Option<C>,
    serialize: J,
    encrypt: S,
    text: Result<String, E>,
) where
    J: FnOnce(&AuthToken<C>) -> Result<Vec<u8>, E>,
    S: FnOnce(&[u8], u64, &str, &[u8; 32]) -> Vec<u8>,

    requires
        call_ensures(
            Server::<C>::generate_auth_token::<E, J, S>,
            (server, channel, serialize, encrypt),
            text,
        ),
    ensures
        exists|
            reading: Result<(u64, u32), (u64, u32)>,
            token: AuthToken<C>,
            plain: Result<Vec<u8>, E>,
        |
            {
                &&& #[trigger] system_clock_gives(reading)
                &&& token.allowed_channel == channel
                &&& token.created == match reading {
                    Ok(since) => since.0 * 1_000_000_000 + since.1,
                    Err(until) => -(until.0 * 1_000_000_000 + until.1),
                }
                &&& #[trigger] call_ensures(serialize, (&token,), plain)
                &&& plain is Err ==> text is Err && text->Err_0 == plain->Err_0
                &&& plain is Ok ==> text is Ok && exists|input: &[u8], domain: &str, out: Vec<u8>|
                    {
                        &&& input@ == plain->Ok_0@
                        &&& domain@ == "ssetoken"@
                        &&& #[trigger] call_ensures(
                            encrypt,
                            (input, 0u64, domain, &server@.token_key),
                            out,
                        )
                        &&& decoded(encode_utf8(text->Ok_0@)) == Some(out@)
                    }
            },
{
    let created = choose|created: i128|
        is_clock_time(created) && #[trigger] seals_token(
            (AuthToken { created, allowed_channel: channel }),
            server@.token_key,
            serialize,
            encrypt,
            text,
        );
    let token = AuthToken { created, allowed_channel: channel };
    let reading = choose|reading: Result<(u64, u32), (u64, u32)>| #[trigger]
        system_clock_gives(reading) && is_reading(reading) && created == unix_nanos(reading);
    assert(system_clock_gives(reading));
    lemma_sealed(token, server@.token_key, serialize, encrypt, text);
}

proof fn lemma_sealed<C, E, J, S>(
    token: AuthToken<C>,
    key: [u8; 32],
    serialize: J,
    encrypt: S,
    text: Result<String, E>,
) where
    J: FnOnce(&AuthToken<C>) -> Result<Vec<u8>, E>,
    S: FnOnce(&[u8], u64, &str, &[u8; 32]) -> Vec<u8>,

    requires
        seals_token(token, key, serialize, encrypt, text),
    ensures
        exists|plain: Result<Vec<u8>, E>|
            {
                &&& #[trigger] call_ensures(serialize, (&token,), plain)
                &&& plain is Err ==> text is Err && text->Err_0 == plain->Err_0
                &&& plain is Ok ==> text is Ok && exists|input: &[u8], domain: &str, out: Vec<u8>|
                    {
                        &&& input@ == plain->Ok_0@
                        &&& domain@ == "ssetoken"@
                        &&& #[trigger] call_ensures(encrypt, (input, 0u64, domain, &key), out)
                        &&& decoded(encode_utf8(text->Ok_0@)) == Some(out@)
                    }
            },
{
    let plain = choose|plain: Result<Vec<u8>, E>| #[trigger]
        call_ensures(serialize, (&token,), plain) && match plain {
            Err(error) => text == Err::<String, E>(error),
            Ok(bytes) => text is Ok && exists|sealed: Seq<u8>| #[trigger]
                encrypts(encrypt, key, bytes@, sealed) && text->Ok_0@ == encoded(sealed)
                    && decoded(encode_utf8(text->Ok_0@)) == Some(sealed),
        };
    if plain is Ok {
        let sealed = choose|sealed: Seq<u8>| #[trigger]
            encrypts(encrypt, key, plain->Ok_0@, sealed) && text->Ok_0@ == encoded(sealed)
                && decoded(encode_utf8(text->Ok_0@)) == Some(sealed);
        assert(encrypts(encrypt, key, plain->Ok_0@, sealed));
    }
}

/// A token that the server generates is good for a day of clock time, on its channel. The server
/// generates it, and a request for a name that the parser takes for the channel presents it to a
/// server with the same key. The cipher and the parser undo what was done to the token. The request
/// gets the stream exactly if the token is for that channel or for all, and less than 24 hours lie
/// between what the system clock gave when the token was generated and what it gave when it was
/// presented. Otherwise it is answered with 401, and nothing changes.
pub proof fn lemma_generated_token_is_good_for_a_day<C: Eq + Hash, E, J, S, P, D, K>(
    issuer: &Server<C>,
    allowed: Option<C>,
    serialize: J,
    encrypt: S,
    text: String,
    server: &mut Server<C>,
    path: &str,
    query: &str,
    parse_channel: P,
    decrypt: D,
    parse_token: K,
    response: StreamResponse,
    name: Seq<char>,
    channel: C,
) where
    J: FnOnce(&AuthToken<C>) -> Result<Vec<u8>, E>,
    S: FnOnce(&[u8], u64, &str, &[u8; 32]) -> Vec<u8>,
    P: FnOnce(&str) -> Option<C>,
    D: FnOnce(&[u8], u64, &str, &[u8; 32]) -> Option<Vec<u8>>,
    K: FnOnce(&[u8]) -> Option<AuthToken<C>>,

    requires
        C::obeys_eq_spec(),
        call_ensures(
            Server::<C>::generate_auth_token::<E, J, S>,
            (issuer, allowed, serialize, encrypt),
            Ok::<String, E>(text),
        ),
        old(server)@.token_key == issuer@.token_key,
        query@ == text@,
        encode_utf8(query@).len() <= usize::MAX / 4,
        call_ensures(
            Server::<C>::create_stream::<P, D, K>,
            (server, path, Some(query), parse_channel, decrypt, parse_token),
            response,
        ),
        ends_with_segment(path@, name),
        forall|segment: &str, parsed: Option<C>|
            segment@ == name && #[trigger] call_ensures(parse_channel, (segment,), parsed)
                ==> parsed == Some(channel),
        forall|
            input: &[u8],
            domain: &str,
            sealed: Vec<u8>,
            again: &[u8],
            domain_again: &str,
            opened: Option<Vec<u8>>,
        |
            domain@ == "ssetoken"@ && domain_again@ == "ssetoken"@ && again@ == sealed@
                && #[trigger] call_ensures(
                encrypt,
                (input, 0u64, domain, &issuer@.token_key),
                sealed,
            ) && #[trigger] call_ensures(
                decrypt,
                (again, 0u64, domain_again, &issuer@.token_key),
                opened,
            ) ==> opened is Some && opened->0@ == input@,
        forall|token: AuthToken<C>, plain: Vec<u8>, input: &[u8], read: Option<AuthToken<C>>|
            token.allowed_channel == allowed && input@ == plain@ && #[trigger] call_ensures(
                serialize,
                (&token,),
                Ok::<Vec<u8>, E>(plain),
            ) && #[trigger] call_ensures(parse_token, (input,), read) ==> read == Some(token),
    ensures
        exists|
            issued: Result<(u64, u32), (u64, u32)>,
            shown: Result<(u64, u32), (u64, u32)>,
        |
            {
                let made = match issued {
                    Ok(since) => since.0 * 1_000_000_000 + since.1,
                    Err(until) => -(until.0 * 1_000_000_000 + until.1),
                };
                let now = match shown {
                    Ok(since) => since.0 * 1_000_000_000 + since.1,
                    Err(until) => -(until.0 * 1_000_000_000 + until.1),
                };
                &&& #[trigger] system_clock_gives(issued)
                &&& #[trigger] system_clock_gives(shown)
                &&& response.status == 200 <==> (allowed is None || channel.eq_spec(&allowed->0))
                    && now - made < 24 * 3600 * 1_000_000_000
            },
        response.status == 200 || response.status == 401,
        response.status == 401 ==> final(server)@ == old(server)@,
{
    let key = issuer@.token_key;
    lemma_generated_token_is_made_at_the_reading(
        issuer,
        allowed,
        serialize,
        encrypt,
        Ok::<String, E>(text),
    );
    let (issued, token, plain) = choose|
        issued: Result<(u64, u32), (u64, u32)>,
        token: AuthToken<C>,
        plain: Result<Vec<u8>, E>,
    |
        {
            &&& #[trigger] system_clock_gives(issued)
            &&& token.allowed_channel == allowed
            &&& token.created == match issued {
                Ok(since) => since.0 * 1_000_000_000 + since.1,
                Err(until) => -(until.0 * 1_000_000_000 + until.1),
            }
            &&& #[trigger] call_ensures(serialize, (&token,), plain)
            &&& plain is Ok
            &&& exists|input: &[u8], domain: &str, out: Vec<u8>|
                {
                    &&& input@ == plain->Ok_0@
                    &&& domain@ == "ssetoken"@
                    &&& #[trigger] call_ensures(encrypt, (input, 0u64, domain, &key), out)
                    &&& decoded(encode_utf8(text@)) == Some(out@)
                }
        };
    assert(call_ensures(serialize, (&token,), Ok::<Vec<u8>, E>(plain->Ok_0)));
    assert(query_gives(Some(query), key, decrypt, parse_token, plain->Ok_0@, Some(token)));
    lemma_request_is_answered_for_its_last_segment(
        server,
        path,
        Some(query),
        parse_channel,
        decrypt,
        parse_token,
        response,
        name,
        plain->Ok_0@,
        Some(channel),
        Some(token),
    );
}

/// What is pushed on a channel after a stream was opened on it goes to that stream: the client that
/// reads from the body of the answer is offered the pushed event, as the first chunk, and either has
/// it in its stream or a failure noted.
pub proof fn lemma_opened_stream_is_offered_the_next_event<C: Eq + Hash, E>(
    server: &mut Server<C>,
    channel: C,
    token: AuthToken<C>,
    response: StreamResponse,
    pushing: &mut Server<C>,
    event: &str,
    payload: String,
    pushed: Result<(), E>,
    text: Seq<char>,
)
    requires
        obeys_key_model::<C>(),
        C::obeys_eq_spec(),
        call_ensures(
            Server::<C>::open_stream_now,
            (server, Some(channel), Some(token)),
            response,
        ),
        response.status == 200,
        old(pushing)@ == final(server)@,
        call_ensures(
            Server::<C>::push::<E>,
            (pushing, channel, event, Ok::<String, E>(payload)),
            pushed,
        ),
        text == "event: "@ + event@ + "\ndata: "@ + payload@ + "\n\n"@,
    ensures
        final(pushing)@.channels.contains_key(channel),
        final(pushing)@.channels[channel].len() > 0,
        final(pushing)@.channels[channel].last().stream == source_of(response.body->0),
        final(pushing)@.channels[channel].last().offered == seq![encode_utf8(text)],
        final(pushing)@.channels[channel].last().first_error is None
            ==> final(pushing)@.channels[channel].last().queued == seq![encode_utf8(text)],
        final(pushing)@.channels[channel].last().first_error is Some
            ==> final(pushing)@.channels[channel].last().queued.len() == 0,
{
    lemma_request_is_judged_at_the_reading(server, Some(channel), Some(token), response);
    lemma_pushed_event_goes_to_the_channel(pushing, channel, event, payload, text, pushed);
    let i = old(pushing)@.channels[channel].len() - 1;
    let was = old(pushing)@.channels[channel][i];
    let is_now = final(pushing)@.channels[channel][i];
    assert(final(pushing)@.channels.contains_key(channel));
    assert(is_now.offered =~= seq![encode_utf8(text)]);
    if is_now.first_error is None {
        assert(is_now.queued =~= seq![encode_utf8(text)]);
    }
}

/// Rounds of maintenance are 45 seconds apart: a client that refuses the heartbeat of one round, with
/// no failure noted before it, is stale when the next one comes.
pub proof fn lemma_next_round_comes_after_five_seconds(
    client: &Client,
    tried: u128,
    now: u128,
    stale: bool,
)
    requires
        client@.first_error == Some(tried),
        now - tried >= MAINTENANCE_INTERVAL * 1_000_000_000,
        call_ensures(Client::is_stale, (client, now), stale),
    ensures
        MAINTENANCE_INTERVAL == 45,
        stale,
{
}

} // verus!
