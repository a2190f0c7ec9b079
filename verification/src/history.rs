//! The server over time: what holds in every state that it can come to.

use vstd::prelude::*;

use crate::channels::{all_sent, lemma_live_positions, live, live_positions};
use crate::client::{ClientState, STALE_AFTER};
use crate::response::StreamResponse;
use crate::server::{answered, ServerState};
use crate::token::{verdict, AuthToken, Verdict};
use crate::transport::source_of;

verus! {

/// A change of the server.
pub enum Change<C> {
    /// The client connected to the channel.
    Connected(C, ClientState),
    /// The chunk was sent to the clients of the channel.
    SentToChannel(C, Seq<u8>),
    /// The chunk was sent to the clients of all channels.
    SentToAll(Seq<u8>),
    /// The clients that were stale at this time were removed.
    Swept(u128),
    /// Nothing: a request was refused, or a message could not be serialized.
    Nothing,
}

/// Whether the server changed in this way from `before` to `after`.
pub open spec fn changed<C>(
    before: ServerState<C>,
    after: ServerState<C>,
    change: Change<C>,
) -> bool {
    match change {
        Change::Connected(channel, client) => {
            &&& client.id == before.next_id
            &&& client.first_error is None
            &&& after == before.with_client(channel, client)
        },
        Change::SentToChannel(channel, chunk) => before.sent_to_channel(after, channel, chunk),
        Change::SentToAll(chunk) => before.sent_to_all(after, chunk),
        Change::Swept(now) => after == before.without_stale(now),
        Change::Nothing => after == before,
    }
}

/// Whether the states are those of a server from its start on, which went through the changes:
/// `states[k]` is the state before `changes[k]`.
pub open spec fn is_history<C>(states: Seq<ServerState<C>>, changes: Seq<Change<C>>) -> bool {
    &&& states.len() == changes.len() + 1
    &&& states[0].channels == Map::<C, Seq<ClientState>>::empty()
    &&& states[0].next_id == 0
    &&& forall|k: int|
        0 <= k < changes.len() ==> changed(states[k], states[k + 1], #[trigger] changes[k])
}

/// How many clients connected.
pub open spec fn connections<C>(changes: Seq<Change<C>>) -> nat
    decreases changes.len(),
{
    if changes.len() == 0 {
        0
    } else if changes.last() is Connected {
        connections(changes.drop_last()) + 1
    } else {
        connections(changes.drop_last())
    }
}

/// Every operation of the server is one of the changes.
pub proof fn lemma_operations_are_changes<C: PartialEq>(
    before: ServerState<C>,
    after: ServerState<C>,
    channel: Option<C>,
    token: Option<AuthToken<C>>,
    time: i128,
    response: StreamResponse,
    other: C,
    chunk: Seq<u8>,
    now: u128,
)
    ensures
        answered(before, after, channel, token, time, response) ==> changed(
            before,
            after,
            if verdict(channel, token, time) == Verdict::Granted {
                Change::Connected(
                    channel->0,
                    ClientState::connected(before.next_id, source_of(response.body->0)),
                )
            } else {
                Change::Nothing
            },
        ),
        before.sent_to_channel(after, other, chunk) ==> changed(
            before,
            after,
            Change::SentToChannel(other, chunk),
        ),
        before.sent_to_all(after, chunk) ==> changed(before, after, Change::SentToAll(chunk)),
        changed(before, before.without_stale(now), Change::Swept(now)),
{
}

/// The key that tokens are sealed with never changes, nor does the point from which the times of
/// failures are counted.
pub proof fn lemma_changes_keep_the_key<C>(
    before: ServerState<C>,
    after: ServerState<C>,
    change: Change<C>,
)
    requires
        changed(before, after, change),
    ensures
        after.token_key == before.token_key,
        after.started == before.started,
{
}

/// Whether every channel that the server holds has at least one client.
pub open spec fn channels_have_clients<C>(server: ServerState<C>) -> bool {
    forall|channel: C| #[trigger]
        server.channels.contains_key(channel) ==> server.channels[channel].len() > 0
}

/// Whether the channel has a client at the position.
pub open spec fn has_client<C>(server: ServerState<C>, channel: C, i: int) -> bool {
    0 <= i < server.clients(channel).len()
}

/// Whether all clients of the server have different numbers, all of them given out before.
pub open spec fn ids_are_distinct<C>(server: ServerState<C>) -> bool {
    &&& forall|channel: C, i: int| #[trigger]
        has_client(server, channel, i) ==> server.clients(channel)[i].id < server.next_id
    &&& forall|channel1: C, i1: int, channel2: C, i2: int| #[trigger]
        has_client(server, channel1, i1) && #[trigger] has_client(server, channel2, i2) && (channel1
            != channel2 || i1 != i2) ==> server.clients(channel1)[i1].id != server.clients(
            channel2,
        )[i2].id
}

/// Whether the clients of each channel are listed by their numbers, the lowest first.
pub open spec fn ids_increase<C>(server: ServerState<C>) -> bool {
    forall|channel: C, i: int, j: int| #[trigger]
        has_client(server, channel, i) && #[trigger] has_client(server, channel, j) && i < j
            ==> server.clients(channel)[i].id < server.clients(channel)[j].id
}

/// What holds of the server in every state: each channel that it holds has a client, all clients
/// have different numbers, and each channel lists its clients by their numbers.
pub open spec fn is_sound<C>(server: ServerState<C>) -> bool {
    &&& channels_have_clients(server)
    &&& ids_are_distinct(server)
    &&& ids_increase(server)
}

/// Whether the client at the position is the one that connected with the change.
spec fn is_new<C>(before: ServerState<C>, change: Change<C>, channel: C, i: int) -> bool {
    change is Connected && change->Connected_0 == channel && i == before.clients(channel).len()
}

/// Where the client that is at the position after the change was before it.
spec fn position_before<C>(before: ServerState<C>, change: Change<C>, channel: C, i: int) -> int {
    match change {
        Change::Swept(now) => live_positions(before.clients(channel), now)[i],
        _ => i,
    }
}

proof fn lemma_position_before<C>(
    before: ServerState<C>,
    after: ServerState<C>,
    change: Change<C>,
    channel: C,
    i: int,
)
    requires
        changed(before, after, change),
        has_client(after, channel, i),
    ensures
        is_new(before, change, channel, i) ==> after.clients(channel)[i]
            == change->Connected_1,
        !is_new(before, change, channel, i) ==> {
            let p = position_before(before, change, channel, i);
            let was = before.clients(channel)[p];
            let is_now = after.clients(channel)[i];
            &&& has_client(before, channel, p)
            &&& is_now == was || exists|chunk: Seq<u8>| #[trigger] was.sent(
                is_now,
                chunk,
                before.started,
            )
        },
{
    match change {
        Change::SentToChannel(_, chunk) | Change::SentToAll(chunk) => {
            assert(after.clients(channel) == before.clients(channel) || all_sent(
                before.clients(channel),
                after.clients(channel),
                chunk,
                before.started,
            ));
        },
        Change::Swept(now) => {
            assert(after.clients(channel) == live(before.clients(channel), now));
            lemma_live_positions(before.clients(channel), now);
        },
        _ => {},
    }
}

/// No change leaves a channel without clients behind: those that have lost all of theirs are not
/// held any longer.
pub proof fn lemma_channels_keep_having_clients<C>(
    before: ServerState<C>,
    after: ServerState<C>,
    change: Change<C>,
)
    requires
        channels_have_clients(before),
        changed(before, after, change),
    ensures
        channels_have_clients(after),
{
    if change is SentToChannel || change is SentToAll {
        assert forall|channel: C| #[trigger]
            after.channels.contains_key(channel) implies after.channels[channel].len() > 0 by {
            assert(before.channels.contains_key(channel));
            assert(after.clients(channel).len() == before.clients(channel).len());
        }
    }
}

/// Every change keeps what holds of the server in every state, until the last number has been given
/// out.
pub proof fn lemma_changes_keep_the_server_sound<C>(
    before: ServerState<C>,
    after: ServerState<C>,
    change: Change<C>,
)
    requires
        is_sound(before),
        changed(before, after, change),
        change is Connected ==> before.next_id < usize::MAX,
    ensures
        is_sound(after),
{
    lemma_channels_keep_having_clients(before, after, change);
    assert forall|channel: C, i: int| #[trigger] has_client(after, channel, i) implies
        after.clients(channel)[i].id < after.next_id by {
        lemma_position_before(before, after, change, channel, i);
    }
    assert forall|channel1: C, i1: int, channel2: C, i2: int| #[trigger]
        has_client(after, channel1, i1) && #[trigger] has_client(after, channel2, i2) && (channel1
            != channel2 || i1 != i2) implies after.clients(channel1)[i1].id != after.clients(
        channel2,
    )[i2].id by {
        lemma_position_before(before, after, change, channel1, i1);
        lemma_position_before(before, after, change, channel2, i2);
        if channel1 == channel2 && change is Swept {
            lemma_live_positions(before.clients(channel1), change->Swept_0);
        }
    }
    assert forall|channel: C, i: int, j: int| #[trigger]
        has_client(after, channel, i) && #[trigger] has_client(after, channel, j) && i < j implies
        after.clients(channel)[i].id < after.clients(channel)[j].id by {
        lemma_position_before(before, after, change, channel, i);
        lemma_position_before(before, after, change, channel, j);
        if change is Swept {
            lemma_live_positions(before.clients(channel), change->Swept_0);
        }
    }
}

/// Clients are numbered 0, 1, 2 and so on in the order in which they connect, whatever happens in
/// between: when a client connects, its number is how many have connected before it. This holds up
/// to the last number that there is.
pub proof fn lemma_clients_are_numbered_in_order<C>(
    states: Seq<ServerState<C>>,
    changes: Seq<Change<C>>,
    k: int,
)
    requires
        is_history(states, changes),
        0 <= k <= changes.len(),
        connections(changes.take(k)) <= usize::MAX,
    ensures
        states[k].next_id == connections(changes.take(k)),
        k < changes.len() && changes[k] is Connected ==> {
            &&& changes[k]->Connected_1.id == connections(changes.take(k))
            &&& states[k + 1].clients(changes[k]->Connected_0).last() == changes[k]->Connected_1
        },
    decreases k,
{
    if k > 0 {
        assert(changes.take(k).drop_last() =~= changes.take(k - 1));
        assert(changes.take(k).last() == changes[k - 1]);
        lemma_clients_are_numbered_in_order(states, changes, k - 1);
        assert(changed(states[k - 1], states[k - 1 + 1], changes[k - 1]));
    }
    if k < changes.len() {
        assert(changed(states[k], states[k + 1], changes[k]));
    }
}

proof fn lemma_connections_grow<C>(changes: Seq<Change<C>>, j: int, k: int)
    requires
        0 <= j <= k <= changes.len(),
    ensures
        connections(changes.take(j)) <= connections(changes.take(k)),
    decreases k - j,
{
    if j < k {
        assert(changes.take(k).drop_last() =~= changes.take(k - 1));
        lemma_connections_grow(changes, j, k - 1);
    }
}

/// A number is never given out again, whether or not its client is still there: of two clients that
/// connect, to the same channel or to different ones, the later one gets the greater number. This
/// holds up to the last number that there is.
pub proof fn lemma_numbers_are_not_given_out_again<C>(
    states: Seq<ServerState<C>>,
    changes: Seq<Change<C>>,
    j: int,
    k: int,
)
    requires
        is_history(states, changes),
        0 <= j < k < changes.len(),
        changes[j] is Connected,
        changes[k] is Connected,
        connections(changes.take(k)) <= usize::MAX,
    ensures
        changes[j]->Connected_1.id < changes[k]->Connected_1.id,
{
    lemma_connections_grow(changes, j, k);
    lemma_connections_grow(changes, j + 1, k);
    assert(changes.take(j + 1).drop_last() =~= changes.take(j));
    assert(changes.take(j + 1).last() == changes[j]);
    lemma_clients_are_numbered_in_order(states, changes, j);
    lemma_clients_are_numbered_in_order(states, changes, k);
}

/// In every state that a server can come to, each channel that it holds has a client, all clients
/// have different numbers, and each channel lists its clients by their numbers. This holds up to
/// the last number that there is.
pub proof fn lemma_every_state_is_sound<C>(
    states: Seq<ServerState<C>>,
    changes: Seq<Change<C>>,
    k: int,
)
    requires
        is_history(states, changes),
        0 <= k <= changes.len(),
        connections(changes.take(k)) <= usize::MAX,
    ensures
        is_sound(states[k]),
    decreases k,
{
    if k > 0 {
        lemma_connections_grow(changes, k - 1, k);
        lemma_every_state_is_sound(states, changes, k - 1);
        lemma_clients_are_numbered_in_order(states, changes, k - 1);
        assert(changes.take(k).drop_last() =~= changes.take(k - 1));
        assert(changes.take(k).last() == changes[k - 1]);
        assert(changed(states[k - 1], states[k - 1 + 1], changes[k - 1]));
        lemma_changes_keep_the_server_sound(states[k - 1], states[k], changes[k - 1]);
    }
}

/// Whether no client of the server has the number.
pub open spec fn is_gone<C>(server: ServerState<C>, id: usize) -> bool {
    forall|channel: C, i: int| #[trigger]
        has_client(server, channel, i) ==> server.clients(channel)[i].id != id
}

/// A client that is gone does not come back. This holds up to the last number that there is.
pub proof fn lemma_gone_is_gone<C>(
    states: Seq<ServerState<C>>,
    changes: Seq<Change<C>>,
    j: int,
    k: int,
    id: usize,
)
    requires
        is_history(states, changes),
        0 <= j <= k <= changes.len(),
        connections(changes.take(k)) <= usize::MAX,
        id < states[j].next_id,
        is_gone(states[j], id),
    ensures
        is_gone(states[k], id),
    decreases k - j,
{
    if j < k {
        lemma_connections_grow(changes, j, k - 1);
        lemma_connections_grow(changes, k - 1, k);
        lemma_gone_is_gone(states, changes, j, k - 1, id);
        lemma_clients_are_numbered_in_order(states, changes, j);
        lemma_clients_are_numbered_in_order(states, changes, k - 1);
        assert(changed(states[k - 1], states[k - 1 + 1], changes[k - 1]));
        assert forall|channel: C, i: int| #[trigger]
            has_client(states[k], channel, i) implies states[k].clients(channel)[i].id != id by {
            lemma_position_before(states[k - 1], states[k], changes[k - 1], channel, i);
        }
    }
}

/// Whether the client with the number, for as long as it is there, has nothing but these chunks in
/// its stream in the states from `first` to `last`.
pub open spec fn takes_nothing<C>(
    states: Seq<ServerState<C>>,
    first: int,
    last: int,
    id: usize,
    queued: Seq<Seq<u8>>,
) -> bool {
    forall|k: int, channel: C, i: int|
        first <= k <= last && #[trigger] has_client(states[k], channel, i)
            && states[k].clients(channel)[i].id == id ==> states[k].clients(channel)[i].queued
            == queued
}

/// Whether the client with the number, if it is there, has been failing since the time.
spec fn fails_since<C>(server: ServerState<C>, id: usize, since: u128) -> bool {
    forall|channel: C, i: int| #[trigger]
        has_client(server, channel, i) && server.clients(channel)[i].id == id ==> server.clients(
            channel,
        )[i].first_error == Some(since)
}

proof fn lemma_failing_client_keeps_failing<C>(
    states: Seq<ServerState<C>>,
    changes: Seq<Change<C>>,
    first: int,
    k: int,
    id: usize,
    queued: Seq<Seq<u8>>,
    since: u128,
)
    requires
        is_history(states, changes),
        0 <= first <= k <= changes.len(),
        connections(changes.take(k)) <= usize::MAX,
        id < states[first].next_id,
        fails_since(states[first], id, since),
        takes_nothing(states, first, k, id, queued),
    ensures
        fails_since(states[k], id, since),
    decreases k - first,
{
    if first < k {
        lemma_connections_grow(changes, first, k - 1);
        lemma_connections_grow(changes, k - 1, k);
        lemma_failing_client_keeps_failing(states, changes, first, k - 1, id, queued, since);
        lemma_clients_are_numbered_in_order(states, changes, first);
        lemma_clients_are_numbered_in_order(states, changes, k - 1);
        assert(changed(states[k - 1], states[k - 1 + 1], changes[k - 1]));
        assert forall|channel: C, i: int| #[trigger]
            has_client(states[k], channel, i) && states[k].clients(channel)[i].id
                == id implies states[k].clients(channel)[i].first_error == Some(since) by {
            lemma_position_before(states[k - 1], states[k], changes[k - 1], channel, i);
            let p = position_before(states[k - 1], changes[k - 1], channel, i);
            let was = states[k - 1].clients(channel)[p];
            let is_now = states[k].clients(channel)[i];
            assert(has_client(states[k - 1], channel, p));
            if is_now != was {
                let started = states[k - 1].started;
                let chunk = choose|chunk: Seq<u8>| #[trigger] was.sent(is_now, chunk, started);
                assert(was.queued.push(chunk).len() != was.queued.len());
            }
        }
    }
}

/// A client to whom sending keeps failing is gone after the second round of maintenance, and does
/// not come back. The client refuses the heartbeat of the first round, at `tried`, and takes nothing
/// until the second round, whatever is sent in between. The second round removes stale clients at
/// `now`, more than five seconds later. This holds up to the last number that there is.
pub proof fn lemma_failing_client_is_gone_after_two_rounds<C>(
    states: Seq<ServerState<C>>,
    changes: Seq<Change<C>>,
    heartbeat: int,
    sweep: int,
    later: int,
    channel: C,
    i: int,
    chunk: Seq<u8>,
    tried: u128,
    now: u128,
)
    requires
        is_history(states, changes),
        0 <= heartbeat < sweep < later <= changes.len(),
        connections(changes.take(later)) <= usize::MAX,
        changes[heartbeat] == Change::<C>::SentToAll(chunk),
        has_client(states[heartbeat], channel, i),
        states[heartbeat].clients(channel)[i].first_error matches Some(since) ==> since <= tried,
        states[heartbeat + 1].clients(channel)[i] == states[heartbeat].clients(channel)[i].rejected(
            chunk,
            tried,
        ),
        takes_nothing(
            states,
            heartbeat,
            sweep,
            states[heartbeat].clients(channel)[i].id,
            states[heartbeat].clients(channel)[i].queued,
        ),
        changes[sweep] == Change::<C>::Swept(now),
        now - tried > STALE_AFTER,
    ensures
        is_gone(states[later], states[heartbeat].clients(channel)[i].id),
{
    let client = states[heartbeat + 1].clients(channel)[i];
    let id = client.id;
    let since = client.first_error->0;
    lemma_connections_grow(changes, heartbeat + 1, sweep);
    lemma_connections_grow(changes, sweep, sweep + 1);
    lemma_connections_grow(changes, sweep + 1, later);
    lemma_clients_are_numbered_in_order(states, changes, heartbeat + 1);
    lemma_clients_are_numbered_in_order(states, changes, sweep + 1);
    lemma_every_state_is_sound(states, changes, heartbeat + 1);
    assert(changed(states[heartbeat], states[heartbeat + 1], changes[heartbeat]));
    assert(all_sent(
        states[heartbeat].clients(channel),
        states[heartbeat + 1].clients(channel),
        chunk,
        states[heartbeat].started,
    ));
    assert(has_client(states[heartbeat + 1], channel, i));
    lemma_failing_client_keeps_failing(
        states,
        changes,
        heartbeat + 1,
        sweep,
        id,
        client.queued,
        since,
    );
    assert(changed(states[sweep], states[sweep + 1], changes[sweep]));
    assert forall|c: C, j: int| #[trigger]
        has_client(states[sweep + 1], c, j) implies states[sweep + 1].clients(c)[j].id != id by {
        lemma_position_before(states[sweep], states[sweep + 1], changes[sweep], c, j);
        lemma_live_positions(states[sweep].clients(c), now);
    }
    lemma_gone_is_gone(states, changes, sweep + 1, later, id);
}

} // verus!
