//! The clients of the channels: sending to all of them, and dropping those that are gone.

use std::collections::HashMap;
use std::hash::Hash;
use std::time::Instant;

use vstd::prelude::*;
use vstd::std_specs::hash::obeys_key_model;
use vstd::utf8::encode_utf8;

use crate::client::{Client, ClientState};

verus! {

/// The states of the clients of one channel, in the order in which they connected.
pub open spec fn states(clients: Seq<Client>) -> Seq<ClientState> {
    clients.map_values(|client: Client| client@)
}

/// Those of the clients that are not stale at `now`, in their order.
pub open spec fn live(clients: Seq<ClientState>, now: u128) -> Seq<ClientState> {
    clients.filter(|client: ClientState| !client.is_stale(now))
}

/// Whether `after` is what offering the chunk once to each of the clients can leave behind. Failures
/// are noted at the times since `started` that the clock gave.
pub open spec fn all_sent(
    before: Seq<ClientState>,
    after: Seq<ClientState>,
    chunk: Seq<u8>,
    started: Instant,
) -> bool {
    &&& after.len() == before.len()
    &&& forall|i: int|
        0 <= i < before.len() ==> (#[trigger] before[i]).sent(#[trigger] after[i], chunk, started)
}

/// Whether the pairs are those of the map, each of them once.
pub open spec fn lists_pairs_of<K, V>(pairs: Seq<(K, V)>, map: Map<K, V>) -> bool {
    &&& forall|i: int|
        0 <= i < pairs.len() ==> map.contains_key((#[trigger] pairs[i]).0) && map[pairs[i].0]
            == pairs[i].1
    &&& forall|i: int, j: int|
        0 <= i < j < pairs.len() ==> (#[trigger] pairs[i]).0 != (#[trigger] pairs[j]).0
    &&& forall|key: K| #[trigger]
        map.contains_key(key) ==> exists|i: int|
            0 <= i < pairs.len() && (#[trigger] pairs[i]).0 == key
}

/// Takes everything out of the map. Calls `std::collections::HashMap::drain`, and collects what it
/// hands out. Claims that the map is left empty and, of keys that obey the model of a map's key,
/// that each pair of the map comes out exactly once. The order of the pairs is left open.
#[verifier::external_body]
pub(crate) fn drain<K: Eq + Hash, V>(map: &mut HashMap<K, V>) -> (pairs: Vec<(K, V)>)
    ensures
        final(map)@.is_empty(),
        obeys_key_model::<K>() ==> lists_pairs_of(pairs@, old(map)@),
{
    map.drain().collect()
}

/// Sends the chunk once to each of the clients.
pub(crate) fn send_to_each(clients: &mut Vec<Client>, chunk: &String, started: &Instant)
    ensures
        all_sent(states(old(clients)@), states(final(clients)@), encode_utf8(chunk@), *started),
{
    let mut i: usize = 0;
    while i < clients.len()
        invariant
            i <= clients.len(),
            clients.len() == old(clients).len(),
            forall|j: int|
                0 <= j < i ==> (#[trigger] old(clients)@[j])@.sent(
                    clients@[j]@,
                    encode_utf8(chunk@),
                    *started,
                ),
            forall|j: int| i <= j < clients.len() ==> #[trigger] clients@[j] == old(clients)@[j],
        decreases clients.len() - i,
    {
        let _ = clients[i].send_chunk(chunk.clone(), started);
        i = i + 1;
    }
}

/// Drops the clients that are stale at `now`, and keeps the others in their order.
pub(crate) fn drop_stale(clients: Vec<Client>, now: u128) -> (kept: Vec<Client>)
    ensures
        states(kept@) == live(states(clients@), now),
{
    let mut kept: Vec<Client> = Vec::new();
    let ghost all = states(clients@);
    proof {
        reveal(Seq::filter);
        assert(all.take(0) =~= Seq::<ClientState>::empty());
    }
    for client in it: clients.into_iter()
        invariant
            all == states(clients@),
            it.seq() == clients@,
            states(kept@) == live(all.take(it.index() as int), now),
    {
        proof {
            reveal(Seq::filter);
            let n = it.index() as int;
            assert(all.take(n + 1).drop_last() =~= all.take(n));
            assert(all.take(n + 1).last() == client@);
        }
        let ghost before = kept@;
        if !client.is_stale(now) {
            kept.push(client);
            assert(states(kept@) =~= states(before).push(client@));
        }
    }
    assert(all.take(all.len() as int) =~= all);
    kept
}

/// The positions of the clients that are not stale at `now`.
pub(crate) open spec fn live_positions(clients: Seq<ClientState>, now: u128) -> Seq<int>
    decreases clients.len(),
{
    if clients.len() == 0 {
        Seq::empty()
    } else {
        let before = live_positions(clients.drop_last(), now);
        if clients.last().is_stale(now) {
            before
        } else {
            before.push(clients.len() - 1)
        }
    }
}

pub(crate) proof fn lemma_live_positions(clients: Seq<ClientState>, now: u128)
    ensures
        live_positions(clients, now).len() == live(clients, now).len(),
        forall|i: int|
            #![trigger live(clients, now)[i]]
            #![trigger live_positions(clients, now)[i]]
            0 <= i < live(clients, now).len() ==> {
                &&& 0 <= live_positions(clients, now)[i] < clients.len()
                &&& live(clients, now)[i] == clients[live_positions(clients, now)[i]]
                &&& !live(clients, now)[i].is_stale(now)
            },
        forall|i: int, j: int|
            0 <= i < j < live(clients, now).len() ==> #[trigger] live_positions(clients, now)[i]
                < #[trigger] live_positions(clients, now)[j],
        forall|k: int|
            0 <= k < clients.len() && !(#[trigger] clients[k]).is_stale(now) ==> live_positions(
                clients,
                now,
            ).contains(k),
    decreases clients.len(),
{
    reveal(Seq::filter);
    if clients.len() > 0 {
        let shorter = clients.drop_last();
        let positions = live_positions(clients, now);
        lemma_live_positions(shorter, now);
        assert forall|k: int|
            0 <= k < clients.len() && !(#[trigger] clients[k]).is_stale(
                now,
            ) implies positions.contains(k) by {
            if k == clients.len() - 1 {
                assert(positions.last() == k);
            } else {
                assert(shorter[k] == clients[k]);
                let before = live_positions(shorter, now);
                let j = choose|j: int| 0 <= j < before.len() && before[j] == k;
                assert(positions[j] == k);
            }
        }
    }
}

pub(crate) proof fn lemma_live_of_live(clients: Seq<ClientState>, now: u128, later: u128)
    requires
        now <= later,
    ensures
        live(live(clients, now), later) == live(clients, later),
    decreases clients.len(),
{
    reveal(Seq::filter);
    if clients.len() > 0 {
        let shorter = clients.drop_last();
        lemma_live_of_live(shorter, now, later);
        if !clients.last().is_stale(now) {
            assert(live(clients, now).drop_last() =~= live(shorter, now));
        }
    }
}

} // verus!
