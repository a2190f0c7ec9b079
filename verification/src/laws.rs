//! What holds of the server as a whole.

use std::hash::Hash;
use std::time::Instant;

use vstd::prelude::*;
use vstd::std_specs::cmp::PartialEqSpec;
use vstd::utf8::encode_utf8;

use crate::channels::{all_sent, lemma_live_of_live, lemma_live_positions, live, live_positions};
use crate::client::{first_error_after, ClientState, STALE_AFTER};
use crate::clock::is_clock_time;
use crate::encoding::MAX_INPUT;
use crate::path::last_segment;
use crate::response::{header_texts, StreamResponse};
use crate::seal::{
    ciphers_match, codecs_match, decoded_query, decrypts, encrypts,
    lemma_generated_token_is_honoured, parses, reads_token, refuses, seals_token, unseals,
};
use crate::server::{
    answered, decided, is_channel_type, names_channel, stream_created, ServerState,
};
use crate::token::{verdict, AuthToken, Verdict, TOKEN_LIFETIME};
use crate::transport::source_of;

verus! {

/// Removing stale clients removes exactly those that are stale, and keeps the others in order: a
/// client of a channel is still there if and only if it is not stale.
pub proof fn lemma_exactly_stale_clients_are_removed<C>(
    server: ServerState<C>,
    channel: C,
    now: u128,
)
    ensures
        server.without_stale(now).clients(channel) == live(server.clients(channel), now),
        forall|i: int|
            0 <= i < server.clients(channel).len() && !(#[trigger] server.clients(
                channel,
            )[i]).is_stale(now) ==> server.without_stale(now).clients(channel).contains(
                server.clients(channel)[i],
            ),
        forall|i: int|
            0 <= i < server.without_stale(now).clients(channel).len() ==> {
                &&& !(#[trigger] server.without_stale(now).clients(channel)[i]).is_stale(now)
                &&& server.clients(channel).contains(server.without_stale(now).clients(channel)[i])
            },
{
    let clients = server.clients(channel);
    let kept = live(clients, now);
    lemma_live_positions(clients, now);
    let after = server.without_stale(now);
    if !after.channels.contains_key(channel) {
        assert(kept =~= Seq::<ClientState>::empty());
    }
    assert(after.clients(channel) == kept);
    assert forall|i: int| 0 <= i < clients.len() && !(#[trigger] clients[i]).is_stale(
        now,
    ) implies kept.contains(clients[i]) by {
        let positions = live_positions(clients, now);
        assert(positions.contains(i));
        let j = choose|j: int| 0 <= j < positions.len() && positions[j] == i;
        assert(kept[j] == clients[i]);
    }
}

/// Removing stale clients again, at the same time or later, is the same as removing them only
/// then. In particular, doing it twice at one time is doing it once.
pub proof fn lemma_removing_stale_clients_twice<C>(server: ServerState<C>, now: u128, later: u128)
    requires
        now <= later,
    ensures
        server.without_stale(now).without_stale(later) == server.without_stale(later),
{
    let once = server.without_stale(now);
    let twice = once.without_stale(later);
    let direct = server.without_stale(later);
    assert forall|channel: C|
        live(#[trigger] once.clients(channel), later) == live(server.clients(channel), later) by {
        lemma_exactly_stale_clients_are_removed(server, channel, now);
        lemma_live_of_live(server.clients(channel), now, later);
    }
    assert(twice.channels =~= direct.channels);
    assert(twice =~= direct);
}

/// A client that connects comes last on its channel, and leaves the other clients and the other
/// channels as they were.
pub proof fn lemma_connecting_leaves_the_others<C>(
    before: ServerState<C>,
    channel: C,
    client: ClientState,
    other: C,
)
    ensures
        before.with_client(channel, client).clients(channel) == before.clients(channel).push(
            client,
        ),
        other != channel ==> before.with_client(channel, client).clients(other) == before.clients(
            other,
        ),
{
}

/// Sending to clients offers the chunk to each of them exactly once, whether or not sending failed
/// before, to this client or to one before it. It puts at most the one chunk into the stream of each
/// of them, after what was there before. The number and the stream of a client never change, nor
/// does their order.
pub proof fn lemma_sending_only_appends(
    before: Seq<ClientState>,
    after: Seq<ClientState>,
    chunk: Seq<u8>,
    started: Instant,
    i: int,
)
    requires
        all_sent(before, after, chunk, started),
        0 <= i < before.len(),
    ensures
        after[i].id == before[i].id,
        after[i].stream == before[i].stream,
        after[i].offered == before[i].offered.push(chunk),
        after[i].queued == before[i].queued || after[i].queued == before[i].queued.push(chunk),
        after[i].queued == before[i].queued.push(chunk) <==> after[i].first_error is None,
{
    assert(before[i].sent(after[i], chunk, started));
    assert(before[i].queued.len() != before[i].queued.push(chunk).len());
}

/// A push offers the chunk exactly once to every client of its channel, and nothing to the clients
/// of another one. A heartbeat is offered exactly once to every client of every channel.
pub proof fn lemma_every_client_is_offered_the_chunk<C>(
    before: ServerState<C>,
    after: ServerState<C>,
    channel: C,
    other: C,
    chunk: Seq<u8>,
    i: int,
)
    ensures
        before.sent_to_channel(after, channel, chunk) && 0 <= i < before.clients(channel).len()
            ==> after.clients(channel)[i].offered == before.clients(channel)[i].offered.push(chunk),
        before.sent_to_channel(after, channel, chunk) && other != channel ==> after.clients(other)
            == before.clients(other),
        before.sent_to_all(after, chunk) && 0 <= i < before.clients(other).len() ==> after.clients(
            other,
        )[i].offered == before.clients(other)[i].offered.push(chunk),
{
    if before.sent_to_channel(after, channel, chunk) && 0 <= i < before.clients(channel).len() {
        lemma_sending_only_appends(
            before.clients(channel),
            after.clients(channel),
            chunk,
            before.started,
            i,
        );
    }
    if before.sent_to_all(after, chunk) && 0 <= i < before.clients(other).len() {
        lemma_sending_only_appends(
            before.clients(other),
            after.clients(other),
            chunk,
            before.started,
            i,
        );
    }
}

/// A push on a channel that nobody is registered on changes nothing.
pub proof fn lemma_push_without_clients_changes_nothing<C>(
    before: ServerState<C>,
    after: ServerState<C>,
    channel: C,
    chunk: Seq<u8>,
)
    requires
        before.clients(channel).len() == 0,
        before.sent_to_channel(after, channel, chunk),
    ensures
        after == before,
{
    assert forall|other: C| #[trigger]
        after.channels.contains_key(other) implies after.channels[other]
        == before.channels[other] by {
        assert(after.clients(other) =~= before.clients(other));
    }
    assert(after.channels =~= before.channels);
    assert(after =~= before);
}

/// What is pushed reaches the streams that were opened: after a granted request and a push on its
/// channel, the newest client of the channel reads from the stream of the response. The pushed chunk
/// is the one that was offered to it, and the one that the stream holds, or the failure to put it
/// there has been noted.
pub proof fn lemma_opened_stream_gets_what_is_pushed<C: PartialEq>(
    before: ServerState<C>,
    opened: ServerState<C>,
    after: ServerState<C>,
    channel: C,
    token: AuthToken<C>,
    now: i128,
    response: StreamResponse,
    chunk: Seq<u8>,
)
    requires
        verdict(Some(channel), Some(token), now) == Verdict::Granted,
        answered(before, opened, Some(channel), Some(token), now, response),
        opened.sent_to_channel(after, channel, chunk),
    ensures
        after.clients(channel).len() == before.clients(channel).len() + 1,
        after.clients(channel).last().id == before.next_id,
        after.clients(channel).last().stream == source_of(response.body->0),
        after.clients(channel).last().offered == seq![chunk],
        after.clients(channel).last().queued == seq![chunk] || (after.clients(
            channel,
        ).last().queued.len() == 0 && after.clients(channel).last().first_error is Some),
{
    let i = before.clients(channel).len() as int;
    let fresh = opened.clients(channel)[i];
    assert(fresh == ClientState::connected(before.next_id, source_of(response.body->0)));
    lemma_sending_only_appends(
        opened.clients(channel),
        after.clients(channel),
        chunk,
        opened.started,
        i,
    );
    assert(fresh.queued.push(chunk) =~= seq![chunk]);
    assert(fresh.offered.push(chunk) =~= seq![chunk]);
}

/// A generated token opens streams. It was made at `created`, for the channel `allowed` or for all
/// channels, and a request for the channel presents it at `now` to a server with the same key. The
/// request is answered with a stream if the token is for that channel or for all, and is not yet 24
/// hours old. Otherwise it is refused as unauthorized, and nothing changes.
pub proof fn lemma_generated_token_opens_streams<C: PartialEq, E, J, S, D, P>(
    created: i128,
    allowed: Option<C>,
    serialize: J,
    encrypt: S,
    text: String,
    before: ServerState<C>,
    after: ServerState<C>,
    query: &str,
    decrypt: D,
    parse: P,
    read: Option<AuthToken<C>>,
    channel: C,
    now: i128,
    response: StreamResponse,
) where
    J: FnOnce(&AuthToken<C>) -> Result<Vec<u8>, E>,
    S: FnOnce(&[u8], u64, &str, &[u8; 32]) -> Vec<u8>,
    D: FnOnce(&[u8], u64, &str, &[u8; 32]) -> Option<Vec<u8>>,
    P: FnOnce(&[u8]) -> Option<AuthToken<C>>,

    requires
        ciphers_match(encrypt, decrypt, before.token_key),
        codecs_match::<C, E, J, P>(
            serialize,
            parse,
            (AuthToken { created, allowed_channel: allowed }),
        ),
        seals_token(
            (AuthToken { created, allowed_channel: allowed }),
            before.token_key,
            serialize,
            encrypt,
            Ok::<String, E>(text),
        ),
        query@ == text@,
        encode_utf8(query@).len() <= MAX_INPUT,
        reads_token(Some(query), before.token_key, decrypt, parse, read),
        answered(before, after, Some(channel), read, now, response),
    ensures
        response.is_stream() <==> (allowed is None || channel.eq_spec(&allowed->0)) && now - created
            < TOKEN_LIFETIME,
        response.is_stream() ==> after == before.with_client(
            channel,
            ClientState::connected(before.next_id, source_of(response.body->0)),
        ),
        !response.is_stream() ==> response.is_refusal(401) && after == before,
{
    lemma_generated_token_is_honoured(
        created,
        allowed,
        before.token_key,
        serialize,
        encrypt,
        text,
        query,
        decrypt,
        parse,
        read,
        channel,
        now,
    );
}

/// A token for one channel is good for that channel only: a request for another one is refused as
/// unauthorized, whatever the age of the token, and nothing changes.
pub proof fn lemma_token_is_refused_on_other_channels<C: PartialEq, E, J, S, D, P>(
    created: i128,
    allowed: C,
    serialize: J,
    encrypt: S,
    text: String,
    before: ServerState<C>,
    after: ServerState<C>,
    query: &str,
    decrypt: D,
    parse: P,
    read: Option<AuthToken<C>>,
    channel: C,
    now: i128,
    response: StreamResponse,
) where
    J: FnOnce(&AuthToken<C>) -> Result<Vec<u8>, E>,
    S: FnOnce(&[u8], u64, &str, &[u8; 32]) -> Vec<u8>,
    D: FnOnce(&[u8], u64, &str, &[u8; 32]) -> Option<Vec<u8>>,
    P: FnOnce(&[u8]) -> Option<AuthToken<C>>,

    requires
        ciphers_match(encrypt, decrypt, before.token_key),
        codecs_match::<C, E, J, P>(
            serialize,
            parse,
            (AuthToken { created, allowed_channel: Some(allowed) }),
        ),
        seals_token(
            (AuthToken { created, allowed_channel: Some(allowed) }),
            before.token_key,
            serialize,
            encrypt,
            Ok::<String, E>(text),
        ),
        query@ == text@,
        encode_utf8(query@).len() <= MAX_INPUT,
        reads_token(Some(query), before.token_key, decrypt, parse, read),
        !channel.eq_spec(&allowed),
        answered(before, after, Some(channel), read, now, response),
    ensures
        response.is_refusal(401),
        after == before,
{
    lemma_generated_token_opens_streams(
        created,
        Some(allowed),
        serialize,
        encrypt,
        text,
        before,
        after,
        query,
        decrypt,
        parse,
        read,
        channel,
        now,
        response,
    );
}

/// A generated token can be used any number of times. Requests present it one after the other, each
/// for a channel that it is good for and before it is 24 hours old. After `n` of them, all were
/// answered with a stream, and each of them has added a client of its own to the channel. The clients
/// have different numbers, up to the last that there is.
pub proof fn lemma_generated_token_can_be_used_again<C: PartialEq, E, J, S, D, P>(
    created: i128,
    allowed: Option<C>,
    serialize: J,
    encrypt: S,
    text: String,
    query: &str,
    decrypt: D,
    parse: P,
    channel: C,
    states: Seq<ServerState<C>>,
    reads: Seq<Option<AuthToken<C>>>,
    times: Seq<i128>,
    responses: Seq<StreamResponse>,
    n: int,
) where
    J: FnOnce(&AuthToken<C>) -> Result<Vec<u8>, E>,
    S: FnOnce(&[u8], u64, &str, &[u8; 32]) -> Vec<u8>,
    D: FnOnce(&[u8], u64, &str, &[u8; 32]) -> Option<Vec<u8>>,
    P: FnOnce(&[u8]) -> Option<AuthToken<C>>,

    requires
        ciphers_match(encrypt, decrypt, states[0].token_key),
        codecs_match::<C, E, J, P>(
            serialize,
            parse,
            (AuthToken { created, allowed_channel: allowed }),
        ),
        seals_token(
            (AuthToken { created, allowed_channel: allowed }),
            states[0].token_key,
            serialize,
            encrypt,
            Ok::<String, E>(text),
        ),
        query@ == text@,
        encode_utf8(query@).len() <= MAX_INPUT,
        allowed is None || channel.eq_spec(&allowed->0),
        states.len() == responses.len() + 1,
        reads.len() == responses.len(),
        times.len() == responses.len(),
        0 <= n <= responses.len(),
        forall|k: int|
            0 <= k < reads.len() ==> reads_token(
                Some(query),
                states[0].token_key,
                decrypt,
                parse,
                #[trigger] reads[k],
            ),
        forall|k: int| 0 <= k < times.len() ==> #[trigger] times[k] - created < TOKEN_LIFETIME,
        forall|k: int|
            0 <= k < responses.len() ==> answered(
                states[k],
                states[k + 1],
                Some(channel),
                reads[k],
                times[k],
                #[trigger] responses[k],
            ),
    ensures
        states[n].token_key == states[0].token_key,
        forall|k: int| 0 <= k < n ==> (#[trigger] responses[k]).is_stream(),
        states[n].clients(channel) == states[0].clients(channel) + Seq::new(
            n as nat,
            |k: int| ClientState::connected(states[k].next_id, source_of(responses[k].body->0)),
        ),
        states[0].next_id + n <= usize::MAX ==> states[n].next_id == states[0].next_id + n,
    decreases n,
{
    let added = Seq::new(
        n as nat,
        |k: int| ClientState::connected(states[k].next_id, source_of(responses[k].body->0)),
    );
    if n > 0 {
        let k = n - 1;
        lemma_generated_token_can_be_used_again(
            created,
            allowed,
            serialize,
            encrypt,
            text,
            query,
            decrypt,
            parse,
            channel,
            states,
            reads,
            times,
            responses,
            k,
        );
        assert(answered(
            states[k],
            states[k + 1],
            Some(channel),
            reads[k],
            times[k],
            responses[k],
        ));
        lemma_generated_token_opens_streams(
            created,
            allowed,
            serialize,
            encrypt,
            text,
            states[k],
            states[n],
            query,
            decrypt,
            parse,
            reads[k],
            channel,
            times[k],
            responses[k],
        );
        assert(states[n].clients(channel) =~= states[0].clients(channel) + added);
    } else {
        assert(states[n].clients(channel) =~= states[0].clients(channel) + added);
    }
}

/// A query that decodes to bytes which the cipher refuses is a bad request, whatever channel is
/// asked for, and nothing changes. This holds of every type of channels.
pub proof fn lemma_refused_cipher_text_is_a_bad_request<C: PartialEq, D, P>(
    before: ServerState<C>,
    after: ServerState<C>,
    query: &str,
    decrypt: D,
    parse: P,
    read: Option<AuthToken<C>>,
    channel: Option<C>,
    now: i128,
    response: StreamResponse,
) where
    D: FnOnce(&[u8], u64, &str, &[u8; 32]) -> Option<Vec<u8>>,
    P: FnOnce(&[u8]) -> Option<AuthToken<C>>,

    requires
        decoded_query(query@) is Some,
        refuses(decrypt, before.token_key, decoded_query(query@)->0),
        reads_token(Some(query), before.token_key, decrypt, parse, read),
        decided(channel, read, now, response),
        response.is_stream() || after == before,
    ensures
        response.is_refusal(400),
        after == before,
{
    assert(unseals(decoded_query(query@)->0, before.token_key, decrypt, parse, read));
}

/// A token that was sealed with another key is a bad request, not an unauthorized one, if the cipher
/// refuses what was encrypted with that key. Nothing changes.
pub proof fn lemma_token_of_another_key_is_a_bad_request<C: PartialEq, E, J, S, D, P>(
    token: AuthToken<C>,
    other_key: [u8; 32],
    serialize: J,
    encrypt: S,
    text: String,
    before: ServerState<C>,
    after: ServerState<C>,
    query: &str,
    decrypt: D,
    parse: P,
    read: Option<AuthToken<C>>,
    channel: Option<C>,
    now: i128,
    response: StreamResponse,
) where
    J: FnOnce(&AuthToken<C>) -> Result<Vec<u8>, E>,
    S: FnOnce(&[u8], u64, &str, &[u8; 32]) -> Vec<u8>,
    D: FnOnce(&[u8], u64, &str, &[u8; 32]) -> Option<Vec<u8>>,
    P: FnOnce(&[u8]) -> Option<AuthToken<C>>,

    requires
        forall|plain: Seq<u8>, sealed: Seq<u8>| #[trigger]
            encrypts(encrypt, other_key, plain, sealed) ==> refuses(
                decrypt,
                before.token_key,
                sealed,
            ),
        seals_token(token, other_key, serialize, encrypt, Ok::<String, E>(text)),
        query@ == text@,
        encode_utf8(query@).len() <= MAX_INPUT,
        reads_token(Some(query), before.token_key, decrypt, parse, read),
        decided(channel, read, now, response),
        response.is_stream() || after == before,
    ensures
        response.is_refusal(400),
        after == before,
{
    lemma_refused_cipher_text_is_a_bad_request(
        before,
        after,
        query,
        decrypt,
        parse,
        read,
        channel,
        now,
        response,
    );
}

/// Whether the functions that read a request give one result for one input.
pub open spec fn read_deterministically<C, P, D, J>(
    key: [u8; 32],
    parse_channel: P,
    decrypt: D,
    parse_token: J,
) -> bool where
    P: FnOnce(&str) -> Option<C>,
    D: FnOnce(&[u8], u64, &str, &[u8; 32]) -> Option<Vec<u8>>,
    J: FnOnce(&[u8]) -> Option<AuthToken<C>>,
 {
    &&& forall|segment1: &str, segment2: &str, channel1: Option<C>, channel2: Option<C>|
        segment1@ == segment2@ && #[trigger] call_ensures(parse_channel, (segment1,), channel1)
            && #[trigger] call_ensures(parse_channel, (segment2,), channel2) ==> channel1
            == channel2
    &&& forall|sealed: Seq<u8>, plain1: Option<Seq<u8>>, plain2: Option<Seq<u8>>| #[trigger]
        decrypts(decrypt, key, sealed, plain1) && #[trigger] decrypts(decrypt, key, sealed, plain2)
            ==> plain1 == plain2
    &&& forall|plain: Seq<u8>, token1: Option<AuthToken<C>>, token2: Option<AuthToken<C>>|
     #[trigger]
        parses(parse_token, plain, token1) && #[trigger] parses(parse_token, plain, token2)
            ==> token1 == token2
}

/// Two requests with the same query, whose paths have the same last segment, are read alike: as the
/// same channel and the same token, if the functions that read them give one result for one input.
/// At the same time they are answered alike, with the same status and the same headers. If they are
/// granted, both add a client to the same channel.
pub proof fn lemma_like_requests_are_answered_alike<C: PartialEq, P, D, J>(
    path1: Seq<char>,
    path2: Seq<char>,
    query1: Option<&str>,
    query2: Option<&str>,
    parse_channel: P,
    decrypt: D,
    parse_token: J,
    channel1: Option<C>,
    channel2: Option<C>,
    token1: Option<AuthToken<C>>,
    token2: Option<AuthToken<C>>,
    before1: ServerState<C>,
    before2: ServerState<C>,
    after1: ServerState<C>,
    after2: ServerState<C>,
    now: i128,
    response1: StreamResponse,
    response2: StreamResponse,
) where
    P: FnOnce(&str) -> Option<C>,
    D: FnOnce(&[u8], u64, &str, &[u8; 32]) -> Option<Vec<u8>>,
    J: FnOnce(&[u8]) -> Option<AuthToken<C>>,

    requires
        last_segment(path1) == last_segment(path2),
        query1 is Some <==> query2 is Some,
        query1 is Some ==> query1->0@ == query2->0@,
        before1.token_key == before2.token_key,
        read_deterministically(before1.token_key, parse_channel, decrypt, parse_token),
        names_channel(parse_channel, path1, channel1),
        names_channel(parse_channel, path2, channel2),
        reads_token(query1, before1.token_key, decrypt, parse_token, token1),
        reads_token(query2, before2.token_key, decrypt, parse_token, token2),
        answered(before1, after1, channel1, token1, now, response1),
        answered(before2, after2, channel2, token2, now, response2),
    ensures
        channel1 == channel2,
        token1 == token2,
        response1.status == response2.status,
        header_texts(response1.headers@) == header_texts(response2.headers@),
        response1.is_stream() <==> response2.is_stream(),
        response1.is_stream() ==> after1 == before1.with_client(
            channel1->0,
            ClientState::connected(before1.next_id, source_of(response1.body->0)),
        ) && after2 == before2.with_client(
            channel1->0,
            ClientState::connected(before2.next_id, source_of(response2.body->0)),
        ),
{
    if query1 is Some && decoded_query(query1->0@) is Some {
        let sealed = decoded_query(query1->0@)->0;
        assert(unseals(sealed, before1.token_key, decrypt, parse_token, token1));
        assert(unseals(sealed, before1.token_key, decrypt, parse_token, token2));
    }
    if !response1.is_stream() {
        assert(header_texts(response1.headers@) =~= header_texts(response2.headers@));
    }
}

/// A request may be read first, and answered when the server has changed: with the key of the
/// server, which stays the same, this is how the server answers it then.
pub proof fn lemma_request_may_be_read_first<C: Eq + Hash, P, D, J>(
    key: [u8; 32],
    path: Seq<char>,
    query: Option<&str>,
    parse_channel: P,
    decrypt: D,
    parse_token: J,
    channel: Option<C>,
    token: Option<AuthToken<C>>,
    before: ServerState<C>,
    after: ServerState<C>,
    now: i128,
    response: StreamResponse,
) where
    P: FnOnce(&str) -> Option<C>,
    D: FnOnce(&[u8], u64, &str, &[u8; 32]) -> Option<Vec<u8>>,
    J: FnOnce(&[u8]) -> Option<AuthToken<C>>,

    requires
        key == before.token_key,
        names_channel(parse_channel, path, channel),
        reads_token(query, key, decrypt, parse_token, token),
        is_clock_time(now),
        decided(channel, token, now, response),
        is_channel_type::<C>() ==> answered(before, after, channel, token, now, response),
    ensures
        stream_created(
            before,
            after,
            path,
            query,
            parse_channel,
            decrypt,
            parse_token,
            response,
        ),
{
}

/// The time of the first failure, after a history of attempts: whether each was taken, and when it
/// was made.
pub open spec fn first_error_over(
    first_error: Option<u128>,
    attempts: Seq<(bool, u128)>,
) -> Option<u128>
    decreases attempts.len(),
{
    if attempts.len() == 0 {
        first_error
    } else {
        let before = first_error_over(first_error, attempts.drop_last());
        first_error_after(before, attempts.last().0, attempts.last().1)
    }
}

/// A client keeps the time at which sending to it began to fail. After a success that is followed
/// by failures only, it is the time of the first of these failures, however many there were.
pub proof fn lemma_first_error_is_the_first(
    first_error: Option<u128>,
    attempts: Seq<(bool, u128)>,
    last_success: int,
)
    requires
        0 <= last_success < attempts.len(),
        attempts[last_success].0,
        forall|i: int| last_success < i < attempts.len() ==> !(#[trigger] attempts[i]).0,
    ensures
        first_error_over(first_error, attempts) == if last_success + 1 < attempts.len() {
            Some(attempts[last_success + 1].1)
        } else {
            None
        },
    decreases attempts.len(),
{
    if last_success + 1 < attempts.len() {
        let shorter = attempts.drop_last();
        assert(shorter[last_success] == attempts[last_success]);
        lemma_first_error_is_the_first(first_error, shorter, last_success);
    }
}

/// A client to whom sending has failed ever since it connected keeps the time of the very first
/// attempt.
pub proof fn lemma_first_error_without_success(attempts: Seq<(bool, u128)>)
    requires
        attempts.len() > 0,
        forall|i: int| 0 <= i < attempts.len() ==> !(#[trigger] attempts[i]).0,
    ensures
        first_error_over(None, attempts) == Some(attempts[0].1),
    decreases attempts.len(),
{
    let shorter = attempts.drop_last();
    if shorter.len() > 0 {
        lemma_first_error_without_success(shorter);
    } else {
        assert(first_error_over(None, shorter) == None::<u128>);
    }
}

/// A client has no failure noted exactly if nothing was sent to it yet, or if it took the last
/// chunk that was.
pub proof fn lemma_no_error_after_success_only(attempts: Seq<(bool, u128)>)
    ensures
        first_error_over(None, attempts) is None <==> attempts.len() == 0 || attempts.last().0,
{
}

/// A client becomes stale only by failing: one that took the last chunk is not stale. One that did
/// not take a chunk at `failed`, after it had no failure before, is stale exactly when more than
/// five seconds have passed since then. A further failure, at `again`, does not move that time.
pub proof fn lemma_stale_after_five_seconds(
    client: ClientState,
    chunk: Seq<u8>,
    failed: u128,
    again: u128,
    now: u128,
)
    ensures
        !client.accepted(chunk).is_stale(now),
        client.first_error is None ==> client.rejected(chunk, failed).rejected(
            chunk,
            again,
        ).is_stale(now) == (now - failed > STALE_AFTER),
        client.first_error is None ==> client.rejected(chunk, failed).is_stale(now) == (now - failed
            > STALE_AFTER),
{
}

} // verus!
