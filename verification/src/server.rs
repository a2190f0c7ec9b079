//! The push server.

use std::collections::hash_map::Entry;
use std::collections::HashMap;
use std::hash::Hash;
use std::time::Instant;

use hyper::body::Sender;

use vstd::prelude::*;
use vstd::std_specs::cmp::PartialEqSpec;
use vstd::std_specs::hash::obeys_key_model;
use vstd::utf8::encode_utf8;

use crate::channels::{all_sent, drain, drop_stale, lists_pairs_of, live, send_to_each, states};
use crate::client::{Client, ClientState};
use crate::clock::{
    elapsed_gives, is_clock_time, lemma_elapsed_is_read, lemma_start_is_read, monotonic_clock_gives,
    monotonic_now, nanos_since, system_now,
};
use crate::encoding::MAX_INPUT;
use crate::event::{event_text, format_event, format_heartbeat, heartbeat_text};
use crate::path::{channel_segment, last_segment};
use crate::response::StreamResponse;
use crate::seal::{
    issue_token, read_token, reads_token, seal_token, seals_token, HYDRO_CONTEXT, MESSAGE_ID,
};
use crate::token::{authorize, verdict, AuthToken, Verdict};
use crate::transport::{body_channel, offered, queued, source_of, stream_of};

verus! {

/// How many seconds lie between two rounds of maintenance.
pub const MAINTENANCE_INTERVAL: u64 = 45;

/// What the server holds, to the rest of the library.
#[verifier::ext_equal]
#[verifier::reject_recursive_types(C)]
pub struct ServerState<C> {
    /// The clients of each channel, in the order in which they connected.
    pub channels: Map<C, Seq<ClientState>>,
    /// The number that the next client is given.
    pub next_id: usize,
    /// The key that tokens are sealed with.
    pub token_key: [u8; 32],
    /// The point from which the times of failures are counted.
    pub started: Instant,
}

/// The number after this one. They start over after the last.
pub open spec fn following(id: usize) -> usize {
    if id == usize::MAX {
        0
    } else {
        (id + 1) as usize
    }
}

impl<C> ServerState<C> {
    /// The clients of the channel: none if it is not held.
    pub open spec fn clients(self, channel: C) -> Seq<ClientState> {
        if self.channels.contains_key(channel) {
            self.channels[channel]
        } else {
            Seq::empty()
        }
    }

    /// After the client connected to the channel.
    pub open spec fn with_client(self, channel: C, client: ClientState) -> ServerState<C> {
        ServerState {
            channels: self.channels.insert(channel, self.clients(channel).push(client)),
            next_id: following(self.next_id),
            ..self
        }
    }

    /// After the clients that are stale at `now` were removed, with the channels that this left
    /// without clients.
    pub open spec fn without_stale(self, now: u128) -> ServerState<C> {
        ServerState {
            channels: Map::new(
                |channel: C| live(self.clients(channel), now).len() > 0,
                |channel: C| live(self.clients(channel), now),
            ),
            ..self
        }
    }

    /// Whether nothing but the clients of the channels differs in `after`.
    pub open spec fn keeps_all_but_channels(self, after: ServerState<C>) -> bool {
        &&& after.next_id == self.next_id
        &&& after.token_key == self.token_key
        &&& after.started == self.started
    }

    /// Whether `after` is what offering the chunk once to each client of the channel can leave
    /// behind. Nothing else changes.
    pub open spec fn sent_to_channel(
        self,
        after: ServerState<C>,
        channel: C,
        chunk: Seq<u8>,
    ) -> bool {
        &&& self.keeps_all_but_channels(after)
        &&& after.channels.dom() == self.channels.dom()
        &&& all_sent(self.clients(channel), after.clients(channel), chunk, self.started)
        &&& forall|other: C|
            other != channel ==> #[trigger] after.clients(other) == self.clients(other)
    }

    /// Whether `after` is what offering the chunk once to each client of each channel can leave
    /// behind. Nothing else changes.
    pub open spec fn sent_to_all(self, after: ServerState<C>, chunk: Seq<u8>) -> bool {
        &&& self.keeps_all_but_channels(after)
        &&& after.channels.dom() == self.channels.dom()
        &&& forall|channel: C|
            all_sent(
                self.clients(channel),
                #[trigger] after.clients(channel),
                chunk,
                self.started,
            )
    }
}

/// Whether the type can tell channels apart: its `Eq` and `Hash` are modelled.
pub open spec fn is_channel_type<C: Eq + Hash>() -> bool {
    obeys_key_model::<C>() && C::obeys_eq_spec()
}

/// Whether parsing the last segment of the path can give the channel: `None` if it is refused.
pub open spec fn names_channel<C, P>(parse: P, path: Seq<char>, channel: Option<C>) -> bool where
    P: FnOnce(&str) -> Option<C>,
 {
    exists|segment: &str|
        segment@ == last_segment(path) && #[trigger] call_ensures(parse, (segment,), channel)
}

/// Whether `response` and `after` are the answer, at `now`, to a request that names the channel and
/// carries the token. A refused request leaves the server as it was.
pub open spec fn answered<C: PartialEq>(
    before: ServerState<C>,
    after: ServerState<C>,
    channel: Option<C>,
    token: Option<AuthToken<C>>,
    now: i128,
    response: StreamResponse,
) -> bool {
    match verdict(channel, token, now) {
        Verdict::BadRequest => response.is_refusal(400) && after == before,
        Verdict::Unauthorized => response.is_refusal(401) && after == before,
        Verdict::Granted => {
            &&& response.is_stream()
            &&& after == before.with_client(
                channel->0,
                ClientState::connected(before.next_id, source_of(response.body->0)),
            )
        },
    }
}

/// Reads what a request asks for: the channel from the last segment of its path, and the token from
/// its query.
pub fn read_request<C, P, D, J>(
    path: &str,
    query: Option<&str>,
    key: &[u8; 32],
    parse_channel: P,
    decrypt: D,
    parse_token: J,
) -> (request: (Option<C>, Option<AuthToken<C>>)) where
    P: FnOnce(&str) -> Option<C>,
    D: FnOnce(&[u8], u64, &str, &[u8; 32]) -> Option<Vec<u8>>,
    J: FnOnce(&[u8]) -> Option<AuthToken<C>>,

    requires
        forall|segment: &str| #[trigger] call_requires(parse_channel, (segment,)),
        forall|input: &[u8]| #[trigger]
            call_requires(decrypt, (input, MESSAGE_ID, HYDRO_CONTEXT, key)),
        forall|input: &[u8]| #[trigger] call_requires(parse_token, (input,)),
    ensures
        names_channel(parse_channel, path@, request.0),
        reads_token(query, *key, decrypt, parse_token, request.1),
{
    // Extract channel from uri path (last segment)
    let segment: &str = channel_segment(path);
    let channel: Option<C> = parse_channel(segment);
    // Extract auth token from query, decode, decrypt and deserialize
    let token: Option<AuthToken<C>> = read_token(query, key, decrypt, parse_token);
    (channel, token)
}

/// What the response says of the request, whatever the type of the channels. It is a stream or one
/// of two refusals. Without a channel or a token the request is bad, and with an expired token it
/// is not authorized. A fresh token for all channels gets the stream. Where the type's `==` is
/// modelled, the stream is given exactly if the verdict grants it.
pub open spec fn decided<C: PartialEq>(
    channel: Option<C>,
    token: Option<AuthToken<C>>,
    now: i128,
    response: StreamResponse,
) -> bool {
    &&& response.is_stream() || response.is_refusal(400) || response.is_refusal(401)
    &&& channel is None || token is None <==> response.is_refusal(400)
    &&& channel is Some && token is Some && !token->0.is_fresh(now) ==> response.is_refusal(401)
    &&& channel is Some && token is Some && token->0.allowed_channel is None && token->0.is_fresh(
        now,
    ) ==> response.is_stream()
    &&& C::obeys_eq_spec() ==> (response.is_stream() <==> verdict(channel, token, now)
        == Verdict::Granted)
}

/// Whether `response` and `after` can be the answer to a request with the path and the query: at
/// some time that the clock can show, to the channel and the token that are read from them.
pub open spec fn stream_created<C: Eq + Hash, P, D, J>(
    before: ServerState<C>,
    after: ServerState<C>,
    path: Seq<char>,
    query: Option<&str>,
    parse_channel: P,
    decrypt: D,
    parse_token: J,
    response: StreamResponse,
) -> bool where
    P: FnOnce(&str) -> Option<C>,
    D: FnOnce(&[u8], u64, &str, &[u8; 32]) -> Option<Vec<u8>>,
    J: FnOnce(&[u8]) -> Option<AuthToken<C>>,
 {
    exists|channel: Option<C>, token: Option<AuthToken<C>>, now: i128|
        {
            &&& names_channel(parse_channel, path, channel)
            &&& reads_token(query, before.token_key, decrypt, parse_token, token)
            &&& is_clock_time(now)
            &&& #[trigger] decided(channel, token, now, response)
            &&& is_channel_type::<C>() ==> answered(before, after, channel, token, now, response)
        }
}

/// Push server implementing Server-Sent Events (SSE).
///
/// SSE allow pushing events to browsers over HTTP without polling. The server supports multiple
/// parallel channels and client authentication.
///
/// The generic parameter `C` specifies the type used to distinguish the different channels. What
/// the contracts say of the channels holds of every type that obeys the model of a map's key.
#[verifier::reject_recursive_types(C)]
pub struct Server<C> {
    channels: HashMap<C, Vec<Client>>,
    next_id: usize,
    token_key: [u8; 32],
    started: Instant,
}

impl<C> View for Server<C> {
    type V = ServerState<C>;

    closed spec fn view(&self) -> ServerState<C> {
        ServerState {
            channels: self.channels@.map_values(|clients: Vec<Client>| states(clients@)),
            next_id: self.next_id,
            token_key: self.token_key,
            started: self.started,
        }
    }
}

impl<C: Eq + Hash> Server<C> {
    /// Create a new SSE push-server, which seals tokens with the key.
    pub fn new(token_key: [u8; 32]) -> (server: Server<C>)
        ensures
            server@.channels == Map::<C, Seq<ClientState>>::empty(),
            server@.next_id == 0,
            server@.token_key == token_key,
            monotonic_clock_gives(server@.started),
    {
        let server = Server {
            channels: HashMap::new(),
            next_id: 0,
            token_key,
            started: monotonic_now(),
        };
        assert(server@.channels =~= Map::<C, Seq<ClientState>>::empty());
        proof {
            lemma_start_is_read(server.started);
        }
        server
    }

    /// The key that tokens are sealed with.
    pub fn token_key(&self) -> (key: [u8; 32])
        ensures
            key == self@.token_key,
    {
        self.token_key
    }

    /// Adds a client, which is reached over `tx`, to the channel.
    pub fn add_client(&mut self, channel: C, tx: Sender)
        ensures
            final(self)@.token_key == old(self)@.token_key,
            final(self)@.started == old(self)@.started,
            final(self)@.next_id == following(old(self)@.next_id),
            obeys_key_model::<C>() ==> final(self)@ == old(self)@.with_client(
                channel,
                (ClientState {
                    id: old(self)@.next_id,
                    first_error: None,
                    stream: stream_of(tx),
                    queued: queued(tx),
                    offered: offered(tx),
                }),
            ),
    {
        let id: usize = self.next_id;
        let client = Client::new(tx, id);
        let ghost state = client@;
        self.next_id = id.wrapping_add(1);
        let clients = self.channels.entry(channel).or_insert(Vec::new());
        let ghost before = clients@;
        clients.push(client);
        proof {
            assert(states(before.push(client)) =~= states(before).push(state));
            assert(states(Seq::<Client>::empty()) =~= Seq::<ClientState>::empty());
            if obeys_key_model::<C>() {
                assert(self@.channels =~= old(self)@.with_client(channel, state).channels);
            }
        }
    }

    /// Sends the chunk to all clients on the channel. There may be none.
    pub fn send_chunk_to_channel(&mut self, chunk: String, channel: C)
        ensures
            old(self)@.keeps_all_but_channels(final(self)@),
            obeys_key_model::<C>() ==> old(self)@.sent_to_channel(
                final(self)@,
                channel,
                encode_utf8(chunk@),
            ),
    {
        match self.channels.entry(channel) {
            Entry::Occupied(entry) => {
                send_to_each(entry.into_mut(), &chunk, &self.started);
            },
            // Currently no clients on the given channel
            Entry::Vacant(_) => {},
        }
        proof {
            if obeys_key_model::<C>() {
                assert(self@.channels.dom() =~= old(self)@.channels.dom());
            }
        }
    }

    /// Sends the chunk to all clients on all channels.
    pub fn send_chunk_to_all_clients(&mut self, chunk: String)
        ensures
            old(self)@.keeps_all_but_channels(final(self)@),
            obeys_key_model::<C>() ==> old(self)@.sent_to_all(final(self)@, encode_utf8(chunk@)),
    {
        let ghost held = self.channels@;
        let groups: Vec<(C, Vec<Client>)> = drain(&mut self.channels);
        let ghost bytes = encode_utf8(chunk@);
        for group in it: groups.into_iter()
            invariant
                it.seq() == groups@,
                bytes == encode_utf8(chunk@),
                old(self)@.keeps_all_but_channels(self@),
                obeys_key_model::<C>() ==> lists_pairs_of(groups@, held),
                obeys_key_model::<C>() ==> forall|i: int|
                    0 <= i < it.index() ==> self.channels@.contains_key((#[trigger] groups@[i]).0)
                        && all_sent(
                        states(groups@[i].1@),
                        states(self.channels@[groups@[i].0]@),
                        bytes,
                        self.started,
                    ),
                obeys_key_model::<C>() ==> forall|channel: C| #[trigger]
                    self.channels@.contains_key(channel) ==> exists|i: int|
                        0 <= i < it.index() && (#[trigger] groups@[i]).0 == channel,
        {
            let (channel, mut clients) = group;
            send_to_each(&mut clients, &chunk, &self.started);
            let ghost before = self.channels@;
            self.channels.insert(channel, clients);
            proof {
                if obeys_key_model::<C>() {
                    let n = it.index() as int;
                    assert(groups@[n].0 == channel);
                    assert forall|other: C| #[trigger]
                        self.channels@.contains_key(other) implies exists|i: int|
                        0 <= i < n + 1 && (#[trigger] groups@[i]).0 == other by {
                        if other == channel {
                            assert(groups@[n].0 == other);
                        } else {
                            assert(before.contains_key(other));
                        }
                    }
                }
            }
        }
        proof {
            if obeys_key_model::<C>() {
                assert forall|channel: C| held.contains_key(channel) implies #[trigger]
                    self.channels@.contains_key(channel) && all_sent(
                    states(held[channel]@),
                    states(self.channels@[channel]@),
                    bytes,
                    self.started,
                ) by {
                    let i = choose|i: int|
                        0 <= i < groups.len() && (#[trigger] groups@[i]).0 == channel;
                    assert(groups@[i].0 == channel);
                }
                assert(self@.channels.dom() =~= old(self)@.channels.dom());
            }
        }
    }

    /// Removes the clients that are stale at `now`, and the channels that this leaves without
    /// clients.
    pub fn remove_stale_clients_at(&mut self, now: u128)
        ensures
            old(self)@.keeps_all_but_channels(final(self)@),
            obeys_key_model::<C>() ==> final(self)@ == old(self)@.without_stale(now),
    {
        let ghost held = self.channels@;
        let groups: Vec<(C, Vec<Client>)> = drain(&mut self.channels);
        for group in it: groups.into_iter()
            invariant
                it.seq() == groups@,
                old(self)@.keeps_all_but_channels(self@),
                obeys_key_model::<C>() ==> lists_pairs_of(groups@, held),
                obeys_key_model::<C>() ==> forall|i: int|
                    0 <= i < it.index() ==> {
                        let kept = live(states((#[trigger] groups@[i]).1@), now);
                        &&& self.channels@.contains_key(groups@[i].0) <==> kept.len() > 0
                        &&& kept.len() > 0 ==> states(self.channels@[groups@[i].0]@) == kept
                    },
                obeys_key_model::<C>() ==> forall|channel: C| #[trigger]
                    self.channels@.contains_key(channel) ==> exists|i: int|
                        0 <= i < it.index() && (#[trigger] groups@[i]).0 == channel,
        {
            let (channel, clients) = group;
            let kept: Vec<Client> = drop_stale(clients, now);
            let ghost before = self.channels@;
            if !kept.is_empty() {
                self.channels.insert(channel, kept);
            }
            proof {
                if obeys_key_model::<C>() {
                    let n = it.index() as int;
                    assert(groups@[n].0 == channel);
                    assert(!before.contains_key(channel));
                    assert forall|other: C| #[trigger]
                        self.channels@.contains_key(other) implies exists|i: int|
                        0 <= i < n + 1 && (#[trigger] groups@[i]).0 == other by {
                        if other == channel {
                            assert(groups@[n].0 == other);
                        } else {
                            assert(before.contains_key(other));
                        }
                    }
                }
            }
        }
        proof {
            if obeys_key_model::<C>() {
                let after = old(self)@.without_stale(now).channels;
                reveal(Seq::filter);
                assert forall|channel: C| #[trigger]
                    self@.channels.contains_key(channel) <==> after.contains_key(channel) by {
                    if held.contains_key(channel) {
                        let i = choose|i: int|
                            0 <= i < groups.len() && (#[trigger] groups@[i]).0 == channel;
                        assert(groups@[i].0 == channel);
                    }
                }
                assert forall|channel: C| #[trigger]
                    self@.channels.contains_key(channel) implies self@.channels[channel]
                    == after[channel] by {
                    let i = choose|i: int|
                        0 <= i < groups.len() && (#[trigger] groups@[i]).0 == channel;
                    assert(groups@[i].0 == channel);
                }
                assert(self@.channels =~= after);
            }
        }
    }

    /// Remove disconnected clients.
    ///
    /// This removes all clients from all channels to whom sending has been failing for more than
    /// five seconds. That is how a closed connection, or one that does not respond to the
    /// heartbeats, shows.
    ///
    /// This function should be called regularly (e.g. together with `send_heartbeats`) to keep the
    /// memory usage low.
    pub fn remove_stale_clients(&mut self)
        ensures
            old(self)@.keeps_all_but_channels(final(self)@),
            obeys_key_model::<C>() ==> exists|now: u128|
                elapsed_gives(old(self)@.started, now) && final(self)@
                    == #[trigger] old(self)@.without_stale(now),
    {
        assert(self@.started == self.started);
        let now: u128 = nanos_since(&self.started);
        proof {
            lemma_elapsed_is_read(self.started, now);
        }
        self.remove_stale_clients_at(now);
    }

    /// Push a message for the event to all clients registered on the channel.
    ///
    /// The payload is the serialized message, or the error that serializing it gave, which is
    /// returned.
    pub fn push<E>(&mut self, channel: C, event: &str, payload: Result<String, E>) -> (pushed:
        Result<(), E>)
        ensures
            old(self)@.keeps_all_but_channels(final(self)@),
            match payload {
                Ok(data) => {
                    &&& pushed is Ok
                    &&& obeys_key_model::<C>() ==> old(self)@.sent_to_channel(
                        final(self)@,
                        channel,
                        encode_utf8(event_text(event@, data@)),
                    )
                },
                Err(error) => pushed == Err::<(), E>(error) && final(self)@ == old(self)@,
            },
    {
        match payload {
            Ok(data) => {
                let message: String = format_event(event, &data);
                self.send_chunk_to_channel(message, channel);
                Ok(())
            },
            Err(error) => Err(error),
        }
    }

    /// Send heartbeat to all clients on all channels.
    ///
    /// This should be called regularly (e.g. every minute) to detect a disconnect of the underlying
    /// TCP connection.
    pub fn send_heartbeats(&mut self)
        ensures
            old(self)@.keeps_all_but_channels(final(self)@),
            obeys_key_model::<C>() ==> old(self)@.sent_to_all(
                final(self)@,
                encode_utf8(heartbeat_text()),
            ),
    {
        self.send_chunk_to_all_clients(format_heartbeat());
    }

    /// One round of maintenance: removes disconnected clients, and sends a heartbeat to the others.
    ///
    /// This is to be done every `MAINTENANCE_INTERVAL` seconds.
    pub fn maintain(&mut self)
        ensures
            old(self)@.keeps_all_but_channels(final(self)@),
            obeys_key_model::<C>() ==> exists|now: u128|
                elapsed_gives(old(self)@.started, now) && #[trigger] old(self)@.without_stale(
                    now,
                ).sent_to_all(final(self)@, encode_utf8(heartbeat_text())),
    {
        self.remove_stale_clients();
        self.send_heartbeats();
    }

    /// Answers a request that names the channel and carries the token, at `now`.
    ///
    /// A request without a channel or without a token is a bad request. A token that is older than
    /// 24 hours, or for another channel, is not authorized. Otherwise a client is added to the
    /// channel, and the response is its stream.
    pub fn open_stream(
        &mut self,
        channel: Option<C>,
        token: Option<AuthToken<C>>,
        now: i128,
    ) -> (response: StreamResponse)
        ensures
            final(self)@.token_key == old(self)@.token_key,
            final(self)@.started == old(self)@.started,
            response.is_stream() || final(self)@ == old(self)@,
            decided(channel, token, now, response),
            is_channel_type::<C>() ==> answered(
                old(self)@,
                final(self)@,
                channel,
                token,
                now,
                response,
            ),
    {
        match (authorize(&channel, &token, now), channel) {
            (Verdict::Granted, Some(channel)) => {
                let (sender, body) = body_channel();
                self.add_client(channel, sender);
                StreamResponse::stream(body)
            },
            (Verdict::Unauthorized, _) => StreamResponse::refusal(401),
            _ => StreamResponse::refusal(400),
        }
    }

    /// Answers a request that names the channel and carries the token, at the present.
    pub fn open_stream_now(
        &mut self,
        channel: Option<C>,
        token: Option<AuthToken<C>>,
    ) -> (response: StreamResponse)
        ensures
            final(self)@.token_key == old(self)@.token_key,
            final(self)@.started == old(self)@.started,
            response.is_stream() || final(self)@ == old(self)@,
            exists|now: i128|
                {
                    &&& is_clock_time(now)
                    &&& #[trigger] decided(channel, token, now, response)
                    &&& is_channel_type::<C>() ==> answered(
                        old(self)@,
                        final(self)@,
                        channel,
                        token,
                        now,
                        response,
                    )
                },
    {
        let now: i128 = system_now();
        self.open_stream(channel, token, now)
    }

    /// Initiate a new SSE stream for the given request.
    ///
    /// The request must include a valid authorization token. The channel is parsed from the last
    /// segment of the uri path, and the token is read from the query. If the request cannot be
    /// parsed correctly or the auth token is expired, an appropriate http error response is
    /// returned.
    pub fn create_stream<P, D, J>(
        &mut self,
        path: &str,
        query: Option<&str>,
        parse_channel: P,
        decrypt: D,
        parse_token: J,
    ) -> (response: StreamResponse) where
        P: FnOnce(&str) -> Option<C>,
        D: FnOnce(&[u8], u64, &str, &[u8; 32]) -> Option<Vec<u8>>,
        J: FnOnce(&[u8]) -> Option<AuthToken<C>>,

        requires
            forall|segment: &str| #[trigger] call_requires(parse_channel, (segment,)),
            forall|input: &[u8]| #[trigger]
                call_requires(
                    decrypt,
                    (input, MESSAGE_ID, HYDRO_CONTEXT, &old(self)@.token_key),
                ),
            forall|input: &[u8]| #[trigger] call_requires(parse_token, (input,)),
        ensures
            final(self)@.token_key == old(self)@.token_key,
            final(self)@.started == old(self)@.started,
            response.is_stream() || final(self)@ == old(self)@,
            stream_created(
                old(self)@,
                final(self)@,
                path@,
                query,
                parse_channel,
                decrypt,
                parse_token,
                response,
            ),
    {
        assert(self@.token_key == self.token_key);
        let (channel, token) = read_request(
            path,
            query,
            &self.token_key,
            parse_channel,
            decrypt,
            parse_token,
        );
        self.open_stream_now(channel, token)
    }

    /// Create an opaque authorization token, made at `created`.
    pub fn generate_auth_token_at<E, J, S>(
        &self,
        channel: Option<C>,
        created: i128,
        serialize: J,
        encrypt: S,
    ) -> (text: Result<String, E>) where
        J: FnOnce(&AuthToken<C>) -> Result<Vec<u8>, E>,
        S: FnOnce(&[u8], u64, &str, &[u8; 32]) -> Vec<u8>,

        requires
            forall|token: &AuthToken<C>| #[trigger] call_requires(serialize, (token,)),
            forall|input: &[u8]| #[trigger]
                call_requires(encrypt, (input, MESSAGE_ID, HYDRO_CONTEXT, &self@.token_key)),
            forall|input: &[u8], sealed: Vec<u8>| #[trigger]
                call_ensures(
                    encrypt,
                    (input, MESSAGE_ID, HYDRO_CONTEXT, &self@.token_key),
                    sealed,
                ) ==> sealed.len() <= MAX_INPUT,
        ensures
            seals_token(
                (AuthToken { created, allowed_channel: channel }),
                self@.token_key,
                serialize,
                encrypt,
                text,
            ),
    {
        let token = AuthToken { created, allowed_channel: channel };
        assert(self@.token_key == self.token_key);
        seal_token(token, &self.token_key, serialize, encrypt)
    }

    /// Create an opaque authorization token that will be checked in `create_stream` before
    /// establishing the SSE stream.
    ///
    /// A new token can be send to the client on every request, as creating and checking the tokens
    /// is cheap. The token is valid for 24 hours after it has been generated and can only be used
    /// on the specified channel if specified. The token must be passed as the query url segment to
    /// the sse endpoint.
    ///
    /// Returns an error if the channel serialization fails.
    pub fn generate_auth_token<E, J, S>(
        &self,
        channel: Option<C>,
        serialize: J,
        encrypt: S,
    ) -> (text: Result<String, E>) where
        J: FnOnce(&AuthToken<C>) -> Result<Vec<u8>, E>,
        S: FnOnce(&[u8], u64, &str, &[u8; 32]) -> Vec<u8>,

        requires
            forall|token: &AuthToken<C>| #[trigger] call_requires(serialize, (token,)),
            forall|input: &[u8]| #[trigger]
                call_requires(encrypt, (input, MESSAGE_ID, HYDRO_CONTEXT, &self@.token_key)),
            forall|input: &[u8], sealed: Vec<u8>| #[trigger]
                call_ensures(
                    encrypt,
                    (input, MESSAGE_ID, HYDRO_CONTEXT, &self@.token_key),
                    sealed,
                ) ==> sealed.len() <= MAX_INPUT,
        ensures
            exists|created: i128|
                is_clock_time(created) && #[trigger] seals_token(
                    (AuthToken { created, allowed_channel: channel }),
                    self@.token_key,
                    serialize,
                    encrypt,
                    text,
                ),
    {
        assert(self@.token_key == self.token_key);
        issue_token(&self.token_key, channel, serialize, encrypt)
    }
}

/// A server keeps nothing but its clients, the next number, the key and the point from which failures
/// are counted. In particular it keeps no reading of the system clock: what a call judges by, or
/// writes into a token, is read during that call.
proof fn lemma_server_is_what_it_shows<C>(server: Server<C>, other: Server<C>)
    requires
        server.channels == other.channels,
        server@ == other@,
    ensures
        server == other,
{
}

/// What a server shows is its clients, the next number, the key and the point from which failures
/// are counted, and nothing else.
pub proof fn lemma_what_a_server_shows<C>(state: ServerState<C>, other: ServerState<C>)
    requires
        state.channels == other.channels,
        state.next_id == other.next_id,
        state.token_key == other.token_key,
        state.started == other.started,
    ensures
        state == other,
{
}

} // verus!
