//! Authorization tokens: who may open a stream on which channel.

use vstd::prelude::*;
use vstd::std_specs::cmp::PartialEqSpec;

use crate::clock::to_unix_nanos;

verus! {

/// How long a token is good for after it was made, in nanoseconds: 24 hours.
pub const TOKEN_LIFETIME: i128 = 86_400_000_000_000;

/// What a token says, before it is sealed.
pub struct AuthToken<C> {
    /// When the token was made, in nanoseconds from the Unix epoch.
    pub created: i128,
    /// The channel that the token is good for. `None` means that all channels are allowed.
    pub allowed_channel: Option<C>,
}

/// The answer to a request for a stream.
#[derive(Debug, Clone, Copy, PartialEq, Eq, Structural)]
pub enum Verdict {
    /// The request names no channel, or has no readable token.
    BadRequest,
    /// The token is for another channel, or too old.
    Unauthorized,
    /// The stream may be opened.
    Granted,
}

impl<C: PartialEq> AuthToken<C> {
    /// Whether the token may be used on the channel.
    pub open spec fn allows(self, channel: C) -> bool {
        self.allowed_channel matches Some(allowed) ==> channel.eq_spec(&allowed)
    }

    /// Whether the token is not older than 24 hours at `now`. One from the future is fresh.
    pub open spec fn is_fresh(self, now: i128) -> bool {
        now - self.created < TOKEN_LIFETIME
    }
}

/// The answer to a request that names the channel and carries the token, at `now`.
pub open spec fn verdict<C: PartialEq>(
    channel: Option<C>,
    token: Option<AuthToken<C>>,
    now: i128,
) -> Verdict {
    match (channel, token) {
        (Some(channel), Some(token)) => if token.allows(channel) && token.is_fresh(now) {
            Verdict::Granted
        } else {
            Verdict::Unauthorized
        },
        _ => Verdict::BadRequest,
    }
}

/// Whether a token made at `created` is not older than 24 hours at `now`.
pub fn fresh_token(created: i128, now: i128) -> (fresh: bool)
    ensures
        fresh == (now - created < TOKEN_LIFETIME),
{
    match now.checked_sub(created) {
        Some(age) => age < TOKEN_LIFETIME,
        // The age does not fit: the token is ages old, or from a far future.
        None => now < created,
    }
}

/// Whether a token for `allowed` may be used on the channel.
pub fn correct_channel<C: PartialEq>(channel: &C, allowed: &Option<C>) -> (correct: bool)
    ensures
        allowed is None ==> correct,
        C::obeys_eq_spec() && allowed is Some ==> correct == channel.eq_spec(&allowed->0),
{
    match allowed {
        Some(token_channel) => *channel == *token_channel,
        None => true,
    }
}

/// The answer to a request that names the channel and carries the token, at `now`.
pub fn authorize<C: PartialEq>(
    channel: &Option<C>,
    token: &Option<AuthToken<C>>,
    now: i128,
) -> (answer: Verdict)
    ensures
        answer == Verdict::BadRequest <==> channel is None || token is None,
        channel is Some && token is Some && !token->0.is_fresh(now) ==> answer
            == Verdict::Unauthorized,
        token is Some && token->0.allowed_channel is None ==> answer == verdict(
            *channel,
            *token,
            now,
        ),
        C::obeys_eq_spec() ==> answer == verdict(*channel, *token, now),
{
    match (channel, token) {
        (Some(channel), Some(token)) => {
            if correct_channel(channel, &token.allowed_channel) && fresh_token(token.created, now) {
                Verdict::Granted
            } else {
                Verdict::Unauthorized
            }
        },
        _ => Verdict::BadRequest,
    }
}

/// A token that has expired stays expired.
pub proof fn lemma_expired_token_stays_expired<C: PartialEq>(
    token: AuthToken<C>,
    now: i128,
    later: i128,
)
    requires
        now <= later,
        !token.is_fresh(now),
    ensures
        !token.is_fresh(later),
{
}

/// A token without a channel is good for all channels, for as long as it is fresh.
pub proof fn lemma_open_token_allows_every_channel<C: PartialEq>(
    token: AuthToken<C>,
    channel: C,
    now: i128,
)
    requires
        token.allowed_channel is None,
    ensures
        verdict(Some(channel), Some(token), now) == Verdict::Granted <==> token.is_fresh(now),
{
}

/// A token is fresh exactly until 24 hours of clock time have passed, counted in whole seconds: it
/// was made when the clock showed `made`, in seconds and nanoseconds, and is looked at when the clock
/// shows `shown`. A clock that has gone back leaves it fresh.
pub proof fn lemma_token_is_fresh_for_a_day(
    made: (u64, u32),
    shown: (u64, u32),
    created: i128,
    now: i128,
    fresh: bool,
)
    requires
        made.1 < 1_000_000_000,
        shown.1 < 1_000_000_000,
        call_ensures(to_unix_nanos, (Ok::<(u64, u32), (u64, u32)>(made),), created),
        call_ensures(to_unix_nanos, (Ok::<(u64, u32), (u64, u32)>(shown),), now),
        call_ensures(fresh_token, (created, now), fresh),
    ensures
        fresh <==> shown.0 - made.0 < 24 * 60 * 60 || (shown.0 - made.0 == 24 * 60 * 60 && shown.1
            < made.1),
{
}

/// Only the age of a token counts: it is fresh exactly if fewer than 24 times 3600 times a thousand
/// million nanoseconds lie between its making and the present.
pub proof fn lemma_only_the_age_counts(created: i128, now: i128, fresh: bool)
    requires
        call_ensures(fresh_token, (created, now), fresh),
    ensures
        fresh <==> now - created < 24 * 3600 * 1_000_000_000,
{
}

/// A token for a channel may be used on that channel and on no other. A token without a channel may
/// be used on all.
pub proof fn lemma_token_is_for_its_channel<C: PartialEq>(
    channel: &C,
    allowed: &Option<C>,
    correct: bool,
)
    requires
        call_ensures(correct_channel::<C>, (channel, allowed), correct),
    ensures
        *allowed is None ==> correct,
        C::obeys_eq_spec() && *allowed is Some ==> (correct <==> channel.eq_spec(&allowed->0)),
{
}

/// A request is granted exactly if it names a channel and carries a token, the token is for that
/// channel or for all, and it is less than 24 hours old. Without a channel or a token it is a bad
/// request. Otherwise it is unauthorized.
pub proof fn lemma_what_is_granted<C: PartialEq>(
    channel: &Option<C>,
    token: &Option<AuthToken<C>>,
    now: i128,
    answer: Verdict,
)
    requires
        call_ensures(authorize::<C>, (channel, token, now), answer),
    ensures
        *channel is None || *token is None <==> answer == Verdict::BadRequest,
        *channel is Some && *token is Some && now - token->0.created >= 24 * 3600 * 1_000_000_000
            ==> answer == Verdict::Unauthorized,
        *channel is Some && *token is Some && token->0.allowed_channel is None ==> (answer
            == Verdict::Granted <==> now - token->0.created < 24 * 3600 * 1_000_000_000),
        C::obeys_eq_spec() && *channel is Some && *token is Some && token->0.allowed_channel is Some
            ==> (answer == Verdict::Granted <==> channel->0.eq_spec(&token->0.allowed_channel->0)
            && now - token->0.created < 24 * 3600 * 1_000_000_000),
{
}

} // verus!
