//! Sealing tokens and reading them back.
//!
//! A token is serialized, encrypted and written in Base64; a request carries the result as its
//! query. The serializer and the cipher are the caller's: they are handed over as functions.

use vstd::prelude::*;
use vstd::std_specs::cmp::PartialEqSpec;
use vstd::utf8::encode_utf8;

use crate::clock::{is_clock_time, is_reading, system_clock_gives, system_now, unix_nanos};
use crate::encoding::{
    base64_decode, base64_encode, decoded, encoded, is_url_safe, lemma_encoded_is_url_safe,
    MAX_INPUT,
};
use crate::token::{verdict, AuthToken, Verdict, TOKEN_LIFETIME};

verus! {

/// The domain that tokens are encrypted in.
pub const HYDRO_CONTEXT: &'static str = "ssetoken";

/// The message number that tokens are encrypted under.
pub const MESSAGE_ID: u64 = 0;

/// Whether encrypting the serialized token can give `sealed`.
pub open spec fn encrypts<S>(encrypt: S, key: [u8; 32], plain: Seq<u8>, sealed: Seq<u8>) -> bool
    where S: FnOnce(&[u8], u64, &str, &[u8; 32]) -> Vec<u8>
{
    exists|input: &[u8], output: Vec<u8>|
        input@ == plain && output@ == sealed && #[trigger] call_ensures(
            encrypt,
            (input, MESSAGE_ID, HYDRO_CONTEXT, &key),
            output,
        )
}

/// Whether decrypting `sealed` can give `plain`: `None` if it is refused.
pub open spec fn decrypts<D>(
    decrypt: D,
    key: [u8; 32],
    sealed: Seq<u8>,
    plain: Option<Seq<u8>>,
) -> bool where D: FnOnce(&[u8], u64, &str, &[u8; 32]) -> Option<Vec<u8>> {
    exists|input: &[u8], output: Option<Vec<u8>>|
        input@ == sealed && plain == (match output {
            Some(bytes) => Some(bytes@),
            None => None,
        }) && #[trigger] call_ensures(
            decrypt,
            (input, MESSAGE_ID, HYDRO_CONTEXT, &key),
            output,
        )
}

/// Whether decrypting `sealed` is always refused.
pub open spec fn refuses<D>(decrypt: D, key: [u8; 32], sealed: Seq<u8>) -> bool where
    D: FnOnce(&[u8], u64, &str, &[u8; 32]) -> Option<Vec<u8>>,
 {
    forall|plain: Option<Seq<u8>>| #[trigger]
        decrypts(decrypt, key, sealed, plain) ==> plain is None
}

/// Whether parsing the decrypted bytes can give the token: `None` if they are refused.
pub open spec fn parses<C, J>(parse: J, plain: Seq<u8>, token: Option<AuthToken<C>>) -> bool where
    J: FnOnce(&[u8]) -> Option<AuthToken<C>>,
 {
    exists|input: &[u8]| input@ == plain && #[trigger] call_ensures(parse, (input,), token)
}

/// What the query of a request decodes to. A query that is too long to be decoded counts as
/// malformed.
pub open spec fn decoded_query(query: Seq<char>) -> Option<Seq<u8>> {
    if encode_utf8(query).len() <= MAX_INPUT {
        decoded(encode_utf8(query))
    } else {
        None
    }
}

/// Whether decrypting and parsing `sealed` can give the token.
pub open spec fn unseals<C, D, J>(
    sealed: Seq<u8>,
    key: [u8; 32],
    decrypt: D,
    parse: J,
    token: Option<AuthToken<C>>,
) -> bool where
    D: FnOnce(&[u8], u64, &str, &[u8; 32]) -> Option<Vec<u8>>,
    J: FnOnce(&[u8]) -> Option<AuthToken<C>>,
 {
    exists|plain: Option<Seq<u8>>| #[trigger]
        decrypts(decrypt, key, sealed, plain) && match plain {
            None => token is None,
            Some(bytes) => parses(parse, bytes, token),
        }
}

/// Whether reading the query of a request can give the token. There is none if there is no query,
/// if it is not Base64, if it does not decrypt, or if what was decrypted is not a token.
pub open spec fn reads_token<C, D, J>(
    query: Option<&str>,
    key: [u8; 32],
    decrypt: D,
    parse: J,
    token: Option<AuthToken<C>>,
) -> bool where
    D: FnOnce(&[u8], u64, &str, &[u8; 32]) -> Option<Vec<u8>>,
    J: FnOnce(&[u8]) -> Option<AuthToken<C>>,
 {
    match query {
        None => token is None,
        Some(text) => match decoded_query(text@) {
            None => token is None,
            Some(sealed) => unseals(sealed, key, decrypt, parse, token),
        },
    }
}

/// Whether sealing the token can give the text: the error, if it cannot be serialized.
pub open spec fn seals_token<C, E, J, S>(
    token: AuthToken<C>,
    key: [u8; 32],
    serialize: J,
    encrypt: S,
    text: Result<String, E>,
) -> bool where
    J: FnOnce(&AuthToken<C>) -> Result<Vec<u8>, E>,
    S: FnOnce(&[u8], u64, &str, &[u8; 32]) -> Vec<u8>,
 {
    exists|plain: Result<Vec<u8>, E>| #[trigger]
        call_ensures(serialize, (&token,), plain) && match plain {
            Err(error) => text == Err::<String, E>(error),
            Ok(bytes) => text is Ok && exists|sealed: Seq<u8>| #[trigger]
                encrypts(encrypt, key, bytes@, sealed) && text->Ok_0@ == encoded(sealed)
                    && decoded(encode_utf8(text->Ok_0@)) == Some(sealed),
        }
}

/// Reads the token that the query of a request carries: decodes, decrypts and parses it.
pub fn read_token<C, D, J>(query: Option<&str>, key: &[u8; 32], decrypt: D, parse: J) -> (token:
    Option<AuthToken<C>>) where
    D: FnOnce(&[u8], u64, &str, &[u8; 32]) -> Option<Vec<u8>>,
    J: FnOnce(&[u8]) -> Option<AuthToken<C>>,

    requires
        forall|input: &[u8]| #[trigger]
            call_requires(decrypt, (input, MESSAGE_ID, HYDRO_CONTEXT, key)),
        forall|input: &[u8]| #[trigger] call_requires(parse, (input,)),
    ensures
        reads_token(query, *key, decrypt, parse, token),
{
    let text: &str = match query {
        Some(text) => text,
        None => return None,
    };
    let bytes: &[u8] = text.as_bytes();
    if bytes.len() > MAX_INPUT {
        return None;
    }
    let sealed: Vec<u8> = match base64_decode(bytes) {
        Some(sealed) => sealed,
        None => return None,
    };
    let input: &[u8] = sealed.as_slice();
    let opened: Option<Vec<u8>> = decrypt(input, MESSAGE_ID, HYDRO_CONTEXT, key);
    match opened {
        Some(plain) => {
            let plain_bytes: &[u8] = plain.as_slice();
            let token = parse(plain_bytes);
            assert(decrypts(decrypt, *key, sealed@, Some(plain@)));
            assert(parses(parse, plain@, token));
            assert(unseals(sealed@, *key, decrypt, parse, token));
            token
        },
        None => {
            assert(decrypts(decrypt, *key, sealed@, None));
            None
        },
    }
}

/// Seals the token: serializes, encrypts and encodes it.
pub fn seal_token<C, E, J, S>(
    token: AuthToken<C>,
    key: &[u8; 32],
    serialize: J,
    encrypt: S,
) -> (text: Result<String, E>) where
    J: FnOnce(&AuthToken<C>) -> Result<Vec<u8>, E>,
    S: FnOnce(&[u8], u64, &str, &[u8; 32]) -> Vec<u8>,

    requires
        call_requires(serialize, (&token,)),
        forall|input: &[u8]| #[trigger]
            call_requires(encrypt, (input, MESSAGE_ID, HYDRO_CONTEXT, key)),
        forall|input: &[u8], sealed: Vec<u8>| #[trigger]
            call_ensures(encrypt, (input, MESSAGE_ID, HYDRO_CONTEXT, key), sealed) ==> sealed.len()
                <= MAX_INPUT,
    ensures
        seals_token(token, *key, serialize, encrypt, text),
{
    let serialized: Result<Vec<u8>, E> = serialize(&token);
    match serialized {
        Ok(plain) => {
            let input: &[u8] = plain.as_slice();
            let sealed: Vec<u8> = encrypt(input, MESSAGE_ID, HYDRO_CONTEXT, key);
            assert(encrypts(encrypt, *key, plain@, sealed@));
            Ok(base64_encode(sealed.as_slice()))
        },
        Err(error) => Err(error),
    }
}

/// Makes a token for the channel, or for all channels, at the present, and seals it.
pub fn issue_token<C, E, J, S>(
    key: &[u8; 32],
    channel: Option<C>,
    serialize: J,
    encrypt: S,
) -> (text: Result<String, E>) where
    J: FnOnce(&AuthToken<C>) -> Result<Vec<u8>, E>,
    S: FnOnce(&[u8], u64, &str, &[u8; 32]) -> Vec<u8>,

    requires
        forall|token: &AuthToken<C>| #[trigger] call_requires(serialize, (token,)),
        forall|input: &[u8]| #[trigger]
            call_requires(encrypt, (input, MESSAGE_ID, HYDRO_CONTEXT, key)),
        forall|input: &[u8], sealed: Vec<u8>| #[trigger]
            call_ensures(encrypt, (input, MESSAGE_ID, HYDRO_CONTEXT, key), sealed) ==> sealed.len()
                <= MAX_INPUT,
    ensures
        exists|created: i128|
            is_clock_time(created) && #[trigger] seals_token(
                (AuthToken { created, allowed_channel: channel }),
                *key,
                serialize,
                encrypt,
                text,
            ),
{
    let created: i128 = system_now();
    seal_token(AuthToken { created, allowed_channel: channel }, key, serialize, encrypt)
}

/// Whether decrypting gives back what was encrypted with the key.
pub open spec fn ciphers_match<S, D>(encrypt: S, decrypt: D, key: [u8; 32]) -> bool where
    S: FnOnce(&[u8], u64, &str, &[u8; 32]) -> Vec<u8>,
    D: FnOnce(&[u8], u64, &str, &[u8; 32]) -> Option<Vec<u8>>,
 {
    forall|plain: Seq<u8>, sealed: Seq<u8>, opened: Option<Seq<u8>>| #[trigger]
        encrypts(encrypt, key, plain, sealed) && #[trigger] decrypts(decrypt, key, sealed, opened)
            ==> opened == Some(plain)
}

/// Whether parsing gives back the token, once it has been serialized.
pub open spec fn codecs_match<C, E, J, P>(serialize: J, parse: P, token: AuthToken<C>) -> bool where
    J: FnOnce(&AuthToken<C>) -> Result<Vec<u8>, E>,
    P: FnOnce(&[u8]) -> Option<AuthToken<C>>,
 {
    forall|plain: Vec<u8>, read: Option<AuthToken<C>>| #[trigger]
        call_ensures(serialize, (&token,), Ok::<Vec<u8>, E>(plain)) && #[trigger] parses(
            parse,
            plain@,
            read,
        ) ==> read == Some(token)
}

/// A sealed token is read back from the query that carries it, with the same key: exactly as it was
/// sealed. The cipher and the parser undo what was done to it.
pub proof fn lemma_sealed_token_is_read_back<C, E, J, S, D, P>(
    token: AuthToken<C>,
    key: [u8; 32],
    serialize: J,
    encrypt: S,
    text: String,
    query: &str,
    decrypt: D,
    parse: P,
    read: Option<AuthToken<C>>,
) where
    J: FnOnce(&AuthToken<C>) -> Result<Vec<u8>, E>,
    S: FnOnce(&[u8], u64, &str, &[u8; 32]) -> Vec<u8>,
    D: FnOnce(&[u8], u64, &str, &[u8; 32]) -> Option<Vec<u8>>,
    P: FnOnce(&[u8]) -> Option<AuthToken<C>>,

    requires
        ciphers_match(encrypt, decrypt, key),
        codecs_match::<C, E, J, P>(serialize, parse, token),
        seals_token(token, key, serialize, encrypt, Ok::<String, E>(text)),
        query@ == text@,
        encode_utf8(query@).len() <= MAX_INPUT,
        reads_token(Some(query), key, decrypt, parse, read),
    ensures
        read == Some(token),
{
    let plain = choose|plain: Result<Vec<u8>, E>| #[trigger]
        call_ensures(serialize, (&token,), plain) && match plain {
            Err(error) => Ok::<String, E>(text) == Err::<String, E>(error),
            Ok(bytes) => exists|sealed: Seq<u8>| #[trigger]
                encrypts(encrypt, key, bytes@, sealed) && text@ == encoded(sealed) && decoded(
                    encode_utf8(text@),
                ) == Some(sealed),
        };
    let sealed = decoded(encode_utf8(text@))->0;
    let opened = choose|opened: Option<Seq<u8>>| #[trigger]
        decrypts(decrypt, key, sealed, opened) && match opened {
            None => read is None,
            Some(bytes) => parses(parse, bytes, read),
        };
    assert(opened == Some(plain->Ok_0@));
    assert(call_ensures(serialize, (&token,), Ok::<Vec<u8>, E>(plain->Ok_0)));
    assert(parses(parse, plain->Ok_0@, read));
}

/// A sealed token can be put into the query of a URL as it is.
pub proof fn lemma_sealed_token_is_url_safe<C, E, J, S>(
    token: AuthToken<C>,
    key: [u8; 32],
    serialize: J,
    encrypt: S,
    text: String,
) where
    J: FnOnce(&AuthToken<C>) -> Result<Vec<u8>, E>,
    S: FnOnce(&[u8], u64, &str, &[u8; 32]) -> Vec<u8>,

    requires
        seals_token(token, key, serialize, encrypt, Ok::<String, E>(text)),
    ensures
        forall|i: int| 0 <= i < text@.len() ==> is_url_safe(#[trigger] text@[i]),
{
    let sealed = decoded(encode_utf8(text@))->0;
    assert(text@ == encoded(sealed));
    lemma_encoded_is_url_safe(sealed);
}

/// The life of a token. It was made at `created`, for the channel or for all channels, and is
/// presented at `now` with a request for the channel. The stream is granted if the token is for
/// that channel or for all, and is not yet 24 hours old. Otherwise the request is not authorized.
pub proof fn lemma_generated_token_is_honoured<C: PartialEq, E, J, S, D, P>(
    created: i128,
    allowed: Option<C>,
    key: [u8; 32],
    serialize: J,
    encrypt: S,
    text: String,
    query: &str,
    decrypt: D,
    parse: P,
    read: Option<AuthToken<C>>,
    channel: C,
    now: i128,
) where
    J: FnOnce(&AuthToken<C>) -> Result<Vec<u8>, E>,
    S: FnOnce(&[u8], u64, &str, &[u8; 32]) -> Vec<u8>,
    D: FnOnce(&[u8], u64, &str, &[u8; 32]) -> Option<Vec<u8>>,
    P: FnOnce(&[u8]) -> Option<AuthToken<C>>,

    requires
        ciphers_match(encrypt, decrypt, key),
        codecs_match::<C, E, J, P>(
            serialize,
            parse,
            (AuthToken { created, allowed_channel: allowed }),
        ),
        seals_token(
            (AuthToken { created, allowed_channel: allowed }),
            key,
            serialize,
            encrypt,
            Ok::<String, E>(text),
        ),
        query@ == text@,
        encode_utf8(query@).len() <= MAX_INPUT,
        reads_token(Some(query), key, decrypt, parse, read),
    ensures
        verdict(Some(channel), read, now) == Verdict::Granted <==> (allowed is None
            || channel.eq_spec(&allowed->0)) && now - created < TOKEN_LIFETIME,
        verdict(Some(channel), read, now) != Verdict::Granted ==> verdict(Some(channel), read, now)
            == Verdict::Unauthorized,
{
    let token = AuthToken { created, allowed_channel: allowed };
    lemma_sealed_token_is_read_back(
        token,
        key,
        serialize,
        encrypt,
        text,
        query,
        decrypt,
        parse,
        read,
    );
}

/// How a token is read from a query. Without a query there is none. The whole query is decoded, up
/// to a quarter of the address space; if it cannot be, there is no token. What it decodes to goes to
/// the cipher as it is, with the message number zero, the domain `ssetoken` and the key. What the
/// cipher gives goes to the parser as it is, and what the parser gives is the token.
pub proof fn lemma_how_a_token_is_read<C, D, J>(
    query: Option<&str>,
    key: &[u8; 32],
    decrypt: D,
    parse: J,
    token: Option<AuthToken<C>>,
) where
    D: FnOnce(&[u8], u64, &str, &[u8; 32]) -> Option<Vec<u8>>,
    J: FnOnce(&[u8]) -> Option<AuthToken<C>>,

    requires
        call_ensures(read_token::<C, D, J>, (query, key, decrypt, parse), token),
    ensures
        query is None ==> token is None,
        query is Some && decoded(encode_utf8(query->0@)) is None ==> token is None,
        query is Some && encode_utf8(query->0@).len() <= usize::MAX / 4 && decoded(
            encode_utf8(query->0@),
        ) is Some ==> exists|input: &[u8], domain: &str, opened: Option<Vec<u8>>|
            {
                &&& input@ == decoded(encode_utf8(query->0@))->0
                &&& domain@ == "ssetoken"@
                &&& #[trigger] call_ensures(decrypt, (input, 0u64, domain, key), opened)
                &&& opened is None ==> token is None
                &&& opened is Some ==> exists|plain: &[u8]|
                    plain@ == opened->0@ && #[trigger] call_ensures(parse, (plain,), token)
            },
{
    if query is Some && encode_utf8(query->0@).len() <= usize::MAX / 4 && decoded(
        encode_utf8(query->0@),
    ) is Some {
        let sealed = decoded(encode_utf8(query->0@))->0;
        let plain = choose|plain: Option<Seq<u8>>| #[trigger]
            decrypts(decrypt, *key, sealed, plain) && match plain {
                None => token is None,
                Some(bytes) => parses(parse, bytes, token),
            };
        assert(decrypts(decrypt, *key, sealed, plain));
    }
}

/// How a token is sealed. It goes to the serializer as it is; an error that comes back is the
/// result. The bytes that come back go to the cipher as they are, with the message number zero, the
/// domain `ssetoken` and the key. The text is what decodes to the bytes that the cipher gives.
pub proof fn lemma_how_a_token_is_sealed<C, E, J, S>(
    token: AuthToken<C>,
    key: &[u8; 32],
    serialize: J,
    encrypt: S,
    text: Result<String, E>,
) where
    J: FnOnce(&AuthToken<C>) -> Result<Vec<u8>, E>,
    S: FnOnce(&[u8], u64, &str, &[u8; 32]) -> Vec<u8>,

    requires
        call_ensures(seal_token::<C, E, J, S>, (token, key, serialize, encrypt), text),
    ensures
        exists|plain: Result<Vec<u8>, E>|
            {
                &&& #[trigger] call_ensures(serialize, (&token,), plain)
                &&& plain is Err ==> text is Err && text->Err_0 == plain->Err_0
                &&& plain is Ok ==> text is Ok && exists|input: &[u8], domain: &str, out: Vec<u8>|
                    {
                        &&& input@ == plain->Ok_0@
                        &&& domain@ == "ssetoken"@
                        &&& #[trigger] call_ensures(encrypt, (input, 0u64, domain, key), out)
                        &&& decoded(encode_utf8(text->Ok_0@)) == Some(out@)
                    }
            },
{
    let plain = choose|plain: Result<Vec<u8>, E>| #[trigger]
        call_ensures(serialize, (&token,), plain) && match plain {
            Err(error) => text == Err::<String, E>(error),
            Ok(bytes) => text is Ok && exists|sealed: Seq<u8>| #[trigger]
                encrypts(encrypt, *key, bytes@, sealed) && text->Ok_0@ == encoded(sealed)
                    && decoded(encode_utf8(text->Ok_0@)) == Some(sealed),
        };
    if plain is Ok {
        let sealed = choose|sealed: Seq<u8>| #[trigger]
            encrypts(encrypt, *key, plain->Ok_0@, sealed) && text->Ok_0@ == encoded(sealed)
                && decoded(encode_utf8(text->Ok_0@)) == Some(sealed);
        assert(encrypts(encrypt, *key, plain->Ok_0@, sealed));
    }
}

/// A token that is issued says that it was made when the clock was read for it: the seconds and
/// nanoseconds that the system clock gave are the time that goes to the serializer, with the channel
/// as it was given. What the serializer and the cipher then give is what the text decodes to.
pub proof fn lemma_issued_token_is_made_at_the_reading<C, E, J, S>(
    key: &[u8; 32],
    channel: Option<C>,
    serialize: J,
    encrypt: S,
    text: Result<String, E>,
) where
    J: FnOnce(&AuthToken<C>) -> Result<Vec<u8>, E>,
    S: FnOnce(&[u8], u64, &str, &[u8; 32]) -> Vec<u8>,

    requires
        call_ensures(issue_token::<C, E, J, S>, (key, channel, serialize, encrypt), text),
    ensures
        exists|reading: Result<(u64, u32), (u64, u32)>, token: AuthToken<C>, plain: Result<Vec<u8>, E>|
            {
                &&& #[trigger] system_clock_gives(reading)
                &&& token.allowed_channel == channel
                &&& match reading {
                    Ok(since) => token.created == since.0 * 1_000_000_000 + since.1,
                    Err(until) => token.created == -(until.0 * 1_000_000_000 + until.1),
                }
                &&& #[trigger] call_ensures(serialize, (&token,), plain)
                &&& plain is Err ==> text is Err && text->Err_0 == plain->Err_0
                &&& plain is Ok ==> text is Ok && exists|input: &[u8], domain: &str, out: Vec<u8>|
                    {
                        &&& input@ == plain->Ok_0@
                        &&& domain@ == "ssetoken"@
                        &&& #[trigger] call_ensures(encrypt, (input, 0u64, domain, key), out)
                        &&& decoded(encode_utf8(text->Ok_0@)) == Some(out@)
                    }
            },
{
    let created = choose|created: i128|
        is_clock_time(created) && #[trigger] seals_token(
            (AuthToken { created, allowed_channel: channel }),
            *key,
            serialize,
            encrypt,
            text,
        );
    let token = AuthToken { created, allowed_channel: channel };
    let reading = choose|reading: Result<(u64, u32), (u64, u32)>| #[trigger]
        system_clock_gives(reading) && is_reading(reading) && created == unix_nanos(reading);
    let plain = choose|plain: Result<Vec<u8>, E>| #[trigger]
        call_ensures(serialize, (&token,), plain) && match plain {
            Err(error) => text == Err::<String, E>(error),
            Ok(bytes) => text is Ok && exists|sealed: Seq<u8>| #[trigger]
                encrypts(encrypt, *key, bytes@, sealed) && text->Ok_0@ == encoded(sealed)
                    && decoded(encode_utf8(text->Ok_0@)) == Some(sealed),
        };
    assert(system_clock_gives(reading));
    if plain is Ok {
        let sealed = choose|sealed: Seq<u8>| #[trigger]
            encrypts(encrypt, *key, plain->Ok_0@, sealed) && text->Ok_0@ == encoded(sealed)
                && decoded(encode_utf8(text->Ok_0@)) == Some(sealed);
        assert(encrypts(encrypt, *key, plain->Ok_0@, sealed));
    }
}

} // verus!
