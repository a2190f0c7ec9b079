//! The text form of sealed tokens: Base64 in the URL-safe alphabet, without padding.

use vstd::prelude::*;
use vstd::utf8::encode_utf8;

verus! {

/// The longest input, in bytes, that is handed to the encoder or the decoder: both compute the size
/// of their buffer by multiplying with four.
pub const MAX_INPUT: usize = usize::MAX / 4;

/// The symbol for six bits.
pub open spec fn symbol(sextet: int) -> char {
    if sextet < 26 {
        (sextet + 'A' as int) as char
    } else if sextet < 52 {
        (sextet - 26 + 'a' as int) as char
    } else if sextet < 62 {
        (sextet - 52 + '0' as int) as char
    } else if sextet == 62 {
        '-'
    } else {
        '_'
    }
}

/// The six bits of the bytes that the symbol at index `i` stands for: bits `6 * i` to `6 * i + 5`,
/// counted from the most significant bit of the first byte. Zeros follow the last byte.
pub open spec fn sextet(bytes: Seq<u8>, i: int) -> int {
    let k = 3 * i / 4;
    let next = if k + 1 < bytes.len() {
        bytes[k + 1] as int
    } else {
        0
    };
    let word = bytes[k] * 256 + next;
    if i % 4 == 0 {
        word / 1024
    } else if i % 4 == 1 {
        word / 16 % 64
    } else if i % 4 == 2 {
        word / 64 % 64
    } else {
        word / 256 % 64
    }
}

/// The text form of the bytes.
pub open spec fn encoded(bytes: Seq<u8>) -> Seq<char> {
    Seq::new((4 * bytes.len() + 2) as nat / 3, |i: int| symbol(sextet(bytes, i)))
}

/// What the decoder reads from a text, given as its UTF-8 bytes: nothing if it is malformed.
pub uninterp spec fn decoded(text: Seq<u8>) -> Option<Seq<u8>>;

/// Calls `base64::encode_config` with `base64::URL_SAFE_NO_PAD`. Claims that each symbol of the
/// text stands for the next six bits of the bytes, and that the decoder reads the bytes back from
/// the text.
#[verifier::external_body]
pub(crate) fn base64_encode(bytes: &[u8]) -> (text: String)
    requires
        bytes.len() <= MAX_INPUT,
    ensures
        text@ == encoded(bytes@),
        decoded(encode_utf8(text@)) == Some(bytes@),
{
    base64::encode_config(bytes, base64::URL_SAFE_NO_PAD)
}

/// Calls `base64::decode_config` with `base64::URL_SAFE_NO_PAD`. Gives its result the name
/// `decoded`; which malformed text was found is left out.
#[verifier::external_body]
pub(crate) fn base64_decode(text: &[u8]) -> (bytes: Option<Vec<u8>>)
    requires
        text.len() <= MAX_INPUT,
    ensures
        match bytes {
            Some(read) => decoded(text@) == Some(read@),
            None => decoded(text@) is None,
        },
{
    base64::decode_config(text, base64::URL_SAFE_NO_PAD).ok()
}

/// Whether the character stands for itself in the query of a URL.
pub open spec fn is_url_safe(c: char) -> bool {
    ||| 'A' <= c <= 'Z'
    ||| 'a' <= c <= 'z'
    ||| '0' <= c <= '9'
    ||| c == '-'
    ||| c == '_'
}

/// The text form of any bytes can be put into a URL as it is.
pub proof fn lemma_encoded_is_url_safe(bytes: Seq<u8>)
    ensures
        forall|i: int| 0 <= i < encoded(bytes).len() ==> is_url_safe(#[trigger] encoded(bytes)[i]),
{
    assert forall|i: int| 0 <= i < encoded(bytes).len() implies is_url_safe(
        #[trigger] encoded(bytes)[i],
    ) by {
        assert(0 <= sextet(bytes, i) < 64);
    }
}

} // verus!
