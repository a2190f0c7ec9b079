//! The stream of chunks from the server to one connected client.

use hyper::body::Sender;
use hyper::{Body, Chunk};

use vstd::prelude::*;
use vstd::utf8::encode_utf8;

verus! {

/// The sending half of a response body.
#[verifier::external_type_specification]
#[verifier::external_body]
pub struct ExSender(hyper::body::Sender);

/// A response body: the receiving half, which the connection reads.
#[verifier::external_type_specification]
#[verifier::external_body]
pub struct ExBody(hyper::Body);

/// The chunks that a sending half has put into its stream so far, the oldest first, whether or not
/// they have been read at the other end.
pub uninterp spec fn queued(tx: Sender) -> Seq<Seq<u8>>;

/// The chunks that `send_data` was called with on a sending half so far, the oldest first, whether
/// or not they were taken.
pub uninterp spec fn offered(tx: Sender) -> Seq<Seq<u8>>;

/// The stream that a sending half belongs to.
pub uninterp spec fn stream_of(tx: Sender) -> nat;

/// The stream that a body reads from.
pub uninterp spec fn source_of(body: Body) -> nat;

/// Calls `hyper::Body::channel`. Claims that the two halves belong to one stream, that nothing has
/// been put into it, and that nothing has been offered to it.
#[verifier::external_body]
pub(crate) fn body_channel() -> (halves: (Sender, Body))
    ensures
        queued(halves.0) == Seq::<Seq<u8>>::empty(),
        offered(halves.0) == Seq::<Seq<u8>>::empty(),
        stream_of(halves.0) == source_of(halves.1),
{
    Body::channel()
}

/// Calls `hyper::body::Sender::send_data`, with the text's UTF-8 bytes as the chunk. Claims that the
/// chunk has then been offered to the sender, once; that a chunk that was taken is the newest of the
/// stream; that one that was not taken leaves the stream as it was, and comes back unchanged; and
/// that the sender stays with its stream. Whether a chunk is taken depends on the reader: on whether
/// it is still there and has room.
#[verifier::external_body]
pub(crate) fn send_data(tx: &mut Sender, chunk: String) -> (sent: Result<(), Vec<u8>>)
    ensures
        stream_of(*final(tx)) == stream_of(*old(tx)),
        offered(*final(tx)) == offered(*old(tx)).push(encode_utf8(chunk@)),
        match sent {
            Ok(_) => queued(*final(tx)) == queued(*old(tx)).push(encode_utf8(chunk@)),
            Err(back) => {
                &&& queued(*final(tx)) == queued(*old(tx))
                &&& back@ == encode_utf8(chunk@)
            },
        },
{
    match tx.send_data(Chunk::from(chunk)) {
        Ok(()) => Ok(()),
        Err(back) => Err(back.to_vec()),
    }
}

} // verus!
