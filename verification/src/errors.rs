use vstd::prelude::*;

verus! {

/// A failure while driving the key generation handshake.
#[derive(Debug)]
pub enum KeygenError {
    /// The engine rejected a `Part` message as invalid: a protocol fault.
    InvalidPart,
    /// The engine rejected an `Ack` message as invalid: a protocol fault.
    InvalidAck,
    /// The engine itself failed (key material or serialization trouble);
    /// the message describes the failure.
    Engine(String),
}

/// A failure while encoding the finished handshake into a transcript.
#[derive(Debug)]
pub enum TranscriptError {
    /// A part outcome in the input was invalid: the defensive re-check of the
    /// encoder mirrors the generator's fatal policy.
    InvalidOutcome,
    /// A valid part outcome carried no acknowledgment message, which a
    /// finished run never produces: a logic error upstream.
    MissingAck,
    /// The binary codec rejected a byte string that is not the canonical
    /// encoding of any message; encoding itself cannot fail.
    Codec,
}

} // verus!
