//! The trusted boundary around the outside crates: the `hbbft` key generation
//! engine and its `threshold_crypto` key material, the `bincode` binary codec,
//! and the `keccak-hash` digest used for address derivation.
//!
//! Everything below is believed, not proved: each item's contract states only
//! what the outside crate's source or documentation shows.

use vstd::prelude::*;

use std::collections::BTreeMap;

use crate::errors::KeygenError;
use crate::errors::TranscriptError;
use crate::keygen::AckOutcome;
use crate::keygen::PartOutcome;
use crate::validator::Member;

verus! {

// ---------------------------------------------------------------------------
// Declared outside types. Verus treats a value of each as opaque.
// ---------------------------------------------------------------------------

/// `hbbft`'s round-1 broadcast message: a polynomial commitment with one
/// encrypted row per validator.
#[verifier::external_type_specification]
#[verifier::external_body]
pub struct ExPart(hbbft::sync_key_gen::Part);

/// `hbbft`'s round-2 acknowledgment message.
#[verifier::external_type_specification]
#[verifier::external_body]
pub struct ExAck(hbbft::sync_key_gen::Ack);

/// `hbbft`'s reason for rejecting a `Part`.
#[verifier::external_type_specification]
#[verifier::external_body]
pub struct ExPartFault(hbbft::sync_key_gen::PartFault);

/// `hbbft`'s reason for rejecting an `Ack`.
#[verifier::external_type_specification]
#[verifier::external_body]
pub struct ExAckFault(hbbft::sync_key_gen::AckFault);

/// `hbbft`'s per-validator key generation state.
#[verifier::external_type_specification]
#[verifier::external_body]
#[verifier::reject_recursive_types(N)]
pub struct ExSyncKeyGen<N>(hbbft::sync_key_gen::SyncKeyGen<N>);

/// `threshold_crypto`'s public encryption key.
#[verifier::external_type_specification]
#[verifier::external_body]
pub struct ExPublicKey(hbbft::crypto::PublicKey);

/// `threshold_crypto`'s secret decryption key.
#[verifier::external_type_specification]
#[verifier::external_body]
pub struct ExSecretKey(hbbft::crypto::SecretKey);

/// `threshold_crypto`'s ciphertext.
#[verifier::external_type_specification]
#[verifier::external_body]
pub struct ExCiphertext(hbbft::crypto::Ciphertext);

/// `rand`'s standard seedable generator, the randomness capability every
/// entropy-consuming call threads through explicitly.
#[verifier::external_type_specification]
#[verifier::external_body]
pub struct ExStdRng(rand::rngs::StdRng);

// ---------------------------------------------------------------------------
// Names for outside results that no short formula states.
// ---------------------------------------------------------------------------

/// The canonical binary encoding of a `Part`: what `bincode::serialize`
/// returns for it. A function of the message alone.
pub uninterp spec fn part_encoding(p: hbbft::sync_key_gen::Part) -> Seq<u8>;

/// The canonical binary encoding of an `Ack`: what `bincode::serialize`
/// returns for it. A function of the message alone.
pub uninterp spec fn ack_encoding(a: hbbft::sync_key_gen::Ack) -> Seq<u8>;

/// The 32-byte Keccak-256 digest of a byte string, as `keccak_hash::keccak`
/// computes it. A function of the input alone.
pub uninterp spec fn keccak_of(b: Seq<u8>) -> Seq<u8>;

/// The public key belonging to a secret key, as `SecretKey::public_key`
/// derives it. A function of the secret key alone.
pub uninterp spec fn public_of(sk: hbbft::crypto::SecretKey) -> hbbft::crypto::PublicKey;

/// What `SecretKey::decrypt` returns for a ciphertext: the sealed plaintext,
/// or `None` when the ciphertext is malformed or sealed to another key.
/// A function of the key and the ciphertext alone.
pub uninterp spec fn decryption_of(
    sk: hbbft::crypto::SecretKey,
    ct: hbbft::crypto::Ciphertext,
) -> Option<Seq<u8>>;

// ---------------------------------------------------------------------------
// Wrappers around the binary codec and the digest.
// ---------------------------------------------------------------------------

/// Relies on `bincode::serialize`: encodes a `Part` deterministically; the
/// result is named `part_encoding`. Encoding always succeeds: commitments
/// and ciphertexts serialize as plain curve-point bytes and vectors, for
/// which the codec has no failure path.
#[verifier::external_body]
pub fn serialize_part(p: &hbbft::sync_key_gen::Part) -> (r: Result<Vec<u8>, TranscriptError>)
    ensures
        r is Ok,
        r matches Ok(v) ==> v@ == part_encoding(*p),
{
    bincode::serialize(p).map_err(|_| TranscriptError::Codec)
}

/// Relies on `bincode::serialize`: encodes an `Ack` deterministically; the
/// result is named `ack_encoding`. Encoding always succeeds, as for a
/// `Part`.
#[verifier::external_body]
pub fn serialize_ack(a: &hbbft::sync_key_gen::Ack) -> (r: Result<Vec<u8>, TranscriptError>)
    ensures
        r is Ok,
        r matches Ok(v) ==> v@ == ack_encoding(*a),
{
    bincode::serialize(a).map_err(|_| TranscriptError::Codec)
}

/// Whenever `b` is the canonical encoding of some `Part`, `r` is exactly
/// that `Part`.
pub open spec fn part_decoding_ok(
    b: Seq<u8>,
    r: Result<hbbft::sync_key_gen::Part, TranscriptError>,
) -> bool {
    forall|p: hbbft::sync_key_gen::Part|
        b == part_encoding(p) ==> match r {
            Ok(q) => q == p,
            Err(_) => false,
        }
}

/// Whenever `b` is the canonical encoding of some `Ack`, `r` is exactly
/// that `Ack`.
pub open spec fn ack_decoding_ok(
    b: Seq<u8>,
    r: Result<hbbft::sync_key_gen::Ack, TranscriptError>,
) -> bool {
    forall|a: hbbft::sync_key_gen::Ack|
        b == ack_encoding(a) ==> match r {
            Ok(q) => q == a,
            Err(_) => false,
        }
}

/// Relies on `bincode::deserialize`: decoding the canonical encoding of a
/// `Part` yields that `Part` back.
#[verifier::external_body]
pub fn deserialize_part(b: &Vec<u8>) -> (r: Result<hbbft::sync_key_gen::Part, TranscriptError>)
    ensures
        part_decoding_ok(b@, r),
{
    bincode::deserialize(b.as_slice()).map_err(|_| TranscriptError::Codec)
}

/// Relies on `bincode::deserialize`: decoding the canonical encoding of an
/// `Ack` yields that `Ack` back.
#[verifier::external_body]
pub fn deserialize_ack(b: &Vec<u8>) -> (r: Result<hbbft::sync_key_gen::Ack, TranscriptError>)
    ensures
        ack_decoding_ok(b@, r),
{
    bincode::deserialize(b.as_slice()).map_err(|_| TranscriptError::Codec)
}

/// Relies on `keccak_hash::keccak`: the 32-byte Keccak-256 digest, named
/// `keccak_of`.
#[verifier::external_body]
pub fn keccak256(b: &Vec<u8>) -> (r: Vec<u8>)
    ensures
        r@ == keccak_of(b@),
        r@.len() == 32,
{
    keccak_hash::keccak(b.as_slice()).as_bytes().to_vec()
}

// ---------------------------------------------------------------------------
// Wrappers around the key generation engine. Node ids are the canonical
// member indices `0..n` of the validator set, in order.
// ---------------------------------------------------------------------------

/// Relies on `SyncKeyGen::new`: constructs the generator state for the
/// validator at index `our_idx`, bound to the public keys of the whole set,
/// together with its round-1 `Part`. Since `our_idx` is one of the node ids
/// `0..n`, the engine treats it as a participant, not an observer, so a
/// successful construction always carries a `Part`; the engine fails only on
/// internal serialization trouble, and every failure is reported as the
/// `Engine` variant. The body also builds the index-keyed public-key map the
/// engine wants: this wrapper is where the convention lives that node ids
/// are the canonical member indices.
#[verifier::external_body]
pub fn new_generator(
    members: &Vec<Member>,
    our_idx: u64,
    threshold: usize,
    rng: &mut rand::rngs::StdRng,
) -> (r: Result<
    (hbbft::sync_key_gen::SyncKeyGen<u64>, Option<hbbft::sync_key_gen::Part>),
    KeygenError,
>)
    requires
        our_idx < members@.len(),
    ensures
        r matches Ok(gp) ==> gp.1 is Some,
        r matches Err(e) ==> e is Engine,
{
    let pub_keys: BTreeMap<u64, hbbft::crypto::PublicKey> =
        members.iter().enumerate().map(|(i, m)| (i as u64, m.keys.public.clone())).collect();
    let secret = members[our_idx as usize].keys.secret.clone();
    hbbft::sync_key_gen::SyncKeyGen::new(our_idx, secret, pub_keys, threshold, rng)
        .map_err(|e| KeygenError::Engine(format!("{}", e)))
}

/// Relies on `SyncKeyGen::handle_part`: the generator validates a received
/// `Part` against its commitment. Nothing is promised of the verdict; the
/// caller decides on every variant. Every failure is reported as the
/// `Engine` variant.
#[verifier::external_body]
pub fn handle_part(
    g: &mut hbbft::sync_key_gen::SyncKeyGen<u64>,
    sender: u64,
    part: &hbbft::sync_key_gen::Part,
    rng: &mut rand::rngs::StdRng,
) -> (r: Result<PartOutcome, KeygenError>)
    ensures
        r matches Err(e) ==> e is Engine,
{
    match g.handle_part(&sender, part.clone(), rng) {
        Ok(hbbft::sync_key_gen::PartOutcome::Valid(a)) => Ok(PartOutcome::Valid(a)),
        Ok(hbbft::sync_key_gen::PartOutcome::Invalid(f)) => Ok(PartOutcome::Invalid(f)),
        Err(e) => Err(KeygenError::Engine(format!("{}", e))),
    }
}

/// Relies on `SyncKeyGen::handle_ack`: the generator validates a received
/// `Ack`. Nothing is promised of the verdict; the caller decides on every
/// variant. Every failure is reported as the `Engine` variant.
#[verifier::external_body]
pub fn handle_ack(
    g: &mut hbbft::sync_key_gen::SyncKeyGen<u64>,
    sender: u64,
    ack: &hbbft::sync_key_gen::Ack,
) -> (r: Result<AckOutcome, KeygenError>)
    ensures
        r matches Err(e) ==> e is Engine,
{
    match g.handle_ack(&sender, ack.clone()) {
        Ok(hbbft::sync_key_gen::AckOutcome::Valid) => Ok(AckOutcome::Valid),
        Ok(hbbft::sync_key_gen::AckOutcome::Invalid(f)) => Ok(AckOutcome::Invalid(f)),
        Err(e) => Err(KeygenError::Engine(format!("{}", e))),
    }
}

/// Relies on `String::from_utf8`: ASCII bytes are valid UTF-8 and decode to
/// the string whose characters are exactly those byte values.
#[verifier::external_body]
pub fn ascii_string(v: Vec<u8>) -> (r: String)
    requires
        forall|i: int| 0 <= i < v@.len() ==> v@[i] < 128,
    ensures
        r@ == v@.map(|i: int, b: u8| b as char),
{
    String::from_utf8(v).unwrap_or_default()
}

} // verus!
