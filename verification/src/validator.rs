//! Validator identities and their cryptographic capability.
//!
//! A validator is identified by its public network key (an opaque byte
//! string); its transcript address is the tail of the Keccak-256 digest of
//! that key. The encryption capability every generator needs is a
//! `threshold_crypto` key pair wrapped behind the two operations the engine
//! requires: seal to a public key, open with the secret key.

use vstd::prelude::*;

use crate::bytes::has_key;
use crate::bytes::lemma_map_insert_keys;
use crate::bytes::lemma_map_insert_lookup;
use crate::bytes::lemma_map_insert_sorted;
use crate::bytes::lex_cmp;
use crate::bytes::lex_lt;
use crate::bytes::lookup;
use crate::bytes::map_insert;
use crate::bytes::sorted_keys;
use crate::bytes::ByteOrder;
use crate::engine::decryption_of;
use crate::engine::keccak_of;
use crate::engine::public_of;

verus! {

/// A validator's transcript address: the last 20 bytes of the Keccak-256
/// digest of its identifying public key.
pub open spec fn addr_of(id: Seq<u8>) -> Seq<u8> {
    keccak_of(id).skip(12)
}

/// Derives the transcript address of an identifying key.
pub fn derive_address(id: &Vec<u8>) -> (r: Vec<u8>)
    ensures
        r@ == addr_of(id@),
        r@.len() == 20,
{
    let digest = crate::engine::keccak256(id);
    let mut r: Vec<u8> = Vec::new();
    let mut i: usize = 12;
    while i < 32
        invariant
            digest@.len() == 32,
            digest@ == keccak_of(id@),
            12 <= i <= 32,
            r@ == digest@.subrange(12, i as int),
        decreases 32 - i,
    {
        let b = digest[i];
        r.push(b);
        proof {
            assert(digest@.subrange(12, i + 1) =~= digest@.subrange(12, i as int).push(
                digest@[i as int],
            ));
        }
        i = i + 1;
    }
    proof {
        assert(digest@.subrange(12, 32) =~= digest@.skip(12));
    }
    r
}

/// A validator's asymmetric key pair: the cryptographic capability adapter.
///
/// `public` is handed (by clone) to every generator so rows can be sealed to
/// this validator; `secret` stays with the validator's own generator. The
/// pair is well formed when the public key is the one derived from the
/// secret key.
pub struct KeyPairWrapper {
    pub public: hbbft::crypto::PublicKey,
    pub secret: hbbft::crypto::SecretKey,
}

impl KeyPairWrapper {
    /// The public key matches the secret key.
    pub open spec fn wf(&self) -> bool {
        self.public == public_of(self.secret)
    }

    /// Relies on `SecretKey::public_key`: builds the matched pair for a
    /// secret key.
    #[verifier::external_body]
    pub fn from_secret(secret: hbbft::crypto::SecretKey) -> (r: KeyPairWrapper)
        ensures
            r.secret == secret,
            r.public == public_of(r.secret),
    {
        let public = secret.public_key();
        KeyPairWrapper { public, secret }
    }

    /// Relies on `PublicKey::encrypt_with_rng`: seals a message to `public`.
    /// Whatever ciphertext the randomness yields, opening it with the
    /// matching secret key gives the message back.
    #[verifier::external_body]
    pub fn encrypt(&self, msg: &Vec<u8>, rng: &mut rand::rngs::StdRng) -> (r:
        hbbft::crypto::Ciphertext)
        requires
            self.wf(),
        ensures
            decryption_of(self.secret, r) == Some(msg@),
    {
        self.public.encrypt_with_rng(rng, msg.as_slice())
    }

    /// Relies on `SecretKey::decrypt`: opens a ciphertext with `secret`;
    /// `None` when the ciphertext is malformed or sealed to another key. The
    /// result is named `decryption_of`.
    #[verifier::external_body]
    pub fn decrypt(&self, ct: &hbbft::crypto::Ciphertext) -> (r: Option<Vec<u8>>)
        ensures
            match r {
                Some(m) => decryption_of(self.secret, *ct) == Some(m@),
                None => decryption_of(self.secret, *ct) is None,
            },
    {
        self.secret.decrypt(ct)
    }
}

/// Seals a message to a validator's key and opens it again: the round trip
/// the capability adapter promises comes back with the original message.
pub fn seal_open_roundtrip(kp: &KeyPairWrapper, msg: &Vec<u8>, rng: &mut rand::rngs::StdRng) -> (r:
    Option<Vec<u8>>)
    requires
        kp.wf(),
    ensures
        r matches Some(m) && m@ == msg@,
{
    let ct = kp.encrypt(msg, rng);
    let r = kp.decrypt(&ct);
    r
}

/// One entry of the validator set: the validator's identifying public
/// network key and its encryption key material.
pub struct Member {
    pub id: Vec<u8>,
    pub keys: KeyPairWrapper,
}

/// The canonical validator set: members strictly sorted by identifying key,
/// so iteration order is deterministic and total and keys are unique.
pub struct ValidatorSet {
    pub members: Vec<Member>,
}

impl ValidatorSet {
    /// Members are strictly sorted by identifying key.
    pub open spec fn wf(&self) -> bool {
        forall|i: int, j: int|
            0 <= i < j < self.members@.len() ==> lex_lt(
                self.members@[i].id@,
                self.members@[j].id@,
            )
    }

    /// The identifying keys, in canonical order.
    pub open spec fn ids(&self) -> Seq<Seq<u8>> {
        self.members@.map(|i: int, m: Member| m.id@)
    }

    /// The number of validators.
    pub fn len(&self) -> (n: usize)
        ensures
            n == self.members@.len(),
    {
        self.members.len()
    }
}

/// The members as an association list from identifying key to key material.
pub open spec fn member_view(s: Seq<Member>) -> Seq<(Seq<u8>, KeyPairWrapper)> {
    s.map(|i: int, m: Member| (m.id@, m.keys))
}

/// The canonical validator mapping a descriptor list builds: every
/// descriptor inserted under its identifying key, in input order, so a later
/// duplicate key silently replaces an earlier one.
pub open spec fn validator_map(s: Seq<Member>) -> Seq<(Seq<u8>, KeyPairWrapper)>
    decreases s.len(),
{
    if s.len() == 0 {
        Seq::empty()
    } else {
        map_insert(validator_map(s.drop_last()), s.last().id@, s.last().keys)
    }
}

/// Inserts a member at its ordered position, replacing an entry with the
/// same identifying key.
fn insert_member(ms: Vec<Member>, e: Member) -> (r: Vec<Member>)
    ensures
        member_view(r@) == map_insert(member_view(ms@), e.id@, e.keys),
    decreases ms@.len(),
{
    let ghost mv = member_view(ms@);
    let mut cur = ms;
    if cur.len() == 0 {
        let mut r: Vec<Member> = Vec::new();
        r.push(e);
        proof {
            assert(member_view(r@) =~= map_insert(mv, e.id@, e.keys));
        }
        r
    } else {
        let o = lex_cmp(&cur[cur.len() - 1].id, &e.id);
        proof {
            assert(mv.last() == (cur@[cur@.len() - 1].id@, cur@[cur@.len() - 1].keys));
        }
        match o {
            ByteOrder::Before => {
                cur.push(e);
                proof {
                    assert(member_view(cur@) =~= mv + seq![(e.id@, e.keys)]);
                }
                cur
            },
            ByteOrder::Same => {
                cur.pop();
                cur.push(e);
                proof {
                    assert(member_view(cur@) =~= mv.drop_last() + seq![(e.id@, e.keys)]);
                }
                cur
            },
            ByteOrder::After => {
                let tail = cur.pop().unwrap();
                proof {
                    assert(member_view(cur@) =~= mv.drop_last());
                }
                let mut r = insert_member(cur, e);
                let ghost ev = e.id@;
                let ghost ek = e.keys;
                r.push(tail);
                proof {
                    assert(member_view(r@) =~= map_insert(mv.drop_last(), ev, ek) + seq![
                        mv.last(),
                    ]);
                }
                r
            },
        }
    }
}

/// Builds the canonical validator set from participant descriptors: members
/// end up strictly sorted by identifying key, keys unique, and a duplicate
/// key keeps the descriptor supplied last.
pub fn enodes_to_pub_keys(enodes: Vec<Member>) -> (r: ValidatorSet)
    ensures
        member_view(r.members@) == validator_map(enodes@),
        r.wf(),
{
    let ghost input = enodes@;
    let mut rest = enodes;
    let mut members: Vec<Member> = Vec::new();
    let ghost mut i: int = 0;
    proof {
        assert(rest@ =~= input.skip(0));
        assert(member_view(members@) =~= validator_map(input.take(0)));
    }
    while rest.len() > 0
        invariant
            i + rest@.len() == input.len(),
            0 <= i <= input.len(),
            rest@ == input.skip(i),
            member_view(members@) == validator_map(input.take(i)),
        decreases rest@.len(),
    {
        let e = rest.remove(0);
        proof {
            assert(input.skip(i).remove(0) =~= input.skip(i + 1));
            assert(e == input[i]);
            assert(input.take(i + 1).drop_last() =~= input.take(i));
            assert(input.take(i + 1).last() == input[i]);
        }
        members = insert_member(members, e);
        proof {
            i = i + 1;
        }
    }
    proof {
        assert(input.take(input.len() as int) =~= input);
    }
    let r = ValidatorSet { members };
    proof {
        lemma_validator_map_sorted(input);
        assert(sorted_keys(member_view(r.members@)));
        assert forall|p: int, q: int|
            0 <= p < q < r.members@.len() implies lex_lt(r.members@[p].id@, r.members@[q].id@) by {
            assert(member_view(r.members@)[p] == (r.members@[p].id@, r.members@[p].keys));
            assert(member_view(r.members@)[q] == (r.members@[q].id@, r.members@[q].keys));
            assert(lex_lt(member_view(r.members@)[p].0, member_view(r.members@)[q].0));
        }
    }
    r
}

/// The canonical validator mapping holds exactly the input identifying keys,
/// whatever order the descriptors arrive in.
pub proof fn lemma_validator_map_keys(s: Seq<Member>)
    ensures
        forall|id: Seq<u8>|
            has_key(validator_map(s), id) <==> exists|i: int|
                0 <= i < s.len() && (#[trigger] s[i]).id@ == id,
    decreases s.len(),
{
    if s.len() > 0 {
        lemma_validator_map_keys(s.drop_last());
        assert forall|id: Seq<u8>|
            has_key(validator_map(s), id) <==> exists|i: int|
                0 <= i < s.len() && (#[trigger] s[i]).id@ == id by {
            lemma_map_insert_keys(validator_map(s.drop_last()), s.last().id@, s.last().keys, id);
            if has_key(validator_map(s), id) {
                if has_key(validator_map(s.drop_last()), id) {
                    let i = choose|i: int|
                        0 <= i < s.drop_last().len() && (#[trigger] s.drop_last()[i]).id@ == id;
                    assert(s.drop_last()[i] == s[i]);
                    assert(s[i].id@ == id);
                } else {
                    assert(s[s.len() - 1].id@ == id);
                }
            }
            if exists|i: int| 0 <= i < s.len() && (#[trigger] s[i]).id@ == id {
                let i = choose|i: int| 0 <= i < s.len() && (#[trigger] s[i]).id@ == id;
                if i < s.len() - 1 {
                    assert(s.drop_last()[i] == s[i]);
                    assert(s.drop_last()[i].id@ == id);
                    assert(has_key(validator_map(s.drop_last()), id));
                }
            }
        }
    }
}

/// The canonical validator mapping is strictly sorted by identifying key.
pub proof fn lemma_validator_map_sorted(s: Seq<Member>)
    ensures
        sorted_keys(validator_map(s)),
    decreases s.len(),
{
    if s.len() > 0 {
        lemma_validator_map_sorted(s.drop_last());
        lemma_map_insert_sorted(validator_map(s.drop_last()), s.last().id@, s.last().keys);
    }
}

/// A descriptor that is the last with its identifying key becomes the set's
/// entry for that key: a later duplicate silently replaces an earlier one,
/// and keys other than the duplicated one are untouched.
pub proof fn lemma_validator_map_value(s: Seq<Member>, i: int)
    requires
        0 <= i < s.len(),
        forall|j: int| i < j < s.len() ==> (#[trigger] s[j]).id@ != s[i].id@,
    ensures
        lookup(validator_map(s), s[i].id@) == Some(s[i].keys),
    decreases s.len(),
{
    if i == s.len() - 1 {
        lemma_map_insert_lookup(
            validator_map(s.drop_last()),
            s.last().id@,
            s.last().keys,
            s[i].id@,
        );
    } else {
        assert(s[s.len() - 1].id@ != s[i].id@);
        assert(s.drop_last()[i] == s[i]);
        assert forall|j: int|
            i < j < s.drop_last().len() implies (#[trigger] s.drop_last()[j]).id@
            != s.drop_last()[i].id@ by {
            assert(s.drop_last()[j] == s[j]);
        }
        lemma_validator_map_value(s.drop_last(), i);
        lemma_map_insert_lookup(
            validator_map(s.drop_last()),
            s.last().id@,
            s.last().keys,
            s[i].id@,
        );
    }
}

} // verus!
