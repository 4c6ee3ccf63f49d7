//! The transcript generator: drives every validator of a set through the
//! two-round key generation handshake, in process, and validates every
//! outcome.
//!
//! Round 1 collects one `Part` per validator before any `Ack` processing
//! begins; round 2 has every generator validate every `Part`, failing the
//! whole run on the first invalid one; round 3 has every generator validate
//! every collected `Ack`, with the same fatal policy. Node ids handed to the
//! engine are the canonical member indices `0..n`.

use vstd::prelude::*;

use crate::bytes::copy_bytes;
use crate::engine;
use crate::errors::KeygenError;
use crate::validator::ValidatorSet;

verus! {

/// The verdict of a generator on a received `Part`: valid, optionally with
/// an acknowledgment to broadcast, or invalid with the engine's fault
/// reason.
pub enum PartOutcome {
    Valid(Option<hbbft::sync_key_gen::Ack>),
    Invalid(hbbft::sync_key_gen::PartFault),
}

/// The verdict of a generator on a received `Ack`.
pub enum AckOutcome {
    Valid,
    Invalid(hbbft::sync_key_gen::AckFault),
}

/// Everything a successful run produces: the finished generator states, the
/// `(validator id, Part)` pairs in canonical order, and the
/// `(validator id, PartOutcome)` pairs in collection order.
pub type KeygenRun = (
    Vec<hbbft::sync_key_gen::SyncKeyGen<u64>>,
    Vec<(Vec<u8>, hbbft::sync_key_gen::Part)>,
    Vec<(Vec<u8>, PartOutcome)>,
);

/// Round 1: constructs one generator per validator, in canonical order, and
/// collects every validator's `Part` before any further processing.
pub fn create_generators(
    set: &ValidatorSet,
    t: usize,
    rng: &mut rand::rngs::StdRng,
) -> (r: Result<
    (Vec<hbbft::sync_key_gen::SyncKeyGen<u64>>, Vec<(Vec<u8>, hbbft::sync_key_gen::Part)>),
    KeygenError,
>)
    ensures
        r matches Ok(gp) ==> {
            &&& gp.0@.len() == set.members@.len()
            &&& gp.1@.len() == set.members@.len()
            &&& forall|k: int| 0 <= k < gp.1@.len() ==> (#[trigger] gp.1@[k]).0@ == set.ids()[k]
        },
{
    let n = set.len();
    let mut gens: Vec<hbbft::sync_key_gen::SyncKeyGen<u64>> = Vec::new();
    let mut parts: Vec<(Vec<u8>, hbbft::sync_key_gen::Part)> = Vec::new();
    let mut i: usize = 0;
    while i < n
        invariant
            n == set.members@.len(),
            i <= n,
            gens@.len() == i,
            parts@.len() == i,
            forall|k: int| 0 <= k < i ==> (#[trigger] parts@[k]).0@ == set.ids()[k],
        decreases n - i,
    {
        match engine::new_generator(&set.members, i as u64, t, rng) {
            Ok((g, Some(p))) => {
                gens.push(g);
                let id = copy_bytes(&set.members[i].id);
                parts.push((id, p));
            },
            Ok((_, None)) => {
                proof {
                    assert(false);
                }
                return Err(KeygenError::InvalidPart);
            },
            Err(e) => {
                return Err(e);
            },
        }
        i = i + 1;
    }
    Ok((gens, parts))
}

/// Round 2: every generator, in canonical order, validates every collected
/// `Part`, in the order the parts were produced. The first invalid verdict
/// fails the whole run; on success every retained outcome is valid and is
/// tagged with the id of the generator that issued it.
pub fn process_parts(
    gens: Vec<hbbft::sync_key_gen::SyncKeyGen<u64>>,
    parts: &Vec<(Vec<u8>, hbbft::sync_key_gen::Part)>,
    rng: &mut rand::rngs::StdRng,
) -> (r: Result<
    (Vec<hbbft::sync_key_gen::SyncKeyGen<u64>>, Vec<(Vec<u8>, PartOutcome)>),
    KeygenError,
>)
    requires
        gens@.len() == parts@.len(),
    ensures
        r matches Ok(go) ==> {
            &&& go.0@.len() == parts@.len()
            &&& go.1@.len() == parts@.len() * parts@.len()
            &&& forall|k: int| 0 <= k < go.1@.len() ==> (#[trigger] go.1@[k]).1 is Valid
            &&& forall|k: int|
                0 <= k < go.1@.len() ==> (#[trigger] go.1@[k]).0@ == parts@[k / (
                parts@.len() as int)].0@
        },
{
    let n = parts.len();
    let mut rest = gens;
    let mut done: Vec<hbbft::sync_key_gen::SyncKeyGen<u64>> = Vec::new();
    let mut outcomes: Vec<(Vec<u8>, PartOutcome)> = Vec::new();
    let mut i: usize = 0;
    while i < n
        invariant
            n == parts@.len(),
            i <= n,
            rest@.len() == n - i,
            done@.len() == i,
            outcomes@.len() == i * n,
            forall|k: int| 0 <= k < outcomes@.len() ==> (#[trigger] outcomes@[k]).1 is Valid,
            forall|k: int|
                0 <= k < outcomes@.len() ==> (#[trigger] outcomes@[k]).0@ == parts@[k / (
                n as int)].0@,
        decreases n - i,
    {
        let mut g = rest.remove(0);
        let mut j: usize = 0;
        while j < n
            invariant
                n == parts@.len(),
                i < n,
                j <= n,
                outcomes@.len() == i * n + j,
                forall|k: int| 0 <= k < outcomes@.len() ==> (#[trigger] outcomes@[k]).1 is Valid,
                forall|k: int|
                    0 <= k < outcomes@.len() ==> (#[trigger] outcomes@[k]).0@ == parts@[k / (
                    n as int)].0@,
            decreases n - j,
        {
            match engine::handle_part(&mut g, j as u64, &parts[j].1, rng) {
                Ok(o) => {
                    if matches!(o, PartOutcome::Invalid(_)) {
                        return Err(KeygenError::InvalidPart);
                    }
                    let id = copy_bytes(&parts[i].0);
                    let ghost pre = outcomes@;
                    outcomes.push((id, o));
                    proof {
                        assert((i as int) * (n as int) + (j as int) == pre.len());
                        assert(((i as int) * (n as int) + (j as int)) / (n as int) == i as int)
                            by (nonlinear_arith)
                            requires
                                0 <= (j as int) < (n as int),
                                0 <= (i as int),
                        ;
                        assert forall|k: int| 0 <= k < outcomes@.len() implies (
                        #[trigger] outcomes@[k]).1 is Valid by {
                            if k < pre.len() {
                                assert(outcomes@[k] == pre[k]);
                            } else {
                                assert(outcomes@[k] == (id, o));
                            }
                        }
                        assert forall|k: int|
                            0 <= k < outcomes@.len() implies (#[trigger] outcomes@[k]).0@
                            == parts@[k / (n as int)].0@ by {
                            if k < pre.len() {
                                assert(outcomes@[k] == pre[k]);
                            } else {
                                assert(outcomes@[k] == (id, o));
                                assert(k == (i as int) * (n as int) + (j as int));
                            }
                        }
                    }
                },
                Err(e) => {
                    return Err(e);
                },
            }
            j = j + 1;
        }
        done.push(g);
        proof {
            assert(((i + 1) as int) * (n as int) == (i as int) * (n as int) + (n as int))
                by (nonlinear_arith);
        }
        i = i + 1;
    }
    Ok((done, outcomes))
}

/// Round 3: every generator, in canonical order, validates every collected
/// `Ack`, in collection order; a valid outcome that carries no `Ack`
/// contributes no message. The first invalid verdict fails the whole run.
pub fn process_acks(
    gens: Vec<hbbft::sync_key_gen::SyncKeyGen<u64>>,
    outcomes: &Vec<(Vec<u8>, PartOutcome)>,
) -> (r: Result<Vec<hbbft::sync_key_gen::SyncKeyGen<u64>>, KeygenError>)
    ensures
        r matches Ok(gs) ==> gs@.len() == gens@.len(),
{
    let n = gens.len();
    let mut rest = gens;
    let mut done: Vec<hbbft::sync_key_gen::SyncKeyGen<u64>> = Vec::new();
    let mut i: usize = 0;
    while i < n
        invariant
            i <= n,
            rest@.len() == n - i,
            done@.len() == i,
        decreases n - i,
    {
        let mut g = rest.remove(0);
        let mut k: usize = 0;
        while k < outcomes.len()
            invariant
                i < n,
            decreases outcomes@.len() - k,
        {
            match &outcomes[k].1 {
                PartOutcome::Valid(Some(a)) => {
                    let sender = (k / n) as u64;
                    match engine::handle_ack(&mut g, sender, a) {
                        Ok(AckOutcome::Valid) => {},
                        Ok(AckOutcome::Invalid(_)) => {
                            return Err(KeygenError::InvalidAck);
                        },
                        Err(e) => {
                            return Err(e);
                        },
                    }
                },
                _ => {},
            }
            k = k + 1;
        }
        done.push(g);
        i = i + 1;
    }
    Ok(done)
}

/// Runs the whole handshake for a canonical validator set and threshold `t`:
/// round 1 collects every `Part`, round 2 validates every `Part` through
/// every generator, round 3 validates every collected `Ack` through every
/// generator. Any invalid verdict anywhere aborts the run with no partial
/// result. On success there is exactly one `Part` per validator, in
/// canonical order, and one valid outcome per (generator, part) pair, each
/// tagged with the issuing generator's id.
pub fn generate_keygens(
    key_pairs: &ValidatorSet,
    rng: &mut rand::rngs::StdRng,
    t: usize,
) -> (r: Result<KeygenRun, KeygenError>)
    requires
        key_pairs.wf(),
    ensures
        r matches Ok(out) ==> {
            &&& out.0@.len() == key_pairs.members@.len()
            &&& out.1@.len() == key_pairs.members@.len()
            &&& forall|k: int| 0 <= k < out.1@.len() ==> (#[trigger] out.1@[k]).0@
                == key_pairs.ids()[k]
            &&& out.2@.len() == key_pairs.members@.len() * key_pairs.members@.len()
            &&& forall|k: int| 0 <= k < out.2@.len() ==> (#[trigger] out.2@[k]).1 is Valid
            &&& forall|k: int|
                0 <= k < out.2@.len() ==> (#[trigger] out.2@[k]).0@ == key_pairs.ids()[k / (
                key_pairs.members@.len() as int)]
        },
{
    let (gens, parts) = match create_generators(key_pairs, t, rng) {
        Ok(gp) => gp,
        Err(e) => {
            return Err(e);
        },
    };
    let (gens, outcomes) = match process_parts(gens, &parts, rng) {
        Ok(go) => go,
        Err(e) => {
            return Err(e);
        },
    };
    let gens = match process_acks(gens, &outcomes) {
        Ok(gs) => gs,
        Err(e) => {
            return Err(e);
        },
    };
    proof {
        let n = key_pairs.members@.len() as int;
        assert forall|k: int|
            0 <= k < outcomes@.len() implies (#[trigger] outcomes@[k]).0@ == key_pairs.ids()[k
            / n] by {
            assert(0 <= k / n < n) by (nonlinear_arith)
                requires
                    0 <= k,
                    k < n * n,
                    0 <= n,
            ;
            assert(parts@[k / n].0@ == key_pairs.ids()[k / n]);
        }
    }
    Ok((gens, parts, outcomes))
}

} // verus!
