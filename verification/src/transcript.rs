//! The transcript encoder: turns the finished run's `Part`s and part
//! outcomes into the canonical, address-keyed key generation history
//! document, with byte accounting for operational visibility.
//!
//! The document holds two mappings, both keyed by validator address in
//! strictly ascending byte order (so the encoding is deterministic whatever
//! order the inputs arrive in): each validator's encoded `Part`, and the
//! ordered sequence of its encoded `Ack`s.

use vstd::prelude::*;

use crate::bytes::has_key;
use crate::bytes::lemma_map_insert_keys;
use crate::bytes::lemma_map_insert_lookup;
use crate::bytes::lookup;
use crate::bytes::lemma_map_insert_sorted;
use crate::bytes::lex_cmp;
use crate::bytes::lex_lt;
use crate::bytes::map_insert;
use crate::bytes::sorted_keys;
use crate::bytes::ByteOrder;
use crate::engine::ack_encoding;
use crate::engine::part_encoding;
use crate::engine::serialize_ack;
use crate::engine::serialize_part;
use crate::errors::TranscriptError;
use crate::keygen::PartOutcome;
use crate::validator::addr_of;
use crate::validator::derive_address;

verus! {

// ---------------------------------------------------------------------------
// The document model: sorted association lists standing in for ordered maps.
// ---------------------------------------------------------------------------

/// The finished key generation history document.
pub struct KeyGenHistoryData {
    /// Validator address to the canonical binary encoding of its `Part`.
    pub parts: Vec<(Vec<u8>, Vec<u8>)>,
    /// Validator address to the encodings of the `Ack`s it issued, in the
    /// order they were collected.
    pub acks: Vec<(Vec<u8>, Vec<Vec<u8>>)>,
}

impl KeyGenHistoryData {
    /// The parts mapping, as a sequence of (address, encoded part) pairs.
    pub open spec fn parts_view(&self) -> Seq<(Seq<u8>, Seq<u8>)> {
        self.parts@.map(|i: int, e: (Vec<u8>, Vec<u8>)| (e.0@, e.1@))
    }

    /// The acks mapping, as a sequence of (address, encoded acks) pairs.
    pub open spec fn acks_view(&self) -> Seq<(Seq<u8>, Seq<Seq<u8>>)> {
        self.acks@.map(|i: int, e: (Vec<u8>, Vec<Vec<u8>>)| (e.0@, e.1.deep_view()))
    }

    /// Both mappings are sorted by address.
    pub open spec fn wf(&self) -> bool {
        sorted_keys(self.parts_view()) && sorted_keys(self.acks_view())
    }
}

/// Inserts an encoded part under an address, replacing any previous entry
/// for that address.
fn insert_part_entry(m: Vec<(Vec<u8>, Vec<u8>)>, k: Vec<u8>, v: Vec<u8>) -> (r: Vec<
    (Vec<u8>, Vec<u8>),
>)
    ensures
        r@.map(|i: int, e: (Vec<u8>, Vec<u8>)| (e.0@, e.1@)) == map_insert(
            m@.map(|i: int, e: (Vec<u8>, Vec<u8>)| (e.0@, e.1@)),
            k@,
            v@,
        ),
    decreases m@.len(),
{
    let ghost mv = m@.map(|i: int, e: (Vec<u8>, Vec<u8>)| (e.0@, e.1@));
    let mut cur = m;
    if cur.len() == 0 {
        let mut r: Vec<(Vec<u8>, Vec<u8>)> = Vec::new();
        r.push((k, v));
        proof {
            assert(r@.map(|i: int, e: (Vec<u8>, Vec<u8>)| (e.0@, e.1@)) =~= map_insert(
                mv,
                k@,
                v@,
            ));
        }
        r
    } else {
        let o = lex_cmp(&cur[cur.len() - 1].0, &k);
        proof {
            assert(mv.last() == (cur@[cur@.len() - 1].0@, cur@[cur@.len() - 1].1@));
        }
        match o {
            ByteOrder::Before => {
                cur.push((k, v));
                proof {
                    assert(cur@.map(|i: int, e: (Vec<u8>, Vec<u8>)| (e.0@, e.1@)) =~= mv + seq![
                        (k@, v@),
                    ]);
                }
                cur
            },
            ByteOrder::Same => {
                cur.pop();
                cur.push((k, v));
                proof {
                    assert(cur@.map(|i: int, e: (Vec<u8>, Vec<u8>)| (e.0@, e.1@)) =~= mv.drop_last()
                        + seq![(k@, v@)]);
                }
                cur
            },
            ByteOrder::After => {
                let tail = cur.pop().unwrap();
                proof {
                    assert(cur@.map(|i: int, e: (Vec<u8>, Vec<u8>)| (e.0@, e.1@))
                        =~= mv.drop_last());
                }
                let mut r = insert_part_entry(cur, k, v);
                r.push(tail);
                proof {
                    assert(r@.map(|i: int, e: (Vec<u8>, Vec<u8>)| (e.0@, e.1@)) =~= map_insert(
                        mv.drop_last(),
                        k@,
                        v@,
                    ) + seq![mv.last()]);
                }
                r
            },
        }
    }
}

/// Appends an encoded ack to the sequence stored under an address, creating
/// the entry at its ordered position on first use.
pub open spec fn map_append(
    m: Seq<(Seq<u8>, Seq<Seq<u8>>)>,
    k: Seq<u8>,
    v: Seq<u8>,
) -> Seq<(Seq<u8>, Seq<Seq<u8>>)>
    decreases m.len(),
{
    if m.len() == 0 {
        seq![(k, seq![v])]
    } else if lex_lt(m.last().0, k) {
        m + seq![(k, seq![v])]
    } else if m.last().0 == k {
        m.drop_last() + seq![(k, m.last().1.push(v))]
    } else {
        map_append(m.drop_last(), k, v) + seq![m.last()]
    }
}

/// Appends an encoded ack under an address, keeping the map sorted and the
/// per-address sequences in append order.
fn append_ack_entry(m: Vec<(Vec<u8>, Vec<Vec<u8>>)>, k: Vec<u8>, v: Vec<u8>) -> (r: Vec<
    (Vec<u8>, Vec<Vec<u8>>),
>)
    ensures
        r@.map(|i: int, e: (Vec<u8>, Vec<Vec<u8>>)| (e.0@, e.1.deep_view())) == map_append(
            m@.map(|i: int, e: (Vec<u8>, Vec<Vec<u8>>)| (e.0@, e.1.deep_view())),
            k@,
            v@,
        ),
    decreases m@.len(),
{
    let ghost mv = m@.map(|i: int, e: (Vec<u8>, Vec<Vec<u8>>)| (e.0@, e.1.deep_view()));
    let mut cur = m;
    if cur.len() == 0 {
        let mut lst: Vec<Vec<u8>> = Vec::new();
        lst.push(v);
        let mut r: Vec<(Vec<u8>, Vec<Vec<u8>>)> = Vec::new();
        r.push((k, lst));
        proof {
            assert(r@.map(|i: int, e: (Vec<u8>, Vec<Vec<u8>>)| (e.0@, e.1.deep_view()))
                =~~= map_append(mv, k@, v@));
        }
        r
    } else {
        let o = lex_cmp(&cur[cur.len() - 1].0, &k);
        proof {
            assert(mv.last() == (cur@[cur@.len() - 1].0@, cur@[cur@.len() - 1].1.deep_view()));
        }
        match o {
            ByteOrder::Before => {
                let mut lst: Vec<Vec<u8>> = Vec::new();
                lst.push(v);
                cur.push((k, lst));
                proof {
                    assert(cur@.map(|i: int, e: (Vec<u8>, Vec<Vec<u8>>)| (e.0@, e.1.deep_view()))
                        =~~= mv + seq![(k@, seq![v@])]);
                }
                cur
            },
            ByteOrder::Same => {
                let mut entry = cur.pop().unwrap();
                let ghost lv = entry.1.deep_view();
                entry.1.push(v);
                proof {
                    assert(entry.1.deep_view() =~~= lv.push(v@));
                }
                cur.push((k, entry.1));
                proof {
                    assert(cur@.map(|i: int, e: (Vec<u8>, Vec<Vec<u8>>)| (e.0@, e.1.deep_view()))
                        =~~= mv.drop_last() + seq![(k@, mv.last().1.push(v@))]);
                }
                cur
            },
            ByteOrder::After => {
                let tail = cur.pop().unwrap();
                proof {
                    assert(cur@.map(|i: int, e: (Vec<u8>, Vec<Vec<u8>>)| (e.0@, e.1.deep_view()))
                        =~~= mv.drop_last());
                }
                let mut r = append_ack_entry(cur, k, v);
                r.push(tail);
                proof {
                    assert(r@.map(|i: int, e: (Vec<u8>, Vec<Vec<u8>>)| (e.0@, e.1.deep_view()))
                        =~~= map_append(mv.drop_last(), k@, v@) + seq![mv.last()]);
                }
                r
            },
        }
    }
}

// ---------------------------------------------------------------------------
// What the finished document is, as a function of the encoder's inputs.
// ---------------------------------------------------------------------------

/// The `(validator id, Part)` inputs with the ids as byte sequences.
pub open spec fn parts_input_view(s: Seq<(Vec<u8>, hbbft::sync_key_gen::Part)>) -> Seq<
    (Seq<u8>, hbbft::sync_key_gen::Part),
> {
    s.map(|i: int, e: (Vec<u8>, hbbft::sync_key_gen::Part)| (e.0@, e.1))
}

/// The `(validator id, PartOutcome)` inputs with the ids as byte sequences.
pub open spec fn acks_input_view(s: Seq<(Vec<u8>, PartOutcome)>) -> Seq<(Seq<u8>, PartOutcome)> {
    s.map(|i: int, e: (Vec<u8>, PartOutcome)| (e.0@, e.1))
}

/// An outcome the encoder accepts: valid and carrying an acknowledgment.
pub open spec fn outcome_ok(o: PartOutcome) -> bool {
    o matches PartOutcome::Valid(Some(_))
}

/// The encoded acknowledgment an accepted outcome carries.
pub open spec fn ack_bytes_of(o: PartOutcome) -> Seq<u8> {
    match o {
        PartOutcome::Valid(Some(a)) => ack_encoding(a),
        _ => Seq::empty(),
    }
}

/// The parts mapping: every input part encoded and inserted under its
/// issuer's address, in input order.
pub open spec fn parts_doc(s: Seq<(Seq<u8>, hbbft::sync_key_gen::Part)>) -> Seq<
    (Seq<u8>, Seq<u8>),
>
    decreases s.len(),
{
    if s.len() == 0 {
        Seq::empty()
    } else {
        map_insert(parts_doc(s.drop_last()), addr_of(s.last().0), part_encoding(s.last().1))
    }
}

/// The acks mapping: every input outcome's acknowledgment encoded and
/// appended under its issuer's address, in input order.
pub open spec fn acks_doc(s: Seq<(Seq<u8>, PartOutcome)>) -> Seq<(Seq<u8>, Seq<Seq<u8>>)>
    decreases s.len(),
{
    if s.len() == 0 {
        Seq::empty()
    } else {
        map_append(acks_doc(s.drop_last()), addr_of(s.last().0), ack_bytes_of(s.last().1))
    }
}

/// The total length of the encoded parts.
pub open spec fn parts_bytes_sum(s: Seq<(Seq<u8>, hbbft::sync_key_gen::Part)>) -> int
    decreases s.len(),
{
    if s.len() == 0 {
        0
    } else {
        parts_bytes_sum(s.drop_last()) + part_encoding(s.last().1).len()
    }
}

/// The total length of the encoded acknowledgments.
pub open spec fn acks_bytes_sum(s: Seq<(Seq<u8>, PartOutcome)>) -> int
    decreases s.len(),
{
    if s.len() == 0 {
        0
    } else {
        acks_bytes_sum(s.drop_last()) + ack_bytes_of(s.last().1).len()
    }
}

// ---------------------------------------------------------------------------
// Laws of the document model.
// ---------------------------------------------------------------------------

/// Appending adds exactly the new key to the acks map's key set.
proof fn lemma_map_append_keys(m: Seq<(Seq<u8>, Seq<Seq<u8>>)>, k: Seq<u8>, v: Seq<u8>, a: Seq<u8>)
    ensures
        has_key(map_append(m, k, v), a) <==> (has_key(m, a) || a == k),
    decreases m.len(),
{
    let r = map_append(m, k, v);
    if m.len() == 0 {
        {
            assert(r[0].0 == k);
            if a == k {
                assert(r[0].0 == a);
            }
        }
    } else if lex_lt(m.last().0, k) || m.last().0 == k {
        let base = if m.last().0 == k {
            m.drop_last()
        } else {
            m
        };
        {
            assert(r[r.len() - 1].0 == k);
            if has_key(r, a) {
                let i = choose|i: int| 0 <= i < r.len() && (#[trigger] r[i]).0 == a;
                if i < base.len() {
                    assert(m[i].0 == a);
                }
            }
            if has_key(m, a) {
                let i = choose|i: int| 0 <= i < m.len() && (#[trigger] m[i]).0 == a;
                if i < base.len() {
                    assert(r[i].0 == a);
                } else {
                    assert(a == m.last().0);
                    assert(r[r.len() - 1].0 == k);
                }
            }
            if a == k {
                assert(r[r.len() - 1].0 == a);
            }
        }
    } else {
        lemma_map_append_keys(m.drop_last(), k, v, a);
        let sub = map_append(m.drop_last(), k, v);
        {
            assert(r[r.len() - 1] == m.last());
            if has_key(r, a) {
                let i = choose|i: int| 0 <= i < r.len() && (#[trigger] r[i]).0 == a;
                if i < sub.len() {
                    assert(has_key(sub, a));
                    if has_key(m.drop_last(), a) {
                        let j = choose|j: int|
                            0 <= j < m.drop_last().len() && (#[trigger] m.drop_last()[j]).0 == a;
                        assert(m[j].0 == a);
                    }
                } else {
                    assert(m[m.len() - 1].0 == a);
                }
            }
            if has_key(m, a) {
                let i = choose|i: int| 0 <= i < m.len() && (#[trigger] m[i]).0 == a;
                if i < m.len() - 1 {
                    assert(m.drop_last()[i].0 == a);
                    assert(has_key(sub, a));
                    let j = choose|j: int| 0 <= j < sub.len() && (#[trigger] sub[j]).0 == a;
                    assert(r[j].0 == a);
                } else {
                    assert(r[r.len() - 1].0 == a);
                }
            }
            if a == k {
                assert(has_key(sub, a));
                let j = choose|j: int| 0 <= j < sub.len() && (#[trigger] sub[j]).0 == a;
                assert(r[j].0 == a);
            }
        }
    }
}

/// Appending keeps the acks map's keys strictly sorted.
proof fn lemma_map_append_sorted(m: Seq<(Seq<u8>, Seq<Seq<u8>>)>, k: Seq<u8>, v: Seq<u8>)
    requires
        sorted_keys(m),
    ensures
        sorted_keys(map_append(m, k, v)),
    decreases m.len(),
{
    let r = map_append(m, k, v);
    if m.len() == 0 {
    } else if lex_lt(m.last().0, k) {
        assert forall|i: int, j: int| 0 <= i < j < r.len() implies lex_lt(r[i].0, r[j].0) by {
            if j < m.len() {
                assert(r[i] == m[i] && r[j] == m[j]);
            } else {
                assert(r[j].0 == k);
                if i < m.len() - 1 {
                    assert(lex_lt(m[i].0, m.last().0));
                    crate::bytes::lemma_lex_transitive(m[i].0, m.last().0, k);
                }
            }
        }
    } else if m.last().0 == k {
        assert forall|i: int, j: int| 0 <= i < j < r.len() implies lex_lt(r[i].0, r[j].0) by {
            if j < m.len() - 1 {
                assert(r[i] == m[i] && r[j] == m[j]);
            } else {
                assert(r[i] == m[i]);
                assert(r[j].0 == k);
                assert(lex_lt(m[i].0, m.last().0));
            }
        }
    } else {
        crate::bytes::lemma_lex_trichotomy(m.last().0, k);
        lemma_map_append_sorted(m.drop_last(), k, v);
        let sub = map_append(m.drop_last(), k, v);
        assert forall|i: int, j: int| 0 <= i < j < r.len() implies lex_lt(r[i].0, r[j].0) by {
            if j < sub.len() {
                assert(r[i] == sub[i] && r[j] == sub[j]);
            } else {
                assert(r[j] == m.last());
                assert(r[i] == sub[i]);
                assert(has_key(sub, sub[i].0));
                lemma_map_append_keys(m.drop_last(), k, v, sub[i].0);
                assert(has_key(m.drop_last(), sub[i].0) || sub[i].0 == k);
                if has_key(m.drop_last(), sub[i].0) {
                    let w = choose|w: int|
                        0 <= w < m.drop_last().len() && (#[trigger] m.drop_last()[w]).0 == sub[i].0;
                    assert(lex_lt(m[w].0, m.last().0));
                }
            }
        }
    }
}

/// The parts mapping's keys are exactly the derived addresses of the input
/// validator identities, whatever order the parts were supplied in.
pub proof fn lemma_parts_doc_keys(s: Seq<(Seq<u8>, hbbft::sync_key_gen::Part)>)
    ensures
        forall|a: Seq<u8>|
            has_key(parts_doc(s), a) <==> exists|i: int|
                0 <= i < s.len() && addr_of((#[trigger] s[i]).0) == a,
    decreases s.len(),
{
    if s.len() == 0 {
    } else {
        lemma_parts_doc_keys(s.drop_last());
        assert forall|a: Seq<u8>|
            has_key(parts_doc(s), a) <==> exists|i: int|
                0 <= i < s.len() && addr_of((#[trigger] s[i]).0) == a by {
            lemma_map_insert_keys(
                parts_doc(s.drop_last()),
                addr_of(s.last().0),
                part_encoding(s.last().1),
                a,
            );
            if has_key(parts_doc(s), a) {
                if has_key(parts_doc(s.drop_last()), a) {
                    let i = choose|i: int|
                        0 <= i < s.drop_last().len() && addr_of(
                            (#[trigger] s.drop_last()[i]).0,
                        ) == a;
                    assert(s.drop_last()[i] == s[i]);
                    assert(addr_of(s[i].0) == a);
                } else {
                    assert(addr_of(s[s.len() - 1].0) == a);
                }
            }
            if exists|i: int| 0 <= i < s.len() && addr_of((#[trigger] s[i]).0) == a {
                let i = choose|i: int| 0 <= i < s.len() && addr_of((#[trigger] s[i]).0) == a;
                if i < s.len() - 1 {
                    assert(s.drop_last()[i] == s[i]);
                    assert(addr_of(s.drop_last()[i].0) == a);
                    assert(has_key(parts_doc(s.drop_last()), a));
                }
            }
        }
    }
}

/// The acks mapping's keys are exactly the derived addresses of the issuing
/// validator identities, whatever order the outcomes were supplied in.
pub proof fn lemma_acks_doc_keys(s: Seq<(Seq<u8>, PartOutcome)>)
    ensures
        forall|a: Seq<u8>|
            has_key(acks_doc(s), a) <==> exists|i: int|
                0 <= i < s.len() && addr_of((#[trigger] s[i]).0) == a,
    decreases s.len(),
{
    if s.len() == 0 {
    } else {
        lemma_acks_doc_keys(s.drop_last());
        assert forall|a: Seq<u8>|
            has_key(acks_doc(s), a) <==> exists|i: int|
                0 <= i < s.len() && addr_of((#[trigger] s[i]).0) == a by {
            lemma_map_append_keys(
                acks_doc(s.drop_last()),
                addr_of(s.last().0),
                ack_bytes_of(s.last().1),
                a,
            );
            if has_key(acks_doc(s), a) {
                if has_key(acks_doc(s.drop_last()), a) {
                    let i = choose|i: int|
                        0 <= i < s.drop_last().len() && addr_of(
                            (#[trigger] s.drop_last()[i]).0,
                        ) == a;
                    assert(s.drop_last()[i] == s[i]);
                    assert(addr_of(s[i].0) == a);
                } else {
                    assert(addr_of(s[s.len() - 1].0) == a);
                }
            }
            if exists|i: int| 0 <= i < s.len() && addr_of((#[trigger] s[i]).0) == a {
                let i = choose|i: int| 0 <= i < s.len() && addr_of((#[trigger] s[i]).0) == a;
                if i < s.len() - 1 {
                    assert(s.drop_last()[i] == s[i]);
                    assert(addr_of(s.drop_last()[i].0) == a);
                    assert(has_key(acks_doc(s.drop_last()), a));
                }
            }
        }
    }
}

/// Both document mappings are sorted by address.
pub proof fn lemma_parts_doc_sorted(s: Seq<(Seq<u8>, hbbft::sync_key_gen::Part)>)
    ensures
        sorted_keys(parts_doc(s)),
    decreases s.len(),
{
    if s.len() > 0 {
        lemma_parts_doc_sorted(s.drop_last());
        lemma_map_insert_sorted(
            parts_doc(s.drop_last()),
            addr_of(s.last().0),
            part_encoding(s.last().1),
        );
    }
}

/// The acks mapping stays sorted by address.
pub proof fn lemma_acks_doc_sorted(s: Seq<(Seq<u8>, PartOutcome)>)
    ensures
        sorted_keys(acks_doc(s)),
    decreases s.len(),
{
    if s.len() > 0 {
        lemma_acks_doc_sorted(s.drop_last());
        lemma_map_append_sorted(
            acks_doc(s.drop_last()),
            addr_of(s.last().0),
            ack_bytes_of(s.last().1),
        );
    }
}

// ---------------------------------------------------------------------------
// Building the document, with byte accounting.
// ---------------------------------------------------------------------------

/// Operational size metrics for a built document: how many parts and acks
/// were encoded and how many bytes each kind took.
pub struct TranscriptStats {
    pub num_parts: usize,
    pub num_acks: usize,
    pub parts_bytes: u128,
    pub acks_bytes: u128,
}

impl TranscriptStats {
    /// The grand total: part bytes plus ack bytes, when it fits.
    pub fn total_bytes(&self) -> (r: Option<u128>)
        ensures
            r matches Some(t) ==> t == self.parts_bytes + self.acks_bytes,
            r is None ==> self.parts_bytes + self.acks_bytes > u128::MAX,
    {
        if self.parts_bytes <= u128::MAX - self.acks_bytes {
            Some(self.parts_bytes + self.acks_bytes)
        } else {
            None
        }
    }
}

/// One accounting step stays below every bound: the running total of `i`
/// encoded messages plus one more message still fits in the accumulator.
proof fn lemma_account_step(acc: int, l: int, i: int, n: int)
    requires
        0 <= acc <= i * (usize::MAX as int),
        0 <= l <= usize::MAX as int,
        0 <= i < n,
        n <= usize::MAX as int,
    ensures
        acc + l <= (i + 1) * (usize::MAX as int),
        acc + l <= u128::MAX as int,
{
    let mx = usize::MAX as int;
    assert(usize::MAX as int <= u64::MAX as int);
    assert(acc + l <= (i + 1) * mx && (i + 1) * mx <= n * mx && n * mx <= (u64::MAX as int) * (
    u64::MAX as int)) by (nonlinear_arith)
        requires
            0 <= acc <= i * mx,
            0 <= l <= mx,
            0 <= i < n,
            n <= mx,
            mx <= u64::MAX as int,
    ;
    assert((u64::MAX as int) * (u64::MAX as int) <= u128::MAX as int) by (nonlinear_arith);
}

/// Builds the key generation history document and its size metrics.
///
/// Every part is encoded and inserted under its issuer's address; every
/// outcome must be valid and carry an acknowledgment, which is encoded and
/// appended under its issuer's address; any other outcome shape fails the
/// encoding, mirroring the generator's fatal policy. The metrics count every
/// encoded message, also one that a later duplicate address replaces.
pub fn build_history(
    parts: &Vec<(Vec<u8>, hbbft::sync_key_gen::Part)>,
    acks: &Vec<(Vec<u8>, PartOutcome)>,
) -> (r: Result<(KeyGenHistoryData, TranscriptStats), TranscriptError>)
    ensures
        r matches Ok(ds) ==> {
            &&& ds.0.parts_view() == parts_doc(parts_input_view(parts@))
            &&& ds.0.acks_view() == acks_doc(acks_input_view(acks@))
            &&& ds.0.wf()
            &&& ds.1.num_parts == parts@.len()
            &&& ds.1.num_acks == acks@.len()
            &&& ds.1.parts_bytes == parts_bytes_sum(parts_input_view(parts@))
            &&& ds.1.acks_bytes == acks_bytes_sum(acks_input_view(acks@))
            &&& forall|k: int| 0 <= k < acks@.len() ==> outcome_ok((#[trigger] acks@[k]).1)
        },
        (forall|k: int| 0 <= k < acks@.len() ==> outcome_ok((#[trigger] acks@[k]).1)) ==> r is Ok,
        (exists|k: int| 0 <= k < acks@.len() && !outcome_ok((#[trigger] acks@[k]).1)) ==> r is Err,
        r matches Err(TranscriptError::InvalidOutcome) ==> exists|k: int|
            0 <= k < acks@.len() && (#[trigger] acks@[k]).1 is Invalid,
        r matches Err(TranscriptError::MissingAck) ==> exists|k: int|
            0 <= k < acks@.len() && (#[trigger] acks@[k]).1 matches PartOutcome::Valid(None),
{
    let ghost piv = parts_input_view(parts@);
    let ghost aiv = acks_input_view(acks@);
    let np = parts.len();
    let mut doc_parts: Vec<(Vec<u8>, Vec<u8>)> = Vec::new();
    let mut parts_bytes: u128 = 0;
    let mut i: usize = 0;
    while i < np
        invariant
            np == parts@.len(),
            i <= np,
            piv == parts_input_view(parts@),
            doc_parts@.map(|q: int, e: (Vec<u8>, Vec<u8>)| (e.0@, e.1@)) == parts_doc(
                piv.take(i as int),
            ),
            parts_bytes as int == parts_bytes_sum(piv.take(i as int)),
            parts_bytes as int <= (i as int) * (usize::MAX as int),
        decreases np - i,
    {
        let enc = match serialize_part(&parts[i].1) {
            Ok(v) => v,
            Err(e) => {
                return Err(e);
            },
        };
        let addr = derive_address(&parts[i].0);
        let el = enc.len();
        proof {
            assert(piv.take(i + 1).drop_last() =~= piv.take(i as int));
            assert(piv.take(i + 1).last() == (parts@[i as int].0@, parts@[i as int].1));
            lemma_account_step(parts_bytes as int, el as int, i as int, np as int);
        }
        parts_bytes = parts_bytes + (el as u128);
        doc_parts = insert_part_entry(doc_parts, addr, enc);
        i = i + 1;
    }
    proof {
        assert(piv.take(np as int) =~= piv);
    }
    let na = acks.len();
    let mut doc_acks: Vec<(Vec<u8>, Vec<Vec<u8>>)> = Vec::new();
    let mut acks_bytes: u128 = 0;
    let mut k: usize = 0;
    while k < na
        invariant
            na == acks@.len(),
            k <= na,
            aiv == acks_input_view(acks@),
            doc_acks@.map(|q: int, e: (Vec<u8>, Vec<Vec<u8>>)| (e.0@, e.1.deep_view()))
                == acks_doc(aiv.take(k as int)),
            acks_bytes as int == acks_bytes_sum(aiv.take(k as int)),
            acks_bytes as int <= (k as int) * (usize::MAX as int),
            forall|q: int| 0 <= q < k ==> outcome_ok((#[trigger] acks@[q]).1),
        decreases na - k,
    {
        let enc = match &acks[k].1 {
            PartOutcome::Valid(Some(a)) => {
                match serialize_ack(a) {
                    Ok(v) => v,
                    Err(e) => {
                        return Err(e);
                    },
                }
            },
            PartOutcome::Valid(None) => {
                proof {
                    assert(acks@[k as int].1 matches PartOutcome::Valid(None));
                }
                return Err(TranscriptError::MissingAck);
            },
            PartOutcome::Invalid(_) => {
                proof {
                    assert(acks@[k as int].1 is Invalid);
                }
                return Err(TranscriptError::InvalidOutcome);
            },
        };
        let addr = derive_address(&acks[k].0);
        let el = enc.len();
        proof {
            assert(aiv.take(k + 1).drop_last() =~= aiv.take(k as int));
            assert(aiv.take(k + 1).last() == (acks@[k as int].0@, acks@[k as int].1));
            assert(enc@ == ack_bytes_of(acks@[k as int].1));
            lemma_account_step(acks_bytes as int, el as int, k as int, na as int);
        }
        acks_bytes = acks_bytes + (el as u128);
        doc_acks = append_ack_entry(doc_acks, addr, enc);
        k = k + 1;
    }
    proof {
        assert(aiv.take(na as int) =~= aiv);
    }
    let doc = KeyGenHistoryData { parts: doc_parts, acks: doc_acks };
    let stats = TranscriptStats { num_parts: np, num_acks: na, parts_bytes, acks_bytes };
    proof {
        lemma_parts_doc_sorted(piv);
        lemma_acks_doc_sorted(aiv);
    }
    Ok((doc, stats))
}

/// The characters of a rendered byte string.
pub open spec fn chars_of(s: Seq<u8>) -> Seq<char> {
    s.map(|i: int, b: u8| b as char)
}

/// Encodes a finished run into the canonical key generation history
/// document: every part under its issuer's address, every acknowledgment
/// appended under its issuer's address, the whole rendered as JSON text,
/// together with the size metrics. Any invalid or ack-less outcome in the
/// input fails the encoding; rendering itself cannot fail.
pub fn key_sync_history_data(
    parts: Vec<(Vec<u8>, hbbft::sync_key_gen::Part)>,
    acks: Vec<(Vec<u8>, PartOutcome)>,
) -> (r: Result<(String, TranscriptStats), TranscriptError>)
    ensures
        r matches Ok(st) ==> {
            &&& st.0@ == chars_of(
                crate::json::json_document(
                    parts_doc(parts_input_view(parts@)),
                    acks_doc(acks_input_view(acks@)),
                ),
            )
            &&& st.1.num_parts == parts@.len()
            &&& st.1.num_acks == acks@.len()
            &&& st.1.parts_bytes == parts_bytes_sum(parts_input_view(parts@))
            &&& st.1.acks_bytes == acks_bytes_sum(acks_input_view(acks@))
            &&& forall|k: int| 0 <= k < acks@.len() ==> outcome_ok((#[trigger] acks@[k]).1)
        },
        (forall|k: int| 0 <= k < acks@.len() ==> outcome_ok((#[trigger] acks@[k]).1)) ==> r is Ok,
        (exists|k: int| 0 <= k < acks@.len() && !outcome_ok((#[trigger] acks@[k]).1)) ==> r is Err,
        r matches Err(TranscriptError::InvalidOutcome) ==> exists|k: int|
            0 <= k < acks@.len() && (#[trigger] acks@[k]).1 is Invalid,
        r matches Err(TranscriptError::MissingAck) ==> exists|k: int|
            0 <= k < acks@.len() && (#[trigger] acks@[k]).1 matches PartOutcome::Valid(None),
{
    let (doc, stats) = match build_history(&parts, &acks) {
        Ok(ds) => ds,
        Err(e) => {
            return Err(e);
        },
    };
    let bytes = crate::json::doc_json(&doc);
    proof {
        crate::json::lemma_ascii_document(doc.parts_view(), doc.acks_view());
    }
    let text = crate::engine::ascii_string(bytes);
    Ok((text, stats))
}

/// Round trip of the binary codec on a `Part`: encoding always succeeds, and
/// decoding the encoded bytes yields a message equal to the original.
pub fn part_codec_roundtrip(p: &hbbft::sync_key_gen::Part) -> (r: Result<
    hbbft::sync_key_gen::Part,
    TranscriptError,
>)
    ensures
        r matches Ok(q) && q == *p,
{
    let b = match serialize_part(p) {
        Ok(v) => v,
        Err(e) => {
            proof {
                assert(false);
            }
            return Err(e);
        },
    };
    let q = crate::engine::deserialize_part(&b);
    proof {
        assert(b@ == part_encoding(*p));
    }
    match q {
        Ok(x) => Ok(x),
        Err(e) => {
            proof {
                assert(false);
            }
            Err(e)
        },
    }
}

/// Round trip of the binary codec on an `Ack`: encoding always succeeds, and
/// decoding the encoded bytes yields a message equal to the original.
pub fn ack_codec_roundtrip(a: &hbbft::sync_key_gen::Ack) -> (r: Result<
    hbbft::sync_key_gen::Ack,
    TranscriptError,
>)
    ensures
        r matches Ok(q) && q == *a,
{
    let b = match serialize_ack(a) {
        Ok(v) => v,
        Err(e) => {
            proof {
                assert(false);
            }
            return Err(e);
        },
    };
    let q = crate::engine::deserialize_ack(&b);
    proof {
        assert(b@ == ack_encoding(*a));
    }
    match q {
        Ok(x) => Ok(x),
        Err(e) => {
            proof {
                assert(false);
            }
            Err(e)
        },
    }
}

/// The entry under a validator's address is the encoding of the last part
/// that validator supplied: a later part for the same address replaces an
/// earlier one, and other addresses are untouched.
pub proof fn lemma_parts_doc_value(s: Seq<(Seq<u8>, hbbft::sync_key_gen::Part)>, i: int)
    requires
        0 <= i < s.len(),
        forall|j: int| i < j < s.len() ==> addr_of((#[trigger] s[j]).0) != addr_of(s[i].0),
    ensures
        lookup(parts_doc(s), addr_of(s[i].0)) == Some(part_encoding(s[i].1)),
    decreases s.len(),
{
    if i == s.len() - 1 {
        lemma_map_insert_lookup(
            parts_doc(s.drop_last()),
            addr_of(s.last().0),
            part_encoding(s.last().1),
            addr_of(s[i].0),
        );
    } else {
        assert(addr_of(s[s.len() - 1].0) != addr_of(s[i].0));
        assert(s.drop_last()[i] == s[i]);
        assert forall|j: int|
            i < j < s.drop_last().len() implies addr_of((#[trigger] s.drop_last()[j]).0)
            != addr_of(s.drop_last()[i].0) by {
            assert(s.drop_last()[j] == s[j]);
        }
        lemma_parts_doc_value(s.drop_last(), i);
        lemma_map_insert_lookup(
            parts_doc(s.drop_last()),
            addr_of(s.last().0),
            part_encoding(s.last().1),
            addr_of(s[i].0),
        );
    }
}

/// A key that no entry holds looks up to nothing.
proof fn lemma_lookup_absent(m: Seq<(Seq<u8>, Seq<Seq<u8>>)>, k: Seq<u8>)
    requires
        !has_key(m, k),
    ensures
        lookup(m, k) is None,
    decreases m.len(),
{
    if m.len() > 0 {
        assert(m[m.len() - 1].0 != k);
        assert forall|i: int|
            0 <= i < m.drop_last().len() implies (#[trigger] m.drop_last()[i]).0 != k by {
            assert(m.drop_last()[i] == m[i]);
        }
        lemma_lookup_absent(m.drop_last(), k);
    }
}

/// In a sorted map, a key beyond the last entry is absent.
proof fn lemma_absent_beyond_last(m: Seq<(Seq<u8>, Seq<Seq<u8>>)>, k: Seq<u8>)
    requires
        sorted_keys(m),
        m.len() > 0,
        lex_lt(m.last().0, k),
    ensures
        !has_key(m, k),
{
    assert forall|i: int| 0 <= i < m.len() implies (#[trigger] m[i]).0 != k by {
        if i < m.len() - 1 {
            assert(lex_lt(m[i].0, m[m.len() - 1].0));
            crate::bytes::lemma_lex_transitive(m[i].0, m[m.len() - 1].0, k);
        }
        crate::bytes::lemma_lex_trichotomy(m[i].0, k);
    }
}

/// Appending stores the new value at the end of its key's list, creating the
/// list on first use, and leaves every other key's list untouched.
proof fn lemma_map_append_lookup(m: Seq<(Seq<u8>, Seq<Seq<u8>>)>, k: Seq<u8>, v: Seq<u8>, a: Seq<u8>)
    requires
        sorted_keys(m),
    ensures
        a == k ==> lookup(map_append(m, k, v), a) == Some(
            match lookup(m, k) {
                Some(l) => l.push(v),
                None => seq![v],
            },
        ),
        a != k ==> lookup(map_append(m, k, v), a) == lookup(m, a),
    decreases m.len(),
{
    let r = map_append(m, k, v);
    if m.len() == 0 {
        assert(r.last() == (k, seq![v]));
        assert(r.drop_last() =~= m);
    } else if lex_lt(m.last().0, k) {
        crate::bytes::lemma_lex_trichotomy(m.last().0, k);
        lemma_absent_beyond_last(m, k);
        lemma_lookup_absent(m, k);
        assert(r.last() == (k, seq![v]));
        assert(r.drop_last() =~= m);
    } else if m.last().0 == k {
        assert(r.last() == (k, m.last().1.push(v)));
        assert(r.drop_last() =~= m.drop_last());
    } else {
        crate::bytes::lemma_lex_trichotomy(m.last().0, k);
        lemma_map_append_lookup(m.drop_last(), k, v, a);
        assert(r.last() == m.last());
        assert(r.drop_last() =~= map_append(m.drop_last(), k, v));
    }
}

/// The acknowledgments one validator address contributes, in supply order.
pub open spec fn acks_of(s: Seq<(Seq<u8>, PartOutcome)>, a: Seq<u8>) -> Seq<Seq<u8>>
    decreases s.len(),
{
    if s.len() == 0 {
        Seq::empty()
    } else if addr_of(s.last().0) == a {
        acks_of(s.drop_last(), a).push(ack_bytes_of(s.last().1))
    } else {
        acks_of(s.drop_last(), a)
    }
}

/// The list under a validator's address is exactly the encodings of the
/// acknowledgments that validator supplied, preserving append order.
pub proof fn lemma_acks_doc_value(s: Seq<(Seq<u8>, PartOutcome)>, a: Seq<u8>)
    ensures
        lookup(acks_doc(s), a) == if acks_of(s, a).len() == 0 {
            None::<Seq<Seq<u8>>>
        } else {
            Some(acks_of(s, a))
        },
    decreases s.len(),
{
    if s.len() > 0 {
        lemma_acks_doc_value(s.drop_last(), a);
        lemma_acks_doc_sorted(s.drop_last());
        lemma_map_append_lookup(
            acks_doc(s.drop_last()),
            addr_of(s.last().0),
            ack_bytes_of(s.last().1),
            a,
        );
        if a == addr_of(s.last().0) {
            if acks_of(s.drop_last(), a).len() == 0 {
                assert(acks_of(s, a) =~= seq![ack_bytes_of(s.last().1)]);
            }
        }
    }
}

/// Round trip at the document: the bytes stored under a validator's address
/// decode back to that validator's own `Part`, provided no later input part
/// shares the address (a later one would have replaced the entry).
pub proof fn lemma_document_part_roundtrip(
    s: Seq<(Seq<u8>, hbbft::sync_key_gen::Part)>,
    i: int,
    b: Seq<u8>,
    r: Result<hbbft::sync_key_gen::Part, TranscriptError>,
)
    requires
        0 <= i < s.len(),
        forall|j: int| i < j < s.len() ==> addr_of((#[trigger] s[j]).0) != addr_of(s[i].0),
        lookup(parts_doc(s), addr_of(s[i].0)) == Some(b),
        crate::engine::part_decoding_ok(b, r),
    ensures
        r matches Ok(q) && q == s[i].1,
{
    lemma_parts_doc_value(s, i);
    assert(b == part_encoding(s[i].1));
}

} // verus!
