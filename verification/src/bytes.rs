//! Lexicographic order on byte strings: the total key order that the
//! address-keyed transcript maps and the validator set are sorted by.

use vstd::prelude::*;

verus! {

/// Copies a byte string.
pub fn copy_bytes(v: &Vec<u8>) -> (r: Vec<u8>)
    ensures
        r@ == v@,
{
    let mut r: Vec<u8> = Vec::new();
    let mut i: usize = 0;
    while i < v.len()
        invariant
            i <= v.len(),
            r@ == v@.take(i as int),
        decreases v.len() - i,
    {
        let b = v[i];
        r.push(b);
        proof {
            assert(v@.take(i + 1) =~= v@.take(i as int).push(v@[i as int]));
        }
        i = i + 1;
    }
    proof {
        assert(v@.take(v@.len() as int) =~= v@);
    }
    r
}

/// Strict lexicographic order on byte sequences.
pub open spec fn lex_lt(a: Seq<u8>, b: Seq<u8>) -> bool
    decreases a.len(),
{
    if b.len() == 0 {
        false
    } else if a.len() == 0 {
        true
    } else if a[0] != b[0] {
        a[0] < b[0]
    } else {
        lex_lt(a.skip(1), b.skip(1))
    }
}

/// The outcome of comparing two byte strings.
#[derive(Clone, Copy, PartialEq, Eq, Structural, Debug)]
pub enum ByteOrder {
    Before,
    Same,
    After,
}

/// Compares two byte strings in lexicographic order.
pub fn lex_cmp(a: &Vec<u8>, b: &Vec<u8>) -> (r: ByteOrder)
    ensures
        r == ByteOrder::Before <==> lex_lt(a@, b@),
        r == ByteOrder::Same <==> a@ == b@,
        r == ByteOrder::After <==> lex_lt(b@, a@),
{
    proof {
        lemma_lex_trichotomy(a@, b@);
        assert(a@.skip(0) =~= a@);
        assert(b@.skip(0) =~= b@);
        assert(a@.take(0) =~= b@.take(0));
    }
    let mut i: usize = 0;
    while i < a.len() && i < b.len()
        invariant
            i <= a.len(),
            i <= b.len(),
            a@.take(i as int) == b@.take(i as int),
            lex_lt(a@, b@) <==> lex_lt(a@.skip(i as int), b@.skip(i as int)),
            lex_lt(b@, a@) <==> lex_lt(b@.skip(i as int), a@.skip(i as int)),
        decreases a.len() - i,
    {
        let x = a[i];
        let y = b[i];
        proof {
            lemma_lex_step(a@, b@, i as int);
            lemma_lex_step(b@, a@, i as int);
        }
        if x < y {
            return ByteOrder::Before;
        }
        if y < x {
            return ByteOrder::After;
        }
        proof {
            assert(a@.take(i + 1) =~= b@.take(i + 1));
        }
        i = i + 1;
    }
    if a.len() < b.len() {
        proof {
            assert(lex_lt(a@.skip(i as int), b@.skip(i as int)));
        }
        ByteOrder::Before
    } else if b.len() < a.len() {
        proof {
            assert(lex_lt(b@.skip(i as int), a@.skip(i as int)));
        }
        ByteOrder::After
    } else {
        proof {
            assert(a@ =~= b@);
        }
        ByteOrder::Same
    }
}

/// Unfolding step: comparing the suffixes from position `i` comes down to the
/// bytes at `i` when the first `i` bytes agree.
proof fn lemma_lex_step(a: Seq<u8>, b: Seq<u8>, i: int)
    requires
        0 <= i < a.len(),
        i < b.len(),
    ensures
        lex_lt(a.skip(i), b.skip(i)) <==> (a[i] < b[i] || (a[i] == b[i] && lex_lt(
            a.skip(i + 1),
            b.skip(i + 1),
        ))),
{
    assert(a.skip(i).len() > 0);
    assert(b.skip(i).len() > 0);
    assert(a.skip(i)[0] == a[i]);
    assert(b.skip(i)[0] == b[i]);
    assert(a.skip(i).skip(1) =~= a.skip(i + 1));
    assert(b.skip(i).skip(1) =~= b.skip(i + 1));
}

/// Exactly one of `a < b`, `a == b`, `b < a` holds.
pub proof fn lemma_lex_trichotomy(a: Seq<u8>, b: Seq<u8>)
    ensures
        lex_lt(a, b) || lex_lt(b, a) || a == b,
        lex_lt(a, b) ==> !lex_lt(b, a) && a != b,
        lex_lt(b, a) ==> !lex_lt(a, b) && a != b,
    decreases a.len(),
{
    if b.len() == 0 || a.len() == 0 {
        if a.len() == b.len() {
            assert(a =~= b);
        }
    } else if a[0] != b[0] {
    } else {
        lemma_lex_trichotomy(a.skip(1), b.skip(1));
        if a.skip(1) == b.skip(1) {
            assert(a =~= b) by {
                assert forall|i: int| 0 <= i < a.len() implies a[i] == b[i] by {
                    if i > 0 {
                        assert(a.skip(1)[i - 1] == a[i]);
                        assert(b.skip(1)[i - 1] == b[i]);
                    }
                }
            }
        }
        if a == b {
            assert(a.skip(1) =~= b.skip(1));
        }
    }
}

/// Lexicographic order is transitive.
pub proof fn lemma_lex_transitive(a: Seq<u8>, b: Seq<u8>, c: Seq<u8>)
    requires
        lex_lt(a, b),
        lex_lt(b, c),
    ensures
        lex_lt(a, c),
    decreases a.len(),
{
    if c.len() == 0 {
    } else if b.len() == 0 {
    } else if a.len() == 0 {
    } else {
        if a[0] == b[0] && b[0] == c[0] {
            lemma_lex_transitive(a.skip(1), b.skip(1), c.skip(1));
        }
    }
}

// ---------------------------------------------------------------------------
// Association lists keyed by byte strings, kept in strict key order: the
// replacement for an ordered map with deterministic iteration.
// ---------------------------------------------------------------------------

/// Whether an association list holds key `k`.
pub open spec fn has_key<V>(m: Seq<(Seq<u8>, V)>, k: Seq<u8>) -> bool {
    exists|i: int| 0 <= i < m.len() && (#[trigger] m[i]).0 == k
}

/// Keys strictly ascend in lexicographic order.
pub open spec fn sorted_keys<V>(m: Seq<(Seq<u8>, V)>) -> bool {
    forall|i: int, j: int| 0 <= i < j < m.len() ==> lex_lt(m[i].0, m[j].0)
}

/// Inserting into a sorted association list: an existing entry for the key
/// is replaced, otherwise the new entry lands at its ordered position.
pub open spec fn map_insert<V>(m: Seq<(Seq<u8>, V)>, k: Seq<u8>, v: V) -> Seq<(Seq<u8>, V)>
    decreases m.len(),
{
    if m.len() == 0 {
        seq![(k, v)]
    } else if lex_lt(m.last().0, k) {
        m + seq![(k, v)]
    } else if m.last().0 == k {
        m.drop_last() + seq![(k, v)]
    } else {
        map_insert(m.drop_last(), k, v) + seq![m.last()]
    }
}

/// Inserting adds exactly the new key to a map's key set.
pub proof fn lemma_map_insert_keys<V>(m: Seq<(Seq<u8>, V)>, k: Seq<u8>, v: V, a: Seq<u8>)
    ensures
        has_key(map_insert(m, k, v), a) <==> (has_key(m, a) || a == k),
    decreases m.len(),
{
    let r = map_insert(m, k, v);
    if m.len() == 0 {
        {
            assert(r[0] == (k, v));
            if a == k {
                assert(r[0].0 == a);
            }
        }
    } else if lex_lt(m.last().0, k) || m.last().0 == k {
        let base = if m.last().0 == k {
            m.drop_last()
        } else {
            m
        };
        {
            assert(r[r.len() - 1] == (k, v));
            if has_key(r, a) {
                let i = choose|i: int| 0 <= i < r.len() && (#[trigger] r[i]).0 == a;
                if i < base.len() {
                    assert(m[i].0 == a);
                }
            }
            if has_key(m, a) {
                let i = choose|i: int| 0 <= i < m.len() && (#[trigger] m[i]).0 == a;
                if i < base.len() {
                    assert(r[i].0 == a);
                } else {
                    assert(a == m.last().0);
                    assert(r[r.len() - 1].0 == k);
                }
            }
            if a == k {
                assert(r[r.len() - 1].0 == a);
            }
        }
    } else {
        lemma_map_insert_keys(m.drop_last(), k, v, a);
        let sub = map_insert(m.drop_last(), k, v);
        {
            assert(r[r.len() - 1] == m.last());
            if has_key(r, a) {
                let i = choose|i: int| 0 <= i < r.len() && (#[trigger] r[i]).0 == a;
                if i < sub.len() {
                    assert(has_key(sub, a));
                    if has_key(m.drop_last(), a) {
                        let j = choose|j: int|
                            0 <= j < m.drop_last().len() && (#[trigger] m.drop_last()[j]).0 == a;
                        assert(m[j].0 == a);
                    }
                } else {
                    assert(m[m.len() - 1].0 == a);
                }
            }
            if has_key(m, a) {
                let i = choose|i: int| 0 <= i < m.len() && (#[trigger] m[i]).0 == a;
                if i < m.len() - 1 {
                    assert(m.drop_last()[i].0 == a);
                    assert(has_key(sub, a));
                    let j = choose|j: int| 0 <= j < sub.len() && (#[trigger] sub[j]).0 == a;
                    assert(r[j].0 == a);
                } else {
                    assert(r[r.len() - 1].0 == a);
                }
            }
            if a == k {
                assert(has_key(sub, a));
                let j = choose|j: int| 0 <= j < sub.len() && (#[trigger] sub[j]).0 == a;
                assert(r[j].0 == a);
            }
        }
    }
}

/// Inserting keeps a map's keys strictly sorted.
pub proof fn lemma_map_insert_sorted<V>(m: Seq<(Seq<u8>, V)>, k: Seq<u8>, v: V)
    requires
        sorted_keys(m),
    ensures
        sorted_keys(map_insert(m, k, v)),
    decreases m.len(),
{
    let r = map_insert(m, k, v);
    if m.len() == 0 {
    } else if lex_lt(m.last().0, k) {
        assert forall|i: int, j: int| 0 <= i < j < r.len() implies lex_lt(r[i].0, r[j].0) by {
            if j < m.len() {
                assert(r[i] == m[i] && r[j] == m[j]);
            } else {
                assert(r[j].0 == k);
                if i < m.len() - 1 {
                    assert(lex_lt(m[i].0, m.last().0));
                    lemma_lex_transitive(m[i].0, m.last().0, k);
                }
            }
        }
    } else if m.last().0 == k {
        assert forall|i: int, j: int| 0 <= i < j < r.len() implies lex_lt(r[i].0, r[j].0) by {
            if j < m.len() - 1 {
                assert(r[i] == m[i] && r[j] == m[j]);
            } else {
                assert(r[i] == m[i]);
                assert(lex_lt(m[i].0, m.last().0));
            }
        }
    } else {
        lemma_lex_trichotomy(m.last().0, k);
        lemma_map_insert_sorted(m.drop_last(), k, v);
        let sub = map_insert(m.drop_last(), k, v);
        assert forall|i: int, j: int| 0 <= i < j < r.len() implies lex_lt(r[i].0, r[j].0) by {
            if j < sub.len() {
                assert(r[i] == sub[i] && r[j] == sub[j]);
            } else {
                assert(r[j] == m.last());
                assert(r[i] == sub[i]);
                assert(has_key(sub, sub[i].0));
                lemma_map_insert_keys(m.drop_last(), k, v, sub[i].0);
                assert(has_key(m.drop_last(), sub[i].0) || sub[i].0 == k);
                if has_key(m.drop_last(), sub[i].0) {
                    let w = choose|w: int|
                        0 <= w < m.drop_last().len() && (#[trigger] m.drop_last()[w]).0 == sub[i].0;
                    assert(lex_lt(m[w].0, m.last().0));
                }
            }
        }
    }
}


/// The value stored under `k`: the last entry with that key, where the maps
/// built here hold at most one.
pub open spec fn lookup<V>(m: Seq<(Seq<u8>, V)>, k: Seq<u8>) -> Option<V>
    decreases m.len(),
{
    if m.len() == 0 {
        None
    } else if m.last().0 == k {
        Some(m.last().1)
    } else {
        lookup(m.drop_last(), k)
    }
}

/// Inserting stores the new value under its key and leaves every other key's
/// value untouched: the key that is inserted twice keeps the later value.
pub proof fn lemma_map_insert_lookup<V>(m: Seq<(Seq<u8>, V)>, k: Seq<u8>, v: V, a: Seq<u8>)
    ensures
        lookup(map_insert(m, k, v), a) == if a == k {
            Some(v)
        } else {
            lookup(m, a)
        },
    decreases m.len(),
{
    let r = map_insert(m, k, v);
    if m.len() == 0 {
        assert(r.last() == (k, v));
        assert(r.drop_last() =~= m);
    } else if lex_lt(m.last().0, k) {
        lemma_lex_trichotomy(m.last().0, k);
        assert(r.last() == (k, v));
        assert(r.drop_last() =~= m);
    } else if m.last().0 == k {
        assert(r.last() == (k, v));
        assert(r.drop_last() =~= m.drop_last());
    } else {
        lemma_map_insert_lookup(m.drop_last(), k, v, a);
        assert(r.last() == m.last());
        assert(r.drop_last() =~= map_insert(m.drop_last(), k, v));
    }
}

} // verus!
