//! The canonical JSON rendering of the key generation history document:
//! `{"parts":{"0x..":[..],..},"acks":{"0x..":[[..],..],..}}`, with addresses
//! as lowercase hexadecimal strings and message bytes as decimal arrays.
//!
//! The rendering is written here byte by byte, so the exact output is a
//! proved function of the document, and it provably always succeeds on a
//! well-formed document — no serializer failure path exists.

use vstd::prelude::*;

use crate::transcript::KeyGenHistoryData;

verus! {

/// `"`
pub const QUOTE: u8 = 34;

/// `,`
pub const COMMA: u8 = 44;

/// `:`
pub const COLON: u8 = 58;

/// `[`
pub const LBRACKET: u8 = 91;

/// `]`
pub const RBRACKET: u8 = 93;

/// `{`
pub const LBRACE: u8 = 123;

/// `}`
pub const RBRACE: u8 = 125;

/// `0`
pub const CHAR_ZERO: u8 = 48;

/// `x`
pub const CHAR_X: u8 = 120;


/// A lowercase hexadecimal digit character.
pub open spec fn hex_digit(x: u8) -> u8
    recommends
        x < 16,
{
    if x < 10 {
        (x + 48) as u8
    } else {
        (x + 87) as u8
    }
}

/// Lowercase hexadecimal of a byte string, two digits a byte.
pub open spec fn hex_bytes(s: Seq<u8>) -> Seq<u8>
    decreases s.len(),
{
    if s.len() == 0 {
        Seq::empty()
    } else {
        hex_bytes(s.drop_last()) + seq![hex_digit(s.last() / 16), hex_digit(s.last() % 16)]
    }
}

/// The decimal character rendering of a byte value, without leading zeros.
pub open spec fn dec_byte(b: u8) -> Seq<u8> {
    if b < 10 {
        seq![(b + 48) as u8]
    } else if b < 100 {
        seq![((b / 10) + 48) as u8, ((b % 10) + 48) as u8]
    } else {
        seq![((b / 100) + 48) as u8, (((b / 10) % 10) + 48) as u8, ((b % 10) + 48) as u8]
    }
}

/// The comma-separated decimal items of a byte array.
pub open spec fn json_bytes_items(v: Seq<u8>) -> Seq<u8>
    decreases v.len(),
{
    if v.len() == 0 {
        Seq::empty()
    } else if v.len() == 1 {
        dec_byte(v[0])
    } else {
        json_bytes_items(v.drop_last()) + seq![COMMA] + dec_byte(v.last())
    }
}

/// A byte array as a JSON array of decimal values.
pub open spec fn json_bytes(v: Seq<u8>) -> Seq<u8> {
    seq![LBRACKET] + json_bytes_items(v) + seq![RBRACKET]
}

/// An address as a JSON object key: quoted `0x`-prefixed lowercase
/// hexadecimal, followed by the key-value colon.
pub open spec fn json_key(addr: Seq<u8>) -> Seq<u8> {
    seq![QUOTE, CHAR_ZERO, CHAR_X] + hex_bytes(addr) + seq![QUOTE, COLON]
}

/// The comma-separated entries of the parts object.
pub open spec fn json_part_entries(m: Seq<(Seq<u8>, Seq<u8>)>) -> Seq<u8>
    decreases m.len(),
{
    if m.len() == 0 {
        Seq::empty()
    } else if m.len() == 1 {
        json_key(m[0].0) + json_bytes(m[0].1)
    } else {
        json_part_entries(m.drop_last()) + seq![COMMA] + json_key(m.last().0) + json_bytes(
            m.last().1,
        )
    }
}

/// The comma-separated items of one validator's ack list.
pub open spec fn json_ack_items(ls: Seq<Seq<u8>>) -> Seq<u8>
    decreases ls.len(),
{
    if ls.len() == 0 {
        Seq::empty()
    } else if ls.len() == 1 {
        json_bytes(ls[0])
    } else {
        json_ack_items(ls.drop_last()) + seq![COMMA] + json_bytes(ls.last())
    }
}

/// One validator's ack list as a JSON array of byte arrays.
pub open spec fn json_ack_value(ls: Seq<Seq<u8>>) -> Seq<u8> {
    seq![LBRACKET] + json_ack_items(ls) + seq![RBRACKET]
}

/// The comma-separated entries of the acks object.
pub open spec fn json_ack_entries(m: Seq<(Seq<u8>, Seq<Seq<u8>>)>) -> Seq<u8>
    decreases m.len(),
{
    if m.len() == 0 {
        Seq::empty()
    } else if m.len() == 1 {
        json_key(m[0].0) + json_ack_value(m[0].1)
    } else {
        json_ack_entries(m.drop_last()) + seq![COMMA] + json_key(m.last().0) + json_ack_value(
            m.last().1,
        )
    }
}

/// The opening of the document: `{"parts":{`.
pub open spec fn doc_head() -> Seq<u8> {
    seq![LBRACE, QUOTE, 112u8, 97u8, 114u8, 116u8, 115u8, QUOTE, COLON, LBRACE]
}

/// The middle of the document: `},"acks":{`.
pub open spec fn doc_mid() -> Seq<u8> {
    seq![RBRACE, COMMA, QUOTE, 97u8, 99u8, 107u8, 115u8, QUOTE, COLON, LBRACE]
}

/// The whole document: the parts object, then the acks object.
pub open spec fn json_document(
    parts: Seq<(Seq<u8>, Seq<u8>)>,
    acks: Seq<(Seq<u8>, Seq<Seq<u8>>)>,
) -> Seq<u8> {
    doc_head() + json_part_entries(parts) + doc_mid() + json_ack_entries(acks) + seq![RBRACE, RBRACE]
}

// ---------------------------------------------------------------------------
// The rendering is ASCII.
// ---------------------------------------------------------------------------

/// Every byte is an ASCII code point.
pub open spec fn ascii(s: Seq<u8>) -> bool {
    forall|i: int| 0 <= i < s.len() ==> s[i] < 128
}

/// ASCII survives concatenation.
proof fn lemma_ascii_concat(a: Seq<u8>, b: Seq<u8>)
    requires
        ascii(a),
        ascii(b),
    ensures
        ascii(a + b),
{
    assert forall|i: int| 0 <= i < (a + b).len() implies (a + b)[i] < 128 by {
        if i < a.len() {
            assert((a + b)[i] == a[i]);
        } else {
            assert((a + b)[i] == b[i - a.len()]);
        }
    }
}

/// A single ASCII byte is an ASCII string.
proof fn lemma_ascii_one(x: u8)
    requires
        x < 128,
    ensures
        ascii(seq![x]),
{
    assert forall|i: int| 0 <= i < seq![x].len() implies seq![x][i] < 128 by {
        assert(seq![x][i] == x);
    }
}

/// Decimal renderings are ASCII.
proof fn lemma_ascii_dec(b: u8)
    ensures
        ascii(dec_byte(b)),
{
    assert forall|i: int| 0 <= i < dec_byte(b).len() implies dec_byte(b)[i] < 128 by {}
}

/// Hexadecimal renderings are ASCII.
proof fn lemma_ascii_hex(s: Seq<u8>)
    ensures
        ascii(hex_bytes(s)),
    decreases s.len(),
{
    if s.len() > 0 {
        lemma_ascii_hex(s.drop_last());
        let two = seq![hex_digit(s.last() / 16), hex_digit(s.last() % 16)];
        assert forall|i: int| 0 <= i < two.len() implies two[i] < 128 by {}
        lemma_ascii_concat(hex_bytes(s.drop_last()), two);
    }
}

/// Decimal byte arrays are ASCII.
proof fn lemma_ascii_json_bytes(v: Seq<u8>)
    ensures
        ascii(json_bytes_items(v)),
        ascii(json_bytes(v)),
    decreases v.len(),
{
    if v.len() == 1 {
        lemma_ascii_dec(v[0]);
    } else if v.len() > 1 {
        lemma_ascii_json_bytes(v.drop_last());
        lemma_ascii_one(COMMA);
        lemma_ascii_dec(v.last());
        lemma_ascii_concat(json_bytes_items(v.drop_last()), seq![COMMA]);
        lemma_ascii_concat(json_bytes_items(v.drop_last()) + seq![COMMA], dec_byte(v.last()));
    }
    lemma_ascii_one(LBRACKET);
    lemma_ascii_one(RBRACKET);
    lemma_ascii_concat(seq![LBRACKET], json_bytes_items(v));
    lemma_ascii_concat(seq![LBRACKET] + json_bytes_items(v), seq![RBRACKET]);
}

/// Address keys are ASCII.
proof fn lemma_ascii_key(addr: Seq<u8>)
    ensures
        ascii(json_key(addr)),
{
    let head = seq![QUOTE, CHAR_ZERO, CHAR_X];
    let tail = seq![QUOTE, COLON];
    assert forall|i: int| 0 <= i < head.len() implies head[i] < 128 by {}
    assert forall|i: int| 0 <= i < tail.len() implies tail[i] < 128 by {}
    lemma_ascii_hex(addr);
    lemma_ascii_concat(head, hex_bytes(addr));
    lemma_ascii_concat(head + hex_bytes(addr), tail);
}

/// The parts object's entries are ASCII.
proof fn lemma_ascii_part_entries(m: Seq<(Seq<u8>, Seq<u8>)>)
    ensures
        ascii(json_part_entries(m)),
    decreases m.len(),
{
    if m.len() == 1 {
        lemma_ascii_key(m[0].0);
        lemma_ascii_json_bytes(m[0].1);
        lemma_ascii_concat(json_key(m[0].0), json_bytes(m[0].1));
    } else if m.len() > 1 {
        lemma_ascii_part_entries(m.drop_last());
        lemma_ascii_one(COMMA);
        lemma_ascii_key(m.last().0);
        lemma_ascii_json_bytes(m.last().1);
        lemma_ascii_concat(json_part_entries(m.drop_last()), seq![COMMA]);
        lemma_ascii_concat(json_part_entries(m.drop_last()) + seq![COMMA], json_key(m.last().0));
        lemma_ascii_concat(
            json_part_entries(m.drop_last()) + seq![COMMA] + json_key(m.last().0),
            json_bytes(m.last().1),
        );
    }
}

/// One validator's ack list is ASCII.
proof fn lemma_ascii_ack_value(ls: Seq<Seq<u8>>)
    ensures
        ascii(json_ack_items(ls)),
        ascii(json_ack_value(ls)),
    decreases ls.len(),
{
    if ls.len() == 1 {
        lemma_ascii_json_bytes(ls[0]);
    } else if ls.len() > 1 {
        lemma_ascii_ack_value(ls.drop_last());
        lemma_ascii_one(COMMA);
        lemma_ascii_json_bytes(ls.last());
        lemma_ascii_concat(json_ack_items(ls.drop_last()), seq![COMMA]);
        lemma_ascii_concat(json_ack_items(ls.drop_last()) + seq![COMMA], json_bytes(ls.last()));
    }
    lemma_ascii_one(LBRACKET);
    lemma_ascii_one(RBRACKET);
    lemma_ascii_concat(seq![LBRACKET], json_ack_items(ls));
    lemma_ascii_concat(seq![LBRACKET] + json_ack_items(ls), seq![RBRACKET]);
}

/// The acks object's entries are ASCII.
proof fn lemma_ascii_ack_entries(m: Seq<(Seq<u8>, Seq<Seq<u8>>)>)
    ensures
        ascii(json_ack_entries(m)),
    decreases m.len(),
{
    if m.len() == 1 {
        lemma_ascii_key(m[0].0);
        lemma_ascii_ack_value(m[0].1);
        lemma_ascii_concat(json_key(m[0].0), json_ack_value(m[0].1));
    } else if m.len() > 1 {
        lemma_ascii_ack_entries(m.drop_last());
        lemma_ascii_one(COMMA);
        lemma_ascii_key(m.last().0);
        lemma_ascii_ack_value(m.last().1);
        lemma_ascii_concat(json_ack_entries(m.drop_last()), seq![COMMA]);
        lemma_ascii_concat(json_ack_entries(m.drop_last()) + seq![COMMA], json_key(m.last().0));
        lemma_ascii_concat(
            json_ack_entries(m.drop_last()) + seq![COMMA] + json_key(m.last().0),
            json_ack_value(m.last().1),
        );
    }
}

/// The whole rendered document is ASCII.
pub proof fn lemma_ascii_document(
    parts: Seq<(Seq<u8>, Seq<u8>)>,
    acks: Seq<(Seq<u8>, Seq<Seq<u8>>)>,
)
    ensures
        ascii(json_document(parts, acks)),
{
    assert forall|i: int| 0 <= i < doc_head().len() implies doc_head()[i] < 128 by {}
    assert forall|i: int| 0 <= i < doc_mid().len() implies doc_mid()[i] < 128 by {}
    let two = seq![RBRACE, RBRACE];
    assert forall|i: int| 0 <= i < two.len() implies two[i] < 128 by {}
    lemma_ascii_part_entries(parts);
    lemma_ascii_ack_entries(acks);
    lemma_ascii_concat(doc_head(), json_part_entries(parts));
    lemma_ascii_concat(doc_head() + json_part_entries(parts), doc_mid());
    lemma_ascii_concat(doc_head() + json_part_entries(parts) + doc_mid(), json_ack_entries(acks));
    lemma_ascii_concat(
        doc_head() + json_part_entries(parts) + doc_mid() + json_ack_entries(acks),
        two,
    );
}

// ---------------------------------------------------------------------------
// Rendering, byte by byte.
// ---------------------------------------------------------------------------

/// Computes a lowercase hexadecimal digit character.
fn hexd(x: u8) -> (r: u8)
    requires
        x < 16,
    ensures
        r == hex_digit(x),
{
    if x < 10 {
        x + 48
    } else {
        x + 87
    }
}

/// Appends the decimal rendering of a byte.
fn push_dec(out: &mut Vec<u8>, b: u8)
    ensures
        final(out)@ == old(out)@ + dec_byte(b),
{
    if b < 10 {
        out.push(b + 48);
        proof {
            assert(out@ =~= old(out)@ + dec_byte(b));
        }
    } else if b < 100 {
        out.push(b / 10 + 48);
        out.push(b % 10 + 48);
        proof {
            assert(out@ =~= old(out)@ + dec_byte(b));
        }
    } else {
        out.push(b / 100 + 48);
        out.push((b / 10) % 10 + 48);
        out.push(b % 10 + 48);
        proof {
            assert(out@ =~= old(out)@ + dec_byte(b));
        }
    }
}

/// Appends the hexadecimal rendering of a byte string.
fn push_hex(out: &mut Vec<u8>, s: &Vec<u8>)
    ensures
        final(out)@ == old(out)@ + hex_bytes(s@),
{
    proof {
        assert(out@ =~= old(out)@ + hex_bytes(s@.take(0)));
    }
    let mut i: usize = 0;
    while i < s.len()
        invariant
            i <= s@.len(),
            out@ == old(out)@ + hex_bytes(s@.take(i as int)),
        decreases s@.len() - i,
    {
        let b = s[i];
        let hi = hexd(b / 16);
        let lo = hexd(b % 16);
        out.push(hi);
        out.push(lo);
        proof {
            assert(s@.take(i + 1).drop_last() =~= s@.take(i as int));
            assert(s@.take(i + 1).last() == s@[i as int]);
            assert(out@ =~= old(out)@ + hex_bytes(s@.take(i + 1)));
        }
        i = i + 1;
    }
    proof {
        assert(s@.take(s@.len() as int) =~= s@);
    }
}

/// Appends a byte array as a JSON decimal array.
fn push_json_bytes(out: &mut Vec<u8>, v: &Vec<u8>)
    ensures
        final(out)@ == old(out)@ + json_bytes(v@),
{
    out.push(LBRACKET);
    proof {
        assert(out@ =~= old(out)@ + seq![LBRACKET] + json_bytes_items(v@.take(0)));
    }
    let mut i: usize = 0;
    while i < v.len()
        invariant
            i <= v@.len(),
            out@ == old(out)@ + seq![LBRACKET] + json_bytes_items(v@.take(i as int)),
        decreases v@.len() - i,
    {
        if i > 0 {
            out.push(COMMA);
        }
        let b = v[i];
        push_dec(out, b);
        proof {
            assert(v@.take(i + 1).drop_last() =~= v@.take(i as int));
            assert(v@.take(i + 1).last() == v@[i as int]);
            if i == 0 {
                assert(v@.take(1)[0] == v@[0]);
                assert(json_bytes_items(v@.take(1)) == dec_byte(v@[0]));
            }
            assert(out@ =~= old(out)@ + seq![LBRACKET] + json_bytes_items(v@.take(i + 1)));
        }
        i = i + 1;
    }
    out.push(RBRACKET);
    proof {
        assert(v@.take(v@.len() as int) =~= v@);
        assert(out@ =~= old(out)@ + json_bytes(v@));
    }
}

/// Appends an address as an object key: `"0x<hex>":`.
fn push_key(out: &mut Vec<u8>, addr: &Vec<u8>)
    ensures
        final(out)@ == old(out)@ + json_key(addr@),
{
    out.push(QUOTE);
    out.push(CHAR_ZERO);
    out.push(CHAR_X);
    push_hex(out, addr);
    out.push(QUOTE);
    out.push(COLON);
    proof {
        assert(out@ =~= old(out)@ + json_key(addr@));
    }
}

/// Appends one validator's ack list as a JSON array of byte arrays.
fn push_ack_value(out: &mut Vec<u8>, ls: &Vec<Vec<u8>>)
    ensures
        final(out)@ == old(out)@ + json_ack_value(ls.deep_view()),
{
    out.push(LBRACKET);
    proof {
        assert(out@ =~= old(out)@ + seq![LBRACKET] + json_ack_items(ls.deep_view().take(0)));
    }
    let mut i: usize = 0;
    while i < ls.len()
        invariant
            i <= ls@.len(),
            out@ == old(out)@ + seq![LBRACKET] + json_ack_items(ls.deep_view().take(i as int)),
        decreases ls@.len() - i,
    {
        if i > 0 {
            out.push(COMMA);
        }
        push_json_bytes(out, &ls[i]);
        proof {
            let dv = ls.deep_view();
            assert(dv[i as int] =~= ls@[i as int]@);
            assert(dv.take(i + 1).drop_last() =~= dv.take(i as int));
            assert(dv.take(i + 1).last() == dv[i as int]);
            if i == 0 {
                assert(dv.take(1)[0] == dv[0]);
                assert(json_ack_items(dv.take(1)) == json_bytes(dv[0]));
            }
            assert(out@ =~= old(out)@ + seq![LBRACKET] + json_ack_items(dv.take(i + 1)));
        }
        i = i + 1;
    }
    out.push(RBRACKET);
    proof {
        let dv = ls.deep_view();
        assert(dv.take(dv.len() as int) =~= dv);
        assert(out@ =~= old(out)@ + json_ack_value(dv));
    }
}

/// Renders the whole document: exactly `json_document` of the two mappings.
/// Rendering always succeeds; there is no failure path.
pub fn doc_json(doc: &KeyGenHistoryData) -> (r: Vec<u8>)
    ensures
        r@ == json_document(doc.parts_view(), doc.acks_view()),
{
    let mut out: Vec<u8> = Vec::new();
    out.push(LBRACE);
    out.push(QUOTE);
    out.push(112);
    out.push(97);
    out.push(114);
    out.push(116);
    out.push(115);
    out.push(QUOTE);
    out.push(COLON);
    out.push(LBRACE);
    proof {
        assert(out@ =~= doc_head() + json_part_entries(doc.parts_view().take(0)));
    }
    let mut i: usize = 0;
    while i < doc.parts.len()
        invariant
            i <= doc.parts@.len(),
            out@ == doc_head() + json_part_entries(doc.parts_view().take(i as int)),
        decreases doc.parts@.len() - i,
    {
        if i > 0 {
            out.push(COMMA);
        }
        push_key(&mut out, &doc.parts[i].0);
        push_json_bytes(&mut out, &doc.parts[i].1);
        proof {
            let pv = doc.parts_view();
            assert(pv[i as int] == (doc.parts@[i as int].0@, doc.parts@[i as int].1@));
            assert(pv.take(i + 1).drop_last() =~= pv.take(i as int));
            assert(pv.take(i + 1).last() == pv[i as int]);
            if i == 0 {
                assert(pv.take(1)[0] == pv[0]);
                assert(json_part_entries(pv.take(1)) == json_key(pv[0].0) + json_bytes(pv[0].1));
            }
            assert(out@ =~= doc_head() + json_part_entries(pv.take(i + 1)));
        }
        i = i + 1;
    }
    out.push(RBRACE);
    out.push(COMMA);
    out.push(QUOTE);
    out.push(97);
    out.push(99);
    out.push(107);
    out.push(115);
    out.push(QUOTE);
    out.push(COLON);
    out.push(LBRACE);
    proof {
        assert(doc.parts_view().take(doc.parts@.len() as int) =~= doc.parts_view());
        assert(out@ =~= doc_head() + json_part_entries(doc.parts_view()) + doc_mid()
            + json_ack_entries(doc.acks_view().take(0)));
    }
    let mut k: usize = 0;
    while k < doc.acks.len()
        invariant
            k <= doc.acks@.len(),
            out@ == doc_head() + json_part_entries(doc.parts_view()) + doc_mid()
                + json_ack_entries(doc.acks_view().take(k as int)),
        decreases doc.acks@.len() - k,
    {
        if k > 0 {
            out.push(COMMA);
        }
        push_key(&mut out, &doc.acks[k].0);
        push_ack_value(&mut out, &doc.acks[k].1);
        proof {
            let av = doc.acks_view();
            assert(av[k as int] == (doc.acks@[k as int].0@, doc.acks@[k as int].1.deep_view()));
            assert(av.take(k + 1).drop_last() =~= av.take(k as int));
            assert(av.take(k + 1).last() == av[k as int]);
            if k == 0 {
                assert(av.take(1)[0] == av[0]);
                assert(json_ack_entries(av.take(1)) == json_key(av[0].0) + json_ack_value(
                    av[0].1,
                ));
            }
            assert(out@ =~= doc_head() + json_part_entries(doc.parts_view()) + doc_mid()
                + json_ack_entries(av.take(k + 1)));
        }
        k = k + 1;
    }
    out.push(RBRACE);
    out.push(RBRACE);
    proof {
        assert(doc.acks_view().take(doc.acks@.len() as int) =~= doc.acks_view());
        assert(out@ =~= json_document(doc.parts_view(), doc.acks_view()));
    }
    out
}

} // verus!
