//! The wire codec for slates.
//!
//! A slate travels between parties as a little-endian byte string: a
//! 42-byte header — version, identifier, amount, fee, contribution count —
//! followed by one 33-byte block per contribution.  Encoding pins the
//! document down completely: two slates with the same encoding carry the
//! same identifier, amount, fee, version and contributions, and decoding
//! accepts exactly the well-shaped byte strings and returns the document
//! they encode.  The free-text annotation is carried out of band and is
//! not part of the wire format.

use vstd::prelude::*;
use crate::WalletError;
use crate::slate::{ParticipantData, Slate};

verus! {

/// Little-endian byte `i` of a 16-bit value.
pub open spec fn u16_byte(x: u16, i: int) -> u8 {
    ((x >> ((8 * i) as u16)) & 0xff) as u8
}

/// Little-endian byte `i` of a 64-bit value.
pub open spec fn u64_byte(x: u64, i: int) -> u8 {
    ((x >> ((8 * i) as u64)) & 0xff) as u8
}

/// Little-endian byte `i` of a 128-bit value.
pub open spec fn u128_byte(x: u128, i: int) -> u8 {
    ((x >> ((8 * i) as u128)) & 0xff) as u8
}

/// The two little-endian bytes of a 16-bit value.
pub open spec fn le16(x: u16) -> Seq<u8> {
    seq![u16_byte(x, 0), u16_byte(x, 1)]
}

/// The eight little-endian bytes of a 64-bit value.
pub open spec fn le64(x: u64) -> Seq<u8> {
    seq![
        u64_byte(x, 0), u64_byte(x, 1), u64_byte(x, 2), u64_byte(x, 3),
        u64_byte(x, 4), u64_byte(x, 5), u64_byte(x, 6), u64_byte(x, 7),
    ]
}

/// The sixteen little-endian bytes of a 128-bit value.
pub open spec fn le128(x: u128) -> Seq<u8> {
    seq![
        u128_byte(x, 0), u128_byte(x, 1), u128_byte(x, 2), u128_byte(x, 3),
        u128_byte(x, 4), u128_byte(x, 5), u128_byte(x, 6), u128_byte(x, 7),
        u128_byte(x, 8), u128_byte(x, 9), u128_byte(x, 10), u128_byte(x, 11),
        u128_byte(x, 12), u128_byte(x, 13), u128_byte(x, 14), u128_byte(x, 15),
    ]
}

/// The 33-byte wire block of one contribution.
pub open spec fn part_bytes(p: ParticipantData) -> Seq<u8> {
    le64(p.id) + le64(p.commit) + le64(p.nonce)
        + seq![if p.has_sig { 1u8 } else { 0u8 }] + le64(p.sig)
}

/// The wire blocks of a contribution list, in order.
pub open spec fn parts_bytes(ps: Seq<ParticipantData>) -> Seq<u8>
    decreases ps.len(),
{
    if ps.len() == 0 {
        Seq::empty()
    } else {
        part_bytes(ps[0]) + parts_bytes(ps.drop_first())
    }
}

/// The full wire form of a slate's negotiated payload.
pub open spec fn slate_bytes(
    id: u128,
    version: u16,
    amount: u64,
    fee: u64,
    ps: Seq<ParticipantData>,
) -> Seq<u8> {
    le16(version) + le128(id) + le64(amount) + le64(fee) + le64(ps.len() as u64)
        + parts_bytes(ps)
}

/// A byte string that is the wire form of some slate payload.
pub open spec fn decodable(b: Seq<u8>) -> bool {
    exists|id: u128, version: u16, amount: u64, fee: u64, ps: Seq<ParticipantData>|
        ps.len() <= u64::MAX && b == slate_bytes(id, version, amount, fee, ps)
}

proof fn lemma_le16_inj(x: u16, y: u16)
    requires
        le16(x) == le16(y),
    ensures
        x == y,
{
    assert(u16_byte(x, 0) == u16_byte(y, 0)) by {
        assert(le16(x)[0] == le16(y)[0]);
    }
    assert(u16_byte(x, 1) == u16_byte(y, 1)) by {
        assert(le16(x)[1] == le16(y)[1]);
    }
    assert((((x >> 0u16) & 0xff) as u8 == ((y >> 0u16) & 0xff) as u8
        && ((x >> 8u16) & 0xff) as u8 == ((y >> 8u16) & 0xff) as u8) ==> x == y)
        by (bit_vector);
}

proof fn lemma_le64_inj(x: u64, y: u64)
    requires
        le64(x) == le64(y),
    ensures
        x == y,
{
    assert forall|i: int| 0 <= i < 8 implies u64_byte(x, i) == u64_byte(y, i) by {
        assert(le64(x)[i] == le64(y)[i]);
    }
    assert(u64_byte(x, 0) == u64_byte(y, 0));
    assert(u64_byte(x, 1) == u64_byte(y, 1));
    assert(u64_byte(x, 2) == u64_byte(y, 2));
    assert(u64_byte(x, 3) == u64_byte(y, 3));
    assert(u64_byte(x, 4) == u64_byte(y, 4));
    assert(u64_byte(x, 5) == u64_byte(y, 5));
    assert(u64_byte(x, 6) == u64_byte(y, 6));
    assert(u64_byte(x, 7) == u64_byte(y, 7));
    assert((((x >> 0u64) & 0xff) as u8 == ((y >> 0u64) & 0xff) as u8
        && ((x >> 8u64) & 0xff) as u8 == ((y >> 8u64) & 0xff) as u8
        && ((x >> 16u64) & 0xff) as u8 == ((y >> 16u64) & 0xff) as u8
        && ((x >> 24u64) & 0xff) as u8 == ((y >> 24u64) & 0xff) as u8
        && ((x >> 32u64) & 0xff) as u8 == ((y >> 32u64) & 0xff) as u8
        && ((x >> 40u64) & 0xff) as u8 == ((y >> 40u64) & 0xff) as u8
        && ((x >> 48u64) & 0xff) as u8 == ((y >> 48u64) & 0xff) as u8
        && ((x >> 56u64) & 0xff) as u8 == ((y >> 56u64) & 0xff) as u8) ==> x == y)
        by (bit_vector);
}

proof fn lemma_le128_inj(x: u128, y: u128)
    requires
        le128(x) == le128(y),
    ensures
        x == y,
{
    assert forall|i: int| 0 <= i < 16 implies u128_byte(x, i) == u128_byte(y, i) by {
        assert(le128(x)[i] == le128(y)[i]);
    }
    assert(u128_byte(x, 0) == u128_byte(y, 0));
    assert(u128_byte(x, 1) == u128_byte(y, 1));
    assert(u128_byte(x, 2) == u128_byte(y, 2));
    assert(u128_byte(x, 3) == u128_byte(y, 3));
    assert(u128_byte(x, 4) == u128_byte(y, 4));
    assert(u128_byte(x, 5) == u128_byte(y, 5));
    assert(u128_byte(x, 6) == u128_byte(y, 6));
    assert(u128_byte(x, 7) == u128_byte(y, 7));
    assert(u128_byte(x, 8) == u128_byte(y, 8));
    assert(u128_byte(x, 9) == u128_byte(y, 9));
    assert(u128_byte(x, 10) == u128_byte(y, 10));
    assert(u128_byte(x, 11) == u128_byte(y, 11));
    assert(u128_byte(x, 12) == u128_byte(y, 12));
    assert(u128_byte(x, 13) == u128_byte(y, 13));
    assert(u128_byte(x, 14) == u128_byte(y, 14));
    assert(u128_byte(x, 15) == u128_byte(y, 15));
    assert((((x >> 0u128) & 0xff) as u8 == ((y >> 0u128) & 0xff) as u8
        && ((x >> 8u128) & 0xff) as u8 == ((y >> 8u128) & 0xff) as u8
        && ((x >> 16u128) & 0xff) as u8 == ((y >> 16u128) & 0xff) as u8
        && ((x >> 24u128) & 0xff) as u8 == ((y >> 24u128) & 0xff) as u8
        && ((x >> 32u128) & 0xff) as u8 == ((y >> 32u128) & 0xff) as u8
        && ((x >> 40u128) & 0xff) as u8 == ((y >> 40u128) & 0xff) as u8
        && ((x >> 48u128) & 0xff) as u8 == ((y >> 48u128) & 0xff) as u8
        && ((x >> 56u128) & 0xff) as u8 == ((y >> 56u128) & 0xff) as u8
        && ((x >> 64u128) & 0xff) as u8 == ((y >> 64u128) & 0xff) as u8
        && ((x >> 72u128) & 0xff) as u8 == ((y >> 72u128) & 0xff) as u8
        && ((x >> 80u128) & 0xff) as u8 == ((y >> 80u128) & 0xff) as u8
        && ((x >> 88u128) & 0xff) as u8 == ((y >> 88u128) & 0xff) as u8
        && ((x >> 96u128) & 0xff) as u8 == ((y >> 96u128) & 0xff) as u8
        && ((x >> 104u128) & 0xff) as u8 == ((y >> 104u128) & 0xff) as u8
        && ((x >> 112u128) & 0xff) as u8 == ((y >> 112u128) & 0xff) as u8
        && ((x >> 120u128) & 0xff) as u8 == ((y >> 120u128) & 0xff) as u8) ==> x == y)
        by (bit_vector);
}

/// Splitting a concatenation at a known length is unambiguous.
proof fn lemma_concat_split(a1: Seq<u8>, b1: Seq<u8>, a2: Seq<u8>, b2: Seq<u8>)
    requires
        a1.len() == a2.len(),
        a1 + b1 == a2 + b2,
    ensures
        a1 == a2,
        b1 == b2,
{
    assert((a1 + b1).len() == a1.len() + b1.len());
    assert((a2 + b2).len() == a2.len() + b2.len());
    assert((a1 + b1).len() == (a2 + b2).len());
    assert(a1 =~= a2) by {
        assert forall|i: int| 0 <= i < a1.len() implies a1[i] == a2[i] by {
            assert((a1 + b1)[i] == a1[i]);
            assert((a2 + b2)[i] == a2[i]);
        }
    }
    assert(b1.len() == b2.len());
    assert(b1 =~= b2) by {
        assert forall|i: int| 0 <= i < b1.len() implies b1[i] == b2[i] by {
            let j = a1.len() + i;
            assert((a1 + b1)[j] == b1[j - a1.len()]);
            assert((a2 + b2)[j] == b2[j - a2.len()]);
        }
    }
}

proof fn lemma_parts_bytes_len(ps: Seq<ParticipantData>)
    ensures
        parts_bytes(ps).len() == 33 * ps.len(),
    decreases ps.len(),
{
    if ps.len() > 0 {
        lemma_parts_bytes_len(ps.drop_first());
    }
}

proof fn lemma_part_inj(p: ParticipantData, q: ParticipantData)
    requires
        part_bytes(p) == part_bytes(q),
    ensures
        p == q,
{
    let head_p = le64(p.id) + le64(p.commit) + le64(p.nonce)
        + seq![if p.has_sig { 1u8 } else { 0u8 }];
    let head_q = le64(q.id) + le64(q.commit) + le64(q.nonce)
        + seq![if q.has_sig { 1u8 } else { 0u8 }];
    lemma_concat_split(head_p, le64(p.sig), head_q, le64(q.sig));
    lemma_le64_inj(p.sig, q.sig);
    lemma_concat_split(le64(p.id) + le64(p.commit) + le64(p.nonce),
        seq![if p.has_sig { 1u8 } else { 0u8 }],
        le64(q.id) + le64(q.commit) + le64(q.nonce),
        seq![if q.has_sig { 1u8 } else { 0u8 }]);
    assert((seq![if p.has_sig { 1u8 } else { 0u8 }])[0]
        == (seq![if q.has_sig { 1u8 } else { 0u8 }])[0]);
    assert(p.has_sig == q.has_sig);
    lemma_concat_split(le64(p.id) + le64(p.commit), le64(p.nonce),
        le64(q.id) + le64(q.commit), le64(q.nonce));
    lemma_le64_inj(p.nonce, q.nonce);
    lemma_concat_split(le64(p.id), le64(p.commit), le64(q.id), le64(q.commit));
    lemma_le64_inj(p.id, q.id);
    lemma_le64_inj(p.commit, q.commit);
}

proof fn lemma_parts_inj(ps1: Seq<ParticipantData>, ps2: Seq<ParticipantData>)
    requires
        ps1.len() == ps2.len(),
        parts_bytes(ps1) == parts_bytes(ps2),
    ensures
        ps1 =~= ps2,
    decreases ps1.len(),
{
    if ps1.len() > 0 {
        lemma_concat_split(part_bytes(ps1[0]), parts_bytes(ps1.drop_first()),
            part_bytes(ps2[0]), parts_bytes(ps2.drop_first()));
        lemma_part_inj(ps1[0], ps2[0]);
        lemma_parts_inj(ps1.drop_first(), ps2.drop_first());
        assert(ps1 =~= ps2) by {
            assert forall|i: int| 0 <= i < ps1.len() implies ps1[i] == ps2[i] by {
                if i > 0 {
                    assert(ps1.drop_first()[i - 1] == ps2.drop_first()[i - 1]);
                }
            }
        }
    }
}

/// The wire form pins the whole payload down: two payloads with the same
/// encoding are the same payload.
pub proof fn lemma_slate_bytes_inj(
    id1: u128, v1: u16, a1: u64, f1: u64, ps1: Seq<ParticipantData>,
    id2: u128, v2: u16, a2: u64, f2: u64, ps2: Seq<ParticipantData>,
)
    requires
        ps1.len() <= u64::MAX,
        ps2.len() <= u64::MAX,
        slate_bytes(id1, v1, a1, f1, ps1) == slate_bytes(id2, v2, a2, f2, ps2),
    ensures
        id1 == id2,
        v1 == v2,
        a1 == a2,
        f1 == f2,
        ps1 =~= ps2,
{
    let h1 = le16(v1) + le128(id1) + le64(a1) + le64(f1) + le64(ps1.len() as u64);
    let h2 = le16(v2) + le128(id2) + le64(a2) + le64(f2) + le64(ps2.len() as u64);
    lemma_concat_split(h1, parts_bytes(ps1), h2, parts_bytes(ps2));
    lemma_concat_split(le16(v1) + le128(id1) + le64(a1) + le64(f1),
        le64(ps1.len() as u64),
        le16(v2) + le128(id2) + le64(a2) + le64(f2),
        le64(ps2.len() as u64));
    lemma_le64_inj(ps1.len() as u64, ps2.len() as u64);
    assert(ps1.len() == ps2.len());
    lemma_concat_split(le16(v1) + le128(id1) + le64(a1), le64(f1),
        le16(v2) + le128(id2) + le64(a2), le64(f2));
    lemma_le64_inj(f1, f2);
    lemma_concat_split(le16(v1) + le128(id1), le64(a1),
        le16(v2) + le128(id2), le64(a2));
    lemma_le64_inj(a1, a2);
    lemma_concat_split(le16(v1), le128(id1), le16(v2), le128(id2));
    lemma_le16_inj(v1, v2);
    lemma_le128_inj(id1, id2);
    lemma_parts_inj(ps1, ps2);
}

proof fn lemma_parts_bytes_push(ps: Seq<ParticipantData>, p: ParticipantData)
    ensures
        parts_bytes(ps.push(p)) == parts_bytes(ps) + part_bytes(p),
    decreases ps.len(),
{
    let q = ps.push(p);
    assert(q.len() == ps.len() + 1);
    if ps.len() == 0 {
        assert(q[0] == p);
        assert(q.drop_first() =~= Seq::<ParticipantData>::empty());
        assert(parts_bytes(q) == part_bytes(p) + parts_bytes(q.drop_first()));
        assert(parts_bytes(q.drop_first()) == Seq::<u8>::empty());
        assert(part_bytes(p) + Seq::<u8>::empty() =~= part_bytes(p));
        assert(parts_bytes(ps) == Seq::<u8>::empty());
        assert(parts_bytes(ps) + part_bytes(p) =~= part_bytes(p));
    } else {
        assert(q[0] == ps[0]);
        assert(q.drop_first() =~= ps.drop_first().push(p));
        assert(parts_bytes(q) == part_bytes(ps[0]) + parts_bytes(q.drop_first()));
        assert(parts_bytes(q.drop_first()) == parts_bytes(ps.drop_first().push(p)));
        lemma_parts_bytes_push(ps.drop_first(), p);
        assert(parts_bytes(ps) == part_bytes(ps[0]) + parts_bytes(ps.drop_first()));
        assert(part_bytes(ps[0]) + (parts_bytes(ps.drop_first()) + part_bytes(p))
            =~= (part_bytes(ps[0]) + parts_bytes(ps.drop_first())) + part_bytes(p));
        assert(parts_bytes(q) =~= parts_bytes(ps) + part_bytes(p));
    }
}

proof fn lemma_parts_block(ps: Seq<ParticipantData>, i: int)
    requires
        0 <= i < ps.len(),
    ensures
        parts_bytes(ps).subrange(33 * i, 33 * i + 33) == part_bytes(ps[i]),
    decreases i,
{
    lemma_parts_bytes_len(ps);
    lemma_parts_bytes_len(ps.drop_first());
    if i == 0 {
        assert(parts_bytes(ps).subrange(0, 33) =~= part_bytes(ps[0]));
    } else {
        lemma_parts_block(ps.drop_first(), i - 1);
        assert(parts_bytes(ps).subrange(33 * i, 33 * i + 33)
            =~= parts_bytes(ps.drop_first()).subrange(33 * (i - 1), 33 * (i - 1) + 33));
        assert(ps.drop_first()[i - 1] == ps[i]);
    }
}

proof fn lemma_part_flag(p: ParticipantData)
    ensures
        part_bytes(p).len() == 33,
        part_bytes(p)[24] == (if p.has_sig { 1u8 } else { 0u8 }),
{
    let head = le64(p.id) + le64(p.commit) + le64(p.nonce);
    assert(head.len() == 24);
    assert((head + seq![if p.has_sig { 1u8 } else { 0u8 }])[24]
        == (if p.has_sig { 1u8 } else { 0u8 }));
}

/// The layout of the wire form: total length, and where each field sits.
proof fn lemma_slate_bytes_shape(
    id: u128, v: u16, am: u64, fee: u64, ps: Seq<ParticipantData>,
)
    requires
        ps.len() <= u64::MAX,
    ensures
        slate_bytes(id, v, am, fee, ps).len() == 42 + 33 * ps.len(),
        slate_bytes(id, v, am, fee, ps).subrange(0, 2) == le16(v),
        slate_bytes(id, v, am, fee, ps).subrange(2, 18) == le128(id),
        slate_bytes(id, v, am, fee, ps).subrange(18, 26) == le64(am),
        slate_bytes(id, v, am, fee, ps).subrange(26, 34) == le64(fee),
        slate_bytes(id, v, am, fee, ps).subrange(34, 42) == le64(ps.len() as u64),
        slate_bytes(id, v, am, fee, ps).subrange(42, 42 + 33 * ps.len() as int)
            == parts_bytes(ps),
{
    lemma_parts_bytes_len(ps);
    let t = slate_bytes(id, v, am, fee, ps);
    assert(t.subrange(0, 2) =~= le16(v));
    assert(t.subrange(2, 18) =~= le128(id));
    assert(t.subrange(18, 26) =~= le64(am));
    assert(t.subrange(26, 34) =~= le64(fee));
    assert(t.subrange(34, 42) =~= le64(ps.len() as u64));
    assert(t.subrange(42, 42 + 33 * ps.len() as int) =~= parts_bytes(ps));
}

fn push_u16_le(out: &mut Vec<u8>, x: u16)
    ensures
        final(out)@ == old(out)@ + le16(x),
{
    out.push(((x >> 0u16) & 0xff) as u8);
    out.push(((x >> 8u16) & 0xff) as u8);
    proof {
        assert(out@ =~= old(out)@ + le16(x));
    }
}

fn push_u64_le(out: &mut Vec<u8>, x: u64)
    ensures
        final(out)@ == old(out)@ + le64(x),
{
    out.push(((x >> 0u64) & 0xff) as u8);
    out.push(((x >> 8u64) & 0xff) as u8);
    out.push(((x >> 16u64) & 0xff) as u8);
    out.push(((x >> 24u64) & 0xff) as u8);
    out.push(((x >> 32u64) & 0xff) as u8);
    out.push(((x >> 40u64) & 0xff) as u8);
    out.push(((x >> 48u64) & 0xff) as u8);
    out.push(((x >> 56u64) & 0xff) as u8);
    proof {
        assert(out@ =~= old(out)@ + le64(x));
    }
}

fn push_u128_le(out: &mut Vec<u8>, x: u128)
    ensures
        final(out)@ == old(out)@ + le128(x),
{
    out.push(((x >> 0u128) & 0xff) as u8);
    out.push(((x >> 8u128) & 0xff) as u8);
    out.push(((x >> 16u128) & 0xff) as u8);
    out.push(((x >> 24u128) & 0xff) as u8);
    out.push(((x >> 32u128) & 0xff) as u8);
    out.push(((x >> 40u128) & 0xff) as u8);
    out.push(((x >> 48u128) & 0xff) as u8);
    out.push(((x >> 56u128) & 0xff) as u8);
    out.push(((x >> 64u128) & 0xff) as u8);
    out.push(((x >> 72u128) & 0xff) as u8);
    out.push(((x >> 80u128) & 0xff) as u8);
    out.push(((x >> 88u128) & 0xff) as u8);
    out.push(((x >> 96u128) & 0xff) as u8);
    out.push(((x >> 104u128) & 0xff) as u8);
    out.push(((x >> 112u128) & 0xff) as u8);
    out.push(((x >> 120u128) & 0xff) as u8);
    proof {
        assert(out@ =~= old(out)@ + le128(x));
    }
}

fn read_u16_le(b: &Vec<u8>, pos: usize) -> (x: u16)
    requires
        pos + 2 <= b@.len(),
    ensures
        le16(x) == b@.subrange(pos as int, pos as int + 2),
{
    let ghost blen = b.len();
    let b0 = b[pos] as u16;
    let b1 = b[pos + 1] as u16;
    let x = b0 | (b1 << 8u16);
    proof {
        assert(b0 <= 0xff && b1 <= 0xff ==> {
            &&& (((b0 | (b1 << 8u16)) >> 0u16) & 0xff) as u8 == b0 as u8
            &&& (((b0 | (b1 << 8u16)) >> 8u16) & 0xff) as u8 == b1 as u8
        }) by (bit_vector);
        assert(le16(x) =~= b@.subrange(pos as int, pos as int + 2));
    }
    x
}

fn read_u64_le(b: &Vec<u8>, pos: usize) -> (x: u64)
    requires
        pos + 8 <= b@.len(),
    ensures
        le64(x) == b@.subrange(pos as int, pos as int + 8),
{
    let ghost blen = b.len();
    let b0 = b[pos] as u64;
    let b1 = b[pos + 1] as u64;
    let b2 = b[pos + 2] as u64;
    let b3 = b[pos + 3] as u64;
    let b4 = b[pos + 4] as u64;
    let b5 = b[pos + 5] as u64;
    let b6 = b[pos + 6] as u64;
    let b7 = b[pos + 7] as u64;
    let x = b0 | (b1 << 8u64) | (b2 << 16u64) | (b3 << 24u64) | (b4 << 32u64)
        | (b5 << 40u64) | (b6 << 48u64) | (b7 << 56u64);
    proof {
        let y = b0 | (b1 << 8u64) | (b2 << 16u64) | (b3 << 24u64) | (b4 << 32u64)
            | (b5 << 40u64) | (b6 << 48u64) | (b7 << 56u64);
        assert(b0 <= 0xff && b1 <= 0xff && b2 <= 0xff && b3 <= 0xff && b4 <= 0xff
            && b5 <= 0xff && b6 <= 0xff && b7 <= 0xff
            && y == (b0 | (b1 << 8u64) | (b2 << 16u64) | (b3 << 24u64) | (b4 << 32u64)
                | (b5 << 40u64) | (b6 << 48u64) | (b7 << 56u64)) ==> {
            &&& ((y >> 0u64) & 0xff) as u8 == b0 as u8
            &&& ((y >> 8u64) & 0xff) as u8 == b1 as u8
            &&& ((y >> 16u64) & 0xff) as u8 == b2 as u8
            &&& ((y >> 24u64) & 0xff) as u8 == b3 as u8
            &&& ((y >> 32u64) & 0xff) as u8 == b4 as u8
            &&& ((y >> 40u64) & 0xff) as u8 == b5 as u8
            &&& ((y >> 48u64) & 0xff) as u8 == b6 as u8
            &&& ((y >> 56u64) & 0xff) as u8 == b7 as u8
        }) by (bit_vector);
        assert(le64(x) =~= b@.subrange(pos as int, pos as int + 8));
    }
    x
}

fn read_u128_le(b: &Vec<u8>, pos: usize) -> (x: u128)
    requires
        pos + 16 <= b@.len(),
    ensures
        le128(x) == b@.subrange(pos as int, pos as int + 16),
{
    let ghost blen = b.len();
    let lo = read_u64_le(b, pos);
    let hi = read_u64_le(b, pos + 8);
    let x = (lo as u128) | ((hi as u128) << 64u128);
    proof {
        let l = lo as u128;
        let h = hi as u128;
        assert(l <= 0xffff_ffff_ffff_ffff && h <= 0xffff_ffff_ffff_ffff ==> {
            &&& (((l | (h << 64u128)) >> 0u128) & 0xff) as u8 == ((l >> 0u128) & 0xff) as u8
            &&& (((l | (h << 64u128)) >> 8u128) & 0xff) as u8 == ((l >> 8u128) & 0xff) as u8
            &&& (((l | (h << 64u128)) >> 16u128) & 0xff) as u8 == ((l >> 16u128) & 0xff) as u8
            &&& (((l | (h << 64u128)) >> 24u128) & 0xff) as u8 == ((l >> 24u128) & 0xff) as u8
            &&& (((l | (h << 64u128)) >> 32u128) & 0xff) as u8 == ((l >> 32u128) & 0xff) as u8
            &&& (((l | (h << 64u128)) >> 40u128) & 0xff) as u8 == ((l >> 40u128) & 0xff) as u8
            &&& (((l | (h << 64u128)) >> 48u128) & 0xff) as u8 == ((l >> 48u128) & 0xff) as u8
            &&& (((l | (h << 64u128)) >> 56u128) & 0xff) as u8 == ((l >> 56u128) & 0xff) as u8
            &&& (((l | (h << 64u128)) >> 64u128) & 0xff) as u8 == ((h >> 0u128) & 0xff) as u8
            &&& (((l | (h << 64u128)) >> 72u128) & 0xff) as u8 == ((h >> 8u128) & 0xff) as u8
            &&& (((l | (h << 64u128)) >> 80u128) & 0xff) as u8 == ((h >> 16u128) & 0xff) as u8
            &&& (((l | (h << 64u128)) >> 88u128) & 0xff) as u8 == ((h >> 24u128) & 0xff) as u8
            &&& (((l | (h << 64u128)) >> 96u128) & 0xff) as u8 == ((h >> 32u128) & 0xff) as u8
            &&& (((l | (h << 64u128)) >> 104u128) & 0xff) as u8
                == ((h >> 40u128) & 0xff) as u8
            &&& (((l | (h << 64u128)) >> 112u128) & 0xff) as u8
                == ((h >> 48u128) & 0xff) as u8
            &&& (((l | (h << 64u128)) >> 120u128) & 0xff) as u8
                == ((h >> 56u128) & 0xff) as u8
        }) by (bit_vector);
        let lov = lo;
        let hiv = hi;
        assert(forall|i: int| 0 <= i < 8
            ==> #[trigger] u64_byte(lov, i) == ((l >> ((8 * i) as u128)) & 0xff) as u8) by {
            assert forall|i: int| 0 <= i < 8
                implies #[trigger] u64_byte(lov, i)
                    == ((l >> ((8 * i) as u128)) & 0xff) as u8 by {
                let s = (8 * i) as u64;
                assert(s < 64 ==> ((lov >> s) & 0xff) as u8
                    == (((lov as u128) >> (s as u128)) & 0xff) as u8) by (bit_vector);
            }
        }
        assert(forall|i: int| 0 <= i < 8
            ==> #[trigger] u64_byte(hiv, i) == ((h >> ((8 * i) as u128)) & 0xff) as u8) by {
            assert forall|i: int| 0 <= i < 8
                implies #[trigger] u64_byte(hiv, i)
                    == ((h >> ((8 * i) as u128)) & 0xff) as u8 by {
                let s = (8 * i) as u64;
                assert(s < 64 ==> ((hiv >> s) & 0xff) as u8
                    == (((hiv as u128) >> (s as u128)) & 0xff) as u8) by (bit_vector);
            }
        }
        assert(le128(x) =~= b@.subrange(pos as int, pos as int + 16));
    }
    x
}

impl Slate {
    /// Encodes the slate's negotiated payload — identifier, version,
    /// amount, fee and every participant contribution — into its wire
    /// form.
    pub fn encode(&self) -> (out: Vec<u8>)
        ensures
            out@ == slate_bytes(self.id, self.version, self.amount, self.fee,
                self.participants@),
    {
        let mut out: Vec<u8> = Vec::new();
        push_u16_le(&mut out, self.version);
        push_u128_le(&mut out, self.id);
        push_u64_le(&mut out, self.amount);
        push_u64_le(&mut out, self.fee);
        push_u64_le(&mut out, self.participants.len() as u64);
        let ghost header = out@;
        let n = self.participants.len();
        let mut i: usize = 0;
        while i < n
            invariant
                n == self.participants@.len(),
                i <= n,
                header == le16(self.version) + le128(self.id) + le64(self.amount)
                    + le64(self.fee) + le64(n as u64),
                out@ == header + parts_bytes(self.participants@.take(i as int)),
            decreases n - i,
        {
            let ghost done = self.participants@.take(i as int);
            let ghost pre = out@;
            let p = self.participants[i];
            push_u64_le(&mut out, p.id);
            push_u64_le(&mut out, p.commit);
            push_u64_le(&mut out, p.nonce);
            out.push(if p.has_sig { 1 } else { 0 });
            push_u64_le(&mut out, p.sig);
            proof {
                assert(out@ =~= pre + part_bytes(p));
                lemma_parts_bytes_push(done, p);
                assert(self.participants@.take(i + 1) =~= done.push(p));
                assert(out@ =~= header + parts_bytes(self.participants@.take(i + 1)));
            }
            i = i + 1;
        }
        proof {
            assert(self.participants@.take(n as int) =~= self.participants@);
            assert(out@ =~= slate_bytes(self.id, self.version, self.amount, self.fee,
                self.participants@));
        }
        out
    }
}

/// A decodable byte string pins its contribution count to the bytes at
/// offsets 34..42, and its length and flag bytes follow from it.
#[verifier::rlimit(50)]
proof fn lemma_decodable_shape(b: Seq<u8>, count: u64)
    requires
        decodable(b),
        b.len() >= 42,
        le64(count) == b.subrange(34, 42),
    ensures
        b.len() == 42 + 33 * (count as int),
        forall|i: int| 0 <= i < count as int
            ==> #[trigger] b[42 + 33 * i + 24] == 0 || b[42 + 33 * i + 24] == 1,
{
    let (id, v, am, fee, ps) = choose|id: u128, v: u16, am: u64, fee: u64,
        ps: Seq<ParticipantData>|
        ps.len() <= u64::MAX && b == slate_bytes(id, v, am, fee, ps);
    lemma_slate_bytes_shape(id, v, am, fee, ps);
    lemma_le64_inj(count, ps.len() as u64);
    lemma_parts_bytes_len(ps);
    assert forall|i: int| 0 <= i < count as int
        implies #[trigger] b[42 + 33 * i + 24] == 0 || b[42 + 33 * i + 24] == 1 by {
        lemma_parts_block(ps, i);
        lemma_part_flag(ps[i]);
        assert(parts_bytes(ps).subrange(33 * i, 33 * i + 33)[24]
            == parts_bytes(ps)[33 * i + 24]);
        assert(b.subrange(42, 42 + 33 * ps.len() as int)[33 * i + 24]
            == b[42 + 33 * i + 24]);
    }
}

/// Decodes a wire-form byte string back into the slate payload it
/// encodes.  Accepts exactly the well-shaped byte strings — the encodings
/// of some payload — and fails with `ValidationError` on anything else,
/// never returning a partial or garbage document.  The decoded slate
/// carries no annotation: the wire format does not transport one.
#[verifier::rlimit(50)]
pub fn decode_slate(b: &Vec<u8>) -> (r: Result<Slate, WalletError>)
    ensures
        (r is Ok) <==> decodable(b@),
        match r {
            Ok(t) => {
                &&& t.message is None
                &&& b@ == slate_bytes(t.id, t.version, t.amount, t.fee, t.participants@)
            },
            Err(e) => e == WalletError::ValidationError,
        },
{
    let blen = b.len();
    if blen < 42 {
        proof {
            if decodable(b@) {
                let (id, v, am, fee, ps) = choose|id: u128, v: u16, am: u64, fee: u64,
                    ps: Seq<ParticipantData>|
                    ps.len() <= u64::MAX && b@ == slate_bytes(id, v, am, fee, ps);
                lemma_slate_bytes_shape(id, v, am, fee, ps);
            }
        }
        return Err(WalletError::ValidationError);
    }
    let version = read_u16_le(b, 0);
    let id = read_u128_le(b, 2);
    let amount = read_u64_le(b, 18);
    let fee = read_u64_le(b, 26);
    let count = read_u64_le(b, 34);
    let expected: u128 = 42 + 33u128 * (count as u128);
    if (blen as u128) != expected {
        proof {
            if decodable(b@) {
                lemma_decodable_shape(b@, count);
            }
        }
        return Err(WalletError::ValidationError);
    }
    let n = count as usize;
    let mut ps: Vec<ParticipantData> = Vec::new();
    let mut pos: usize = 42;
    let mut i: usize = 0;
    while i < n
        invariant
            b@.len() == 42 + 33 * (n as int),
            b@.len() == blen,
            i <= n,
            pos == 42 + 33 * (i as int),
            ps@.len() == i,
            b@.subrange(42, pos as int) == parts_bytes(ps@),
            le16(version) == b@.subrange(0, 2),
            le128(id) == b@.subrange(2, 18),
            le64(amount) == b@.subrange(18, 26),
            le64(fee) == b@.subrange(26, 34),
            le64(count) == b@.subrange(34, 42),
            n == count as int,
        decreases n - i,
    {
        proof {
            assert(pos + 33 <= blen);
        }
        let pid = read_u64_le(b, pos);
        let commit = read_u64_le(b, pos + 8);
        let nonce = read_u64_le(b, pos + 16);
        let flag = b[pos + 24];
        if flag > 1 {
            proof {
                if decodable(b@) {
                    lemma_decodable_shape(b@, count);
                    assert(b@[42 + 33 * (i as int) + 24] == 0
                        || b@[42 + 33 * (i as int) + 24] == 1);
                }
            }
            return Err(WalletError::ValidationError);
        }
        let sig = read_u64_le(b, pos + 25);
        let p = ParticipantData { id: pid, commit, nonce, has_sig: flag == 1, sig };
        proof {
            assert(part_bytes(p) =~= b@.subrange(pos as int, pos as int + 33)) by {
                assert(le64(p.id) == b@.subrange(pos as int, pos as int + 8));
                assert(le64(p.commit) == b@.subrange(pos as int + 8, pos as int + 16));
                assert(le64(p.nonce) == b@.subrange(pos as int + 16, pos as int + 24));
                assert(le64(p.sig) == b@.subrange(pos as int + 25, pos as int + 33));
                assert((if p.has_sig { 1u8 } else { 0u8 }) == b@[pos as int + 24]);
            }
            lemma_parts_bytes_push(ps@, p);
            assert(b@.subrange(42, pos as int + 33)
                =~= b@.subrange(42, pos as int) + b@.subrange(pos as int, pos as int + 33));
        }
        ps.push(p);
        pos = pos + 33;
        i = i + 1;
    }
    let t = Slate { id, version, amount, fee, message: None, participants: ps };
    proof {
        assert(b@ =~= b@.subrange(0, 2) + b@.subrange(2, 18) + b@.subrange(18, 26)
            + b@.subrange(26, 34) + b@.subrange(34, 42)
            + b@.subrange(42, b@.len() as int));
        assert(t.participants@.len() == count as int);
        assert((t.participants@.len() as u64) == count);
        assert(b@ == slate_bytes(t.id, t.version, t.amount, t.fee, t.participants@));
        assert(decodable(b@));
    }
    Ok(t)
}

/// Round-trip law: the wire form of a slate reproduces its identifier,
/// amount and participant contributions — and its fee and version —
/// exactly.  Any slate carrying the same encoding as `s`, such as the one
/// `decode_slate` returns for `encode_slate(s)`, agrees with `s` on all of
/// them.
pub proof fn lemma_codec_round_trip(s: &Slate, t: &Slate)
    requires
        s.participants@.len() <= u64::MAX,
        t.participants@.len() <= u64::MAX,
        slate_bytes(t.id, t.version, t.amount, t.fee, t.participants@)
            == slate_bytes(s.id, s.version, s.amount, s.fee, s.participants@),
    ensures
        t.id == s.id,
        t.version == s.version,
        t.amount == s.amount,
        t.fee == s.fee,
        t.participants@ == s.participants@,
{
    lemma_slate_bytes_inj(
        t.id, t.version, t.amount, t.fee, t.participants@,
        s.id, s.version, s.amount, s.fee, s.participants@,
    );
}

} // verus!
