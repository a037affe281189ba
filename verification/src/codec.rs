//! Byte-level encoding helpers: big-endian and little-endian integer fields
//! appended to growable byte buffers.

use vstd::prelude::*;

verus! {

/// The eight bytes of a 64-bit value, big-endian.
pub open spec fn spec_u64_be(v: u64) -> Seq<u8> {
    seq![
        (v >> 56) as u8,
        (v >> 48) as u8,
        (v >> 40) as u8,
        (v >> 32) as u8,
        (v >> 24) as u8,
        (v >> 16) as u8,
        (v >> 8) as u8,
        v as u8,
    ]
}

/// The four bytes of a 32-bit value, little-endian.
pub open spec fn spec_u32_le(v: u32) -> Seq<u8> {
    seq![v as u8, (v >> 8) as u8, (v >> 16) as u8, (v >> 24) as u8]
}

/// Two distinct 64-bit values never share their big-endian bytes.
proof fn lemma_u64_be_parts(v: u64, w: u64)
    by (bit_vector)
    ensures
        ((v >> 56) as u8 == (w >> 56) as u8 && (v >> 48) as u8 == (w >> 48) as u8 && (v >> 40)
            as u8 == (w >> 40) as u8 && (v >> 32) as u8 == (w >> 32) as u8 && (v >> 24) as u8 == (w
            >> 24) as u8 && (v >> 16) as u8 == (w >> 16) as u8 && (v >> 8) as u8 == (w >> 8) as u8
            && v as u8 == w as u8) ==> v == w,
{
}

/// The big-endian bytes of the value assembled from eight bytes are those
/// eight bytes.
proof fn lemma_u64_be_of_bytes(
    b0: u8,
    b1: u8,
    b2: u8,
    b3: u8,
    b4: u8,
    b5: u8,
    b6: u8,
    b7: u8,
)
    by (bit_vector)
    ensures
        ({
            let v = ((b0 as u64) << 56) | ((b1 as u64) << 48) | ((b2 as u64) << 40) | ((b3 as u64)
                << 32) | ((b4 as u64) << 24) | ((b5 as u64) << 16) | ((b6 as u64) << 8) | (b7
                as u64);
            &&& (v >> 56) as u8 == b0
            &&& (v >> 48) as u8 == b1
            &&& (v >> 40) as u8 == b2
            &&& (v >> 32) as u8 == b3
            &&& (v >> 24) as u8 == b4
            &&& (v >> 16) as u8 == b5
            &&& (v >> 8) as u8 == b6
            &&& v as u8 == b7
        }),
{
}

/// Append one byte.
pub fn put_u8(buf: &mut Vec<u8>, v: u8)
    ensures
        final(buf)@ == old(buf)@.push(v),
{
    buf.push(v);
}

/// Append the eight big-endian bytes of `v`.
pub fn put_u64_be(buf: &mut Vec<u8>, v: u64)
    ensures
        final(buf)@ == old(buf)@ + spec_u64_be(v),
{
    buf.push((v >> 56u64) as u8);
    buf.push((v >> 48u64) as u8);
    buf.push((v >> 40u64) as u8);
    buf.push((v >> 32u64) as u8);
    buf.push((v >> 24u64) as u8);
    buf.push((v >> 16u64) as u8);
    buf.push((v >> 8u64) as u8);
    buf.push(v as u8);
    proof {
        assert(buf@ =~= old(buf)@ + spec_u64_be(v));
    }
}

/// Append the four little-endian bytes of `v`.
pub fn put_u32_le(buf: &mut Vec<u8>, v: u32)
    ensures
        final(buf)@ == old(buf)@ + spec_u32_le(v),
{
    buf.push(v as u8);
    buf.push((v >> 8u32) as u8);
    buf.push((v >> 16u32) as u8);
    buf.push((v >> 24u32) as u8);
    proof {
        assert(buf@ =~= old(buf)@ + spec_u32_le(v));
    }
}

/// Read back the 64-bit value whose big-endian bytes start at `off`.
pub fn read_u64_be(buf: &Vec<u8>, off: usize) -> (r: u64)
    requires
        off + 8 <= buf@.len(),
    ensures
        spec_u64_be(r) == buf@.subrange(off as int, off as int + 8),
{
    let n = buf.len();
    let b0 = buf[off];
    let b1 = buf[off + 1];
    let b2 = buf[off + 2];
    let b3 = buf[off + 3];
    let b4 = buf[off + 4];
    let b5 = buf[off + 5];
    let b6 = buf[off + 6];
    let b7 = buf[off + 7];
    let r = ((b0 as u64) << 56u64) | ((b1 as u64) << 48u64) | ((b2 as u64) << 40u64) | ((b3 as u64)
        << 32u64) | ((b4 as u64) << 24u64) | ((b5 as u64) << 16u64) | ((b6 as u64) << 8u64) | (b7
        as u64);
    proof {
        lemma_u64_be_of_bytes(b0, b1, b2, b3, b4, b5, b6, b7);
        assert(spec_u64_be(r) =~= buf@.subrange(off as int, off as int + 8));
    }
    r
}

/// Big-endian encoding is injective.
pub proof fn lemma_u64_be_injective(v: u64, w: u64)
    requires
        spec_u64_be(v) == spec_u64_be(w),
    ensures
        v == w,
{
    lemma_u64_be_parts(v, w);
    assert forall|k: int| 0 <= k < 8 implies spec_u64_be(v)[k] == spec_u64_be(w)[k] by {
    }
}


/// The two bytes of a 16-bit value, little-endian.
pub open spec fn spec_u16_le(v: u16) -> Seq<u8> {
    seq![v as u8, (v >> 8) as u8]
}

/// The eight bytes of a 64-bit value, little-endian.
pub open spec fn spec_u64_le(v: u64) -> Seq<u8> {
    seq![
        v as u8,
        (v >> 8) as u8,
        (v >> 16) as u8,
        (v >> 24) as u8,
        (v >> 32) as u8,
        (v >> 40) as u8,
        (v >> 48) as u8,
        (v >> 56) as u8,
    ]
}

/// The 16-bit value assembled from two little-endian bytes.
pub open spec fn spec_combine_u16_le(b0: u8, b1: u8) -> u16 {
    (b0 as u16) | ((b1 as u16) << 8)
}

/// The 32-bit value assembled from four little-endian bytes.
pub open spec fn spec_combine_u32_le(b0: u8, b1: u8, b2: u8, b3: u8) -> u32 {
    (b0 as u32) | ((b1 as u32) << 8) | ((b2 as u32) << 16) | ((b3 as u32) << 24)
}

/// The 64-bit value assembled from eight little-endian bytes.
pub open spec fn spec_combine_u64_le(
    b0: u8,
    b1: u8,
    b2: u8,
    b3: u8,
    b4: u8,
    b5: u8,
    b6: u8,
    b7: u8,
) -> u64 {
    (b0 as u64) | ((b1 as u64) << 8) | ((b2 as u64) << 16) | ((b3 as u64) << 24) | ((b4 as u64)
        << 32) | ((b5 as u64) << 40) | ((b6 as u64) << 48) | ((b7 as u64) << 56)
}

/// Combining the little-endian bytes of a value yields it back.
pub broadcast proof fn lemma_u16_le_combine(v: u16)
    by (bit_vector)
    ensures
        #[trigger] spec_combine_u16_le(v as u8, (v >> 8) as u8) == v,
{
}

/// Combining the little-endian bytes of a value yields it back.
pub broadcast proof fn lemma_u32_le_combine(v: u32)
    by (bit_vector)
    ensures
        #[trigger] spec_combine_u32_le(v as u8, (v >> 8) as u8, (v >> 16) as u8, (v >> 24) as u8)
            == v,
{
}

/// Combining the little-endian bytes of a value yields it back.
pub broadcast proof fn lemma_u64_le_combine(v: u64)
    by (bit_vector)
    ensures
        #[trigger] spec_combine_u64_le(
            v as u8,
            (v >> 8) as u8,
            (v >> 16) as u8,
            (v >> 24) as u8,
            (v >> 32) as u8,
            (v >> 40) as u8,
            (v >> 48) as u8,
            (v >> 56) as u8,
        ) == v,
{
}

/// A 64-bit value survives the round trip through its signed reading.
pub proof fn lemma_i64_cast_round_trip(v: i64)
    by (bit_vector)
    ensures
        (v as u64) as i64 == v,
{
}

/// A 32-bit value survives the round trip through its signed reading.
pub proof fn lemma_i32_cast_round_trip(v: i32)
    by (bit_vector)
    ensures
        (v as u32) as i32 == v,
{
}

/// A 16-bit value survives the round trip through its signed reading.
pub proof fn lemma_i16_cast_round_trip(v: i16)
    by (bit_vector)
    ensures
        (v as u16) as i16 == v,
{
}

/// An 8-bit value survives the round trip through its signed reading.
pub proof fn lemma_i8_cast_round_trip(v: i8)
    by (bit_vector)
    ensures
        (v as u8) as i8 == v,
{
}

/// Append the two little-endian bytes of `v`.
pub fn put_u16_le(buf: &mut Vec<u8>, v: u16)
    ensures
        final(buf)@ == old(buf)@ + spec_u16_le(v),
{
    buf.push(v as u8);
    buf.push((v >> 8u16) as u8);
    proof {
        assert(buf@ =~= old(buf)@ + spec_u16_le(v));
    }
}

/// Append the eight little-endian bytes of `v`.
pub fn put_u64_le(buf: &mut Vec<u8>, v: u64)
    ensures
        final(buf)@ == old(buf)@ + spec_u64_le(v),
{
    buf.push(v as u8);
    buf.push((v >> 8u64) as u8);
    buf.push((v >> 16u64) as u8);
    buf.push((v >> 24u64) as u8);
    buf.push((v >> 32u64) as u8);
    buf.push((v >> 40u64) as u8);
    buf.push((v >> 48u64) as u8);
    buf.push((v >> 56u64) as u8);
    proof {
        assert(buf@ =~= old(buf)@ + spec_u64_le(v));
    }
}

/// Read back the 16-bit value whose little-endian bytes start at `off`.
pub fn read_u16_le(buf: &Vec<u8>, off: usize) -> (r: u16)
    requires
        off + 2 <= buf@.len(),
    ensures
        r == spec_combine_u16_le(buf@[off as int], buf@[off as int + 1]),
{
    let n = buf.len();
    let b0 = buf[off];
    let b1 = buf[off + 1];
    (b0 as u16) | ((b1 as u16) << 8u16)
}

/// Read back the 64-bit value whose little-endian bytes start at `off`.
pub fn read_u64_le(buf: &Vec<u8>, off: usize) -> (r: u64)
    requires
        off + 8 <= buf@.len(),
    ensures
        r == spec_combine_u64_le(
            buf@[off as int],
            buf@[off as int + 1],
            buf@[off as int + 2],
            buf@[off as int + 3],
            buf@[off as int + 4],
            buf@[off as int + 5],
            buf@[off as int + 6],
            buf@[off as int + 7],
        ),
{
    let n = buf.len();
    let b0 = buf[off];
    let b1 = buf[off + 1];
    let b2 = buf[off + 2];
    let b3 = buf[off + 3];
    let b4 = buf[off + 4];
    let b5 = buf[off + 5];
    let b6 = buf[off + 6];
    let b7 = buf[off + 7];
    (b0 as u64) | ((b1 as u64) << 8u64) | ((b2 as u64) << 16u64) | ((b3 as u64) << 24u64) | ((b4
        as u64) << 32u64) | ((b5 as u64) << 40u64) | ((b6 as u64) << 48u64) | ((b7 as u64)
        << 56u64)
}

/// Read back the 32-bit value whose little-endian bytes start at `off`,
/// as the assembled value.
pub fn read_u32_le_combined(buf: &Vec<u8>, off: usize) -> (r: u32)
    requires
        off + 4 <= buf@.len(),
    ensures
        r == spec_combine_u32_le(
            buf@[off as int],
            buf@[off as int + 1],
            buf@[off as int + 2],
            buf@[off as int + 3],
        ),
{
    let n = buf.len();
    let b0 = buf[off];
    let b1 = buf[off + 1];
    let b2 = buf[off + 2];
    let b3 = buf[off + 3];
    (b0 as u32) | ((b1 as u32) << 8u32) | ((b2 as u32) << 16u32) | ((b3 as u32) << 24u32)
}

} // verus!
