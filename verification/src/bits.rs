//! A writer that appends single bits, whole bytes and bit runs to a byte
//! buffer, filling each byte from its most significant bit down.

use vstd::prelude::*;

verus! {

/// A single bit; any non-zero payload counts as a one bit.
#[derive(Debug, Clone, Copy, PartialEq, Eq, Structural)]
pub struct Bit(pub u8);

/// Whether bit `k` (counting from the most significant) of `b` is set.
pub open spec fn spec_bit_at(b: u8, k: int) -> bool {
    b & (0x80u8 >> (k as u8)) != 0
}

/// The eight bits of a byte, most significant first.
pub open spec fn spec_byte_bits(b: u8) -> Seq<bool> {
    Seq::new(8, |k: int| spec_bit_at(b, k))
}

/// The low `n` bits of `bits`, most significant of those first.
pub open spec fn spec_low_bits_msb(bits: u64, n: nat) -> Seq<bool> {
    Seq::new(n, |i: int| (bits >> ((n - 1 - i) as u64)) & 1 == 1)
}

/// BufferedWriter writes bits to a buffer.
pub struct BufferedWriter {
    buf: Vec<u8>,
    pos: u32,  // position in the last byte in the buffer
}

proof fn lemma_zero_bit_msb(k: u8)
    by (bit_vector)
    requires
        k < 8,
    ensures
        0u8 & (0x80u8 >> k) == 0,
{
}

proof fn lemma_or_mask_msb(b: u8, p: u8, k: u8)
    by (bit_vector)
    requires
        p < 8,
        k < 8,
    ensures
        ((b | (0x80u8 >> p)) & (0x80u8 >> k) != 0) == (p == k || (b & (0x80u8 >> k) != 0)),
{
}

proof fn lemma_or_shr_bits(b: u8, x: u8, p: u8, k: u8)
    by (bit_vector)
    requires
        p < 8,
        k < 8,
    ensures
        k < p ==> ((b | (x >> p)) & (0x80u8 >> k) != 0) == (b & (0x80u8 >> k) != 0),
        k >= p ==> ((b | (x >> p)) & (0x80u8 >> k) != 0) == ((b & (0x80u8 >> k) != 0) || (x & (
        0x80u8 >> ((k - p) as u8)) != 0)),
{
}

proof fn lemma_shl_bits(x: u8, s: u8, k: u8)
    by (bit_vector)
    requires
        s < 8,
        k < 8,
    ensures
        k + s < 8 ==> ((x << s) & (0x80u8 >> k) != 0) == (x & (0x80u8 >> ((k + s) as u8)) != 0),
        k + s >= 8 ==> ((x << s) & (0x80u8 >> k)) == 0,
{
}

/// Bit `k` (most significant first) of the top byte of a 64-bit value.
proof fn lemma_top_byte_bit(bits: u64, k: u8)
    by (bit_vector)
    requires
        k < 8,
    ensures
        (((bits >> 56) as u8) & (0x80u8 >> k) != 0) == ((bits >> ((63 - k) as u64)) & 1 == 1),
{
}

/// After shifting left by eight, bit `t` from the top is the old bit `t + 8`.
proof fn lemma_shift8_bit(bits: u64, t: u64)
    by (bit_vector)
    requires
        t < 56,
    ensures
        ((bits << 8) >> ((63 - t) as u64)) & 1 == (bits >> ((55 - t) as u64)) & 1,
{
}

/// After shifting left by one, bit `t` from the top is the old bit `t + 1`.
proof fn lemma_shift1_bit(bits: u64, t: u64)
    by (bit_vector)
    requires
        t < 63,
    ensures
        ((bits << 1) >> ((63 - t) as u64)) & 1 == (bits >> ((62 - t) as u64)) & 1,
{
}

/// Aligning the low `n` bits of a value at the top of the word keeps them in
/// order below the leading bit.
proof fn lemma_init_shift(orig: u64, n: u64)
    by (bit_vector)
    requires
        n <= 64,
    ensures
        forall|t: u64|
            t < n ==> #[trigger] (((orig << ((64 - n) as u64)) >> ((63 - t) as u64)) & 1) == ((
            orig >> ((n - 1 - t) as u64)) & 1),
{
}

/// The top bit of a 64-bit value, as a zero-or-one value.
proof fn lemma_top_bit(bits: u64)
    by (bit_vector)
    ensures
        (bits >> 63) == 0 || (bits >> 63) == 1,
        ((bits >> 63) == 1) == ((bits >> 63) & 1 == 1),
{
}

/// A flat bit index inside byte `q` of a buffer has that byte index and the
/// matching offset.
proof fn lemma_byte_index(j: int, q: int)
    requires
        q * 8 <= j < q * 8 + 8,
    ensures
        j / 8 == q,
        j % 8 == j - q * 8,
{
    vstd::arithmetic::div_mod::lemma_fundamental_div_mod_converse(j, 8, q, j - q * 8);
}

impl BufferedWriter {
    /// The writer is well formed: an empty buffer is marked full, and the
    /// unwritten low bits of the last byte are zero.
    pub closed spec fn inv(&self) -> bool {
        &&& 1 <= self.pos <= 8
        &&& self.buf@.len() == 0 ==> self.pos == 8
        &&& (self.buf@.len() > 0 && self.pos < 8) ==> forall|k: int|
            self.pos <= k < 8 ==> !#[trigger] spec_bit_at(self.buf@[self.buf@.len() - 1], k)
    }

    /// The number of whole bytes the buffer holds.
    pub closed spec fn spec_byte_len(&self) -> nat {
        self.buf@.len()
    }

    /// The bytes written so far, the last byte padded with zero bits.
    pub closed spec fn spec_bytes(&self) -> Seq<u8> {
        self.buf@
    }

    pub fn with_capacity(capacity: usize) -> (r: Self)
        ensures
            r.inv(),
            r@ == Seq::<bool>::empty(),
    {
        BufferedWriter {
            buf: Vec::with_capacity(capacity),
            // set pos to 8 to indicate the buffer has no space presently since it is empty
            pos: 8,
        }
    }

    pub fn with_buf(buf: Vec<u8>) -> (r: Self)
        requires
            buf@.len() == 0,
        ensures
            r.inv(),
            r@ == Seq::<bool>::empty(),
    {
        BufferedWriter {
            buf,
            // set pos to 8 to indicate the buffer has no space presently since it is empty
            pos: 8,
        }
    }

    fn grow(&mut self)
        requires
            old(self).inv(),
            old(self).pos == 8,
        ensures
            final(self).buf@ == old(self).buf@.push(0u8),
            final(self).pos == old(self).pos,
    {
        self.buf.push(0);
    }

    fn last_index(&self) -> (r: usize)
        ensures
            self.buf@.len() == 0 ==> r == 0,
            self.buf@.len() > 0 ==> r == self.buf@.len() - 1,
    {
        if self.buf.is_empty() {
            return 0;
        }
        self.buf.len() - 1
    }

    pub fn write_bit(&mut self, bit: Bit)
        requires
            old(self).inv(),
        ensures
            final(self).inv(),
            final(self)@ == old(self)@.push(bit.0 != 0),
    {
        if self.pos == 8 {
            self.grow();
            self.pos = 0;
        }
        let ghost mid = *self;
        proof {
            assert forall|j: int| 0 <= j < old(self)@.len() implies mid@[j] == old(self)@[j] by {
                assert(mid.buf@[j / 8] == old(self).buf@[j / 8]);
            }
            assert(mid@ =~= old(self)@);
        }

        let i = self.last_index();

        if bit != Bit(0) {
            let b = self.buf[i];
            let m: u8 = 0x80u8 >> (self.pos as u8);
            self.buf.set(i, b | m);
        }

        proof {
            let n = self.buf@.len() as int;
            let p = self.pos as int;
            // The last byte now carries the new bit at position `p`, keeps the
            // bits below `p`, and stays zero above `p`.
            assert forall|k: int| 0 <= k < 8 && k != p implies #[trigger] spec_bit_at(
                self.buf@[n - 1], k) == spec_bit_at(mid.buf@[n - 1], k) by {
                if bit.0 != 0 {
                    lemma_or_mask_msb(mid.buf@[n - 1], p as u8, k as u8);
                }
            }
            assert(spec_bit_at(self.buf@[n - 1], p) == (bit.0 != 0)) by {
                if bit.0 != 0 {
                    lemma_or_mask_msb(mid.buf@[n - 1], p as u8, p as u8);
                } else {
                    if old(self).pos == 8 {
                        assert(mid.buf@[n - 1] == 0u8);
                        lemma_zero_bit_msb(p as u8);
                    } else {
                        assert(!spec_bit_at(old(self).buf@[old(self).buf@.len() - 1], p));
                    }
                }
            }
            assert forall|k: int| p < k < 8 implies !#[trigger] spec_bit_at(self.buf@[n - 1],
                k) by {
                if old(self).pos == 8 {
                    assert(mid.buf@[n - 1] == 0u8);
                    lemma_zero_bit_msb(k as u8);
                } else {
                    assert(!spec_bit_at(old(self).buf@[old(self).buf@.len() - 1], k));
                }
            }
        }
        self.pos = self.pos + 1;
        proof {
            let n = self.buf@.len() as int;
            let p = (self.pos - 1) as int;
            assert forall|j: int| 0 <= j < mid@.len() implies self@[j] == mid@[j] by {
                vstd::arithmetic::div_mod::lemma_fundamental_div_mod(j, 8);
                if j / 8 < n - 1 {
                    assert(self.buf@[j / 8] == mid.buf@[j / 8]);
                }
            }
            assert(self@[mid@.len() as int] == (bit.0 != 0)) by {
                lemma_byte_index((n - 1) * 8 + p, n - 1);
            }
            assert(self@ =~= old(self)@.push(bit.0 != 0));
        }
    }

    pub fn write_byte(&mut self, byte: u8)
        requires
            old(self).inv(),
        ensures
            final(self).inv(),
            final(self)@ == old(self)@ + spec_byte_bits(byte),
    {
        if self.pos == 8 {
            self.grow();

            let i = self.last_index();
            self.buf.set(i, byte);
            proof {
                let n = self.buf@.len() as int;
                assert forall|j: int| 0 <= j < old(self)@.len() implies self@[j] == old(
                    self,
                )@[j] by {
                    lemma_byte_index(j, j / 8);
                    assert(self.buf@[j / 8] == old(self).buf@[j / 8]);
                }
                assert forall|t: int| 0 <= t < 8 implies self@[old(self)@.len() + t]
                    == spec_byte_bits(byte)[t] by {
                    lemma_byte_index((n - 1) * 8 + t, n - 1);
                }
                assert(self@ =~= old(self)@ + spec_byte_bits(byte));
            }
            return ;
        }

        let ghost pre = *self;
        let ghost n = self.buf@.len() as int;
        let ghost p = self.pos as int;

        let i = self.last_index();
        let b = byte >> (self.pos as u8);
        let b0 = self.buf[i];
        self.buf.set(i, b0 | b);

        self.buf.push(byte << ((8 - self.pos) as u8));

        proof {
            let full = self.buf@[n - 1];
            let tail = self.buf@[n];
            assert forall|k: int| 0 <= k < 8 implies #[trigger] spec_bit_at(full, k) == if k < p {
                spec_bit_at(pre.buf@[n - 1], k)
            } else {
                spec_bit_at(byte, k - p)
            } by {
                lemma_or_shr_bits(pre.buf@[n - 1], byte, p as u8, k as u8);
                if k >= p {
                    assert(!spec_bit_at(old(self).buf@[old(self).buf@.len() - 1], k));
                }
            }
            assert forall|k: int| 0 <= k < 8 implies #[trigger] spec_bit_at(tail, k) == (k < p
                && spec_bit_at(byte, 8 - p + k)) by {
                lemma_shl_bits(byte, (8 - p) as u8, k as u8);
            }
            assert forall|j: int| 0 <= j < self@.len() implies self@[j] == (old(
                self,
            )@ + spec_byte_bits(byte))[j] by {
                if j < (n - 1) * 8 {
                    lemma_byte_index(j, j / 8);
                    assert(0 <= j / 8 < n - 1) by {
                        lemma_byte_index(j, j / 8);
                    }
                } else if j < (n - 1) * 8 + 8 {
                    lemma_byte_index(j, n - 1);
                } else {
                    lemma_byte_index(j, n);
                }
            }
            assert(self@ =~= old(self)@ + spec_byte_bits(byte));
        }
    }

    // example: write_bits(4): data(u64 0000 0000 0000 00ff), write data 1111
    #[verifier::loop_isolation(false)]
    pub fn write_bits(&mut self, bits: u64, num: u32)
        requires
            old(self).inv(),
        ensures
            final(self).inv(),
            final(self)@ == old(self)@ + spec_low_bits_msb(bits, vstd::math::min(num as int, 64)
                as nat),
    {
        let ghost orig = bits;
        let mut bits = bits;
        let mut num = num;
        // we should never write more than 64 bits for a u64
        if num > 64 {
            num = 64;
        }
        if num == 0 {
            proof {
                assert(self@ =~= old(self)@ + spec_low_bits_msb(orig, 0));
            }
            return ;
        }
        let ghost n0 = num as int;
        let ghost target = spec_low_bits_msb(orig, n0 as nat);

        proof {
            lemma_init_shift(orig, num as u64);
        }
        bits = bits << ((64 - num) as u64);
        while num >= 8
            invariant
                self.inv(),
                0 <= num <= n0 <= 64,
                self@ == old(self)@ + target.take(n0 - num),
                forall|t: int|
                    0 <= t < num ==> #[trigger] ((bits >> (63 - t) as u64) & 1) == ((orig >> (num
                        - 1 - t) as u64) & 1),
            decreases num,
        {
            let byte = #[verifier::truncate] ((bits >> 56u64) as u8);
            self.write_byte(byte);

            proof {
                assert forall|t: int| 0 <= t < 8 implies spec_byte_bits(byte)[t] == target[n0 - num
                    + t] by {
                    lemma_top_byte_bit(bits, t as u8);
                    assert(((bits >> ((63 - t) as u64)) & 1) == ((orig >> ((num - 1 - t) as u64))
                        & 1));
                    assert(target[n0 - num + t] == ((orig >> ((n0 - 1 - (n0 - num + t)) as u64))
                        & 1 == 1));
                }
                assert(self@ =~= old(self)@ + target.take(n0 - num + 8));
                assert forall|t: int| 0 <= t < num - 8 implies #[trigger] (((bits << 8u64) >> (63
                    - t) as u64) & 1) == ((orig >> (num - 8 - 1 - t) as u64) & 1) by {
                    lemma_shift8_bit(bits, t as u64);
                    assert(((bits >> (63 - (t + 8)) as u64) & 1) == ((orig >> (num - 1 - (t + 8))
                        as u64) & 1));
                }
            }
            bits = bits << 8u64;
            num -= 8;
        }

        while num > 0
            invariant
                self.inv(),
                0 <= num <= n0 <= 64,
                num < 8,
                self@ == old(self)@ + target.take(n0 - num),
                forall|t: int|
                    0 <= t < num ==> #[trigger] ((bits >> (63 - t) as u64) & 1) == ((orig >> (num
                        - 1 - t) as u64) & 1),
            decreases num,
        {
            let byte = bits >> 63u64;
            proof {
                lemma_top_bit(bits);
                assert(((bits >> ((63 - 0) as u64)) & 1) == ((orig >> ((num - 1 - 0) as u64))
                    & 1));
                assert(target[n0 - num] == ((orig >> ((n0 - 1 - (n0 - num)) as u64)) & 1 == 1));
                assert(target[n0 - num] == ((bits >> 63u64) & 1 == 1));
            }
            if byte == 1 {
                self.write_bit(Bit(1));
            } else {
                self.write_bit(Bit(0));
            }

            proof {
                assert(self@ =~= old(self)@ + target.take(n0 - num + 1));
                assert forall|t: int| 0 <= t < num - 1 implies #[trigger] (((bits << 1u64) >> (63
                    - t) as u64) & 1) == ((orig >> (num - 1 - 1 - t) as u64) & 1) by {
                    lemma_shift1_bit(bits, t as u64);
                    assert(((bits >> (63 - (t + 1)) as u64) & 1) == ((orig >> (num - 1 - (t + 1))
                        as u64) & 1));
                }
            }
            bits = bits << 1u64;
            num -= 1;
        }

        proof {
            assert(self@ =~= old(self)@ + target);
        }
    }

    pub fn close(self) -> (r: Vec<u8>)
        ensures
            r@ == self.spec_bytes(),
    {
        self.buf
    }

    pub fn len(&self) -> (r: usize)
        ensures
            r == self.spec_byte_len(),
    {
        self.buf.len()
    }
}

impl View for BufferedWriter {
    type V = Seq<bool>;

    /// The writer is viewed as the sequence of bits written so far.
    closed spec fn view(&self) -> Seq<bool> {
        if self.buf@.len() == 0 {
            Seq::empty()
        } else {
            Seq::new(
                ((self.buf@.len() - 1) * 8 + self.pos) as nat,
                |i: int| spec_bit_at(self.buf@[i / 8], i % 8),
            )
        }
    }
}

} // verus!
