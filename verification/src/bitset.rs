//! A bit set backed by a byte buffer, storing bits in least-significant-bit
//! order within each byte.

use vstd::prelude::*;
use vstd::bits::{lemma_usize_shr_is_div, lemma_usize_low_bits_mask_is_mod, low_bits_mask};
use vstd::arithmetic::power2::pow2;
use vstd::arithmetic::div_mod::lemma_fundamental_div_mod;

verus! {

/// Number of bytes needed to hold `num_bits` bits.
pub open spec fn spec_num_bytes(num_bits: nat) -> nat {
    (num_bits + 7) / 8
}

/// Whether bit `index` is set in a packed byte buffer, bits stored in
/// least-significant-bit order within each byte.
pub open spec fn spec_bit_in_bytes(bytes: Seq<u8>, index: int) -> bool {
    bytes[index / 8] & (1u8 << ((index % 8) as u8)) != 0
}

/// A growable set of bits with a fixed number of addressable bits.
pub struct BitSet {
    /// The bits are stored as bytes in the least significant bit order.
    buffer: Vec<u8>,
    /// The number of real bits in the `buffer`.
    num_bits: usize,
}

proof fn lemma_or_mask_bit(b: u8, i: u8, j: u8)
    by (bit_vector)
    requires
        i < 8,
        j < 8,
    ensures
        ((b | (1u8 << i)) & (1u8 << j) != 0) == (i == j || (b & (1u8 << j) != 0)),
{
}

proof fn lemma_clear_mask_bit(b: u8, i: u8, j: u8)
    by (bit_vector)
    requires
        i < 8,
        j < 8,
    ensures
        ((b & !(1u8 << i)) & (1u8 << j) != 0) == (i != j && (b & (1u8 << j) != 0)),
{
}

proof fn lemma_zero_bit(j: u8)
    by (bit_vector)
    requires
        j < 8,
    ensures
        0u8 & (1u8 << j) == 0,
        255u8 & (1u8 << j) != 0,
{
}

/// The division and remainder by 8 of two distinct indexes cannot both agree.
proof fn lemma_div_mod_8_injective(a: int, b: int)
    requires
        a / 8 == b / 8,
        a % 8 == b % 8,
    ensures
        a == b,
{
    lemma_fundamental_div_mod(a, 8);
    lemma_fundamental_div_mod(b, 8);
}

/// Build a byte vector of the given length where every byte holds `value`.
fn byte_vec_filled(len: usize, value: u8) -> (r: Vec<u8>)
    ensures
        r@ == Seq::new(len as nat, |i: int| value),
{
    let mut r: Vec<u8> = Vec::new();
    let mut k: usize = 0;
    while k < len
        invariant
            k <= len,
            r@ == Seq::new(k as nat, |i: int| value),
        decreases len - k,
    {
        r.push(value);
        k += 1;
        proof {
            assert(r@ =~= Seq::new(k as nat, |i: int| value));
        }
    }
    r
}

impl BitSet {
    /// The buffer always covers every addressable bit.
    pub closed spec fn inv(&self) -> bool {
        self.buffer@.len() >= spec_num_bytes(self.num_bits as nat)
    }

    /// The raw bytes backing this bit set.
    pub closed spec fn spec_bytes(&self) -> Seq<u8> {
        self.buffer@
    }

    /// Initialize an unset [`BitSet`].
    pub fn new(num_bits: usize) -> (r: Self)
        requires
            num_bits <= usize::MAX - 7,
        ensures
            r.inv(),
            r@.len() == num_bits,
            forall|i: int| 0 <= i < num_bits ==> !r@[i],
            r.spec_bytes() == Seq::new(spec_num_bytes(num_bits as nat), |i: int| 0u8),
    {
        let buffer = byte_vec_filled(Self::num_bytes(num_bits), 0);
        let r = Self { buffer, num_bits };
        proof {
            assert forall|i: int| 0 <= i < num_bits implies !r@[i] by {
                lemma_zero_bit((i % 8) as u8);
            }
        }
        r
    }

    /// Initialize a [`BitSet`] with every addressable bit set.
    pub fn all_set(num_bits: usize) -> (r: Self)
        requires
            num_bits <= usize::MAX - 7,
        ensures
            r.inv(),
            r@.len() == num_bits,
            forall|i: int| 0 <= i < num_bits ==> r@[i],
    {
        let buffer = byte_vec_filled(Self::num_bytes(num_bits), 255);
        let r = Self { buffer, num_bits };
        proof {
            assert forall|i: int| 0 <= i < num_bits implies r@[i] by {
                lemma_zero_bit((i % 8) as u8);
                assert(0 <= i / 8 < spec_num_bytes(num_bits as nat));
            }
        }
        r
    }

    #[inline]
    pub fn num_bits(&self) -> (r: usize)
        ensures
            r == self@.len(),
    {
        self.num_bits
    }

    /// Number of bytes needed to hold `num_bits` bits.
    #[inline]
    pub fn num_bytes(num_bits: usize) -> (r: usize)
        requires
            num_bits <= usize::MAX - 7,
        ensures
            r == spec_num_bytes(num_bits as nat),
    {
        proof {
            lemma_usize_shr_is_div((num_bits + 7) as usize, 3);
            vstd::arithmetic::power2::lemma2_to64();
        }
        (num_bits + 7) >> 3usize
    }

    /// Initialize directly from a buffer.
    ///
    /// None will be returned if the buffer's length is not enough to cover
    /// the bits of `num_bits`.
    pub fn try_from_raw(buffer: Vec<u8>, num_bits: usize) -> (r: Option<Self>)
        requires
            num_bits <= usize::MAX - 7,
        ensures
            r is Some <==> buffer@.len() >= spec_num_bytes(num_bits as nat),
            r is Some ==> {
                let b = r->Some_0;
                &&& b.inv()
                &&& b@.len() == num_bits
                &&& b.spec_bytes() == buffer@
                &&& forall|i: int| 0 <= i < num_bits ==> b@[i] == spec_bit_in_bytes(buffer@, i)
            },
    {
        if buffer.len() < Self::num_bytes(num_bits) {
            None
        } else {
            Some(Self { buffer, num_bits })
        }
    }

    /// Byte index and bit-within-byte index of an addressable bit.
    #[inline]
    fn compute_byte_bit_index(index: usize) -> (r: (usize, usize))
        ensures
            r.0 == index as int / 8,
            r.1 == index as int % 8,
    {
        proof {
            lemma_usize_shr_is_div(index, 3);
            lemma_usize_low_bits_mask_is_mod(index, 3);
            vstd::arithmetic::power2::lemma2_to64();
            vstd::bits::lemma_low_bits_mask_values();
        }
        (index >> 3usize, index & 7)
    }

    /// Set the bit at the `index`.
    ///
    /// Return false if the index is outside the range.
    pub fn set(&mut self, index: usize) -> (r: bool)
        requires
            old(self).inv(),
        ensures
            final(self).inv(),
            r == (index < old(self)@.len()),
            final(self)@.len() == old(self)@.len(),
            r ==> final(self)@ =~= old(self)@.update(index as int, true),
            !r ==> final(self)@ == old(self)@,
            final(self).spec_bytes().len() == old(self).spec_bytes().len(),
    {
        if index >= self.num_bits {
            return false;
        }
        let (byte_index, bit_index) = Self::compute_byte_bit_index(index);
        let b = self.buffer[byte_index];
        self.buffer.set(byte_index, b | (1u8 << (bit_index as u8)));
        proof {
            assert forall|i: int| 0 <= i < self.num_bits implies self@[i] == old(self)@.update(
                index as int,
                true,
            )[i] by {
                if i / 8 == index as int / 8 {
                    lemma_or_mask_bit(old(self).buffer@[i / 8], (index as int % 8) as u8,
                        (i % 8) as u8);
                    if i != index {
                        if i % 8 == index as int % 8 {
                            lemma_div_mod_8_injective(i, index as int);
                        }
                    }
                }
            }
        }
        true
    }

    /// Clear the bit at the `index`.
    ///
    /// Return false if the index is outside the range.
    pub fn unset(&mut self, index: usize) -> (r: bool)
        requires
            old(self).inv(),
        ensures
            final(self).inv(),
            r == (index < old(self)@.len()),
            final(self)@.len() == old(self)@.len(),
            r ==> final(self)@ =~= old(self)@.update(index as int, false),
            !r ==> final(self)@ == old(self)@,
            final(self).spec_bytes().len() == old(self).spec_bytes().len(),
    {
        if index >= self.num_bits {
            return false;
        }
        let (byte_index, bit_index) = Self::compute_byte_bit_index(index);
        let b = self.buffer[byte_index];
        self.buffer.set(byte_index, b & !(1u8 << (bit_index as u8)));
        proof {
            assert forall|i: int| 0 <= i < self.num_bits implies self@[i] == old(self)@.update(
                index as int,
                false,
            )[i] by {
                if i / 8 == index as int / 8 {
                    lemma_clear_mask_bit(old(self).buffer@[i / 8], (index as int % 8) as u8,
                        (i % 8) as u8);
                    if i != index {
                        if i % 8 == index as int % 8 {
                            lemma_div_mod_8_injective(i, index as int);
                        }
                    }
                }
            }
        }
        true
    }

    /// Tells whether the bit at the `index` is set.
    pub fn is_set(&self, index: usize) -> (r: Option<bool>)
        requires
            self.inv(),
        ensures
            index < self@.len() ==> r == Some(self@[index as int]),
            index >= self@.len() ==> r is None,
    {
        if index >= self.num_bits {
            return None;
        }
        let (byte_index, bit_index) = Self::compute_byte_bit_index(index);
        let set = (self.buffer[byte_index] & (1u8 << (bit_index as u8))) != 0;
        Some(set)
    }

    #[inline]
    pub fn as_bytes(&self) -> (r: &[u8])
        ensures
            r@ == self.spec_bytes(),
            forall|i: int| 0 <= i < self@.len() ==> self@[i] == spec_bit_in_bytes(r@, i),
    {
        self.buffer.as_slice()
    }

    pub fn into_bytes(self) -> (r: Vec<u8>)
        ensures
            r@ == self.spec_bytes(),
            forall|i: int| 0 <= i < self@.len() ==> self@[i] == spec_bit_in_bytes(r@, i),
    {
        self.buffer
    }
}

impl View for BitSet {
    type V = Seq<bool>;

    /// A bit set is viewed as the sequence of its addressable bits.
    closed spec fn view(&self) -> Seq<bool> {
        Seq::new(self.num_bits as nat, |i: int| spec_bit_in_bytes(self.buffer@, i))
    }
}

} // verus!
