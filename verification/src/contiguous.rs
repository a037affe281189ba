//! The contiguous row codec.
//!
//! A row is encoded into one byte buffer:
//!
//! ```plaintext
//! +---------------+----------------+-------------------------+-----------------------+
//! | num_bits(u32) | nulls_bit_set  | datum encoding block... | var-len payload block |
//! +---------------+----------------+-------------------------+-----------------------+
//! ```
//!
//! The first field is the number of bits of the `nulls_bit_set`, which is
//! used to rebuild the bit set; a set bit marks a column that is present.
//! When no column is null, `num_bits` is zero and the bit set is absent.
//! Each datum slot is a kind byte followed by the payload for fixed-size
//! kinds, or by a 32-bit offset into the var-len payload block, where the
//! payload bytes lie behind their 32-bit length.

use vstd::prelude::*;
use vstd::string::StringSliceAdditionalSpecFns;
use crate::codec::{
    put_u8, put_u16_le, put_u32_le, put_u64_le, read_u16_le, read_u32_le_combined, read_u64_le,
    spec_combine_u16_le, spec_combine_u32_le, spec_combine_u64_le, spec_u16_le, spec_u32_le,
    spec_u64_le,
};
use crate::datum::{spec_byte_size_of_datum, Datum, DatumKind, DatumV, Row};
use crate::schema::{spec_prefix_size, IndexInWriterSchema, RowProjector, Schema};
use crate::bitset::{spec_bit_in_bytes, spec_num_bytes, BitSet};

verus! {

/// Max allowed string length of datum to store in a contiguous row (16 MiB).
pub const MAX_STRING_LEN: usize = 16777216;

/// Max allowed length of total bytes in a contiguous row (1 GiB).
pub const MAX_ROW_LEN: usize = 1073741824;

/// What can go wrong while encoding a row.
#[derive(Debug, Clone, PartialEq, Eq, Structural)]
pub enum Error {
    /// A string or byte payload is longer than [`MAX_STRING_LEN`].
    StringTooLong { len: usize },
    /// The whole encoded row would be longer than [`MAX_ROW_LEN`].
    RowTooLong { len: usize },
    /// The buffer ends before the `num_bits` header.
    NumNullColsMissing,
    /// The buffer ends inside the nulls bit set.
    InvalidBitSetBytes { expect_len: usize, given_len: usize },
}

/// The 16-bit value stored little-endian at `off`.
pub open spec fn spec_u16_at(buf: Seq<u8>, off: int) -> u16 {
    spec_combine_u16_le(buf[off], buf[off + 1])
}

/// The 32-bit value stored little-endian at `off`.
pub open spec fn spec_u32_at(buf: Seq<u8>, off: int) -> u32 {
    spec_combine_u32_le(buf[off], buf[off + 1], buf[off + 2], buf[off + 3])
}

/// The 64-bit value stored little-endian at `off`.
pub open spec fn spec_u64_at(buf: Seq<u8>, off: int) -> u64 {
    spec_combine_u64_le(
        buf[off],
        buf[off + 1],
        buf[off + 2],
        buf[off + 3],
        buf[off + 4],
        buf[off + 5],
        buf[off + 6],
        buf[off + 7],
    )
}

/// The var-len payload bytes of the slot at `off`: the slot stores an
/// offset, and the payload lies behind its 32-bit length there.
pub open spec fn spec_var_bytes(buf: Seq<u8>, off: int) -> Seq<u8> {
    let voff = spec_u32_at(buf, off + 1) as int;
    let len = spec_u32_at(buf, voff) as int;
    buf.subrange(voff + 4, voff + 4 + len)
}

/// Every byte the slot at `off` makes the decoder touch lies inside the
/// buffer, and a string payload is valid UTF-8.
pub open spec fn spec_slot_covered(buf: Seq<u8>, off: int) -> bool {
    &&& 0 <= off
    &&& off + 1 <= buf.len()
    &&& match DatumKind::spec_try_from_u8(buf[off]) {
        Option::None => true,
        Option::Some(k) => {
            if k == DatumKind::Varbinary || k == DatumKind::String {
                &&& off + 5 <= buf.len()
                &&& {
                    let voff = spec_u32_at(buf, off + 1) as int;
                    &&& voff + 4 <= buf.len()
                    &&& voff + 4 + (spec_u32_at(buf, voff) as int) <= buf.len()
                    &&& (k == DatumKind::String ==> vstd::utf8::valid_utf8(
                        spec_var_bytes(buf, off),
                    ))
                }
            } else {
                off + spec_byte_size_of_datum(k) <= buf.len()
            }
        },
    }
}

/// The value the slot at `off` decodes to. An unknown kind byte decodes
/// to null.
pub open spec fn spec_slot_datum(buf: Seq<u8>, off: int) -> DatumV {
    match DatumKind::spec_try_from_u8(buf[off]) {
        Option::None => DatumV::Null,
        Option::Some(k) => match k {
            DatumKind::Null => DatumV::Null,
            DatumKind::Timestamp => DatumV::Timestamp(spec_u64_at(buf, off + 1) as i64),
            DatumKind::Double => DatumV::Double(spec_u64_at(buf, off + 1)),
            DatumKind::Float => DatumV::Float(spec_u32_at(buf, off + 1)),
            DatumKind::Varbinary => DatumV::Varbinary(spec_var_bytes(buf, off)),
            DatumKind::String => DatumV::String(vstd::utf8::decode_utf8(spec_var_bytes(buf, off))),
            DatumKind::UInt64 => DatumV::UInt64(spec_u64_at(buf, off + 1)),
            DatumKind::UInt32 => DatumV::UInt32(spec_u32_at(buf, off + 1)),
            DatumKind::UInt16 => DatumV::UInt16(spec_u16_at(buf, off + 1)),
            DatumKind::UInt8 => DatumV::UInt8(buf[off + 1]),
            DatumKind::Int64 => DatumV::Int64(spec_u64_at(buf, off + 1) as i64),
            DatumKind::Int32 => DatumV::Int32(spec_u32_at(buf, off + 1) as i32),
            DatumKind::Int16 => DatumV::Int16(spec_u16_at(buf, off + 1) as i16),
            DatumKind::Int8 => DatumV::Int8(buf[off + 1] as i8),
            DatumKind::Boolean => DatumV::Boolean(buf[off + 1] != 0),
            DatumKind::Date => DatumV::Date(spec_u32_at(buf, off + 1) as i32),
            DatumKind::Time => DatumV::Time(spec_u64_at(buf, off + 1) as i64),
        },
    }
}

/// The `num_bits` header of an encoded row.
pub open spec fn spec_header_bits(buf: Seq<u8>) -> u32 {
    spec_u32_at(buf, 0)
}

/// Whether column `i` is marked present in the nulls bit set, which
/// starts right after the header; bits past the header's count read as
/// clear.
pub open spec fn spec_present_bit(buf: Seq<u8>, i: int) -> bool {
    i < spec_header_bits(buf) && spec_bit_in_bytes(buf.skip(4), i)
}

/// The slot bytes saved by the null columns before column `i`: their
/// slots are not stored at all.
pub open spec fn spec_acc_null_bytes(buf: Seq<u8>, kinds: Seq<DatumKind>, i: int) -> nat
    decreases i,
{
    if i <= 0 {
        0
    } else {
        spec_acc_null_bytes(buf, kinds, i - 1) + if spec_present_bit(buf, i - 1) {
            0
        } else {
            spec_byte_size_of_datum(kinds[i - 1])
        }
    }
}

/// The null columns before `i` never save more bytes than all columns
/// before `i` occupy.
pub proof fn lemma_acc_null_le_prefix(buf: Seq<u8>, kinds: Seq<DatumKind>, i: int)
    ensures
        spec_acc_null_bytes(buf, kinds, i) <= spec_prefix_size(kinds, i),
    decreases i,
{
    if i > 0 {
        lemma_acc_null_le_prefix(buf, kinds, i - 1);
    }
}

/// The buffer offset of column `i`'s slot, under the row's own header.
pub open spec fn spec_slot_offset(buf: Seq<u8>, kinds: Seq<DatumKind>, i: int) -> int {
    if spec_header_bits(buf) == 0 {
        4 + spec_prefix_size(kinds, i) as int
    } else {
        4 + spec_num_bytes(spec_header_bits(buf) as nat) as int + spec_prefix_size(kinds, i)
            as int - spec_acc_null_bytes(buf, kinds, i) as int
    }
}

/// The value column `i` of an encoded row decodes to: null when the
/// nulls bit set marks it absent, the slot's value otherwise.
pub open spec fn spec_datum_at(buf: Seq<u8>, kinds: Seq<DatumKind>, i: int) -> DatumV {
    if spec_header_bits(buf) == 0 {
        spec_slot_datum(buf, spec_slot_offset(buf, kinds, i))
    } else {
        if spec_present_bit(buf, i) {
            spec_slot_datum(buf, spec_slot_offset(buf, kinds, i))
        } else {
            DatumV::Null
        }
    }
}

/// Every column the reader may be asked for is decodable: its slot is
/// covered by the buffer.
pub open spec fn spec_row_covered(buf: Seq<u8>, kinds: Seq<DatumKind>) -> bool {
    &&& buf.len() >= 4
    &&& spec_header_bits(buf) != 0 ==> 4 + spec_num_bytes(spec_header_bits(buf) as nat)
        <= buf.len()
    &&& forall|i: int|
        0 <= i < kinds.len() && (spec_header_bits(buf) == 0 || spec_present_bit(buf, i))
            ==> #[trigger] spec_slot_covered(buf, spec_slot_offset(buf, kinds, i))
}

/// Relies on String::from_utf8: it succeeds exactly on valid UTF-8 input
/// and then returns the string whose byte encoding is that input.
#[verifier::external_body]
fn string_from_utf8(v: Vec<u8>) -> (r: Option<String>)
    ensures
        r is Some <==> vstd::utf8::valid_utf8(v@),
        r is Some ==> vstd::utf8::encode_utf8(r->Some_0@) == v@,
{
    String::from_utf8(v).ok()
}

/// Copy the var-len payload of the slot at `off` out of the buffer.
#[verifier::loop_isolation(false)]
fn read_var_bytes(buf: &Vec<u8>, off: usize) -> (r: Vec<u8>)
    requires
        off + 5 <= buf@.len(),
        ({
            let voff = spec_u32_at(buf@, off as int + 1) as int;
            &&& voff + 4 <= buf@.len()
            &&& voff + 4 + (spec_u32_at(buf@, voff) as int) <= buf@.len()
        }),
    ensures
        r@ == spec_var_bytes(buf@, off as int),
{
    let n = buf.len();
    let voff = read_u32_le_combined(buf, off + 1) as usize;
    let len = read_u32_le_combined(buf, voff) as usize;
    let mut r: Vec<u8> = Vec::with_capacity(len);
    let mut k: usize = 0;
    while k < len
        invariant
            k <= len,
            voff + 4 + len <= buf@.len(),
            r@ == buf@.subrange(voff as int + 4, voff as int + 4 + k as int),
        decreases len - k,
    {
        r.push(buf[voff + 4 + k]);
        k += 1;
        proof {
            assert(r@ =~= buf@.subrange(voff as int + 4, voff as int + 4 + k as int));
        }
    }
    r
}

/// Decode the slot at `off`.
fn read_slot_datum(buf: &Vec<u8>, off: usize) -> (r: Datum)
    requires
        spec_slot_covered(buf@, off as int),
    ensures
        r@ == spec_slot_datum(buf@, off as int),
{
    let n = buf.len();
    let kind_byte = buf[off];
    match DatumKind::try_from_u8(kind_byte) {
        Option::None => Datum::Null,
        Option::Some(k) => match k {
            DatumKind::Null => Datum::Null,
            DatumKind::Timestamp => Datum::Timestamp(read_u64_le(buf, off + 1) as i64),
            DatumKind::Double => Datum::Double(read_u64_le(buf, off + 1)),
            DatumKind::Float => Datum::Float(read_u32_le_combined(buf, off + 1)),
            DatumKind::Varbinary => Datum::Varbinary(read_var_bytes(buf, off)),
            DatumKind::String => {
                let bytes = read_var_bytes(buf, off);
                match string_from_utf8(bytes) {
                    Option::Some(s) => {
                        proof {
                            vstd::utf8::encode_utf8_decode_utf8(s@);
                        }
                        Datum::String(s)
                    },
                    Option::None => Datum::Null,
                }
            },
            DatumKind::UInt64 => Datum::UInt64(read_u64_le(buf, off + 1)),
            DatumKind::UInt32 => Datum::UInt32(read_u32_le_combined(buf, off + 1)),
            DatumKind::UInt16 => Datum::UInt16(read_u16_le(buf, off + 1)),
            DatumKind::UInt8 => Datum::UInt8(buf[off + 1]),
            DatumKind::Int64 => Datum::Int64(read_u64_le(buf, off + 1) as i64),
            DatumKind::Int32 => Datum::Int32(read_u32_le_combined(buf, off + 1) as i32),
            DatumKind::Int16 => Datum::Int16(read_u16_le(buf, off + 1) as i16),
            DatumKind::Int8 => Datum::Int8(buf[off + 1] as i8),
            DatumKind::Boolean => Datum::Boolean(buf[off + 1] != 0),
            DatumKind::Date => Datum::Date(read_u32_le_combined(buf, off + 1) as i32),
            DatumKind::Time => Datum::Time(read_u64_le(buf, off + 1) as i64),
        },
    }
}

/// Row decoded from a contiguous buffer.
pub trait ContiguousRow {
    /// How many columns this row has.
    spec fn spec_num_datum_views(&self) -> nat;

    /// The value of column `index`.
    spec fn spec_datum_view_at(&self, index: int) -> DatumV;

    /// The reader is consistently built over its buffer and schema.
    spec fn wf(&self) -> bool;

    /// Returns the number of datums.
    fn num_datum_views(&self) -> (r: usize)
        requires
            self.wf(),
        ensures
            r == self.spec_num_datum_views(),
    ;

    /// Returns the value of the column at the given index.
    fn datum_view_at(&self, index: usize) -> (r: Datum)
        requires
            self.wf(),
            index < self.spec_num_datum_views(),
        ensures
            r@ == self.spec_datum_view_at(index as int),
    ;
}

/// Reader of a row encoded without a nulls bit set.
pub struct ContiguousRowReaderNoNulls<'a> {
    inner: &'a Vec<u8>,
    schema: &'a Schema,
}

/// Reader of a row encoded with a nulls bit set. Slot offsets are fixed
/// up front; an absent offset marks a null column.
pub struct ContiguousRowReaderWithNulls<'a> {
    buf: &'a Vec<u8>,
    schema: &'a Schema,
    byte_offsets: Vec<Option<usize>>,
    datum_offset: usize,
}

/// Reader of a row encoded in a contiguous buffer.
pub enum ContiguousRowReader<'a> {
    NoNulls(ContiguousRowReaderNoNulls<'a>),
    WithNulls(ContiguousRowReaderWithNulls<'a>),
}

impl<'a> ContiguousRowReader<'a> {
    /// Build a reader over `buf`, checking that the header and the nulls
    /// bit set are present.
    pub fn try_new(buf: &'a Vec<u8>, schema: &'a Schema) -> (r: Result<Self, Error>)
        requires
            schema.wf(),
        ensures
            buf@.len() < 4 ==> r == Result::<Self, Error>::Err(Error::NumNullColsMissing),
            buf@.len() >= 4 && spec_header_bits(buf@) != 0 && buf@.len() < 4 + spec_num_bytes(
                spec_header_bits(buf@) as nat,
            ) ==> (r matches Result::Err(e) && e matches Error::InvalidBitSetBytes { .. }),
            buf@.len() >= 4 && (spec_header_bits(buf@) == 0 || buf@.len() >= 4 + spec_num_bytes(
                spec_header_bits(buf@) as nat,
            ) && spec_header_bits(buf@) <= u32::MAX - 7) ==> r is Ok,
            r is Ok ==> {
                let reader = r->Ok_0;
                &&& reader.wf()
                &&& reader.spec_num_datum_views() == schema.spec_columns().len()
                &&& (spec_row_covered(buf@, schema.spec_kinds()) && (spec_header_bits(buf@) == 0
                    || schema.spec_columns().len() <= spec_header_bits(buf@))) ==> forall|i: int|
                    0 <= i < schema.spec_columns().len()
                        ==> #[trigger] reader.spec_datum_view_at(i) == spec_datum_at(
                        buf@,
                        schema.spec_kinds(),
                        i,
                    )
            },
    {
        let n = buf.len();
        if n < 4 {
            return Err(Error::NumNullColsMissing);
        }
        let num_bits = read_u32_le_combined(buf, 0);
        let ghost kinds = schema.spec_kinds();
        if num_bits > 0 {
            match ContiguousRowReaderWithNulls::try_new(buf, schema, num_bits) {
                Ok(v) => {
                    let r = Self::WithNulls(v);
                    proof {
                        if spec_row_covered(buf@, kinds) {
                            schema.lemma_total_size_bounded();
                            assert forall|i: int| 0 <= i < schema.spec_columns().len() implies
                                #[trigger] r.spec_datum_view_at(i) == spec_datum_at(
                                buf@,
                                kinds,
                                i,
                            ) by {
                                crate::schema::lemma_prefix_size_monotonic(kinds, i, kinds.len()
                                    as int);
                                lemma_acc_null_le_prefix(buf@, kinds, i);
                                if spec_present_bit(buf@, i) {
                                    assert(spec_slot_covered(
                                        buf@,
                                        spec_slot_offset(buf@, kinds, i),
                                    ));
                                }
                            }
                        }
                    }
                    Ok(r)
                },
                Err(e) => Err(e),
            }
        } else {
            let r = Self::NoNulls(ContiguousRowReaderNoNulls { inner: buf, schema });
            proof {
                if spec_row_covered(buf@, kinds) {
                    assert forall|i: int| 0 <= i < schema.spec_columns().len() implies
                        #[trigger] r.spec_datum_view_at(i) == spec_datum_at(buf@, kinds, i) by {
                        assert(spec_slot_covered(buf@, spec_slot_offset(buf@, kinds, i)));
                    }
                }
            }
            Ok(r)
        }
    }
}

impl<'a> ContiguousRow for ContiguousRowReader<'a> {
    closed spec fn spec_num_datum_views(&self) -> nat {
        match self {
            Self::NoNulls(v) => v.spec_num_datum_views(),
            Self::WithNulls(v) => v.spec_num_datum_views(),
        }
    }

    closed spec fn spec_datum_view_at(&self, index: int) -> DatumV {
        match self {
            Self::NoNulls(v) => v.spec_datum_view_at(index),
            Self::WithNulls(v) => v.spec_datum_view_at(index),
        }
    }

    closed spec fn wf(&self) -> bool {
        match self {
            Self::NoNulls(v) => v.wf(),
            Self::WithNulls(v) => v.wf(),
        }
    }

    fn num_datum_views(&self) -> (r: usize) {
        match self {
            Self::NoNulls(v) => v.num_datum_views(),
            Self::WithNulls(v) => v.num_datum_views(),
        }
    }

    fn datum_view_at(&self, index: usize) -> (r: Datum) {
        match self {
            Self::NoNulls(v) => v.datum_view_at(index),
            Self::WithNulls(v) => v.datum_view_at(index),
        }
    }
}

impl<'a> ContiguousRow for ContiguousRowReaderNoNulls<'a> {
    closed spec fn spec_num_datum_views(&self) -> nat {
        self.schema.spec_columns().len()
    }

    closed spec fn spec_datum_view_at(&self, index: int) -> DatumV {
        if spec_slot_covered(
            self.inner@,
            spec_slot_offset(self.inner@, self.schema.spec_kinds(), index),
        ) {
            spec_datum_at(self.inner@, self.schema.spec_kinds(), index)
        } else {
            DatumV::Null
        }
    }

    closed spec fn wf(&self) -> bool {
        &&& self.schema.wf()
        &&& self.inner@.len() >= 4
        &&& spec_header_bits(self.inner@) == 0
    }

    fn num_datum_views(&self) -> (r: usize) {
        self.schema.num_columns()
    }

    fn datum_view_at(&self, index: usize) -> (r: Datum) {
        let n = self.inner.len();
        let off_in_row = self.schema.byte_offset(index);
        if off_in_row > usize::MAX - 4 {
            // The slot offset lies past any addressable buffer.
            return Datum::Null;
        }
        let off = 4 + off_in_row;
        if !slot_covered(self.inner, off) {
            return Datum::Null;
        }
        read_slot_datum(self.inner, off)
    }
}

impl<'a> ContiguousRowReaderWithNulls<'a> {
    #[verifier::loop_isolation(false)]
    fn try_new(buf: &'a Vec<u8>, schema: &'a Schema, num_bits: u32) -> (r: Result<Self, Error>)
        requires
            schema.wf(),
            num_bits > 0,
            buf@.len() >= 4,
            num_bits == spec_header_bits(buf@),
        ensures
            buf@.len() < 4 + spec_num_bytes(num_bits as nat) ==> (r matches Result::Err(e)
                && e matches Error::InvalidBitSetBytes { .. }),
            buf@.len() >= 4 + spec_num_bytes(num_bits as nat) && num_bits <= u32::MAX - 7 ==> r
                is Ok,
            r is Ok ==> {
                let reader = r->Ok_0;
                &&& reader.wf()
                &&& reader.spec_num_datum_views() == schema.spec_columns().len()
                &&& reader.buf == buf
                &&& reader.schema == schema
                &&& reader.datum_offset == 4 + spec_num_bytes(num_bits as nat)
                &&& forall|j: int|
                    0 <= j < schema.spec_columns().len() ==> #[trigger] reader.byte_offsets@[j]
                        == (if spec_present_bit(buf@, j) {
                        Some(
                            (spec_prefix_size(schema.spec_kinds(), j) - spec_acc_null_bytes(
                                buf@,
                                schema.spec_kinds(),
                                j,
                            )) as usize,
                        )
                    } else {
                        Option::<usize>::None
                    })
            },
    {
        if num_bits > u32::MAX - 7 {
            return Err(Error::InvalidBitSetBytes { expect_len: usize::MAX, given_len: buf.len() });
        }
        let bit_set_size_u32 = (num_bits + 7) >> 3u32;
        proof {
            vstd::bits::lemma_u32_shr_is_div((num_bits + 7) as u32, 3);
            vstd::arithmetic::power2::lemma2_to64();
        }
        let bit_set_size = bit_set_size_u32 as usize;
        let n = buf.len();
        if n < 4 || n - 4 < bit_set_size {
            return Err(Error::InvalidBitSetBytes { expect_len: bit_set_size, given_len: n });
        }

        let num_columns = schema.num_columns();
        let mut byte_offsets: Vec<Option<usize>> = Vec::with_capacity(num_columns);
        let mut acc_null_bytes: usize = 0;
        let mut index: usize = 0;
        let ghost kinds = schema.spec_kinds();
        while index < num_columns
            invariant
                index <= num_columns,
                byte_offsets@.len() == index,
                acc_null_bytes == spec_acc_null_bytes(buf@, kinds, index as int),
                acc_null_bytes <= spec_prefix_size(kinds, index as int),
                forall|j: int|
                    0 <= j < index ==> #[trigger] byte_offsets@[j] == (if spec_present_bit(
                        buf@,
                        j,
                    ) {
                        Some(
                            (spec_prefix_size(kinds, j) - spec_acc_null_bytes(buf@, kinds, j))
                                as usize,
                        )
                    } else {
                        Option::<usize>::None
                    }),
            decreases num_columns - index,
        {
            let expect_offset = schema.byte_offset(index);
            let present = bit_in_buf(buf, 4, bit_set_size, num_bits, index);
            proof {
                crate::schema::lemma_prefix_size_step(kinds, index as int);
                crate::schema::lemma_prefix_size_monotonic(kinds, index as int + 1, num_columns
                    as int);
                schema.lemma_total_size_bounded();
                assert(kinds[index as int] == schema.spec_columns()[index as int].data_type);
                assert(present == spec_present_bit(buf@, index as int));
            }
            if present {
                byte_offsets.push(Some(expect_offset - acc_null_bytes));
            } else {
                byte_offsets.push(None);
                let sz = crate::datum::byte_size_of_datum(&schema.column(index).data_type);
                acc_null_bytes = acc_null_bytes + sz;
            }
            index += 1;
        }

        Ok(Self { buf, schema, byte_offsets, datum_offset: 4 + bit_set_size })
    }
}

/// Whether bit `i` of the bit set stored at `start` (with `nbytes` bytes
/// holding `num_bits` bits) is set; out-of-range bits read as clear.
fn bit_in_buf(buf: &Vec<u8>, start: usize, nbytes: usize, num_bits: u32, i: usize) -> (r: bool)
    requires
        start + nbytes <= buf@.len(),
        spec_num_bytes(num_bits as nat) <= nbytes,
    ensures
        i < num_bits ==> r == spec_bit_in_bytes(buf@.skip(start as int), i as int),
        i >= num_bits ==> r == false,
{
    if i >= num_bits as usize {
        return false;
    }
    proof {
        vstd::bits::lemma_usize_shr_is_div(i, 3);
        vstd::bits::lemma_usize_low_bits_mask_is_mod(i, 3);
        vstd::arithmetic::power2::lemma2_to64();
        vstd::bits::lemma_low_bits_mask_values();
        assert(i as int / 8 < spec_num_bytes(num_bits as nat)) by {
            assert(i as int / 8 * 8 <= i) by {
                vstd::arithmetic::div_mod::lemma_fundamental_div_mod(i as int, 8);
            }
        }
    }
    let n = buf.len();
    let byte_index = i >> 3usize;
    let bit_index = i & 7;
    let b = buf[start + byte_index];
    proof {
        assert(buf@.skip(start as int)[i as int / 8] == buf@[start + i as int / 8]);
    }
    (b & (1u8 << (bit_index as u8))) != 0
}

/// Whether the slot at `off` is fully inside the buffer, checked at run
/// time.
fn slot_covered(buf: &Vec<u8>, off: usize) -> (r: bool)
    ensures
        r == spec_slot_covered(buf@, off as int),
{
    let n = buf.len();
    if off >= n {
        return false;
    }
    let kind_byte = buf[off];
    match DatumKind::try_from_u8(kind_byte) {
        Option::None => true,
        Option::Some(k) => match k {
            DatumKind::Varbinary | DatumKind::String => {
                if off > n - 1 || n - off < 5 {
                    return false;
                }
                let voff = read_u32_le_combined(buf, off + 1) as usize;
                if voff > n || n - voff < 4 {
                    return false;
                }
                let len = read_u32_le_combined(buf, voff) as usize;
                if n - voff - 4 < len {
                    return false;
                }
                if matches!(k, DatumKind::String) {
                    let bytes = read_var_bytes(buf, off);
                    match string_from_utf8(bytes) {
                        Option::Some(..) => true,
                        Option::None => false,
                    }
                } else {
                    true
                }
            },
            _ => {
                let sz = crate::datum::byte_size_of_datum(&k);
                off <= n && n - off >= sz
            },
        },
    }
}

impl<'a> ContiguousRow for ContiguousRowReaderWithNulls<'a> {
    closed spec fn spec_num_datum_views(&self) -> nat {
        self.byte_offsets@.len()
    }

    closed spec fn spec_datum_view_at(&self, index: int) -> DatumV {
        match self.byte_offsets@[index] {
            Option::None => DatumV::Null,
            Option::Some(off) => {
                if off > usize::MAX - self.datum_offset {
                    DatumV::Null
                } else if spec_slot_covered(self.buf@, self.datum_offset + off as int) {
                    spec_slot_datum(self.buf@, self.datum_offset + off as int)
                } else {
                    DatumV::Null
                }
            },
        }
    }

    closed spec fn wf(&self) -> bool {
        &&& self.schema.wf()
        &&& self.byte_offsets@.len() == self.schema.spec_columns().len()
    }

    fn num_datum_views(&self) -> (r: usize) {
        self.byte_offsets.len()
    }

    fn datum_view_at(&self, index: usize) -> (r: Datum) {
        match self.byte_offsets[index] {
            Option::None => Datum::Null,
            Option::Some(off) => {
                if off > usize::MAX - self.datum_offset {
                    return Datum::Null;
                }
                let datum_offset = self.datum_offset + off;
                if !slot_covered(self.buf, datum_offset) {
                    return Datum::Null;
                }
                read_slot_datum(self.buf, datum_offset)
            },
        }
    }
}

/// Contiguous row with projection information.
///
/// The caller must ensure the source schema of the projector is the
/// schema of the source row.
pub struct ProjectedContiguousRow<'a, T> {
    source_row: T,
    projector: &'a RowProjector,
}

impl<'a, T: ContiguousRow> ProjectedContiguousRow<'a, T> {
    pub fn new(source_row: T, projector: &'a RowProjector) -> (r: Self)
        ensures
            r.wf() <==> source_row.wf() && (forall|j: int|
                0 <= j < projector.spec_source_projection().len() ==> ((
                #[trigger] projector.spec_source_projection()[j]) matches Option::Some(w) ==> w
                    < source_row.spec_num_datum_views())),
            r.spec_num_datum_views() == projector.spec_source_projection().len(),
            forall|i: int|
                0 <= i < projector.spec_source_projection().len()
                    ==> #[trigger] r.spec_datum_view_at(i) == (
                match projector.spec_source_projection()[i] {
                    Option::Some(w) => source_row.spec_datum_view_at(w as int),
                    Option::None => DatumV::Null,
                }),
    {
        Self { source_row, projector }
    }
}

impl<'a, T: ContiguousRow> ContiguousRow for ProjectedContiguousRow<'a, T> {
    closed spec fn spec_num_datum_views(&self) -> nat {
        self.projector.spec_source_projection().len()
    }

    closed spec fn spec_datum_view_at(&self, index: int) -> DatumV {
        match self.projector.spec_source_projection()[index] {
            Option::Some(index_in_source) => self.source_row.spec_datum_view_at(
                index_in_source as int,
            ),
            Option::None => DatumV::Null,
        }
    }

    closed spec fn wf(&self) -> bool {
        &&& self.source_row.wf()
        &&& forall|j: int|
            0 <= j < self.projector.spec_source_projection().len() ==> ((
            #[trigger] self.projector.spec_source_projection()[j]) matches Option::Some(w) ==> w
                < self.source_row.spec_num_datum_views())
    }

    fn num_datum_views(&self) -> (r: usize) {
        self.projector.source_projection().len()
    }

    fn datum_view_at(&self, index: usize) -> (r: Datum) {
        let p = self.projector.source_projection()[index];
        match p {
            Option::Some(index_in_source) => self.source_row.datum_view_at(index_in_source),
            Option::None => Datum::Null,
        }
    }
}


/// Whether table column `i` receives a value: the writer schema has it
/// and the row's datum is not null.
pub open spec fn spec_present_col(idxs: Seq<Option<usize>>, row: Seq<Datum>, i: int) -> bool {
    &&& idxs[i] is Some
    &&& (idxs[i]->Some_0 as int) < row.len()
    &&& !(row[idxs[i]->Some_0 as int]@ is Null)
}

/// The value an encoded row is expected to decode to at column `i`.
pub open spec fn spec_expected_datum(idxs: Seq<Option<usize>>, row: Seq<Datum>, i: int) -> DatumV {
    if spec_present_col(idxs, row, i) {
        row[idxs[i]->Some_0 as int]@
    } else {
        DatumV::Null
    }
}

/// The row datum feeding table column `i`; meaningful only when present.
pub open spec fn spec_col_datum(idxs: Seq<Option<usize>>, row: Seq<Datum>, i: int) -> Datum {
    row[idxs[i]->Some_0 as int]
}

/// The variable-length payload bytes a datum contributes.
pub open spec fn spec_var_payload(d: Datum) -> Seq<u8> {
    match d {
        Datum::Varbinary(v) => v@,
        Datum::String(x) => vstd::utf8::encode_utf8(x@),
        _ => Seq::empty(),
    }
}

/// A datum's value is null exactly when its kind is the null kind.
proof fn lemma_null_kind(d: Datum)
    ensures
        (d@ is Null) <==> (d.spec_kind() == DatumKind::Null),
{
    match d {
        Datum::Null => {},
        Datum::Timestamp(..) => {},
        Datum::Double(..) => {},
        Datum::Float(..) => {},
        Datum::Varbinary(..) => {},
        Datum::String(..) => {},
        Datum::UInt64(..) => {},
        Datum::UInt32(..) => {},
        Datum::UInt16(..) => {},
        Datum::UInt8(..) => {},
        Datum::Int64(..) => {},
        Datum::Int32(..) => {},
        Datum::Int16(..) => {},
        Datum::Int8(..) => {},
        Datum::Boolean(..) => {},
        Datum::Date(..) => {},
        Datum::Time(..) => {},
    }
}

/// Whether a datum stores its payload in the var-len block.
pub open spec fn spec_is_varlen(d: Datum) -> bool {
    d.spec_kind() == DatumKind::Varbinary || d.spec_kind() == DatumKind::String
}

/// The fixed-slot bytes of the first `i` columns that are present.
pub open spec fn spec_fixed_sz(idxs: Seq<Option<usize>>, row: Seq<Datum>, i: int) -> nat
    decreases i,
{
    if i <= 0 {
        0
    } else {
        spec_fixed_sz(idxs, row, i - 1) + if spec_present_col(idxs, row, i - 1) {
            spec_byte_size_of_datum(spec_col_datum(idxs, row, i - 1).spec_kind())
        } else {
            0
        }
    }
}

/// The var-len block bytes of the first `i` columns that are present.
pub open spec fn spec_var_sz(idxs: Seq<Option<usize>>, row: Seq<Datum>, i: int) -> nat
    decreases i,
{
    if i <= 0 {
        0
    } else {
        spec_var_sz(idxs, row, i - 1) + if spec_present_col(idxs, row, i - 1) && spec_is_varlen(
            spec_col_datum(idxs, row, i - 1),
        ) {
            4 + spec_var_payload(spec_col_datum(idxs, row, i - 1)).len()
        } else {
            0
        }
    }
}

/// Whether any of the first `n` columns receives no value.
pub open spec fn spec_has_null(idxs: Seq<Option<usize>>, row: Seq<Datum>, n: int) -> bool {
    exists|j: int| 0 <= j < n && !spec_present_col(idxs, row, j)
}

/// The length of the header and nulls bit set of the encoded row.
pub open spec fn spec_header_len(idxs: Seq<Option<usize>>, row: Seq<Datum>, n: int) -> nat {
    if spec_has_null(idxs, row, n) {
        4 + spec_num_bytes(n as nat)
    } else {
        4
    }
}

/// The total length of the encoded row.
pub open spec fn spec_total_len(idxs: Seq<Option<usize>>, row: Seq<Datum>, n: int) -> nat {
    spec_header_len(idxs, row, n) + spec_fixed_sz(idxs, row, n) + spec_var_sz(idxs, row, n)
}

/// Whether some present payload is longer than [`MAX_STRING_LEN`].
pub open spec fn spec_some_payload_too_long(
    idxs: Seq<Option<usize>>,
    row: Seq<Datum>,
    n: int,
) -> bool {
    exists|j: int|
        0 <= j < n && #[trigger] spec_present_col(idxs, row, j) && spec_is_varlen(
            spec_col_datum(idxs, row, j),
        ) && spec_var_payload(spec_col_datum(idxs, row, j)).len() > MAX_STRING_LEN
}

/// The fixed-slot bytes of a present datum, with `voff` the absolute
/// offset its var-len payload would take.
pub open spec fn spec_slot_bytes(d: Datum, voff: int) -> Seq<u8> {
    match d {
        Datum::Null => Seq::empty(),
        Datum::Timestamp(v) => seq![1u8] + spec_u64_le(v as u64),
        Datum::Double(v) => seq![2u8] + spec_u64_le(v),
        Datum::Float(v) => seq![3u8] + spec_u32_le(v),
        Datum::Varbinary(_) => seq![4u8] + spec_u32_le(voff as u32),
        Datum::String(_) => seq![5u8] + spec_u32_le(voff as u32),
        Datum::UInt64(v) => seq![6u8] + spec_u64_le(v),
        Datum::UInt32(v) => seq![7u8] + spec_u32_le(v),
        Datum::UInt16(v) => seq![8u8] + spec_u16_le(v),
        Datum::UInt8(v) => seq![9u8, v],
        Datum::Int64(v) => seq![10u8] + spec_u64_le(v as u64),
        Datum::Int32(v) => seq![11u8] + spec_u32_le(v as u32),
        Datum::Int16(v) => seq![12u8] + spec_u16_le(v as u16),
        Datum::Int8(v) => seq![13u8, v as u8],
        Datum::Boolean(v) => seq![
            14u8,
            if v {
                1u8
            } else {
                0u8
            },
        ],
        Datum::Date(v) => seq![15u8] + spec_u32_le(v as u32),
        Datum::Time(v) => seq![16u8] + spec_u64_le(v as u64),
    }
}

/// Reading the wire byte of a kind back gives the kind.
proof fn lemma_kind_byte_round_trip(k: DatumKind)
    ensures
        DatumKind::spec_try_from_u8(k.spec_into_u8()) == Some(k),
{
}

/// A slot holding the encoding of a non-null datum decodes to that
/// datum's value, and every byte it touches is inside the buffer.
proof fn lemma_slot_round_trip(buf: Seq<u8>, off: int, d: Datum, voff: int)
    requires
        !(d@ is Null),
        0 <= off,
        off + spec_byte_size_of_datum(d.spec_kind()) <= buf.len(),
        buf.subrange(off, off + spec_byte_size_of_datum(d.spec_kind()) as int) == spec_slot_bytes(
            d,
            voff,
        ),
        spec_is_varlen(d) ==> {
            let p = spec_var_payload(d);
            &&& 0 <= voff <= u32::MAX
            &&& p.len() <= u32::MAX
            &&& voff + 4 + p.len() <= buf.len()
            &&& buf.subrange(voff, voff + 4) == spec_u32_le(p.len() as u32)
            &&& buf.subrange(voff + 4, voff + 4 + p.len() as int) == p
        },
    ensures
        spec_slot_covered(buf, off),
        spec_slot_datum(buf, off) == d@,
{
    let k = d.spec_kind();
    let sz = spec_byte_size_of_datum(k) as int;
    let slot = spec_slot_bytes(d, voff);
    lemma_kind_byte_round_trip(k);
    assert forall|j: int| 0 <= j < sz implies #[trigger] buf[off + j] == slot[j] by {
        assert(buf.subrange(off, off + sz)[j] == buf[off + j]);
    }
    assert(buf[off + 0] == slot[0]);
    assert(buf[off] == k.spec_into_u8());
    if spec_is_varlen(d) {
        let p = spec_var_payload(d);
        assert(slot[1] == spec_u32_le(voff as u32)[0]);
        assert(slot[2] == spec_u32_le(voff as u32)[1]);
        assert(slot[3] == spec_u32_le(voff as u32)[2]);
        assert(slot[4] == spec_u32_le(voff as u32)[3]);
        assert(buf[off + 1] == slot[1] && buf[off + 2] == slot[2] && buf[off + 3] == slot[3]
            && buf[off + 4] == slot[4]);
        assert(spec_u32_at(buf, off + 1) == spec_combine_u32_le(
            (voff as u32) as u8,
            ((voff as u32) >> 8) as u8,
            ((voff as u32) >> 16) as u8,
            ((voff as u32) >> 24) as u8,
        ));
        crate::codec::lemma_u32_le_combine(voff as u32);
        assert(spec_u32_at(buf, off + 1) == voff as u32);
        assert forall|j: int| 0 <= j < 4 implies #[trigger] buf[voff + j] == spec_u32_le(
            p.len() as u32,
        )[j] by {
            assert(buf.subrange(voff, voff + 4)[j] == buf[voff + j]);
        }
        assert(spec_u32_at(buf, voff) == spec_combine_u32_le(
            (p.len() as u32) as u8,
            ((p.len() as u32) >> 8) as u8,
            ((p.len() as u32) >> 16) as u8,
            ((p.len() as u32) >> 24) as u8,
        ));
        crate::codec::lemma_u32_le_combine(p.len() as u32);
        assert(spec_u32_at(buf, voff) == p.len() as u32);
        assert(spec_var_bytes(buf, off) =~= p);
        match d {
            Datum::String(x) => {
                vstd::utf8::encode_utf8_valid_utf8(x@);
                vstd::utf8::encode_utf8_decode_utf8(x@);
            },
            _ => {},
        }
    } else {
        match d {
            Datum::Null => {
                assert(false);
            },
            Datum::Timestamp(v) => {
                lemma_wide_slot(buf, off, v as u64);
                crate::codec::lemma_i64_cast_round_trip(v);
            },
            Datum::Double(v) => {
                lemma_wide_slot(buf, off, v);
            },
            Datum::Float(v) => {
                lemma_quad_slot(buf, off, v);
            },
            Datum::UInt64(v) => {
                lemma_wide_slot(buf, off, v);
            },
            Datum::UInt32(v) => {
                lemma_quad_slot(buf, off, v);
            },
            Datum::UInt16(v) => {
                lemma_pair_slot(buf, off, v);
            },
            Datum::UInt8(v) => {
            },
            Datum::Int64(v) => {
                lemma_wide_slot(buf, off, v as u64);
                crate::codec::lemma_i64_cast_round_trip(v);
            },
            Datum::Int32(v) => {
                lemma_quad_slot(buf, off, v as u32);
                crate::codec::lemma_i32_cast_round_trip(v);
            },
            Datum::Int16(v) => {
                lemma_pair_slot(buf, off, v as u16);
                crate::codec::lemma_i16_cast_round_trip(v);
            },
            Datum::Int8(v) => {
                crate::codec::lemma_i8_cast_round_trip(v);
            },
            Datum::Boolean(v) => {
            },
            Datum::Date(v) => {
                lemma_quad_slot(buf, off, v as u32);
                crate::codec::lemma_i32_cast_round_trip(v);
            },
            Datum::Time(v) => {
                lemma_wide_slot(buf, off, v as u64);
                crate::codec::lemma_i64_cast_round_trip(v);
            },
            _ => {},
        }
    }
}

/// An eight-byte little-endian payload at `off + 1` reads back as its
/// value.
proof fn lemma_wide_slot(buf: Seq<u8>, off: int, v: u64)
    requires
        forall|j: int| 1 <= j < 9 ==> #[trigger] buf[off + j] == spec_u64_le(v)[j - 1],
    ensures
        spec_u64_at(buf, off + 1) == v,
{
    assert(buf[off + 1] == v as u8 && buf[off + 2] == (v >> 8) as u8 && buf[off + 3] == (v >> 16)
        as u8 && buf[off + 4] == (v >> 24) as u8 && buf[off + 5] == (v >> 32) as u8 && buf[off + 6]
        == (v >> 40) as u8 && buf[off + 7] == (v >> 48) as u8 && buf[off + 8] == (v >> 56) as u8);
    crate::codec::lemma_u64_le_combine(v);
}

/// A four-byte little-endian payload at `off + 1` reads back as its
/// value.
proof fn lemma_quad_slot(buf: Seq<u8>, off: int, v: u32)
    requires
        forall|j: int| 1 <= j < 5 ==> #[trigger] buf[off + j] == spec_u32_le(v)[j - 1],
    ensures
        spec_u32_at(buf, off + 1) == v,
{
    assert(buf[off + 1] == v as u8 && buf[off + 2] == (v >> 8) as u8 && buf[off + 3] == (v >> 16)
        as u8 && buf[off + 4] == (v >> 24) as u8);
    crate::codec::lemma_u32_le_combine(v);
}

/// A two-byte little-endian payload at `off + 1` reads back as its
/// value.
proof fn lemma_pair_slot(buf: Seq<u8>, off: int, v: u16)
    requires
        forall|j: int| 1 <= j < 3 ==> #[trigger] buf[off + j] == spec_u16_le(v)[j - 1],
    ensures
        spec_u16_at(buf, off + 1) == v,
{
    assert(buf[off + 1] == v as u8 && buf[off + 2] == (v >> 8) as u8);
    crate::codec::lemma_u16_le_combine(v);
}

/// When the nulls bit set marks exactly the present columns, the bytes
/// the null columns save equal the gap between all slots and the present
/// slots; with compatible kinds the present slots take `spec_fixed_sz`.
proof fn lemma_fixed_offsets(
    buf: Seq<u8>,
    kinds: Seq<DatumKind>,
    idxs: Seq<Option<usize>>,
    row: Seq<Datum>,
    i: int,
)
    requires
        0 <= i <= kinds.len(),
        idxs.len() == kinds.len(),
        forall|j: int|
            0 <= j < kinds.len() ==> #[trigger] spec_present_bit(buf, j) == spec_present_col(
                idxs,
                row,
                j,
            ),
        forall|j: int|
            0 <= j < kinds.len() && #[trigger] spec_present_col(idxs, row, j) ==> spec_col_datum(
                idxs,
                row,
                j,
            ).spec_kind() == kinds[j],
    ensures
        spec_prefix_size(kinds, i) - spec_acc_null_bytes(buf, kinds, i) == spec_fixed_sz(
            idxs,
            row,
            i,
        ),
    decreases i,
{
    if i > 0 {
        lemma_fixed_offsets(buf, kinds, idxs, row, i - 1);
    }
}

/// When every column is present with a compatible kind, the present
/// slots take exactly the schema's prefix sizes.
proof fn lemma_fixed_is_prefix(
    kinds: Seq<DatumKind>,
    idxs: Seq<Option<usize>>,
    row: Seq<Datum>,
    i: int,
)
    requires
        0 <= i <= kinds.len(),
        idxs.len() == kinds.len(),
        forall|j: int| 0 <= j < kinds.len() ==> #[trigger] spec_present_col(idxs, row, j),
        forall|j: int|
            0 <= j < kinds.len() && #[trigger] spec_present_col(idxs, row, j) ==> spec_col_datum(
                idxs,
                row,
                j,
            ).spec_kind() == kinds[j],
    ensures
        spec_fixed_sz(idxs, row, i) == spec_prefix_size(kinds, i),
    decreases i,
{
    if i > 0 {
        lemma_fixed_is_prefix(kinds, idxs, row, i - 1);
    }
}

/// Append a byte slice to a growable buffer.
#[verifier::loop_isolation(false)]
fn append_bytes(dst: &mut Vec<u8>, src: &[u8])
    ensures
        final(dst)@ == old(dst)@ + src@,
{
    let n = src.len();
    let mut k: usize = 0;
    while k < n
        invariant
            k <= n,
            dst@ == old(dst)@ + src@.take(k as int),
        decreases n - k,
    {
        dst.push(src[k]);
        k += 1;
        proof {
            assert(dst@ =~= old(dst)@ + src@.take(k as int));
        }
    }
    proof {
        assert(dst@ =~= old(dst)@ + src@);
    }
}

/// Append the fixed-slot encoding of a present datum.
fn emit_slot(out: &mut Vec<u8>, d: &Datum, voff: u32)
    requires
        !(d@ is Null),
    ensures
        final(out)@ == old(out)@ + spec_slot_bytes(*d, voff as int),
        final(out)@.len() == old(out)@.len() + spec_byte_size_of_datum(d.spec_kind()),
{
    match d {
        Datum::Null => {},
        Datum::Timestamp(v) => {
            put_u8(out, 1);
            put_u64_le(out, *v as u64);
        },
        Datum::Double(v) => {
            put_u8(out, 2);
            put_u64_le(out, *v);
        },
        Datum::Float(v) => {
            put_u8(out, 3);
            put_u32_le(out, *v);
        },
        Datum::Varbinary(_) => {
            put_u8(out, 4);
            put_u32_le(out, voff);
        },
        Datum::String(_) => {
            put_u8(out, 5);
            put_u32_le(out, voff);
        },
        Datum::UInt64(v) => {
            put_u8(out, 6);
            put_u64_le(out, *v);
        },
        Datum::UInt32(v) => {
            put_u8(out, 7);
            put_u32_le(out, *v);
        },
        Datum::UInt16(v) => {
            put_u8(out, 8);
            put_u16_le(out, *v);
        },
        Datum::UInt8(v) => {
            put_u8(out, 9);
            put_u8(out, *v);
        },
        Datum::Int64(v) => {
            put_u8(out, 10);
            put_u64_le(out, *v as u64);
        },
        Datum::Int32(v) => {
            put_u8(out, 11);
            put_u32_le(out, *v as u32);
        },
        Datum::Int16(v) => {
            put_u8(out, 12);
            put_u16_le(out, *v as u16);
        },
        Datum::Int8(v) => {
            put_u8(out, 13);
            put_u8(out, *v as u8);
        },
        Datum::Boolean(v) => {
            put_u8(out, 14);
            put_u8(
                out,
                if *v {
                    1
                } else {
                    0
                },
            );
        },
        Datum::Date(v) => {
            put_u8(out, 15);
            put_u32_le(out, *v as u32);
        },
        Datum::Time(v) => {
            put_u8(out, 16);
            put_u64_le(out, *v as u64);
        },
    }
    proof {
        assert(out@ =~= old(out)@ + spec_slot_bytes(*d, voff as int));
    }
}


/// Two sequence facts used to keep already-written regions stable while
/// the buffer grows.
proof fn lemma_subrange_of_concat_left(a: Seq<u8>, b: Seq<u8>, x: int, y: int)
    requires
        0 <= x <= y <= a.len(),
    ensures
        (a + b).subrange(x, y) == a.subrange(x, y),
{
    assert((a + b).subrange(x, y) =~= a.subrange(x, y));
}

proof fn lemma_subrange_of_concat_right(a: Seq<u8>, b: Seq<u8>, x: int, y: int)
    requires
        0 <= x <= y <= b.len(),
    ensures
        (a + b).subrange(a.len() + x, a.len() + y) == b.subrange(x, y),
{
    assert((a + b).subrange(a.len() + x, a.len() + y) =~= b.subrange(x, y));
}

/// The concatenated present slots take exactly `spec_fixed_sz` bytes, and
/// the var-len region takes exactly `spec_var_sz` bytes.
proof fn lemma_region_lens(idxs: Seq<Option<usize>>, row: Seq<Datum>, i: int, fix_end: int)
    ensures
        spec_slots_bytes(idxs, row, i, fix_end).len() == spec_fixed_sz(idxs, row, i),
        spec_var_region(idxs, row, i).len() == spec_var_sz(idxs, row, i),
    decreases i,
{
    if i > 0 {
        lemma_region_lens(idxs, row, i - 1, fix_end);
        if spec_present_col(idxs, row, i - 1) {
            lemma_slot_bytes_len(spec_col_datum(idxs, row, i - 1), spec_slot_voff(idxs, row, i - 1,
                fix_end));
        }
    }
}

/// A slot's byte image is as long as the slot.
proof fn lemma_slot_bytes_len(d: Datum, voff: int)
    requires
        !(d@ is Null),
    ensures
        spec_slot_bytes(d, voff).len() == spec_byte_size_of_datum(d.spec_kind()),
{
}

/// The var-len offset stored for column `i`, when its datum is varlen.
pub open spec fn spec_slot_voff(idxs: Seq<Option<usize>>, row: Seq<Datum>, i: int, fix_end: int)
    -> int {
    fix_end + spec_var_sz(idxs, row, i)
}

/// The concatenation of the fixed slots of the present columns before
/// `i`.
pub open spec fn spec_slots_bytes(
    idxs: Seq<Option<usize>>,
    row: Seq<Datum>,
    i: int,
    fix_end: int,
) -> Seq<u8>
    decreases i,
{
    if i <= 0 {
        Seq::empty()
    } else {
        spec_slots_bytes(idxs, row, i - 1, fix_end) + if spec_present_col(idxs, row, i - 1) {
            spec_slot_bytes(
                spec_col_datum(idxs, row, i - 1),
                spec_slot_voff(idxs, row, i - 1, fix_end),
            )
        } else {
            Seq::empty()
        }
    }
}

/// The concatenation of the var-len payload records of the present
/// columns before `i`.
pub open spec fn spec_var_region(idxs: Seq<Option<usize>>, row: Seq<Datum>, i: int) -> Seq<u8>
    decreases i,
{
    if i <= 0 {
        Seq::empty()
    } else {
        spec_var_region(idxs, row, i - 1) + if spec_present_col(idxs, row, i - 1) && spec_is_varlen(
            spec_col_datum(idxs, row, i - 1),
        ) {
            let p = spec_var_payload(spec_col_datum(idxs, row, i - 1));
            spec_u32_le(p.len() as u32) + p
        } else {
            Seq::empty()
        }
    }
}

/// The byte length of a datum's var-len payload.
fn var_payload_len(d: &Datum) -> (r: usize)
    ensures
        r == spec_var_payload(*d).len(),
{
    match d {
        Datum::Varbinary(v) => {
            let l = v.len();
            proof {
                assert(spec_var_payload(*d) == v@);
                assert(l == spec_var_payload(*d).len());
            }
            l
        },
        Datum::String(x) => {
            let b = x.as_str().as_bytes();
            let l = b.len();
            proof {
                assert(b@ == vstd::utf8::encode_utf8(x@));
                assert(spec_var_payload(*d) == vstd::utf8::encode_utf8(x@));
            }
            l
        },
        _ => {
            proof {
                assert(spec_var_payload(*d) == Seq::<u8>::empty());
            }
            0
        },
    }
}


/// One unfolding step of the slot and var-len region builders.
proof fn lemma_slots_step(idxs: Seq<Option<usize>>, row: Seq<Datum>, i: int, fix_end: int)
    requires
        0 <= i,
    ensures
        spec_slots_bytes(idxs, row, i + 1, fix_end) == spec_slots_bytes(idxs, row, i, fix_end) + (
        if spec_present_col(idxs, row, i) {
            spec_slot_bytes(spec_col_datum(idxs, row, i), spec_slot_voff(idxs, row, i, fix_end))
        } else {
            Seq::empty()
        }),
        spec_var_region(idxs, row, i + 1) == spec_var_region(idxs, row, i) + (if spec_present_col(
            idxs,
            row,
            i,
        ) && spec_is_varlen(spec_col_datum(idxs, row, i)) {
            let p = spec_var_payload(spec_col_datum(idxs, row, i));
            spec_u32_le(p.len() as u32) + p
        } else {
            Seq::empty()
        }),
        spec_fixed_sz(idxs, row, i + 1) == spec_fixed_sz(idxs, row, i) + (if spec_present_col(
            idxs,
            row,
            i,
        ) {
            spec_byte_size_of_datum(spec_col_datum(idxs, row, i).spec_kind())
        } else {
            0
        }),
        spec_var_sz(idxs, row, i + 1) == spec_var_sz(idxs, row, i) + (if spec_present_col(
            idxs,
            row,
            i,
        ) && spec_is_varlen(spec_col_datum(idxs, row, i)) {
            4 + spec_var_payload(spec_col_datum(idxs, row, i)).len()
        } else {
            0
        }),
{
}

/// The partial region sizes never pass the full region sizes.
proof fn lemma_fixed_var_le_totals(idxs: Seq<Option<usize>>, row: Seq<Datum>, i: int, n: int)
    requires
        0 <= i <= n,
    ensures
        spec_fixed_sz(idxs, row, i) <= spec_fixed_sz(idxs, row, n),
        spec_var_sz(idxs, row, i) <= spec_var_sz(idxs, row, n),
    decreases n - i,
{
    if i < n {
        lemma_fixed_var_le_totals(idxs, row, i + 1, n);
        lemma_slots_step(idxs, row, i, 0);
    }
}

/// The slot of present column `i` sits in the slots region at the offset
/// given by the sizes of the earlier present slots.
proof fn lemma_slots_extract(
    idxs: Seq<Option<usize>>,
    row: Seq<Datum>,
    i: int,
    m: int,
    fix_end: int,
)
    requires
        0 <= i < m,
        spec_present_col(idxs, row, i),
    ensures
        ({
            let d = spec_col_datum(idxs, row, i);
            spec_slots_bytes(idxs, row, m, fix_end).subrange(
                spec_fixed_sz(idxs, row, i) as int,
                spec_fixed_sz(idxs, row, i) as int + spec_byte_size_of_datum(d.spec_kind()) as int,
            ) == spec_slot_bytes(d, spec_slot_voff(idxs, row, i, fix_end))
        }),
    decreases m - i,
{
    let d = spec_col_datum(idxs, row, i);
    let sz = spec_byte_size_of_datum(d.spec_kind()) as int;
    let lo = spec_fixed_sz(idxs, row, i) as int;
    lemma_region_lens(idxs, row, i, fix_end);
    lemma_slot_bytes_len(d, spec_slot_voff(idxs, row, i, fix_end));
    if m == i + 1 {
        lemma_slots_step(idxs, row, i, fix_end);
        lemma_subrange_of_concat_right(
            spec_slots_bytes(idxs, row, i, fix_end),
            spec_slot_bytes(d, spec_slot_voff(idxs, row, i, fix_end)),
            0,
            sz,
        );
        assert(spec_slot_bytes(d, spec_slot_voff(idxs, row, i, fix_end)).subrange(0, sz)
            =~= spec_slot_bytes(d, spec_slot_voff(idxs, row, i, fix_end)));
    } else {
        lemma_slots_extract(idxs, row, i, m - 1, fix_end);
        lemma_slots_step(idxs, row, m - 1, fix_end);
        lemma_region_lens(idxs, row, m - 1, fix_end);
        lemma_fixed_var_le_totals(idxs, row, i + 1, m - 1);
        lemma_slots_step(idxs, row, i, fix_end);
        lemma_subrange_of_concat_left(
            spec_slots_bytes(idxs, row, m - 1, fix_end),
            if spec_present_col(idxs, row, m - 1) {
                spec_slot_bytes(
                    spec_col_datum(idxs, row, m - 1),
                    spec_slot_voff(idxs, row, m - 1, fix_end),
                )
            } else {
                Seq::empty()
            },
            lo,
            lo + sz,
        );
    }
}

/// The var-len record of present varlen column `i` sits in the var-len
/// region at the offset given by the earlier var-len records.
proof fn lemma_var_extract(idxs: Seq<Option<usize>>, row: Seq<Datum>, i: int, m: int)
    requires
        0 <= i < m,
        spec_present_col(idxs, row, i),
        spec_is_varlen(spec_col_datum(idxs, row, i)),
    ensures
        ({
            let p = spec_var_payload(spec_col_datum(idxs, row, i));
            spec_var_region(idxs, row, m).subrange(
                spec_var_sz(idxs, row, i) as int,
                spec_var_sz(idxs, row, i) as int + 4 + p.len() as int,
            ) == spec_u32_le(p.len() as u32) + p
        }),
    decreases m - i,
{
    let p = spec_var_payload(spec_col_datum(idxs, row, i));
    let lo = spec_var_sz(idxs, row, i) as int;
    lemma_region_lens(idxs, row, i, 0);
    if m == i + 1 {
        lemma_slots_step(idxs, row, i, 0);
        lemma_subrange_of_concat_right(
            spec_var_region(idxs, row, i),
            spec_u32_le(p.len() as u32) + p,
            0,
            4 + p.len() as int,
        );
        assert((spec_u32_le(p.len() as u32) + p).subrange(0, 4 + p.len() as int) =~= spec_u32_le(
            p.len() as u32,
        ) + p);
    } else {
        lemma_var_extract(idxs, row, i, m - 1);
        lemma_slots_step(idxs, row, m - 1, 0);
        lemma_region_lens(idxs, row, m - 1, 0);
        lemma_fixed_var_le_totals(idxs, row, i + 1, m - 1);
        lemma_slots_step(idxs, row, i, 0);
        lemma_subrange_of_concat_left(
            spec_var_region(idxs, row, m - 1),
            if spec_present_col(idxs, row, m - 1) && spec_is_varlen(
                spec_col_datum(idxs, row, m - 1),
            ) {
                let q = spec_var_payload(spec_col_datum(idxs, row, m - 1));
                spec_u32_le(q.len() as u32) + q
            } else {
                Seq::empty()
            },
            lo,
            lo + 4 + p.len() as int,
        );
    }
}

/// The first four buffer bytes read back as the header value they encode.
proof fn lemma_header_value(b: Seq<u8>, hdr: Seq<u8>, hv: u32)
    requires
        hdr.len() >= 4,
        b.len() >= hdr.len(),
        forall|x: int| 0 <= x < hdr.len() ==> #[trigger] b[x] == hdr[x],
        hdr.subrange(0, 4) == spec_u32_le(hv),
    ensures
        spec_header_bits(b) == hv,
{
    assert(hdr[0] == spec_u32_le(hv)[0] && hdr[1] == spec_u32_le(hv)[1] && hdr[2] == spec_u32_le(
        hv,
    )[2] && hdr[3] == spec_u32_le(hv)[3]) by {
        assert(hdr.subrange(0, 4)[0] == hdr[0]);
        assert(hdr.subrange(0, 4)[1] == hdr[1]);
        assert(hdr.subrange(0, 4)[2] == hdr[2]);
        assert(hdr.subrange(0, 4)[3] == hdr[3]);
    }
    crate::codec::lemma_u32_le_combine(hv);
}

/// The hypotheses shared by the decode lemmas: the buffer is the header,
/// the present slots, and the var-len region, with compatible kinds and
/// bounded payloads.
pub open spec fn spec_built_row(
    b: Seq<u8>,
    hdr: Seq<u8>,
    idxs: Seq<Option<usize>>,
    row: Seq<Datum>,
    kinds: Seq<DatumKind>,
    fix_end: int,
) -> bool {
    &&& idxs.len() == kinds.len()
    &&& kinds.len() <= u32::MAX - 7
    &&& (forall|j: int|
        0 <= j < kinds.len() && #[trigger] spec_present_col(idxs, row, j) ==> spec_col_datum(
            idxs,
            row,
            j,
        ).spec_kind() == kinds[j])
    &&& (forall|j: int|
        0 <= j < kinds.len() && #[trigger] spec_present_col(idxs, row, j) && spec_is_varlen(
            spec_col_datum(idxs, row, j),
        ) ==> spec_var_payload(spec_col_datum(idxs, row, j)).len() <= MAX_STRING_LEN)
    &&& hdr.len() == spec_header_len(idxs, row, kinds.len() as int)
    &&& hdr.subrange(0, 4) == spec_u32_le(
        if spec_has_null(idxs, row, kinds.len() as int) {
            kinds.len() as u32
        } else {
            0u32
        },
    )
    &&& (spec_has_null(idxs, row, kinds.len() as int) ==> forall|j: int|
        0 <= j < kinds.len() ==> #[trigger] spec_bit_in_bytes(hdr.skip(4), j) == spec_present_col(
            idxs,
            row,
            j,
        ))
    &&& fix_end == hdr.len() + spec_fixed_sz(idxs, row, kinds.len() as int)
    &&& spec_total_len(idxs, row, kinds.len() as int) <= MAX_ROW_LEN
    &&& b == hdr + spec_slots_bytes(idxs, row, kinds.len() as int, fix_end) + spec_var_region(
        idxs,
        row,
        kinds.len() as int,
    )
}

/// One present column of a built row decodes to its datum, from a slot
/// the buffer fully covers.
#[verifier::rlimit(100)]
#[verifier::spinoff_prover]
proof fn lemma_present_column_decodes(
    b: Seq<u8>,
    hdr: Seq<u8>,
    idxs: Seq<Option<usize>>,
    row: Seq<Datum>,
    kinds: Seq<DatumKind>,
    fix_end: int,
    i: int,
)
    requires
        spec_built_row(b, hdr, idxs, row, kinds, fix_end),
        0 <= i < kinds.len(),
        spec_present_col(idxs, row, i),
        spec_header_bits(b) == (if spec_has_null(idxs, row, kinds.len() as int) {
            kinds.len() as u32
        } else {
            0u32
        }),
        spec_has_null(idxs, row, kinds.len() as int) ==> forall|j: int|
            0 <= j < kinds.len() ==> #[trigger] spec_present_bit(b, j) == spec_present_col(
                idxs,
                row,
                j,
            ),
    ensures
        spec_slot_offset(b, kinds, i) == hdr.len() + spec_fixed_sz(idxs, row, i),
        spec_slot_covered(b, spec_slot_offset(b, kinds, i)),
        spec_slot_datum(b, spec_slot_offset(b, kinds, i)) == spec_col_datum(idxs, row, i)@,
{
    let n = kinds.len() as int;
    let has_null = spec_has_null(idxs, row, n);
    let slots = spec_slots_bytes(idxs, row, n, fix_end);
    let vregion = spec_var_region(idxs, row, n);
    let d = spec_col_datum(idxs, row, i);
    let sz = spec_byte_size_of_datum(d.spec_kind()) as int;
    let lo = hdr.len() + spec_fixed_sz(idxs, row, i) as int;
    let voff = spec_slot_voff(idxs, row, i, fix_end);
    lemma_region_lens(idxs, row, n, fix_end);
    lemma_region_lens(idxs, row, i, fix_end);
    lemma_fixed_var_le_totals(idxs, row, i, n);
    lemma_fixed_var_le_totals(idxs, row, i + 1, n);
    lemma_slots_step(idxs, row, i, fix_end);
    // where the decoder looks for the slot
    if has_null {
        lemma_fixed_offsets(b, kinds, idxs, row, i);
    } else {
        lemma_fixed_is_prefix(kinds, idxs, row, i);
        lemma_fixed_is_prefix(kinds, idxs, row, n);
    }
    assert(spec_slot_offset(b, kinds, i) == lo);
    // the slot bytes are in place
    lemma_slots_extract(idxs, row, i, n, fix_end);
    lemma_subrange_of_concat_left(hdr + slots, vregion, lo, lo + sz);
    lemma_subrange_of_concat_right(hdr, slots, spec_fixed_sz(idxs, row, i) as int,
        spec_fixed_sz(idxs, row, i) as int + sz);
    assert(b.subrange(lo, lo + sz) == spec_slot_bytes(d, voff));
    // the var-len record is in place
    if spec_is_varlen(d) {
        let p = spec_var_payload(d);
        lemma_var_extract(idxs, row, i, n);
        lemma_subrange_of_concat_right(
            hdr + slots,
            vregion,
            spec_var_sz(idxs, row, i) as int,
            spec_var_sz(idxs, row, i) as int + 4 + p.len() as int,
        );
        assert(b.subrange(voff, voff + 4 + p.len() as int) == spec_u32_le(p.len() as u32) + p);
        assert(b.subrange(voff, voff + 4) =~= spec_u32_le(p.len() as u32)) by {
            assert forall|x: int| 0 <= x < 4 implies #[trigger] b.subrange(voff, voff + 4)[x]
                == spec_u32_le(p.len() as u32)[x] by {
                assert(b.subrange(voff, voff + 4 + p.len() as int)[x] == b[voff + x]);
            }
        }
        assert(b.subrange(voff + 4, voff + 4 + p.len() as int) =~= p) by {
            assert forall|x: int| 0 <= x < p.len() implies #[trigger] b.subrange(
                voff + 4,
                voff + 4 + p.len() as int,
            )[x] == p[x] by {
                assert(b.subrange(voff, voff + 4 + p.len() as int)[4 + x] == b[voff + 4 + x]);
            }
        }
    }
    lemma_slot_round_trip(b, lo, d, voff);
}

/// The encoded row built from a header, the present slots, and the
/// var-len region decodes to the expected value of every column.
#[verifier::rlimit(100)]
#[verifier::spinoff_prover]
proof fn lemma_encoded_row_decodes(
    b: Seq<u8>,
    hdr: Seq<u8>,
    idxs: Seq<Option<usize>>,
    row: Seq<Datum>,
    kinds: Seq<DatumKind>,
    fix_end: int,
)
    requires
        spec_built_row(b, hdr, idxs, row, kinds, fix_end),
    ensures
        b.len() == spec_total_len(idxs, row, kinds.len() as int),
        spec_header_bits(b) == (if spec_has_null(idxs, row, kinds.len() as int) {
            kinds.len() as u32
        } else {
            0u32
        }),
        spec_row_covered(b, kinds),
        forall|i: int|
            0 <= i < kinds.len() ==> #[trigger] spec_datum_at(b, kinds, i) == spec_expected_datum(
                idxs,
                row,
                i,
            ),
{
    let n = kinds.len() as int;
    let has_null = spec_has_null(idxs, row, n);
    let hv: u32 = if has_null {
        n as u32
    } else {
        0u32
    };
    lemma_region_lens(idxs, row, n, fix_end);
    assert(b.len() == spec_total_len(idxs, row, n));

    // The header is a prefix of the whole buffer.
    assert forall|x: int| 0 <= x < hdr.len() implies #[trigger] b[x] == hdr[x] by {}
    lemma_header_value(b, hdr, hv);

    // Presence bits of the whole buffer agree with the expected columns.
    if has_null {
        assert forall|j: int| 0 <= j < n implies #[trigger] spec_present_bit(b, j)
            == spec_present_col(idxs, row, j) by {
            vstd::arithmetic::div_mod::lemma_fundamental_div_mod(j, 8);
            assert(j / 8 < spec_num_bytes(n as nat)) by {
                assert(j <= 8 * (j / 8) + 7);
            }
            assert(b.skip(4)[j / 8] == b[4 + j / 8]);
            assert(hdr.skip(4)[j / 8] == hdr[4 + j / 8]);
            assert(b[4 + j / 8] == hdr[4 + j / 8]);
            assert(spec_bit_in_bytes(hdr.skip(4), j) == spec_present_col(idxs, row, j));
            assert(spec_bit_in_bytes(b.skip(4), j) == spec_bit_in_bytes(hdr.skip(4), j));
        }
    }

    // Each present column's slot and payload decode to its datum.
    assert forall|i: int|
        0 <= i < n && #[trigger] spec_present_col(idxs, row, i) implies {
        let off = spec_slot_offset(b, kinds, i);
        &&& spec_slot_covered(b, off)
        &&& spec_slot_datum(b, off) == spec_col_datum(idxs, row, i)@
    } by {
        lemma_present_column_decodes(b, hdr, idxs, row, kinds, fix_end, i);
    }

    // Covered and decoded for every column.
    assert forall|i: int|
        0 <= i < n && (spec_header_bits(b) == 0 || spec_present_bit(b, i))
            implies #[trigger] spec_slot_covered(b, spec_slot_offset(b, kinds, i)) by {
        if !has_null {
            assert(spec_present_col(idxs, row, i)) by {
                assert(0 <= i < n && !spec_present_col(idxs, row, i) ==> spec_has_null(idxs, row,
                    n));
            }
        }
    }
    assert(spec_row_covered(b, kinds));
    assert forall|i: int| 0 <= i < n implies #[trigger] spec_datum_at(b, kinds, i)
        == spec_expected_datum(idxs, row, i) by {
        if !has_null {
            assert(spec_present_col(idxs, row, i)) by {
                assert(0 <= i < n && !spec_present_col(idxs, row, i) ==> spec_has_null(idxs, row,
                    n));
            }
        }
    }
}

/// A writer that encodes rows under a table schema; the index mapping
/// names, for each table column, the row column that feeds it.
pub struct ContiguousRowWriter<'a> {
    pub table_schema: &'a Schema,
    pub index_in_writer: &'a IndexInWriterSchema,
}

impl<'a> ContiguousRowWriter<'a> {
    pub fn new(table_schema: &'a Schema, index_in_writer: &'a IndexInWriterSchema) -> (r: Self)
        ensures
            r.table_schema == table_schema,
            r.index_in_writer == index_in_writer,
    {
        Self { table_schema, index_in_writer }
    }

    /// Encode `row` into `buf`, replacing its contents.
    ///
    /// The encoding decodes back to exactly the row's values: present
    /// columns to their datums and missing or null columns to null.
    /// A too-long payload or a too-long row is rejected and `buf` kept.
    #[verifier::loop_isolation(false)]
    #[verifier::rlimit(60)]
    pub fn write_row(&self, buf: &mut Vec<u8>, row: &Row) -> (r: Result<(), Error>)
        requires
            self.table_schema.wf(),
            self.index_in_writer.spec_indexes().len() == self.table_schema.spec_columns().len(),
            self.table_schema.spec_columns().len() <= u32::MAX - 7,
            forall|i: int|
                0 <= i < self.table_schema.spec_columns().len() ==> ((
                #[trigger] self.index_in_writer.spec_indexes()[i]) matches Some(w) ==> (w as int)
                    < row@.len()),
            forall|i: int|
                0 <= i < self.table_schema.spec_columns().len() && #[trigger] spec_present_col(
                    self.index_in_writer.spec_indexes(),
                    row@,
                    i,
                ) ==> spec_col_datum(self.index_in_writer.spec_indexes(), row@, i).spec_kind()
                    == self.table_schema.spec_kinds()[i],
        ensures
            ({
                let idxs = self.index_in_writer.spec_indexes();
                let kinds = self.table_schema.spec_kinds();
                let n = kinds.len() as int;
                &&& (r is Ok <==> !spec_some_payload_too_long(idxs, row@, n) && spec_total_len(
                    idxs,
                    row@,
                    n,
                ) <= MAX_ROW_LEN)
                &&& ((r matches Result::Err(e) && e matches Error::StringTooLong { .. })
                    <==> spec_some_payload_too_long(idxs, row@, n))
                &&& ((r matches Result::Err(e) && e matches Error::RowTooLong { .. })
                    <==> !spec_some_payload_too_long(idxs, row@, n) && spec_total_len(idxs, row@, n)
                    > MAX_ROW_LEN)
                &&& !(r is Ok) ==> final(buf)@ == old(buf)@
                &&& r is Ok ==> {
                    let b = final(buf)@;
                    &&& b.len() == spec_total_len(idxs, row@, n)
                    &&& spec_header_bits(b) == if spec_has_null(idxs, row@, n) {
                        n as u32
                    } else {
                        0u32
                    }
                    &&& spec_row_covered(b, kinds)
                    &&& forall|i: int|
                        0 <= i < n ==> #[trigger] spec_datum_at(b, kinds, i) == spec_expected_datum(
                            idxs,
                            row@,
                            i,
                        )
                }
            }),
    {
        let ghost idxs = self.index_in_writer.spec_indexes();
        let ghost rw = row@;
        let ghost kinds = self.table_schema.spec_kinds();
        let n_cols = self.table_schema.num_columns();
        let ghost n = n_cols as int;

        // First pass: sizes, null columns, and payload-length checks.
        let mut found_null = false;
        let mut fixed_sz: u64 = 0;
        let mut var_sz: u64 = 0;
        let mut i: usize = 0;
        while i < n_cols
            invariant
                i <= n_cols,
                found_null == spec_has_null(idxs, rw, i as int),
                fixed_sz == spec_fixed_sz(idxs, rw, i as int),
                var_sz == spec_var_sz(idxs, rw, i as int),
                fixed_sz <= 10 * (i as u64),
                var_sz <= (i as u64) * 16777220,
                !spec_some_payload_too_long(idxs, rw, i as int),
            decreases n_cols - i,
        {
            proof {
                lemma_slots_step(idxs, rw, i as int, 0);
            }
            match self.index_in_writer.column_index_in_writer(i) {
                Option::None => {
                    found_null = true;
                    proof {
                        assert(!spec_present_col(idxs, rw, i as int));
                        assert(spec_has_null(idxs, rw, i as int + 1));
                    }
                },
                Option::Some(w) => {
                    let d = &row[w];
                    proof {
                        lemma_null_kind(*d);
                    }
                    if d.is_null() {
                        found_null = true;
                        proof {
                            assert(!spec_present_col(idxs, rw, i as int));
                            assert(spec_has_null(idxs, rw, i as int + 1));
                        }
                    } else {
                        proof {
                            assert(spec_present_col(idxs, rw, i as int));
                            assert(spec_col_datum(idxs, rw, i as int) == *d);
                        }
                        fixed_sz = fixed_sz + crate::datum::byte_size_of_datum(&d.kind()) as u64;
                        if !d.is_fixed_sized() {
                            let l = var_payload_len(d);
                            if l > MAX_STRING_LEN {
                                proof {
                                    assert(spec_present_col(idxs, rw, i as int) && spec_is_varlen(
                                        spec_col_datum(idxs, rw, i as int),
                                    ) && spec_var_payload(spec_col_datum(idxs, rw, i as int)).len()
                                        > MAX_STRING_LEN);
                                }
                                return Err(Error::StringTooLong { len: l });
                            }
                            var_sz = var_sz + 4 + l as u64;
                        }
                    }
                },
            }
            proof {
                if !spec_has_null(idxs, rw, i as int) && spec_present_col(idxs, rw, i as int) {
                    assert forall|j: int| 0 <= j < i as int + 1 implies spec_present_col(
                        idxs,
                        rw,
                        j,
                    ) by {}
                    assert(!spec_has_null(idxs, rw, i as int + 1));
                }
            }
            i += 1;
        }

        // Header length and total length.
        let bss: usize = if found_null {
            BitSet::num_bytes(n_cols)
        } else {
            0
        };
        let total: u64 = 4 + bss as u64 + fixed_sz + var_sz;
        if total > MAX_ROW_LEN as u64 {
            return Err(Error::RowTooLong { len: total as usize });
        }
        let total_us: usize = total as usize;
        let ghost hdr_len: int = 4 + bss as int;
        let fix_end: usize = total_us - (var_sz as usize);

        // Second pass: build the header, the fixed slots, and the var-len
        // region.
        let mut out: Vec<u8> = Vec::with_capacity(total_us);
        let mut var: Vec<u8> = Vec::new();
        if found_null {
            put_u32_le(&mut out, n_cols as u32);
            let mut bits = BitSet::new(n_cols);
            let mut k: usize = 0;
            while k < n_cols
                invariant
                    k <= n_cols,
                    bits.inv(),
                    bits@.len() == n_cols,
                    forall|j: int|
                        0 <= j < k ==> #[trigger] bits@[j] == spec_present_col(idxs, rw, j),
                    forall|j: int| k <= j < n_cols ==> !(#[trigger] bits@[j]),
                    bits.spec_bytes().len() == bss,
                decreases n_cols - k,
            {
                let present = match self.index_in_writer.column_index_in_writer(k) {
                    Option::None => false,
                    Option::Some(w) => !row[w].is_null(),
                };
                if present {
                    bits.set(k);
                }
                k += 1;
            }
            let bb = bits.as_bytes();
            append_bytes(&mut out, bb);
            proof {
                assert(out@.len() == hdr_len);
                assert(out@.subrange(0, 4) =~= spec_u32_le(n_cols as u32));
                assert(out@.skip(4) =~= bb@);
                assert forall|j: int| 0 <= j < n implies #[trigger] spec_bit_in_bytes(
                    out@.skip(4),
                    j,
                ) == spec_present_col(idxs, rw, j) by {
                    assert(bits@[j] == spec_bit_in_bytes(bb@, j));
                }
            }
        } else {
            put_u32_le(&mut out, 0);
            proof {
                assert(out@.subrange(0, 4) =~= spec_u32_le(0u32));
            }
        }
        let ghost hdr_seq = out@;

        let mut i: usize = 0;
        while i < n_cols
            invariant
                i <= n_cols,
                out@.len() == hdr_len + spec_fixed_sz(idxs, rw, i as int),
                var@.len() == spec_var_sz(idxs, rw, i as int),
                out@ == hdr_seq + spec_slots_bytes(idxs, rw, i as int, fix_end as int),
                var@ == spec_var_region(idxs, rw, i as int),
            decreases n_cols - i,
        {
            proof {
                lemma_fixed_var_le_totals(idxs, rw, i as int, n);
            }
            match self.index_in_writer.column_index_in_writer(i) {
                Option::None => {
                    proof {
                        lemma_slots_step(idxs, rw, i as int, fix_end as int);
                        assert(!spec_present_col(idxs, rw, i as int));
                        assert(out@ =~= hdr_seq + spec_slots_bytes(idxs, rw, i as int + 1,
                            fix_end as int));
                        assert(var@ =~= spec_var_region(idxs, rw, i as int + 1));
                    }
                },
                Option::Some(w) => {
                    let d = &row[w];
                    proof {
                        lemma_null_kind(*d);
                    }
                    if d.is_null() {
                        proof {
                            lemma_slots_step(idxs, rw, i as int, fix_end as int);
                            assert(!spec_present_col(idxs, rw, i as int));
                            assert(out@ =~= hdr_seq + spec_slots_bytes(idxs, rw, i as int + 1,
                                fix_end as int));
                            assert(var@ =~= spec_var_region(idxs, rw, i as int + 1));
                        }
                    } else {
                        proof {
                            assert(spec_present_col(idxs, rw, i as int));
                            assert(spec_col_datum(idxs, rw, i as int) == *d);
                        }
                        let voff: usize = fix_end + var.len();
                        emit_slot(&mut out, d, voff as u32);
                        if !d.is_fixed_sized() {
                            let l = var_payload_len(d);
                            put_u32_le(&mut var, l as u32);
                            match d {
                                Datum::Varbinary(v) => {
                                    append_bytes(&mut var, v.as_slice());
                                },
                                Datum::String(x) => {
                                    append_bytes(&mut var, x.as_str().as_bytes());
                                },
                                _ => {},
                            }
                        }
                        proof {
                            lemma_slots_step(idxs, rw, i as int, fix_end as int);
                            assert(out@ =~= hdr_seq + spec_slots_bytes(idxs, rw, i as int + 1,
                                fix_end as int));
                            assert(var@ =~= spec_var_region(idxs, rw, i as int + 1));
                        }
                    }
                },
            }
            i += 1;
        }

        append_bytes(&mut out, var.as_slice());
        proof {
            lemma_encoded_row_decodes(out@, hdr_seq, idxs, rw, kinds, fix_end as int);
        }
        *buf = out;
        Ok(())
    }
}


} // verus!
