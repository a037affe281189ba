//! The closed set of column value kinds and the values themselves.
//!
//! Floating-point columns are carried by their IEEE 754 bit patterns, so
//! that every value the engine stores and compares is a plain integer.

use vstd::prelude::*;

verus! {

/// The kind of a column value. Every value on disk carries one of these
/// as its leading byte; an unknown byte decodes as `Null`.
#[derive(Debug, Clone, Copy, PartialEq, Eq, Structural)]
pub enum DatumKind {
    Null,
    Timestamp,
    Double,
    Float,
    Varbinary,
    String,
    UInt64,
    UInt32,
    UInt16,
    UInt8,
    Int64,
    Int32,
    Int16,
    Int8,
    Boolean,
    Date,
    Time,
}

impl DatumKind {
    /// The wire byte of this kind.
    pub open spec fn spec_into_u8(self) -> u8 {
        match self {
            DatumKind::Null => 0,
            DatumKind::Timestamp => 1,
            DatumKind::Double => 2,
            DatumKind::Float => 3,
            DatumKind::Varbinary => 4,
            DatumKind::String => 5,
            DatumKind::UInt64 => 6,
            DatumKind::UInt32 => 7,
            DatumKind::UInt16 => 8,
            DatumKind::UInt8 => 9,
            DatumKind::Int64 => 10,
            DatumKind::Int32 => 11,
            DatumKind::Int16 => 12,
            DatumKind::Int8 => 13,
            DatumKind::Boolean => 14,
            DatumKind::Date => 15,
            DatumKind::Time => 16,
        }
    }

    /// The wire byte of this kind.
    pub fn into_u8(self) -> (r: u8)
        ensures
            r == self.spec_into_u8(),
    {
        match self {
            DatumKind::Null => 0,
            DatumKind::Timestamp => 1,
            DatumKind::Double => 2,
            DatumKind::Float => 3,
            DatumKind::Varbinary => 4,
            DatumKind::String => 5,
            DatumKind::UInt64 => 6,
            DatumKind::UInt32 => 7,
            DatumKind::UInt16 => 8,
            DatumKind::UInt8 => 9,
            DatumKind::Int64 => 10,
            DatumKind::Int32 => 11,
            DatumKind::Int16 => 12,
            DatumKind::Int8 => 13,
            DatumKind::Boolean => 14,
            DatumKind::Date => 15,
            DatumKind::Time => 16,
        }
    }

    /// The kind encoded by a wire byte, if any.
    pub open spec fn spec_try_from_u8(v: u8) -> Option<DatumKind> {
        if v == 0 {
            Some(DatumKind::Null)
        } else if v == 1 {
            Some(DatumKind::Timestamp)
        } else if v == 2 {
            Some(DatumKind::Double)
        } else if v == 3 {
            Some(DatumKind::Float)
        } else if v == 4 {
            Some(DatumKind::Varbinary)
        } else if v == 5 {
            Some(DatumKind::String)
        } else if v == 6 {
            Some(DatumKind::UInt64)
        } else if v == 7 {
            Some(DatumKind::UInt32)
        } else if v == 8 {
            Some(DatumKind::UInt16)
        } else if v == 9 {
            Some(DatumKind::UInt8)
        } else if v == 10 {
            Some(DatumKind::Int64)
        } else if v == 11 {
            Some(DatumKind::Int32)
        } else if v == 12 {
            Some(DatumKind::Int16)
        } else if v == 13 {
            Some(DatumKind::Int8)
        } else if v == 14 {
            Some(DatumKind::Boolean)
        } else if v == 15 {
            Some(DatumKind::Date)
        } else if v == 16 {
            Some(DatumKind::Time)
        } else {
            None
        }
    }

    /// The kind encoded by a wire byte, if any.
    pub fn try_from_u8(v: u8) -> (r: Option<DatumKind>)
        ensures
            r == DatumKind::spec_try_from_u8(v),
    {
        match v {
            0 => Some(DatumKind::Null),
            1 => Some(DatumKind::Timestamp),
            2 => Some(DatumKind::Double),
            3 => Some(DatumKind::Float),
            4 => Some(DatumKind::Varbinary),
            5 => Some(DatumKind::String),
            6 => Some(DatumKind::UInt64),
            7 => Some(DatumKind::UInt32),
            8 => Some(DatumKind::UInt16),
            9 => Some(DatumKind::UInt8),
            10 => Some(DatumKind::Int64),
            11 => Some(DatumKind::Int32),
            12 => Some(DatumKind::Int16),
            13 => Some(DatumKind::Int8),
            14 => Some(DatumKind::Boolean),
            15 => Some(DatumKind::Date),
            16 => Some(DatumKind::Time),
            _ => None,
        }
    }
}

/// The byte size to encode the datum of this kind: one header byte plus
/// the payload. A variable-length kind's payload is its 32-bit offset.
pub open spec fn spec_byte_size_of_datum(kind: DatumKind) -> nat {
    1 + match kind {
        DatumKind::Null => 1nat,
        DatumKind::Timestamp => 8,
        DatumKind::Double => 8,
        DatumKind::Float => 4,
        DatumKind::Varbinary => 4,
        DatumKind::String => 4,
        DatumKind::UInt64 => 8,
        DatumKind::UInt32 => 4,
        DatumKind::UInt16 => 2,
        DatumKind::UInt8 => 1,
        DatumKind::Int64 => 8,
        DatumKind::Int32 => 4,
        DatumKind::Int16 => 2,
        DatumKind::Int8 => 1,
        DatumKind::Boolean => 1,
        DatumKind::Date => 4,
        DatumKind::Time => 8,
    }
}

/// The byte size to encode the datum of this kind in memory.
pub fn byte_size_of_datum(kind: &DatumKind) -> (r: usize)
    ensures
        r == spec_byte_size_of_datum(*kind),
{
    let datum_size: usize = match kind {
        DatumKind::Null => 1,
        DatumKind::Timestamp => 8,
        DatumKind::Double => 8,
        DatumKind::Float => 4,
        DatumKind::Varbinary => 4,
        DatumKind::String => 4,
        DatumKind::UInt64 => 8,
        DatumKind::UInt32 => 4,
        DatumKind::UInt16 => 2,
        DatumKind::UInt8 => 1,
        DatumKind::Int64 => 8,
        DatumKind::Int32 => 4,
        DatumKind::Int16 => 2,
        DatumKind::Int8 => 1,
        DatumKind::Boolean => 1,
        DatumKind::Date => 4,
        DatumKind::Time => 8,
    };
    datum_size + 1
}

/// One column value. Doubles and floats are held as their IEEE 754 bit
/// patterns.
#[derive(Debug, Clone, PartialEq, Eq)]
pub enum Datum {
    Null,
    /// Milliseconds since the epoch.
    Timestamp(i64),
    /// The bits of a 64-bit IEEE 754 value.
    Double(u64),
    /// The bits of a 32-bit IEEE 754 value.
    Float(u32),
    Varbinary(Vec<u8>),
    String(String),
    UInt64(u64),
    UInt32(u32),
    UInt16(u16),
    UInt8(u8),
    Int64(i64),
    Int32(i32),
    Int16(i16),
    Int8(i8),
    Boolean(bool),
    /// Days since the epoch.
    Date(i32),
    /// Milliseconds since midnight.
    Time(i64),
}

/// The mathematical value of a [`Datum`].
pub enum DatumV {
    Null,
    Timestamp(i64),
    Double(u64),
    Float(u32),
    Varbinary(Seq<u8>),
    String(Seq<char>),
    UInt64(u64),
    UInt32(u32),
    UInt16(u16),
    UInt8(u8),
    Int64(i64),
    Int32(i32),
    Int16(i16),
    Int8(i8),
    Boolean(bool),
    Date(i32),
    Time(i64),
}

impl View for Datum {
    type V = DatumV;

    open spec fn view(&self) -> DatumV {
        match self {
            Datum::Null => DatumV::Null,
            Datum::Timestamp(v) => DatumV::Timestamp(*v),
            Datum::Double(v) => DatumV::Double(*v),
            Datum::Float(v) => DatumV::Float(*v),
            Datum::Varbinary(v) => DatumV::Varbinary(v@),
            Datum::String(v) => DatumV::String(v@),
            Datum::UInt64(v) => DatumV::UInt64(*v),
            Datum::UInt32(v) => DatumV::UInt32(*v),
            Datum::UInt16(v) => DatumV::UInt16(*v),
            Datum::UInt8(v) => DatumV::UInt8(*v),
            Datum::Int64(v) => DatumV::Int64(*v),
            Datum::Int32(v) => DatumV::Int32(*v),
            Datum::Int16(v) => DatumV::Int16(*v),
            Datum::Int8(v) => DatumV::Int8(*v),
            Datum::Boolean(v) => DatumV::Boolean(*v),
            Datum::Date(v) => DatumV::Date(*v),
            Datum::Time(v) => DatumV::Time(*v),
        }
    }
}

impl Datum {
    /// The kind of this value.
    pub open spec fn spec_kind(&self) -> DatumKind {
        match self {
            Datum::Null => DatumKind::Null,
            Datum::Timestamp(..) => DatumKind::Timestamp,
            Datum::Double(..) => DatumKind::Double,
            Datum::Float(..) => DatumKind::Float,
            Datum::Varbinary(..) => DatumKind::Varbinary,
            Datum::String(..) => DatumKind::String,
            Datum::UInt64(..) => DatumKind::UInt64,
            Datum::UInt32(..) => DatumKind::UInt32,
            Datum::UInt16(..) => DatumKind::UInt16,
            Datum::UInt8(..) => DatumKind::UInt8,
            Datum::Int64(..) => DatumKind::Int64,
            Datum::Int32(..) => DatumKind::Int32,
            Datum::Int16(..) => DatumKind::Int16,
            Datum::Int8(..) => DatumKind::Int8,
            Datum::Boolean(..) => DatumKind::Boolean,
            Datum::Date(..) => DatumKind::Date,
            Datum::Time(..) => DatumKind::Time,
        }
    }

    /// The kind of this value.
    pub fn kind(&self) -> (r: DatumKind)
        ensures
            r == self.spec_kind(),
    {
        match self {
            Datum::Null => DatumKind::Null,
            Datum::Timestamp(..) => DatumKind::Timestamp,
            Datum::Double(..) => DatumKind::Double,
            Datum::Float(..) => DatumKind::Float,
            Datum::Varbinary(..) => DatumKind::Varbinary,
            Datum::String(..) => DatumKind::String,
            Datum::UInt64(..) => DatumKind::UInt64,
            Datum::UInt32(..) => DatumKind::UInt32,
            Datum::UInt16(..) => DatumKind::UInt16,
            Datum::UInt8(..) => DatumKind::UInt8,
            Datum::Int64(..) => DatumKind::Int64,
            Datum::Int32(..) => DatumKind::Int32,
            Datum::Int16(..) => DatumKind::Int16,
            Datum::Int8(..) => DatumKind::Int8,
            Datum::Boolean(..) => DatumKind::Boolean,
            Datum::Date(..) => DatumKind::Date,
            Datum::Time(..) => DatumKind::Time,
        }
    }

    /// Whether this value is the null value.
    pub fn is_null(&self) -> (r: bool)
        ensures
            r == (self.spec_kind() == DatumKind::Null),
    {
        matches!(self, Datum::Null)
    }

    /// Whether this kind stores its whole payload in the fixed-size slot.
    pub fn is_fixed_sized(&self) -> (r: bool)
        ensures
            r == !(self.spec_kind() == DatumKind::Varbinary || self.spec_kind()
                == DatumKind::String),
    {
        !matches!(self, Datum::Varbinary(..) | Datum::String(..))
    }

    /// The byte length of the variable-length payload; zero for fixed-size
    /// kinds.
    pub open spec fn spec_var_len(&self) -> nat {
        match self {
            Datum::Varbinary(v) => v@.len(),
            Datum::String(v) => vstd::utf8::encode_utf8(v@).len(),
            _ => 0,
        }
    }
}

/// A row is a fixed-arity vector of datums.
pub type Row = Vec<Datum>;

} // verus!
