//! Table schemas: an ordered list of columns with one timestamp key, and
//! the byte offsets their values take in a contiguous row.

use vstd::prelude::*;
use crate::datum::{byte_size_of_datum, spec_byte_size_of_datum, DatumKind};

verus! {

/// One column of a schema.
#[derive(Debug, Clone)]
pub struct ColumnSchema {
    pub id: u32,
    pub name: String,
    pub data_type: DatumKind,
    pub is_nullable: bool,
    pub is_tag: bool,
}

/// The bytes taken by the fixed-size slots of the first `i` columns.
pub open spec fn spec_prefix_size(kinds: Seq<DatumKind>, i: int) -> nat
    decreases i,
{
    if i <= 0 {
        0
    } else {
        spec_prefix_size(kinds, i - 1) + spec_byte_size_of_datum(kinds[i - 1])
    }
}

/// An ordered list of columns. One column is the timestamp key; the
/// schema's version grows with every change of shape.
#[derive(Debug, Clone)]
pub struct Schema {
    columns: Vec<ColumnSchema>,
    /// Byte offset of each column's fixed-size slot, relative to the end
    /// of the row header.
    byte_offsets: Vec<usize>,
    /// Total size of all fixed-size slots; variable-length payloads start
    /// here.
    string_buffer_offset: usize,
    /// Index of the timestamp key column.
    timestamp_index: usize,
    /// Monotonic version of this schema's shape.
    version: u32,
}

impl Schema {
    /// The kinds of the columns, in order.
    pub open spec fn spec_kinds(&self) -> Seq<DatumKind> {
        self.spec_columns().map(|i: int, c: ColumnSchema| c.data_type)
    }

    /// The columns, in order.
    pub closed spec fn spec_columns(&self) -> Seq<ColumnSchema> {
        self.columns@
    }

    /// The schema version.
    pub closed spec fn spec_version(&self) -> u32 {
        self.version
    }

    /// The timestamp key column index.
    pub closed spec fn spec_timestamp_index(&self) -> int {
        self.timestamp_index as int
    }

    /// The offsets cover every column and agree with the prefix sums of
    /// the column sizes.
    pub closed spec fn wf(&self) -> bool {
        &&& self.byte_offsets@.len() == self.columns@.len()
        &&& forall|i: int|
            0 <= i < self.columns@.len() ==> #[trigger] self.byte_offsets@[i] == spec_prefix_size(
                self.spec_kinds(),
                i,
            )
        &&& self.string_buffer_offset == spec_prefix_size(
            self.spec_kinds(),
            self.columns@.len() as int,
        )
        &&& self.timestamp_index < self.columns@.len()
        &&& self.columns@.len() > 0
    }

    /// Build a schema, computing the slot offsets. Fails on an empty
    /// column list, a timestamp index out of range, or a slot layout that
    /// does not fit in memory.
    pub fn try_new(columns: Vec<ColumnSchema>, timestamp_index: usize, version: u32) -> (r: Option<
        Schema,
    >)
        ensures
            r is Some <==> columns@.len() > 0 && timestamp_index < columns@.len()
                && spec_prefix_size(
                columns@.map(|i: int, c: ColumnSchema| c.data_type),
                columns@.len() as int,
            ) <= usize::MAX,
            r is Some ==> {
                let s = r->Some_0;
                &&& s.wf()
                &&& s.spec_columns() == columns@
                &&& s.spec_version() == version
                &&& s.spec_timestamp_index() == timestamp_index
            },
    {
        if columns.len() == 0 || timestamp_index >= columns.len() {
            return None;
        }
        let ghost kinds = columns@.map(|i: int, c: ColumnSchema| c.data_type);
        let mut byte_offsets: Vec<usize> = Vec::with_capacity(columns.len());
        let mut off: usize = 0;
        let mut i: usize = 0;
        while i < columns.len()
            invariant
                i <= columns@.len(),
                byte_offsets@.len() == i,
                forall|j: int|
                    0 <= j < i ==> #[trigger] byte_offsets@[j] == spec_prefix_size(kinds, j),
                off == spec_prefix_size(kinds, i as int),
                kinds == columns@.map(|k: int, c: ColumnSchema| c.data_type),
            decreases columns@.len() - i,
        {
            byte_offsets.push(off);
            let sz = byte_size_of_datum(&columns[i].data_type);
            if off > usize::MAX - sz {
                // The slots of this schema cannot fit in one buffer.
                proof {
                    lemma_prefix_size_monotonic(kinds, i + 1, kinds.len() as int);
                }
                return None;
            }
            off = off + sz;
            i = i + 1;
        }
        Some(Schema { columns, byte_offsets, string_buffer_offset: off, timestamp_index, version })
    }

    #[inline]
    pub fn num_columns(&self) -> (r: usize)
        ensures
            r == self.spec_columns().len(),
    {
        self.columns.len()
    }

    pub fn column(&self, i: usize) -> (r: &ColumnSchema)
        requires
            i < self.spec_columns().len(),
        ensures
            *r == self.spec_columns()[i as int],
    {
        &self.columns[i]
    }

    /// The byte offset of column `i`'s fixed-size slot.
    pub fn byte_offset(&self, i: usize) -> (r: usize)
        requires
            self.wf(),
            i < self.spec_columns().len(),
        ensures
            r == spec_prefix_size(self.spec_kinds(), i as int),
    {
        self.byte_offsets[i]
    }

    /// Where the variable-length payload block starts, relative to the end
    /// of the row header.
    pub fn string_buffer_offset(&self) -> (r: usize)
        requires
            self.wf(),
        ensures
            r == spec_prefix_size(self.spec_kinds(), self.spec_columns().len() as int),
    {
        self.string_buffer_offset
    }

    /// The whole fixed-slot layout fits in one addressable buffer.
    pub proof fn lemma_total_size_bounded(&self)
        requires
            self.wf(),
        ensures
            spec_prefix_size(self.spec_kinds(), self.spec_columns().len() as int) <= usize::MAX,
    {
    }

    pub fn timestamp_index(&self) -> (r: usize)
        ensures
            r == self.spec_timestamp_index(),
    {
        self.timestamp_index
    }

    pub fn version(&self) -> (r: u32)
        ensures
            r == self.spec_version(),
    {
        self.version
    }
}

/// Prefix sizes grow with the prefix.
pub proof fn lemma_prefix_size_monotonic(kinds: Seq<DatumKind>, i: int, j: int)
    requires
        0 <= i <= j,
    ensures
        spec_prefix_size(kinds, i) <= spec_prefix_size(kinds, j),
    decreases j - i,
{
    if i < j {
        lemma_prefix_size_monotonic(kinds, i, j - 1);
    }
}

/// A slot lies between its offset and the next column's offset.
pub proof fn lemma_prefix_size_step(kinds: Seq<DatumKind>, i: int)
    requires
        0 <= i,
    ensures
        spec_prefix_size(kinds, i + 1) == spec_prefix_size(kinds, i) + spec_byte_size_of_datum(
            kinds[i],
        ),
{
}

/// The index mapping from a table schema's columns to the columns of the
/// schema a row group was written with.
#[derive(Debug, Clone)]
pub struct IndexInWriterSchema {
    indexes: Vec<Option<usize>>,
}

impl IndexInWriterSchema {
    /// The mapping as a sequence: entry `i` is the writer column holding
    /// table column `i`, if any.
    pub closed spec fn spec_indexes(&self) -> Seq<Option<usize>> {
        self.indexes@
    }

    /// The identity mapping for rows written under the table schema
    /// itself.
    pub fn for_same_schema(num_columns: usize) -> (r: Self)
        ensures
            r.spec_indexes().len() == num_columns,
            forall|i: int| 0 <= i < num_columns ==> #[trigger] r.spec_indexes()[i] == Some(
                i as usize,
            ),
    {
        let mut indexes: Vec<Option<usize>> = Vec::with_capacity(num_columns);
        let mut i: usize = 0;
        while i < num_columns
            invariant
                i <= num_columns,
                indexes@.len() == i,
                forall|j: int| 0 <= j < i ==> #[trigger] indexes@[j] == Some(j as usize),
            decreases num_columns - i,
        {
            indexes.push(Some(i));
            i = i + 1;
        }
        Self { indexes }
    }

    /// A mapping given directly: entry `i` names the writer column that
    /// feeds table column `i`.
    pub fn from_indexes(indexes: Vec<Option<usize>>) -> (r: Self)
        ensures
            r.spec_indexes() == indexes@,
    {
        Self { indexes }
    }

    pub fn num_columns(&self) -> (r: usize)
        ensures
            r == self.spec_indexes().len(),
    {
        self.indexes.len()
    }

    /// The writer column holding table column `i`, if any.
    pub fn column_index_in_writer(&self, i: usize) -> (r: Option<usize>)
        requires
            i < self.spec_indexes().len(),
        ensures
            r == self.spec_indexes()[i as int],
    {
        self.indexes[i]
    }
}

/// A projection from a source schema: entry `i` names the source column
/// that the `i`-th projected column reads, or none for a column the
/// source schema does not have.
#[derive(Debug, Clone)]
pub struct RowProjector {
    source_projection: Vec<Option<usize>>,
}

impl RowProjector {
    /// The projection as a sequence.
    pub closed spec fn spec_source_projection(&self) -> Seq<Option<usize>> {
        self.source_projection@
    }

    pub fn new(source_projection: Vec<Option<usize>>) -> (r: Self)
        ensures
            r.spec_source_projection() == source_projection@,
    {
        Self { source_projection }
    }

    pub fn source_projection(&self) -> (r: &Vec<Option<usize>>)
        ensures
            r@ == self.spec_source_projection(),
    {
        &self.source_projection
    }
}

} // verus!
