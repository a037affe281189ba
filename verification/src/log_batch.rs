//! Log entries and batches of encoded entries bound for one region of the
//! write-ahead log.

use vstd::prelude::*;
use crate::kv_encoder::{RegionId, SequenceNumber};

verus! {

/// An entry read back from the write-ahead log.
#[derive(Debug)]
pub struct LogEntry {
    pub sequence: SequenceNumber,
    pub payload: Vec<u8>,
}

/// An encoded entry to be written into the write-ahead log.
#[derive(Debug)]
pub struct LogWriteEntry {
    pub payload: Vec<u8>,
}

/// A batch of [`LogWriteEntry`]s for one region.
#[derive(Debug)]
pub struct LogWriteBatch {
    pub region_id: RegionId,
    pub entries: Vec<LogWriteEntry>,
}

impl LogWriteBatch {
    /// The payloads of the batched entries, in order.
    pub open spec fn payloads(&self) -> Seq<Seq<u8>> {
        self.entries@.map(|i: int, e: LogWriteEntry| e.payload@)
    }

    pub fn new(region_id: RegionId) -> (r: Self)
        ensures
            r.region_id == region_id,
            r.payloads() == Seq::<Seq<u8>>::empty(),
    {
        Self::with_capacity(region_id, 0)
    }

    pub fn with_capacity(region_id: RegionId, cap: usize) -> (r: Self)
        ensures
            r.region_id == region_id,
            r.payloads() == Seq::<Seq<u8>>::empty(),
    {
        let r = Self { region_id, entries: Vec::with_capacity(cap) };
        proof {
            assert(r.payloads() =~= Seq::<Seq<u8>>::empty());
        }
        r
    }

    #[inline]
    pub fn push(&mut self, entry: LogWriteEntry)
        ensures
            final(self).region_id == old(self).region_id,
            final(self).payloads() == old(self).payloads().push(entry.payload@),
    {
        let ghost p = entry.payload@;
        self.entries.push(entry);
        proof {
            assert(self.payloads() =~= old(self).payloads().push(p));
        }
    }

    #[inline]
    pub fn len(&self) -> (r: usize)
        ensures
            r == self.payloads().len(),
    {
        self.entries.len()
    }

    #[inline]
    pub fn is_empty(&self) -> (r: bool)
        ensures
            r == (self.payloads().len() == 0),
    {
        self.entries.is_empty()
    }

    #[inline]
    pub fn clear(&mut self)
        ensures
            final(self).region_id == old(self).region_id,
            final(self).payloads() == Seq::<Seq<u8>>::empty(),
    {
        self.entries.clear();
        proof {
            assert(self.payloads() =~= Seq::<Seq<u8>>::empty());
        }
    }
}

impl Default for LogWriteBatch {
    /// An empty batch for region zero.
    fn default() -> (r: Self)
        ensures
            r.region_id == 0,
            r.payloads() == Seq::<Seq<u8>>::empty(),
    {
        Self::new(0)
    }
}

} // verus!
