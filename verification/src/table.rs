//! Per-table state and the write → flush → recover pipeline.
//!
//! A table splits into the durable store (the write-ahead log, the
//! manifest, and the uploaded table files) and the in-memory state
//! rebuilt from it. Every mutating operation keeps the two aligned, so
//! reopening the durable store alone restores the same visible contents.

use vstd::prelude::*;
use crate::memtable::{
    byte_keys_equal, clone_bytes, spec_lookup, KeyedRow, KeyedRowV, Memtable,
};
use crate::manifest::{spec_flushed_seq, spec_schema_version, spec_visible_files, Manifest, MetaEdit, MetaEditV};
use crate::serial_executor::{FlushState, ScheduleDecision, TableOpSerialExecutor};

verus! {

/// What a table operation can fail with.
#[derive(Debug, Clone, PartialEq, Eq)]
pub enum TableError {
    /// The per-region sequence space is exhausted.
    SequenceExhausted,
    /// The file identifier space is exhausted.
    FileIdExhausted,
    /// The schema version space is exhausted.
    SchemaVersionExhausted,
    /// A schema change named a version other than the current one.
    InvalidPreVersion { expect: u32, given: u32 },
    /// A previous background flush failed with this message.
    BackgroundFlushFailed { msg: String },
}

/// One record of the write-ahead log: a keyed row under its sequence.
#[derive(Debug, Clone)]
pub struct WalRecord {
    pub sequence: u64,
    pub key: Vec<u8>,
    pub row: Vec<u8>,
}

/// The mathematical value of a log record.
pub struct WalRecordV {
    pub sequence: u64,
    pub key: Seq<u8>,
    pub row: Seq<u8>,
}

impl View for WalRecord {
    type V = WalRecordV;

    open spec fn view(&self) -> WalRecordV {
        WalRecordV { sequence: self.sequence, key: self.key@, row: self.row@ }
    }
}

/// One table file: the rows of a flushed memtable, in key order, under a
/// unique file identifier.
#[derive(Debug)]
pub struct SstFile {
    pub file_id: u64,
    pub max_sequence: u64,
    pub data: Vec<KeyedRow>,
}

/// The mathematical value of a table file.
pub struct SstFileV {
    pub file_id: u64,
    pub max_sequence: u64,
    pub data: Seq<KeyedRowV>,
}

impl View for SstFile {
    type V = SstFileV;

    open spec fn view(&self) -> SstFileV {
        SstFileV {
            file_id: self.file_id,
            max_sequence: self.max_sequence,
            data: self.data@.map(|i: int, e: KeyedRow| e@),
        }
    }
}

/// Everything that survives a crash: the write-ahead log, the manifest,
/// and the uploaded table files.
#[derive(Debug)]
pub struct TableStore {
    pub wal: Vec<WalRecord>,
    pub manifest: Manifest,
    pub objects: Vec<SstFile>,
}

/// The row the tail of the write-ahead log holds for `k`: the latest
/// record above the flushed sequence.
pub open spec fn spec_wal_tail(wal: Seq<WalRecordV>, flushed: u64, k: Seq<u8>) -> Option<KeyedRowV>
    decreases wal.len(),
{
    if wal.len() == 0 {
        None
    } else if wal.last().sequence > flushed && wal.last().key == k {
        Some(KeyedRowV { key: wal.last().key, sequence: wal.last().sequence, row: wal.last().row })
    } else {
        spec_wal_tail(wal.drop_last(), flushed, k)
    }
}

/// The row the table files hold for `k`: the latest flushed file wins.
pub open spec fn spec_sst_lookup(files: Seq<SstFileV>, k: Seq<u8>) -> Option<KeyedRowV>
    decreases files.len(),
{
    if files.len() == 0 {
        None
    } else {
        match spec_lookup(files.last().data, k) {
            Some(e) => Some(e),
            None => spec_sst_lookup(files.drop_last(), k),
        }
    }
}

/// The visible files of a store: the uploaded objects the manifest
/// acknowledges, in upload order.
pub open spec fn spec_store_files(store: &TableStore) -> Seq<SstFileV> {
    store.objects@.map(|i: int, f: SstFile| f@).filter(
        |f: SstFileV| spec_visible_files(store.manifest.spec_edits()).contains(f.file_id),
    )
}

/// The row a durable store holds for `k`: the unflushed log tail first,
/// then the acknowledged table files.
pub open spec fn spec_store_contents(store: &TableStore, k: Seq<u8>) -> Option<KeyedRowV> {
    match spec_wal_tail(
        store.wal@.map(|i: int, r: WalRecord| r@),
        spec_flushed_seq(store.manifest.spec_edits()),
        k,
    ) {
        Some(e) => Some(e),
        None => spec_sst_lookup(spec_store_files(store), k),
    }
}

/// A table: its durable store and the in-memory state rebuilt from it.
pub struct Table {
    /// The durable store; what a crash keeps.
    store: TableStore,
    /// The buffer of writes not yet flushed to a table file.
    active: Memtable,
    /// The visible table files, oldest first.
    ssts: Vec<SstFile>,
    /// The largest sequence durably appended.
    last_sequence: u64,
    /// The largest sequence whose writes are in a table file.
    last_flushed_sequence: u64,
    /// The next file identifier to hand out.
    next_file_id: u64,
    /// The version of the table's schema shape.
    schema_version: u32,
    /// Serializes the mutating operations, flush scheduling included.
    executor: TableOpSerialExecutor,
}

impl Table {
    /// The write-ahead log records, in append order.
    pub closed spec fn spec_wal(&self) -> Seq<WalRecordV> {
        self.store.wal@.map(|i: int, r: WalRecord| r@)
    }

    /// The manifest edits, in append order.
    pub closed spec fn spec_edits(&self) -> Seq<MetaEditV> {
        self.store.manifest.spec_edits()
    }

    /// The visible table files, oldest first.
    pub closed spec fn spec_ssts(&self) -> Seq<SstFileV> {
        self.ssts@.map(|i: int, f: SstFile| f@)
    }

    /// The buffer of unflushed writes.
    pub closed spec fn spec_active(&self) -> Memtable {
        self.active
    }

    pub closed spec fn spec_last_sequence(&self) -> u64 {
        self.last_sequence
    }

    /// The version of the table's schema shape.
    pub closed spec fn spec_schema_version(&self) -> u32 {
        self.schema_version
    }

    pub closed spec fn spec_last_flushed_sequence(&self) -> u64 {
        self.last_flushed_sequence
    }

    pub closed spec fn spec_store(&self) -> &TableStore {
        &self.store
    }

    pub closed spec fn spec_executor(&self) -> TableOpSerialExecutor {
        self.executor
    }

    /// The row the table holds for `k`: the buffer of recent writes
    /// first, then the table files, newest first.
    pub open spec fn spec_contents(&self, k: Seq<u8>) -> Option<KeyedRowV> {
        match self.spec_active().spec_get(k) {
            Some(e) => Some(e),
            None => spec_sst_lookup(self.spec_ssts(), k),
        }
    }

    /// The in-memory state is exactly what the durable store rebuilds:
    /// the buffer holds the unflushed log tail, the visible files are the
    /// acknowledged objects, and the sequences match the log and the
    /// manifest.
    pub closed spec fn wf(&self) -> bool {
        &&& self.active.inv()
        &&& self.last_flushed_sequence <= self.last_sequence
        &&& self.last_flushed_sequence == spec_flushed_seq(self.spec_edits())
        &&& self.schema_version == spec_schema_version(self.spec_edits())
        &&& forall|i: int|
            0 <= i < self.spec_wal().len() ==> (#[trigger] self.spec_wal()[i]).sequence
                <= self.last_sequence
        &&& forall|k: Seq<u8>| #[trigger]
            self.spec_active().spec_get(k) == spec_wal_tail(
                self.spec_wal(),
                self.last_flushed_sequence,
                k,
            )
        &&& self.spec_ssts() == spec_store_files(&self.store)
        &&& (self.next_file_id == u64::MAX || forall|i: int|
            0 <= i < self.store.objects@.len() ==> (#[trigger] self.store.objects@[i]).file_id
                < self.next_file_id)
        &&& !(self.executor.spec_scheduler().spec_state() is Flushing)
    }

    /// A fresh, empty table.
    pub fn create(table_id: u64) -> (r: Table)
        ensures
            r.wf(),
            r.spec_last_sequence() == 0,
            r.spec_last_flushed_sequence() == 0,
            forall|k: Seq<u8>| #[trigger] r.spec_contents(k) is None,
            r.spec_wal().len() == 0,
            r.spec_ssts().len() == 0,
    {
        let mut manifest = Manifest::new();
        manifest.store_update(MetaEdit::AddTable { table_id, schema_version: 1 });
        let r = Table {
            store: TableStore { wal: Vec::new(), manifest, objects: Vec::new() },
            active: Memtable::new(),
            ssts: Vec::new(),
            last_sequence: 0,
            last_flushed_sequence: 0,
            next_file_id: 1,
            schema_version: 1,
            executor: TableOpSerialExecutor::new(table_id),
        };
        proof {
            reveal_with_fuel(spec_flushed_seq, 3);
            reveal_with_fuel(spec_visible_files, 3);
            reveal_with_fuel(spec_schema_version, 3);
            assert(r.spec_wal() =~= Seq::<WalRecordV>::empty());
            assert(r.spec_ssts() =~= Seq::<SstFileV>::empty());
            assert(r.store.objects@.map(|i: int, f: SstFile| f@) =~= Seq::<SstFileV>::empty());
            assert(r.spec_edits().drop_last() =~= Seq::<MetaEditV>::empty());
            assert(spec_flushed_seq(r.spec_edits()) == 0);
            assert(spec_store_files(&r.store) =~= Seq::<SstFileV>::empty());
            assert forall|k: Seq<u8>| #[trigger]
                r.spec_active().spec_get(k) == spec_wal_tail(
                    r.spec_wal(),
                    r.last_flushed_sequence,
                    k,
                ) by {}
            assert forall|k: Seq<u8>| #[trigger] r.spec_contents(k) is None by {}
        }
        r
    }

    pub fn last_sequence(&self) -> (r: u64)
        ensures
            r == self.spec_last_sequence(),
    {
        self.last_sequence
    }

    pub fn last_flushed_sequence(&self) -> (r: u64)
        ensures
            r == self.spec_last_flushed_sequence(),
    {
        self.last_flushed_sequence
    }

    pub fn schema_version(&self) -> (r: u32)
        ensures
            r == self.spec_schema_version(),
    {
        self.schema_version
    }

    /// Change the table's schema shape. The caller names the version it
    /// believes current; a stale or wrong version is refused and nothing
    /// changes, else the version advances by one and the change is
    /// acknowledged by the manifest before it applies.
    pub fn alter_schema(&mut self, pre_schema_version: u32) -> (r: Result<u32, TableError>)
        requires
            old(self).wf(),
        ensures
            final(self).wf(),
            pre_schema_version != old(self).spec_schema_version() ==> r == Result::<
                u32,
                TableError,
            >::Err(
                TableError::InvalidPreVersion {
                    expect: old(self).spec_schema_version(),
                    given: pre_schema_version,
                },
            ) && *final(self) == *old(self),
            pre_schema_version == old(self).spec_schema_version() && old(self).spec_schema_version()
                == u32::MAX ==> r == Result::<u32, TableError>::Err(
                TableError::SchemaVersionExhausted,
            ) && *final(self) == *old(self),
            pre_schema_version == old(self).spec_schema_version() && old(self).spec_schema_version()
                < u32::MAX ==> {
                let v = (old(self).spec_schema_version() + 1) as u32;
                &&& r == Result::<u32, TableError>::Ok(v)
                &&& final(self).spec_schema_version() == v
                &&& final(self).spec_edits() == old(self).spec_edits().push(
                    MetaEditV::AlterSchema { schema_version: v },
                )
                &&& (forall|k: Seq<u8>| #[trigger]
                    final(self).spec_contents(k) == old(self).spec_contents(k))
                &&& final(self).spec_last_sequence() == old(self).spec_last_sequence()
            },
    {
        if pre_schema_version != self.schema_version {
            return Err(
                TableError::InvalidPreVersion {
                    expect: self.schema_version,
                    given: pre_schema_version,
                },
            );
        }
        if self.schema_version == u32::MAX {
            return Err(TableError::SchemaVersionExhausted);
        }
        let v = self.schema_version + 1;
        self.store.manifest.store_update(MetaEdit::AlterSchema { schema_version: v });
        self.schema_version = v;
        proof {
            reveal_with_fuel(spec_flushed_seq, 2);
            reveal_with_fuel(spec_visible_files, 2);
            reveal_with_fuel(spec_schema_version, 2);
            let edits = self.spec_edits();
            assert(edits.drop_last() =~= old(self).spec_edits());
            assert(spec_visible_files(edits) =~= spec_visible_files(old(self).spec_edits()));
            assert(self.spec_ssts() =~= spec_store_files(&self.store));
        }
        Ok(v)
    }

    /// Write one keyed row: appended to the write-ahead log first, then
    /// buffered; the sequence it gets is strictly above every earlier
    /// write's.
    pub fn write(&mut self, key: Vec<u8>, row: Vec<u8>) -> (r: Result<u64, TableError>)
        requires
            old(self).wf(),
        ensures
            final(self).wf(),
            old(self).spec_last_sequence() == u64::MAX ==> r == Result::<u64, TableError>::Err(
                TableError::SequenceExhausted,
            ) && *final(self) == *old(self),
            old(self).spec_last_sequence() < u64::MAX ==> {
                let seq = (old(self).spec_last_sequence() + 1) as u64;
                &&& r == Result::<u64, TableError>::Ok(seq)
                &&& final(self).spec_last_sequence() == seq
                &&& forall|i: int|
                    0 <= i < old(self).spec_wal().len() ==> seq > (
                    #[trigger] old(self).spec_wal()[i]).sequence
                &&& final(self).spec_contents(key@) == Some(
                    KeyedRowV { key: key@, sequence: seq, row: row@ },
                )
                &&& forall|k: Seq<u8>|
                    k != key@ ==> #[trigger] final(self).spec_contents(k) == old(
                        self,
                    ).spec_contents(k)
                &&& final(self).spec_last_flushed_sequence() == old(
                    self,
                ).spec_last_flushed_sequence()
                &&& final(self).spec_ssts() == old(self).spec_ssts()
                &&& final(self).spec_edits() == old(self).spec_edits()
                &&& final(self).spec_wal() == old(self).spec_wal().push(
                    WalRecordV { sequence: seq, key: key@, row: row@ },
                )
            },
    {
        if self.last_sequence == u64::MAX {
            return Err(TableError::SequenceExhausted);
        }
        let sequence = self.last_sequence + 1;
        let wal_key = clone_bytes(&key);
        let wal_row = clone_bytes(&row);
        let ghost pre_wal = self.spec_wal();
        self.store.wal.push(WalRecord { sequence, key: wal_key, row: wal_row });
        self.active.put(key, sequence, row);
        self.last_sequence = sequence;
        proof {
            assert(self.spec_wal() =~= pre_wal.push(
                WalRecordV { sequence, key: key@, row: row@ },
            ));
            let wal = self.spec_wal();
            let flushed = self.last_flushed_sequence;
            assert(wal.drop_last() =~= pre_wal);
            assert forall|k: Seq<u8>| #[trigger]
                self.spec_active().spec_get(k) == spec_wal_tail(wal, flushed, k) by {
                assert(old(self).spec_active().spec_get(k) == spec_wal_tail(pre_wal, flushed, k));
            }
            assert(self.spec_ssts() =~= spec_store_files(&self.store));
        }
        Ok(sequence)
    }

    /// Read the row the table holds for `key`.
    pub fn read(&self, key: &Vec<u8>) -> (r: Option<&KeyedRow>)
        requires
            self.wf(),
        ensures
            match r {
                Some(e) => self.spec_contents(key@) == Some(e@),
                None => self.spec_contents(key@) is None,
            },
    {
        match self.active.get(key) {
            Some(e) => Some(e),
            None => {
                let mut j = self.ssts.len();
                proof {
                    assert(self.spec_ssts().take(j as int) =~= self.spec_ssts());
                }
                while j > 0
                    invariant
                        j <= self.spec_ssts().len(),
                        self.active.inv(),
                        self.spec_active().spec_get(key@) is None,
                        spec_sst_lookup(self.spec_ssts(), key@) == spec_sst_lookup(
                            self.spec_ssts().take(j as int),
                            key@,
                        ),
                    decreases j,
                {
                    j = j - 1;
                    proof {
                        assert(self.spec_ssts().take(j as int + 1).last() == self.spec_ssts()[j
                            as int]);
                        assert(self.spec_ssts().take(j as int + 1).drop_last() =~= self.spec_ssts(
                        ).take(j as int));
                    }
                    let file = &self.ssts[j];
                    match lookup_entries(&file.data, key) {
                        Some(e) => {
                            return Some(e);
                        },
                        None => {},
                    }
                }
                proof {
                    assert(self.spec_ssts().take(0) =~= Seq::<SstFileV>::empty());
                }
                None
            },
        }
    }

    /// Flush the buffered writes into one new table file, acknowledged by
    /// the manifest before it becomes visible. The visible contents do
    /// not change; afterwards every write is durable in a table file.
    pub fn flush(&mut self) -> (r: Result<(), TableError>)
        requires
            old(self).wf(),
        ensures
            old(self).spec_executor().spec_scheduler().spec_state() matches FlushState::Failed {
                err_msg } ==> r == Result::<(), TableError>::Err(
                TableError::BackgroundFlushFailed { msg: err_msg },
            ),
            old(self).spec_executor().spec_scheduler().spec_state() is Ready
                && old(self).next_file_id() < u64::MAX ==> r is Ok,
            r is Ok ==> {
                &&& final(self).wf()
                &&& final(self).spec_last_flushed_sequence() == old(self).spec_last_sequence()
                &&& final(self).spec_last_sequence() == old(self).spec_last_sequence()
                &&& forall|k: Seq<u8>| #[trigger]
                    final(self).spec_contents(k) == old(self).spec_contents(k)
                &&& final(self).spec_active().spec_entries().len() == 0
            },
            !(r is Ok) ==> final(self).wf() && final(self).spec_wal() == old(self).spec_wal()
                && final(self).spec_ssts() == old(self).spec_ssts() && final(self).spec_edits()
                == old(self).spec_edits() && final(self).spec_last_sequence() == old(
                self,
            ).spec_last_sequence() && final(self).spec_last_flushed_sequence() == old(
                self,
            ).spec_last_flushed_sequence() && (forall|k: Seq<u8>| #[trigger]
                final(self).spec_contents(k) == old(self).spec_contents(k)),
    {
        let decision = self.executor.schedule_flush();
        match decision {
            ScheduleDecision::Wait => {
                // The scheduler is never left mid-flush by these
                // synchronous operations.
                proof {
                    assert(false);
                }
                Err(TableError::BackgroundFlushFailed { msg: String::new() })
            },
            ScheduleDecision::Fail { err_msg } => Err(
                TableError::BackgroundFlushFailed { msg: err_msg },
            ),
            ScheduleDecision::Start => {
                if self.next_file_id == u64::MAX {
                    self.executor.finish_flush(Ok(()));
                    return Err(TableError::FileIdExhausted);
                }
                let ghost pre = *old(self);
                let file_id = self.next_file_id;
                self.next_file_id = self.next_file_id + 1;
                let entries = self.active.take_entries();
                let entries_copy = clone_keyed_rows(&entries);
                let file = SstFile { file_id, max_sequence: self.last_sequence, data: entries };
                let object = SstFile {
                    file_id,
                    max_sequence: self.last_sequence,
                    data: entries_copy,
                };
                let ghost newfile = object@;
                proof {
                    assert(file@ == newfile);
                }
                self.store.manifest.store_update(MetaEdit::AddFile { file_id });
                self.store.manifest.store_update(
                    MetaEdit::VersionEdit { flushed_sequence: self.last_sequence },
                );
                self.store.objects.push(object);
                self.ssts.push(file);
                self.last_flushed_sequence = self.last_sequence;
                self.executor.finish_flush(Ok(()));
                proof {
                    assert(self.store.objects@.map(|i: int, f: SstFile| f@)
                        =~= pre.store.objects@.map(|i: int, f: SstFile| f@).push(newfile));
                    assert(self.spec_ssts() =~= pre.spec_ssts().push(newfile));
                    self.lemma_flush_ok(pre, file_id, newfile);
                }
                Ok(())
            },
        }
    }

    /// The flush body keeps the table well formed and its contents
    /// unchanged.
    proof fn lemma_flush_ok(&self, pre: Table, file_id: u64, newfile: SstFileV)
        requires
            pre.wf(),
            pre.next_file_id < u64::MAX,
            file_id == pre.next_file_id,
            self.next_file_id == pre.next_file_id + 1,
            self.last_sequence == pre.last_sequence,
            self.last_flushed_sequence == pre.last_sequence,
            self.schema_version == pre.schema_version,
            self.active.inv(),
            self.active.spec_entries() == Seq::<KeyedRowV>::empty(),
            self.spec_edits() == pre.spec_edits().push(MetaEditV::AddFile { file_id }).push(
                MetaEditV::VersionEdit { flushed_sequence: pre.last_sequence },
            ),
            self.spec_wal() == pre.spec_wal(),
            self.store.objects@.map(|i: int, f: SstFile| f@) == pre.store.objects@.map(
                |i: int, f: SstFile| f@,
            ).push(newfile),
            newfile.file_id == file_id,
            newfile.max_sequence == pre.last_sequence,
            newfile.data == pre.spec_active().spec_entries(),
            self.spec_ssts() == pre.spec_ssts().push(newfile),
            !(self.executor.spec_scheduler().spec_state() is Flushing),
        ensures
            self.wf(),
            forall|k: Seq<u8>| #[trigger] self.spec_contents(k) == pre.spec_contents(k),
    {
        let edits = self.spec_edits();
        reveal_with_fuel(spec_visible_files, 3);
        reveal_with_fuel(spec_flushed_seq, 3);
        reveal_with_fuel(spec_schema_version, 3);
        assert(edits.drop_last() =~= pre.spec_edits().push(MetaEditV::AddFile { file_id }));
        assert(edits.drop_last().drop_last() =~= pre.spec_edits());
        // the manifest acknowledges exactly the old files plus the new one
        assert(spec_flushed_seq(edits) == pre.last_sequence);
        let vis = spec_visible_files(edits);
        assert(vis =~= spec_visible_files(pre.spec_edits()).insert(file_id));

        // the unflushed log tail is now empty
        assert forall|k: Seq<u8>| #[trigger]
            spec_wal_tail(self.spec_wal(), self.last_flushed_sequence, k) is None by {
            lemma_wal_tail_none(self.spec_wal(), self.last_flushed_sequence, k);
        }
        assert forall|k: Seq<u8>| #[trigger]
            self.spec_active().spec_get(k) == spec_wal_tail(
                self.spec_wal(),
                self.last_flushed_sequence,
                k,
            ) by {
            lemma_wal_tail_none(self.spec_wal(), self.last_flushed_sequence, k);
        }

        // the visible files are the old ones plus the new file
        let old_objs = pre.store.objects@.map(|i: int, f: SstFile| f@);
        let new_objs = self.store.objects@.map(|i: int, f: SstFile| f@);
        assert(new_objs =~= old_objs.push(newfile));
        let old_pred = |f: SstFileV| spec_visible_files(pre.spec_edits()).contains(f.file_id);
        let new_pred = |f: SstFileV| vis.contains(f.file_id);
        assert forall|i: int| 0 <= i < old_objs.len() implies old_pred(#[trigger] old_objs[i])
            == new_pred(old_objs[i]) by {
            assert(old_objs[i] == pre.store.objects@[i]@);
            assert(pre.store.objects@[i].file_id < pre.next_file_id);
        }
        lemma_filter_congruent(old_objs, old_pred, new_pred);
        assert(new_objs.drop_last() =~= old_objs);
        old_objs.lemma_filter_push(newfile, new_pred);
        assert(new_objs.filter(new_pred) =~= old_objs.filter(new_pred).push(newfile));
        assert(spec_store_files(&self.store) =~= pre.spec_ssts().push(newfile));
        assert(self.spec_ssts() =~= spec_store_files(&self.store));

        // contents are unchanged: the new file holds what the buffer held
        assert forall|k: Seq<u8>| #[trigger] self.spec_contents(k) == pre.spec_contents(k) by {
            assert(self.spec_active().spec_get(k) is None);
            assert(self.spec_ssts().last() == newfile);
            assert(self.spec_ssts().drop_last() =~= pre.spec_ssts());
            assert(spec_lookup(newfile.data, k) == pre.spec_active().spec_get(k));
        }
        assert forall|i: int| 0 <= i < self.store.objects@.len() implies (
        #[trigger] self.store.objects@[i]).file_id < self.next_file_id by {
            assert(new_objs[i] == self.store.objects@[i]@);
            if i < old_objs.len() {
                assert(old_objs[i] == pre.store.objects@[i]@);
                assert(pre.store.objects@[i].file_id < pre.next_file_id);
                assert(self.store.objects@[i]@.file_id == pre.store.objects@[i]@.file_id);
            } else {
                assert(new_objs[i] == newfile);
            }
        }
    }


    /// Compact the visible table files into one: a full merge where the
    /// newest file wins on a shared key. The inputs are removed and the
    /// output added in one manifest step; the visible contents do not
    /// change.
    #[verifier::loop_isolation(false)]
    pub fn compact(&mut self) -> (r: Result<(), TableError>)
        requires
            old(self).wf(),
        ensures
            old(self).next_file_id() < u64::MAX && old(self).spec_ssts().len() >= 2 ==> r is Ok,
            r is Ok ==> {
                &&& final(self).wf()
                &&& forall|k: Seq<u8>| #[trigger]
                    final(self).spec_contents(k) == old(self).spec_contents(k)
                &&& (old(self).spec_ssts().len() >= 2 ==> final(self).spec_ssts().len() == 1)
                &&& final(self).spec_last_sequence() == old(self).spec_last_sequence()
                &&& final(self).spec_last_flushed_sequence() == old(
                    self,
                ).spec_last_flushed_sequence()
                &&& final(self).spec_wal() == old(self).spec_wal()
            },
    {
        if self.ssts.len() < 2 {
            // nothing to merge
            return Ok(());
        }
        if self.next_file_id == u64::MAX {
            return Err(TableError::FileIdExhausted);
        }
        let ghost pre = *old(self);

        // Merge every visible file, newest last so its rows win.
        let mut merged = Memtable::new();
        let mut input_ids: Vec<u64> = Vec::new();
        let nf = self.ssts.len();
        let mut fi: usize = 0;
        proof {
            assert(self.spec_ssts().take(0) =~= Seq::<SstFileV>::empty());
            assert forall|k: Seq<u8>| #[trigger]
                merged.spec_get(k) == spec_sst_lookup(self.spec_ssts().take(0), k) by {}
        }
        while fi < nf
            invariant
                fi <= nf,
                nf == self.spec_ssts().len(),
                *self == pre,
                merged.inv(),
                forall|k: Seq<u8>| #[trigger]
                    merged.spec_get(k) == spec_sst_lookup(self.spec_ssts().take(fi as int), k),
                input_ids@ == self.spec_ssts().take(fi as int).map(
                    |x: int, f: SstFileV| f.file_id,
                ),
            decreases nf - fi,
        {
            let file = &self.ssts[fi];
            let ghost fv = self.spec_ssts()[fi as int];
            proof {
                assert(self.spec_ssts().take(fi as int + 1).drop_last() =~= self.spec_ssts().take(
                    fi as int,
                ));
                assert(self.spec_ssts().take(fi as int + 1).last() == fv);
            }
            let ne = file.data.len();
            let mut ei: usize = ne;
            while ei > 0
                invariant
                    ei <= ne,
                    ne == fv.data.len(),
                    self.spec_ssts()[fi as int] == fv,
                    fi < nf == self.spec_ssts().len(),
                    *self == pre,
                    merged.inv(),
                    forall|k: Seq<u8>| #[trigger]
                        merged.spec_get(k) == (match spec_lookup(fv.data.skip(ei as int), k) {
                            Some(e) => Some(e),
                            None => spec_sst_lookup(self.spec_ssts().take(fi as int), k),
                        }),
                decreases ei,
            {
                ei = ei - 1;
                let e = &self.ssts[fi].data[ei];
                proof {
                    assert(e@ == fv.data[ei as int]);
                    assert(fv.data.skip(ei as int)[0] == fv.data[ei as int]);
                    assert(fv.data.skip(ei as int).drop_first() =~= fv.data.skip(ei as int + 1));
                }
                merged.put(clone_bytes(&e.key), e.sequence, clone_bytes(&e.row));
            }
            proof {
                assert(fv.data.skip(0) =~= fv.data);
                assert forall|k: Seq<u8>| #[trigger]
                    merged.spec_get(k) == spec_sst_lookup(
                        self.spec_ssts().take(fi as int + 1),
                        k,
                    ) by {}
            }
            input_ids.push(self.ssts[fi].file_id);
            fi += 1;
            proof {
                assert(input_ids@ =~= self.spec_ssts().take(fi as int).map(
                    |x: int, f: SstFileV| f.file_id,
                ));
            }
        }
        proof {
            assert(self.spec_ssts().take(nf as int) =~= self.spec_ssts());
        }

        // Publish: remove the inputs and add the output in one step, then
        // swap the merged file in.
        let file_id = self.next_file_id;
        self.next_file_id = self.next_file_id + 1;
        let ghost mentries = merged.spec_entries();
        proof {
            assert forall|k: Seq<u8>| #[trigger]
                spec_lookup(mentries, k) == spec_sst_lookup(pre.spec_ssts(), k) by {
                assert(merged.spec_get(k) == spec_sst_lookup(self.spec_ssts(), k));
            }
        }
        let entries = merged.take_entries();
        let entries_copy = clone_keyed_rows(&entries);
        let file = SstFile { file_id, max_sequence: self.last_sequence, data: entries };
        let object = SstFile { file_id, max_sequence: self.last_sequence, data: entries_copy };
        let ghost newfile = object@;
        proof {
            assert(file@ == newfile);
            assert(newfile.data == mentries);
        }
        self.store.manifest.store_update(MetaEdit::RemoveFiles { file_ids: input_ids });
        self.store.manifest.store_update(MetaEdit::AddFile { file_id });
        self.store.objects.push(object);
        let mut merged_only: Vec<SstFile> = Vec::new();
        merged_only.push(file);
        self.ssts = merged_only;
        proof {
            assert(self.spec_ssts() =~= seq![newfile]);
            assert(self.store.objects@.map(|i: int, f: SstFile| f@) =~= pre.store.objects@.map(
                |i: int, f: SstFile| f@,
            ).push(newfile));
            self.lemma_compact_ok(pre, file_id, newfile);
        }
        Ok(())
    }

    /// The compaction body keeps the table well formed and its contents
    /// unchanged: the one remaining file reads as all the inputs did.
    proof fn lemma_compact_ok(&self, pre: Table, file_id: u64, newfile: SstFileV)
        requires
            pre.wf(),
            pre.next_file_id < u64::MAX,
            file_id == pre.next_file_id,
            self.next_file_id == pre.next_file_id + 1,
            self.last_sequence == pre.last_sequence,
            self.last_flushed_sequence == pre.last_flushed_sequence,
            self.schema_version == pre.schema_version,
            self.active == pre.active,
            self.executor == pre.executor,
            self.spec_wal() == pre.spec_wal(),
            self.spec_edits() == pre.spec_edits().push(
                MetaEditV::RemoveFiles {
                    file_ids: pre.spec_ssts().map(|x: int, f: SstFileV| f.file_id),
                },
            ).push(MetaEditV::AddFile { file_id }),
            self.store.objects@.map(|i: int, f: SstFile| f@) == pre.store.objects@.map(
                |i: int, f: SstFile| f@,
            ).push(newfile),
            newfile.file_id == file_id,
            forall|k: Seq<u8>| #[trigger]
                spec_lookup(newfile.data, k) == spec_sst_lookup(pre.spec_ssts(), k),
            self.spec_ssts() == seq![newfile],
        ensures
            self.wf(),
            forall|k: Seq<u8>| #[trigger] self.spec_contents(k) == pre.spec_contents(k),
    {
        let edits = self.spec_edits();
        let removed = pre.spec_ssts().map(|x: int, f: SstFileV| f.file_id);
        reveal_with_fuel(spec_visible_files, 3);
        reveal_with_fuel(spec_flushed_seq, 3);
        reveal_with_fuel(spec_schema_version, 3);
        assert(edits.drop_last() =~= pre.spec_edits().push(
            MetaEditV::RemoveFiles { file_ids: removed },
        ));
        assert(edits.drop_last().drop_last() =~= pre.spec_edits());
        assert(spec_flushed_seq(edits) == pre.last_flushed_sequence);
        let prev_vis = spec_visible_files(pre.spec_edits());
        let vis = spec_visible_files(edits);
        assert(vis =~= prev_vis.filter(|id: u64| !removed.contains(id)).insert(file_id));

        // every previously visible object's identifier is in the removed
        // list, so only the merged file stays visible
        let old_objs = pre.store.objects@.map(|i: int, f: SstFile| f@);
        let new_objs = self.store.objects@.map(|i: int, f: SstFile| f@);
        assert(new_objs =~= old_objs.push(newfile));
        let new_pred = |f: SstFileV| vis.contains(f.file_id);
        assert forall|i: int| 0 <= i < old_objs.len() implies !new_pred(#[trigger] old_objs[i]) by {
            if prev_vis.contains(old_objs[i].file_id) {
                let old_pred = |f: SstFileV| prev_vis.contains(f.file_id);
                old_objs.lemma_filter_contains(old_pred, i);
                assert(pre.spec_ssts().contains(old_objs[i]));
                let si = choose|si: int|
                    0 <= si < pre.spec_ssts().len() && pre.spec_ssts()[si] == old_objs[i];
                assert(removed[si] == old_objs[i].file_id);
                assert(removed.contains(old_objs[i].file_id));
            }
            assert(old_objs[i].file_id != file_id) by {
                assert(old_objs[i] == pre.store.objects@[i]@);
                assert(pre.store.objects@[i].file_id < pre.next_file_id);
            }
        }
        lemma_filter_none(old_objs, new_pred);
        old_objs.lemma_filter_push(newfile, new_pred);
        assert(new_objs.filter(new_pred) =~= old_objs.filter(new_pred).push(newfile));
        assert(spec_store_files(&self.store) =~= seq![newfile]);
        assert(self.spec_ssts() =~= spec_store_files(&self.store));

        // the file identifier bound carries over
        assert forall|i: int| 0 <= i < self.store.objects@.len() implies (
        #[trigger] self.store.objects@[i]).file_id < self.next_file_id by {
            assert(new_objs[i] == self.store.objects@[i]@);
            if i < old_objs.len() {
                assert(old_objs[i] == pre.store.objects@[i]@);
                assert(pre.store.objects@[i].file_id < pre.next_file_id);
                assert(self.store.objects@[i]@.file_id == pre.store.objects@[i]@.file_id);
            } else {
                assert(new_objs[i] == newfile);
            }
        }

        // the contents are unchanged: the merged file answers as the
        // inputs did
        assert forall|k: Seq<u8>| #[trigger] self.spec_contents(k) == pre.spec_contents(k) by {
            reveal_with_fuel(spec_sst_lookup, 3);
            assert(self.spec_ssts().last() == newfile);
            assert(self.spec_ssts().drop_last() =~= Seq::<SstFileV>::empty());
            assert(spec_sst_lookup(Seq::<SstFileV>::empty(), k) is None);
            assert(spec_sst_lookup(self.spec_ssts(), k) == spec_lookup(newfile.data, k));
        }
    }

    /// The next file identifier to hand out.
    pub closed spec fn next_file_id(&self) -> u64 {
        self.next_file_id
    }

    /// Give up the in-memory state, keeping only what a crash keeps.
    pub fn into_store(self) -> (r: TableStore)
        ensures
            r == *self.spec_store(),
    {
        self.store
    }

    /// Rebuild a table from its durable store: the acknowledged files
    /// become visible again, and replaying the log tail refills the
    /// buffer. The visible contents are exactly the store's.
    #[verifier::loop_isolation(false)]
    pub fn reopen(table_id: u64, store: TableStore) -> (r: Table)
        ensures
            r.wf(),
            forall|k: Seq<u8>| #[trigger] r.spec_contents(k) == spec_store_contents(&store, k),
            r.spec_ssts() == spec_store_files(&store),
            r.spec_last_flushed_sequence() == spec_flushed_seq(store.manifest.spec_edits()),
    {
        let flushed = store.manifest.flushed_sequence();
        let schema_version = store.manifest.schema_version();
        let visible = store.manifest.visible_files();

        // Rebuild the visible file list from the acknowledged objects.
        let mut ssts: Vec<SstFile> = Vec::new();
        let mut max_id: u64 = 0;
        let n_obj = store.objects.len();
        let ghost objs = store.objects@.map(|i: int, f: SstFile| f@);
        let ghost pred = |f: SstFileV| spec_visible_files(store.manifest.spec_edits()).contains(
            f.file_id,
        );
        let mut i: usize = 0;
        proof {
            assert(objs.take(0).filter(pred) =~= Seq::<SstFileV>::empty());
            assert(ssts@.map(|x: int, f: SstFile| f@) =~= Seq::<SstFileV>::empty());
        }
        while i < n_obj
            invariant
                i <= n_obj,
                n_obj == objs.len(),
                ssts@.map(|x: int, f: SstFile| f@) == objs.take(i as int).filter(pred),
                forall|x: int|
                    0 <= x < i ==> (#[trigger] store.objects@[x]).file_id <= max_id,
                forall|x: int|
                    0 <= x < ssts@.len() ==> (#[trigger] ssts@[x]).file_id <= max_id,
            decreases n_obj - i,
        {
            let f = &store.objects[i];
            if f.file_id > max_id {
                max_id = f.file_id;
            }
            proof {
                assert(objs.take(i as int + 1).drop_last() =~= objs.take(i as int));
                assert(objs.take(i as int + 1).last() == objs[i as int]);
                reveal_with_fuel(Seq::filter, 2);
            }
            if vec_contains(&visible, f.file_id) {
                let copy = SstFile {
                    file_id: f.file_id,
                    max_sequence: f.max_sequence,
                    data: clone_keyed_rows(&f.data),
                };
                proof {
                    assert(copy@ == objs[i as int]);
                }
                ssts.push(copy);
                proof {
                    assert(ssts@.map(|x: int, f: SstFile| f@) =~= objs.take(i as int + 1).filter(
                        pred,
                    ));
                }
            } else {
                proof {
                    assert(ssts@.map(|x: int, f: SstFile| f@) =~= objs.take(i as int + 1).filter(
                        pred,
                    ));
                }
            }
            i += 1;
        }
        proof {
            assert(objs.take(n_obj as int) =~= objs);
        }

        // Replay the unflushed tail of the log into a fresh buffer.
        let mut active = Memtable::new();
        let mut last_sequence = flushed;
        let n_wal = store.wal.len();
        let ghost wal = store.wal@.map(|x: int, r: WalRecord| r@);
        let mut i: usize = 0;
        proof {
            assert(wal.take(0) =~= Seq::<WalRecordV>::empty());
            assert forall|k: Seq<u8>| #[trigger]
                active.spec_get(k) == spec_wal_tail(wal.take(0), flushed, k) by {}
        }
        while i < n_wal
            invariant
                i <= n_wal,
                n_wal == wal.len(),
                active.inv(),
                forall|k: Seq<u8>| #[trigger]
                    active.spec_get(k) == spec_wal_tail(wal.take(i as int), flushed, k),
                last_sequence >= flushed,
                forall|x: int| 0 <= x < i ==> (#[trigger] wal[x]).sequence <= last_sequence,
            decreases n_wal - i,
        {
            let rec = &store.wal[i];
            proof {
                assert(wal.take(i as int + 1).drop_last() =~= wal.take(i as int));
                assert(wal.take(i as int + 1).last() == wal[i as int]);
            }
            if rec.sequence > flushed {
                active.put(clone_bytes(&rec.key), rec.sequence, clone_bytes(&rec.row));
            }
            if rec.sequence > last_sequence {
                last_sequence = rec.sequence;
            }
            i += 1;
        }
        proof {
            assert(wal.take(n_wal as int) =~= wal);
        }

        let next_file_id = if max_id == u64::MAX {
            u64::MAX
        } else {
            max_id + 1
        };
        let r = Table {
            store,
            active,
            ssts,
            last_sequence,
            last_flushed_sequence: flushed,
            next_file_id,
            schema_version,
            executor: TableOpSerialExecutor::new(table_id),
        };
        proof {
            assert(r.spec_ssts() =~= spec_store_files(&r.store));
        }
        r
    }
}

/// What a table holds is exactly what its durable store alone rebuilds:
/// killing the process loses nothing that was written, flushed or not.
///
/// With [`Table::reopen`], whose result's contents are the store's, this
/// says that closing and reopening a table keeps its visible contents.
pub proof fn lemma_durable_contents(t: &Table)
    requires
        t.wf(),
    ensures
        forall|k: Seq<u8>| #[trigger] t.spec_contents(k) == spec_store_contents(t.spec_store(), k),
{
}

/// Look a key up in the rows of one table file.
#[verifier::loop_isolation(false)]
fn lookup_entries<'a>(entries: &'a Vec<KeyedRow>, key: &Vec<u8>) -> (r: Option<&'a KeyedRow>)
    ensures
        match r {
            Some(e) => spec_lookup(entries@.map(|i: int, e: KeyedRow| e@), key@) == Some(e@),
            None => spec_lookup(entries@.map(|i: int, e: KeyedRow| e@), key@) is None,
        },
{
    let ghost es = entries@.map(|i: int, e: KeyedRow| e@);
    let n = entries.len();
    let mut i: usize = 0;
    proof {
        assert(es.skip(0) =~= es);
    }
    while i < n
        invariant
            i <= n,
            n == es.len(),
            spec_lookup(es, key@) == spec_lookup(es.skip(i as int), key@),
        decreases n - i,
    {
        proof {
            assert(es.skip(i as int)[0] == es[i as int]);
            assert(es.skip(i as int).drop_first() =~= es.skip(i as int + 1));
        }
        if byte_keys_equal(&entries[i].key, key) {
            return Some(&entries[i]);
        }
        i += 1;
    }
    None
}

/// Copy a run of keyed rows.
#[verifier::loop_isolation(false)]
pub fn clone_keyed_rows(v: &Vec<KeyedRow>) -> (r: Vec<KeyedRow>)
    ensures
        r@.map(|i: int, e: KeyedRow| e@) == v@.map(|i: int, e: KeyedRow| e@),
{
    let n = v.len();
    let mut r: Vec<KeyedRow> = Vec::with_capacity(n);
    let mut i: usize = 0;
    while i < n
        invariant
            i <= n,
            n == v@.len(),
            r@.map(|x: int, e: KeyedRow| e@) == v@.map(|x: int, e: KeyedRow| e@).take(i as int),
        decreases n - i,
    {
        let e = &v[i];
        let c = KeyedRow { key: clone_bytes(&e.key), sequence: e.sequence, row: clone_bytes(&e.row) };
        proof {
            assert(c@ == v@.map(|x: int, e: KeyedRow| e@)[i as int]);
        }
        r.push(c);
        i += 1;
        proof {
            assert(r@.map(|x: int, e: KeyedRow| e@) =~= v@.map(|x: int, e: KeyedRow| e@).take(
                i as int,
            ));
        }
    }
    proof {
        assert(v@.map(|x: int, e: KeyedRow| e@).take(n as int) =~= v@.map(
            |x: int, e: KeyedRow| e@,
        ));
    }
    r
}

/// Whether a vector of identifiers holds `id`.
fn vec_contains(v: &Vec<u64>, id: u64) -> (r: bool)
    ensures
        r == v@.contains(id),
{
    let n = v.len();
    let mut i: usize = 0;
    while i < n
        invariant
            i <= n,
            n == v@.len(),
            forall|j: int| 0 <= j < i ==> v@[j] != id,
        decreases n - i,
    {
        if v[i] == id {
            proof {
                assert(v@.contains(id));
            }
            return true;
        }
        i += 1;
    }
    false
}

/// A log whose records all sit at or below the flushed sequence has an
/// empty unflushed tail.
proof fn lemma_wal_tail_none(wal: Seq<WalRecordV>, flushed: u64, k: Seq<u8>)
    requires
        forall|i: int| 0 <= i < wal.len() ==> (#[trigger] wal[i]).sequence <= flushed,
    ensures
        spec_wal_tail(wal, flushed, k) is None,
    decreases wal.len(),
{
    if wal.len() > 0 {
        lemma_wal_tail_none(wal.drop_last(), flushed, k);
    }
}

/// Filtering a run none of whose elements pass gives the empty run.
proof fn lemma_filter_none<A>(s: Seq<A>, p: spec_fn(A) -> bool)
    requires
        forall|i: int| 0 <= i < s.len() ==> !p(#[trigger] s[i]),
    ensures
        s.filter(p) == Seq::<A>::empty(),
    decreases s.len(),
{
    reveal_with_fuel(Seq::filter, 2);
    if s.len() > 0 {
        lemma_filter_none(s.drop_last(), p);
        assert(s.last() == s[s.len() - 1]);
    }
}

/// Filtering with predicates that agree on every element gives the same
/// run.
proof fn lemma_filter_congruent<A>(s: Seq<A>, p1: spec_fn(A) -> bool, p2: spec_fn(A) -> bool)
    requires
        forall|i: int| 0 <= i < s.len() ==> p1(#[trigger] s[i]) == p2(s[i]),
    ensures
        s.filter(p1) == s.filter(p2),
    decreases s.len(),
{
    reveal_with_fuel(Seq::filter, 2);
    if s.len() > 0 {
        lemma_filter_congruent(s.drop_last(), p1, p2);
        assert(s.last() == s[s.len() - 1]);
    }
}

} // verus!
