//! The manifest: an ordered, durable log of metadata edits. The set of
//! table files a reader may see is exactly what this log acknowledges.

use vstd::prelude::*;

verus! {

/// One durable metadata edit.
#[derive(Debug, Clone)]
pub enum MetaEdit {
    AddTable { table_id: u64, schema_version: u32 },
    DropTable { table_id: u64 },
    AlterSchema { schema_version: u32 },
    AlterOptions { write_buffer_size: u64 },
    AddFile { file_id: u64 },
    RemoveFiles { file_ids: Vec<u64> },
    VersionEdit { flushed_sequence: u64 },
}

/// The mathematical value of a metadata edit.
pub enum MetaEditV {
    AddTable { table_id: u64, schema_version: u32 },
    DropTable { table_id: u64 },
    AlterSchema { schema_version: u32 },
    AlterOptions { write_buffer_size: u64 },
    AddFile { file_id: u64 },
    RemoveFiles { file_ids: Seq<u64> },
    VersionEdit { flushed_sequence: u64 },
}

impl View for MetaEdit {
    type V = MetaEditV;

    open spec fn view(&self) -> MetaEditV {
        match self {
            MetaEdit::AddTable { table_id, schema_version } => MetaEditV::AddTable {
                table_id: *table_id,
                schema_version: *schema_version,
            },
            MetaEdit::DropTable { table_id } => MetaEditV::DropTable { table_id: *table_id },
            MetaEdit::AlterSchema { schema_version } => MetaEditV::AlterSchema {
                schema_version: *schema_version,
            },
            MetaEdit::AlterOptions { write_buffer_size } => MetaEditV::AlterOptions {
                write_buffer_size: *write_buffer_size,
            },
            MetaEdit::AddFile { file_id } => MetaEditV::AddFile { file_id: *file_id },
            MetaEdit::RemoveFiles { file_ids } => MetaEditV::RemoveFiles { file_ids: file_ids@ },
            MetaEdit::VersionEdit { flushed_sequence } => MetaEditV::VersionEdit {
                flushed_sequence: *flushed_sequence,
            },
        }
    }
}

/// The files visible after replaying a prefix of edits: added files,
/// minus removed ones, cleared by a table drop.
pub open spec fn spec_visible_files(edits: Seq<MetaEditV>) -> Set<u64>
    decreases edits.len(),
{
    if edits.len() == 0 {
        Set::empty()
    } else {
        let rest = spec_visible_files(edits.drop_last());
        match edits.last() {
            MetaEditV::AddFile { file_id } => rest.insert(file_id),
            MetaEditV::RemoveFiles { file_ids } => rest.filter(|id: u64| !file_ids.contains(id)),
            MetaEditV::DropTable { .. } => Set::empty(),
            _ => rest,
        }
    }
}

/// The flushed sequence after replaying a prefix of edits: the last
/// version edit, or zero for none.
pub open spec fn spec_flushed_seq(edits: Seq<MetaEditV>) -> u64
    decreases edits.len(),
{
    if edits.len() == 0 {
        0
    } else {
        match edits.last() {
            MetaEditV::VersionEdit { flushed_sequence } => flushed_sequence,
            _ => spec_flushed_seq(edits.drop_last()),
        }
    }
}

/// The schema version after replaying a prefix of edits: the last
/// schema change, else the version the table was created with, else the
/// first version.
pub open spec fn spec_schema_version(edits: Seq<MetaEditV>) -> u32
    decreases edits.len(),
{
    if edits.len() == 0 {
        1
    } else {
        match edits.last() {
            MetaEditV::AlterSchema { schema_version } => schema_version,
            MetaEditV::AddTable { schema_version, .. } => schema_version,
            _ => spec_schema_version(edits.drop_last()),
        }
    }
}

/// An append-only log of metadata edits.
#[derive(Debug)]
pub struct Manifest {
    edits: Vec<MetaEdit>,
}

impl Manifest {
    /// The acknowledged edits, in order.
    pub closed spec fn spec_edits(&self) -> Seq<MetaEditV> {
        self.edits@.map(|i: int, e: MetaEdit| e@)
    }

    pub fn new() -> (r: Self)
        ensures
            r.spec_edits() == Seq::<MetaEditV>::empty(),
    {
        let r = Manifest { edits: Vec::new() };
        proof {
            assert(r.spec_edits() =~= Seq::<MetaEditV>::empty());
        }
        r
    }

    /// Durably append an edit; the caller may rely on it only after this
    /// returns.
    pub fn store_update(&mut self, edit: MetaEdit)
        ensures
            final(self).spec_edits() == old(self).spec_edits().push(edit@),
    {
        let ghost e = edit@;
        self.edits.push(edit);
        proof {
            assert(self.spec_edits() =~= old(self).spec_edits().push(e));
        }
    }

    pub fn len(&self) -> (r: usize)
        ensures
            r == self.spec_edits().len(),
    {
        self.edits.len()
    }

    pub fn edit_at(&self, i: usize) -> (r: &MetaEdit)
        requires
            i < self.spec_edits().len(),
        ensures
            r@ == self.spec_edits()[i as int],
    {
        &self.edits[i]
    }

    /// The flushed sequence the log acknowledges.
    #[verifier::loop_isolation(false)]
    pub fn flushed_sequence(&self) -> (r: u64)
        ensures
            r == spec_flushed_seq(self.spec_edits()),
    {
        let n = self.edits.len();
        let mut r: u64 = 0;
        let mut i: usize = 0;
        proof {
            assert(self.spec_edits().take(0) =~= Seq::<MetaEditV>::empty());
        }
        while i < n
            invariant
                i <= n,
                r == spec_flushed_seq(self.spec_edits().take(i as int)),
            decreases n - i,
        {
            proof {
                assert(self.spec_edits().take(i as int + 1).drop_last() =~= self.spec_edits().take(
                    i as int,
                ));
                assert(self.spec_edits().take(i as int + 1).last() == self.spec_edits()[i as int]);
            }
            match &self.edits[i] {
                MetaEdit::VersionEdit { flushed_sequence } => {
                    r = *flushed_sequence;
                },
                _ => {},
            }
            i += 1;
        }
        proof {
            assert(self.spec_edits().take(n as int) =~= self.spec_edits());
        }
        r
    }

    /// The schema version the log acknowledges.
    #[verifier::loop_isolation(false)]
    pub fn schema_version(&self) -> (r: u32)
        ensures
            r == spec_schema_version(self.spec_edits()),
    {
        let n = self.edits.len();
        let mut r: u32 = 1;
        let mut i: usize = 0;
        proof {
            assert(self.spec_edits().take(0) =~= Seq::<MetaEditV>::empty());
        }
        while i < n
            invariant
                i <= n,
                r == spec_schema_version(self.spec_edits().take(i as int)),
            decreases n - i,
        {
            proof {
                assert(self.spec_edits().take(i as int + 1).drop_last() =~= self.spec_edits().take(
                    i as int,
                ));
                assert(self.spec_edits().take(i as int + 1).last() == self.spec_edits()[i as int]);
            }
            match &self.edits[i] {
                MetaEdit::AlterSchema { schema_version } => {
                    r = *schema_version;
                },
                MetaEdit::AddTable { schema_version, .. } => {
                    r = *schema_version;
                },
                _ => {},
            }
            i += 1;
        }
        proof {
            assert(self.spec_edits().take(n as int) =~= self.spec_edits());
        }
        r
    }

    /// The file identifiers the log acknowledges as visible.
    #[verifier::loop_isolation(false)]
    pub fn visible_files(&self) -> (r: Vec<u64>)
        ensures
            forall|id: u64| #[trigger]
                r@.contains(id) <==> spec_visible_files(self.spec_edits()).contains(id),
    {
        let n = self.edits.len();
        let mut vis: Vec<u64> = Vec::new();
        let mut i: usize = 0;
        proof {
            assert(self.spec_edits().take(0) =~= Seq::<MetaEditV>::empty());
        }
        while i < n
            invariant
                i <= n,
                forall|id: u64| #[trigger]
                    vis@.contains(id) <==> spec_visible_files(
                        self.spec_edits().take(i as int),
                    ).contains(id),
            decreases n - i,
        {
            proof {
                assert(self.spec_edits().take(i as int + 1).drop_last() =~= self.spec_edits().take(
                    i as int,
                ));
                assert(self.spec_edits().take(i as int + 1).last() == self.spec_edits()[i as int]);
            }
            match &self.edits[i] {
                MetaEdit::AddFile { file_id } => {
                    let ghost pre = vis@;
                    vis.push(*file_id);
                    proof {
                        assert forall|id: u64| #[trigger] vis@.contains(id) <==> (pre.contains(id)
                            || id == *file_id) by {
                            lemma_push_contains(pre, *file_id, id);
                        }
                    }
                },
                MetaEdit::RemoveFiles { file_ids } => {
                    vis = remove_ids(vis, file_ids);
                },
                MetaEdit::DropTable { .. } => {
                    vis = Vec::new();
                    proof {
                        assert(forall|id: u64| !vis@.contains(id));
                    }
                },
                _ => {},
            }
            i += 1;
        }
        proof {
            assert(self.spec_edits().take(n as int) =~= self.spec_edits());
        }
        vis
    }
}

/// Pushing a value adds exactly it to the values a run holds.
proof fn lemma_push_contains(s: Seq<u64>, v: u64, id: u64)
    ensures
        s.push(v).contains(id) <==> (s.contains(id) || id == v),
{
    if s.contains(id) {
        let x = choose|x: int| 0 <= x < s.len() && s[x] == id;
        assert(s.push(v)[x] == id);
    }
    if id == v {
        assert(s.push(v)[s.len() as int] == id);
    }
    if s.push(v).contains(id) {
        let x = choose|x: int| 0 <= x < s.push(v).len() && s.push(v)[x] == id;
        if x < s.len() {
            assert(s[x] == id);
        }
    }
}

/// Whether a vector of identifiers holds `id`.
pub fn vec_contains_u64(v: &Vec<u64>, id: u64) -> (r: bool)
    ensures
        r == v@.contains(id),
{
    let n = v.len();
    let mut i: usize = 0;
    while i < n
        invariant
            i <= n,
            n == v@.len(),
            forall|j: int| 0 <= j < i ==> v@[j] != id,
        decreases n - i,
    {
        if v[i] == id {
            proof {
                assert(v@.contains(id));
            }
            return true;
        }
        i += 1;
    }
    false
}

/// The identifiers of `v` that `removed` does not hold, in order.
#[verifier::loop_isolation(false)]
fn remove_ids(v: Vec<u64>, removed: &Vec<u64>) -> (r: Vec<u64>)
    ensures
        forall|id: u64| #[trigger] r@.contains(id) <==> (v@.contains(id) && !removed@.contains(id)),
{
    let n = v.len();
    let mut r: Vec<u64> = Vec::new();
    let mut i: usize = 0;
    proof {
        assert(v@.take(0) =~= Seq::<u64>::empty());
    }
    while i < n
        invariant
            i <= n,
            forall|id: u64| #[trigger]
                r@.contains(id) <==> (v@.take(i as int).contains(id) && !removed@.contains(id)),
        decreases n - i,
    {
        let keep = !vec_contains_u64(removed, v[i]);
        let ghost pre = r@;
        proof {
            assert(v@.take(i as int + 1) =~= v@.take(i as int).push(v@[i as int]));
        }
        if keep {
            r.push(v[i]);
        }
        proof {
            assert forall|id: u64| #[trigger] r@.contains(id) <==> (v@.take(
                i as int + 1,
            ).contains(id) && !removed@.contains(id)) by {
                lemma_push_contains(v@.take(i as int), v@[i as int], id);
                if keep {
                    lemma_push_contains(pre, v@[i as int], id);
                }
            }
        }
        i += 1;
    }
    proof {
        assert(v@.take(n as int) =~= v@);
    }
    r
}

} // verus!
