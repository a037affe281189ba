//! Block lists limiting which tables may be read or written.
//!
//! The limiter holds one block list for reads and one for writes; a plan
//! is refused exactly when it touches a blocked table.

use vstd::prelude::*;

verus! {

/// What the limiter reads of a query plan: the tables a query scans, or
/// the table an insert writes.
#[derive(Debug)]
pub enum Plan {
    /// A query over these tables.
    Query { tables: Vec<String> },
    /// An insert into this table.
    Insert { table: String },
    /// Any other statement; never limited.
    Other,
}

/// The initial block lists.
#[derive(Debug, Default)]
pub struct LimiterConfig {
    pub write_block_list: Vec<String>,
    pub read_block_list: Vec<String>,
}

/// Refuses reads and writes that touch blocked tables.
#[derive(Debug)]
pub struct Limiter {
    write_block_list: Vec<String>,
    read_block_list: Vec<String>,
}

/// The names a list of strings holds.
pub open spec fn spec_names(v: Seq<String>) -> Seq<Seq<char>> {
    v.map(|i: int, s: String| s@)
}

/// Pushing a name adds exactly it to the names a run holds.
proof fn lemma_push_contains(s: Seq<Seq<char>>, v: Seq<char>, id: Seq<char>)
    ensures
        s.push(v).contains(id) <==> (s.contains(id) || id == v),
{
    if s.contains(id) {
        let x = choose|x: int| 0 <= x < s.len() && s[x] == id;
        assert(s.push(v)[x] == id);
    }
    if id == v {
        assert(s.push(v)[s.len() as int] == id);
    }
    if s.push(v).contains(id) {
        let x = choose|x: int| 0 <= x < s.push(v).len() && s.push(v)[x] == id;
        if x < s.len() {
            assert(s[x] == id);
        }
    }
}

/// Whether a list of names holds `name`.
fn names_contain(v: &Vec<String>, name: &String) -> (r: bool)
    ensures
        r == spec_names(v@).contains(name@),
{
    let n = v.len();
    let mut i: usize = 0;
    while i < n
        invariant
            i <= n,
            n == v@.len(),
            forall|j: int| 0 <= j < i ==> spec_names(v@)[j] != name@,
        decreases n - i,
    {
        if v[i] == *name {
            proof {
                assert(spec_names(v@)[i as int] == name@);
                assert(spec_names(v@).contains(name@));
            }
            return true;
        }
        proof {
            assert(spec_names(v@)[i as int] == v@[i as int]@);
        }
        i += 1;
    }
    proof {
        if spec_names(v@).contains(name@) {
            let x = choose|x: int|
                0 <= x < spec_names(v@).len() && #[trigger] spec_names(v@)[x] == name@;
        }
    }
    false
}

/// Extend a list with names, keeping each name it already had.
#[verifier::loop_isolation(false)]
fn extend_names(dst: &mut Vec<String>, src: Vec<String>)
    ensures
        forall|name: Seq<char>| #[trigger]
            spec_names(final(dst)@).contains(name) <==> (spec_names(old(dst)@).contains(name)
                || spec_names(src@).contains(name)),
{
    let n = src.len();
    let ghost sv = spec_names(src@);
    let mut i: usize = 0;
    proof {
        assert(sv.take(0) =~= Seq::<Seq<char>>::empty());
    }
    let mut src = src;
    while i < n
        invariant
            i <= n,
            n == sv.len(),
            src@.len() == n,
            spec_names(src@) == sv,
            forall|name: Seq<char>| #[trigger]
                spec_names(dst@).contains(name) <==> (spec_names(old(dst)@).contains(name)
                    || sv.take(i as int).contains(name)),
        decreases n - i,
    {
        let s = clone_string(&src[i]);
        let ghost pre = spec_names(dst@);
        proof {
            assert(s@ == sv[i as int]);
            assert(sv.take(i as int + 1) =~= sv.take(i as int).push(sv[i as int]));
        }
        dst.push(s);
        proof {
            assert(spec_names(dst@) =~= pre.push(sv[i as int]));
            assert forall|name: Seq<char>| #[trigger]
                spec_names(dst@).contains(name) <==> (spec_names(old(dst)@).contains(name)
                    || sv.take(i as int + 1).contains(name)) by {
                lemma_push_contains(pre, sv[i as int], name);
                lemma_push_contains(sv.take(i as int), sv[i as int], name);
            }
        }
        i += 1;
    }
    proof {
        assert(sv.take(n as int) =~= sv);
    }
}

/// The names of a list that another list does not hold, in order.
#[verifier::loop_isolation(false)]
fn retain_not_in(v: &mut Vec<String>, removed: &Vec<String>)
    ensures
        forall|name: Seq<char>| #[trigger]
            spec_names(final(v)@).contains(name) <==> (spec_names(old(v)@).contains(name)
                && !spec_names(removed@).contains(name)),
{
    let ghost pre = spec_names(old(v)@);
    let n = v.len();
    let mut kept: Vec<String> = Vec::new();
    let mut i: usize = 0;
    proof {
        assert(pre.take(0) =~= Seq::<Seq<char>>::empty());
    }
    while i < n
        invariant
            i <= n,
            n == v@.len(),
            spec_names(v@) == pre,
            forall|name: Seq<char>| #[trigger]
                spec_names(kept@).contains(name) <==> (pre.take(i as int).contains(name)
                    && !spec_names(removed@).contains(name)),
        decreases n - i,
    {
        let keep = !names_contain(removed, &v[i]);
        let ghost kpre = spec_names(kept@);
        proof {
            assert(pre.take(i as int + 1) =~= pre.take(i as int).push(pre[i as int]));
            assert(pre[i as int] == v@[i as int]@);
        }
        if keep {
            kept.push(clone_string(&v[i]));
            proof {
                assert(spec_names(kept@) =~= kpre.push(pre[i as int]));
            }
        }
        proof {
            assert forall|name: Seq<char>| #[trigger]
                spec_names(kept@).contains(name) <==> (pre.take(i as int + 1).contains(name)
                    && !spec_names(removed@).contains(name)) by {
                lemma_push_contains(pre.take(i as int), pre[i as int], name);
                if keep {
                    lemma_push_contains(kpre, pre[i as int], name);
                }
            }
        }
        i += 1;
    }
    proof {
        assert(pre.take(n as int) =~= pre);
    }
    *v = kept;
}

/// Copy a string.
fn clone_string(s: &String) -> (r: String)
    ensures
        r@ == s@,
{
    s.as_str().to_owned()
}

/// Copy a list of names.
#[verifier::loop_isolation(false)]
fn clone_names(v: &Vec<String>) -> (r: Vec<String>)
    ensures
        spec_names(r@) == spec_names(v@),
{
    let n = v.len();
    let mut r: Vec<String> = Vec::with_capacity(n);
    let mut i: usize = 0;
    while i < n
        invariant
            i <= n,
            spec_names(r@) == spec_names(v@).take(i as int),
        decreases n - i,
    {
        let c = clone_string(&v[i]);
        proof {
            assert(c@ == spec_names(v@)[i as int]);
        }
        r.push(c);
        i += 1;
        proof {
            assert(spec_names(r@) =~= spec_names(v@).take(i as int));
        }
    }
    proof {
        assert(spec_names(v@).take(n as int) =~= spec_names(v@));
    }
    r
}

impl Limiter {
    /// The blocked table names for writes.
    pub closed spec fn spec_write_block_list(&self) -> Seq<Seq<char>> {
        spec_names(self.write_block_list@)
    }

    /// The blocked table names for reads.
    pub closed spec fn spec_read_block_list(&self) -> Seq<Seq<char>> {
        spec_names(self.read_block_list@)
    }

    pub fn new(limit_config: LimiterConfig) -> (r: Limiter)
        ensures
            r.spec_write_block_list() == spec_names(limit_config.write_block_list@),
            r.spec_read_block_list() == spec_names(limit_config.read_block_list@),
    {
        Limiter {
            write_block_list: limit_config.write_block_list,
            read_block_list: limit_config.read_block_list,
        }
    }

    /// Whether a plan touches a blocked table: a query one of whose
    /// tables is blocked for reads, or an insert into a table blocked for
    /// writes.
    pub open spec fn spec_should_limit(&self, plan: &Plan) -> bool {
        match plan {
            Plan::Query { tables } => exists|i: int|
                0 <= i < tables@.len() && self.spec_read_block_list().contains(
                    #[trigger] spec_names(tables@)[i],
                ),
            Plan::Insert { table } => self.spec_write_block_list().contains(table@),
            Plan::Other => false,
        }
    }

    /// Whether a plan touches a blocked table: a query one of whose
    /// tables is blocked for reads, or an insert into a table blocked for
    /// writes.
    #[verifier::loop_isolation(false)]
    pub fn should_limit(&self, plan: &Plan) -> (r: bool)
        ensures
            r == self.spec_should_limit(plan),
    {
        match plan {
            Plan::Query { tables } => {
                let n = tables.len();
                let mut i: usize = 0;
                while i < n
                    invariant
                        i <= n,
                        n == tables@.len(),
                        forall|j: int|
                            0 <= j < i ==> !self.spec_read_block_list().contains(
                                #[trigger] spec_names(tables@)[j],
                            ),
                    decreases n - i,
                {
                    if names_contain(&self.read_block_list, &tables[i]) {
                        proof {
                            assert(spec_names(tables@)[i as int] == tables@[i as int]@);
                            assert(self.spec_read_block_list().contains(
                                spec_names(tables@)[i as int],
                            ));
                            assert(exists|j: int|
                                0 <= j < tables@.len() && self.spec_read_block_list().contains(
                                    #[trigger] spec_names(tables@)[j],
                                ));
                        }
                        return true;
                    }
                    proof {
                        assert(spec_names(tables@)[i as int] == tables@[i as int]@);
                    }
                    i += 1;
                }
                false
            },
            Plan::Insert { table } => names_contain(&self.write_block_list, table),
            Plan::Other => false,
        }
    }

    /// Add names to the write block list.
    pub fn add_write_block_list(&mut self, block_list: Vec<String>)
        ensures
            forall|name: Seq<char>| #[trigger]
                final(self).spec_write_block_list().contains(name) <==> (old(
                    self,
                ).spec_write_block_list().contains(name) || spec_names(block_list@).contains(
                    name,
                )),
            final(self).spec_read_block_list() == old(self).spec_read_block_list(),
    {
        extend_names(&mut self.write_block_list, block_list);
    }

    /// Add names to the read block list.
    pub fn add_read_block_list(&mut self, block_list: Vec<String>)
        ensures
            forall|name: Seq<char>| #[trigger]
                final(self).spec_read_block_list().contains(name) <==> (old(
                    self,
                ).spec_read_block_list().contains(name) || spec_names(block_list@).contains(
                    name,
                )),
            final(self).spec_write_block_list() == old(self).spec_write_block_list(),
    {
        extend_names(&mut self.read_block_list, block_list);
    }

    /// Replace the write block list.
    pub fn set_write_block_list(&mut self, block_list: Vec<String>)
        ensures
            final(self).spec_write_block_list() == spec_names(block_list@),
            final(self).spec_read_block_list() == old(self).spec_read_block_list(),
    {
        self.write_block_list = block_list;
    }

    /// Replace the read block list.
    pub fn set_read_block_list(&mut self, block_list: Vec<String>)
        ensures
            final(self).spec_read_block_list() == spec_names(block_list@),
            final(self).spec_write_block_list() == old(self).spec_write_block_list(),
    {
        self.read_block_list = block_list;
    }

    pub fn get_write_block_list(&self) -> (r: Vec<String>)
        ensures
            spec_names(r@) == self.spec_write_block_list(),
    {
        clone_names(&self.write_block_list)
    }

    pub fn get_read_block_list(&self) -> (r: Vec<String>)
        ensures
            spec_names(r@) == self.spec_read_block_list(),
    {
        clone_names(&self.read_block_list)
    }

    /// Drop names from the write block list.
    pub fn remove_write_block_list(&mut self, block_list: Vec<String>)
        ensures
            forall|name: Seq<char>| #[trigger]
                final(self).spec_write_block_list().contains(name) <==> (old(
                    self,
                ).spec_write_block_list().contains(name) && !spec_names(block_list@).contains(
                    name,
                )),
            final(self).spec_read_block_list() == old(self).spec_read_block_list(),
    {
        retain_not_in(&mut self.write_block_list, &block_list);
    }

    /// Drop names from the read block list.
    pub fn remove_read_block_list(&mut self, block_list: Vec<String>)
        ensures
            forall|name: Seq<char>| #[trigger]
                final(self).spec_read_block_list().contains(name) <==> (old(
                    self,
                ).spec_read_block_list().contains(name) && !spec_names(block_list@).contains(
                    name,
                )),
            final(self).spec_write_block_list() == old(self).spec_write_block_list(),
    {
        retain_not_in(&mut self.read_block_list, &block_list);
    }
}

impl Default for Limiter {
    /// A limiter with empty block lists.
    fn default() -> (r: Limiter)
        ensures
            r.spec_write_block_list() == Seq::<Seq<char>>::empty(),
            r.spec_read_block_list() == Seq::<Seq<char>>::empty(),
    {
        let r = Limiter { write_block_list: Vec::new(), read_block_list: Vec::new() };
        proof {
            assert(r.spec_write_block_list() =~= Seq::<Seq<char>>::empty());
            assert(r.spec_read_block_list() =~= Seq::<Seq<char>>::empty());
        }
        r
    }
}

} // verus!
