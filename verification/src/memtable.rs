//! The in-memory buffer of recent writes: rows keyed by their primary key
//! bytes, kept in key order, newer writes shadowing older ones.

use vstd::prelude::*;

verus! {

/// One buffered row: its key bytes, the write-ahead-log sequence that
/// carried it, and its encoded payload.
#[derive(Debug, Clone)]
pub struct KeyedRow {
    pub key: Vec<u8>,
    pub sequence: u64,
    pub row: Vec<u8>,
}

/// The mathematical value of a buffered row.
pub struct KeyedRowV {
    pub key: Seq<u8>,
    pub sequence: u64,
    pub row: Seq<u8>,
}

impl View for KeyedRow {
    type V = KeyedRowV;

    open spec fn view(&self) -> KeyedRowV {
        KeyedRowV { key: self.key@, sequence: self.sequence, row: self.row@ }
    }
}

/// Strict lexicographic order on byte strings.
pub open spec fn lex_lt(a: Seq<u8>, b: Seq<u8>) -> bool
    decreases a.len(),
{
    if b.len() == 0 {
        false
    } else if a.len() == 0 {
        true
    } else if a[0] < b[0] {
        true
    } else if a[0] > b[0] {
        false
    } else {
        lex_lt(a.drop_first(), b.drop_first())
    }
}

/// The lexicographic order is total: two keys are equal, or one comes
/// first.
pub proof fn lemma_lex_total(a: Seq<u8>, b: Seq<u8>)
    ensures
        lex_lt(a, b) || lex_lt(b, a) || a == b,
    decreases a.len(),
{
    if a.len() > 0 && b.len() > 0 && a[0] == b[0] {
        lemma_lex_total(a.drop_first(), b.drop_first());
        if a.drop_first() == b.drop_first() {
            assert(a.drop_first().len() == b.drop_first().len());
            assert(a.len() == b.len());
            assert forall|i: int| 0 <= i < a.len() implies a[i] == b[i] by {
                if i > 0 {
                    assert(a[i] == a.drop_first()[i - 1]);
                    assert(b[i] == b.drop_first()[i - 1]);
                }
            }
            assert(a =~= b);
        }
    } else if a.len() == 0 && b.len() == 0 {
        assert(a =~= b);
    }
}

/// The lexicographic order is irreflexive.
pub proof fn lemma_lex_irrefl(a: Seq<u8>)
    ensures
        !lex_lt(a, a),
    decreases a.len(),
{
    if a.len() > 0 {
        lemma_lex_irrefl(a.drop_first());
    }
}

/// The lexicographic order is transitive.
pub proof fn lemma_lex_trans(a: Seq<u8>, b: Seq<u8>, c: Seq<u8>)
    requires
        lex_lt(a, b),
        lex_lt(b, c),
    ensures
        lex_lt(a, c),
    decreases a.len() + b.len() + c.len(),
{
    if b.len() > 0 && c.len() > 0 && a.len() > 0 {
        if a[0] == b[0] && b[0] == c[0] {
            lemma_lex_trans(a.drop_first(), b.drop_first(), c.drop_first());
        }
    }
}

/// Whether `a` is strictly below `b` in lexicographic byte order.
pub fn key_lt(a: &Vec<u8>, b: &Vec<u8>) -> (r: bool)
    ensures
        r == lex_lt(a@, b@),
{
    let an = a.len();
    let bn = b.len();
    let m = if an < bn {
        an
    } else {
        bn
    };
    let mut i: usize = 0;
    proof {
        assert(a@.skip(0) =~= a@);
        assert(b@.skip(0) =~= b@);
    }
    while i < m
        invariant
            i <= m,
            m == vstd::math::min(a@.len() as int, b@.len() as int),
            forall|j: int| 0 <= j < i ==> a@[j] == b@[j],
            lex_lt(a@, b@) == lex_lt(a@.skip(i as int), b@.skip(i as int)),
        decreases m - i,
    {
        let x = a[i];
        let y = b[i];
        proof {
            assert(a@.skip(i as int)[0] == a@[i as int]);
            assert(b@.skip(i as int)[0] == b@[i as int]);
            assert(a@.skip(i as int).drop_first() =~= a@.skip(i as int + 1));
            assert(b@.skip(i as int).drop_first() =~= b@.skip(i as int + 1));
        }
        if x < y {
            return true;
        }
        if x > y {
            return false;
        }
        i += 1;
    }
    proof {
        if an < bn {
            assert(a@.skip(i as int).len() == 0 && b@.skip(i as int).len() > 0);
        } else {
            assert(b@.skip(i as int).len() == 0);
        }
    }
    an < bn
}

/// Look a key up in a run of buffered rows: the first row with that key.
pub open spec fn spec_lookup(entries: Seq<KeyedRowV>, k: Seq<u8>) -> Option<KeyedRowV>
    decreases entries.len(),
{
    if entries.len() == 0 {
        None
    } else if entries[0].key == k {
        Some(entries[0])
    } else {
        spec_lookup(entries.drop_first(), k)
    }
}

/// The buffered rows are in strictly increasing key order, so every key
/// appears at most once.
pub open spec fn spec_sorted(entries: Seq<KeyedRowV>) -> bool {
    forall|i: int, j: int|
        0 <= i < j < entries.len() ==> lex_lt(#[trigger] entries[i].key, #[trigger] entries[j].key)
}

/// A key-ordered buffer of recent writes. A `put` of an existing key
/// replaces the buffered row: newer writes shadow older ones.
pub struct Memtable {
    entries: Vec<KeyedRow>,
}

/// A lookup in a sorted run whose entries all have keys below `k` finds
/// nothing.
proof fn lemma_lookup_all_below(entries: Seq<KeyedRowV>, k: Seq<u8>)
    requires
        forall|i: int| 0 <= i < entries.len() ==> lex_lt(#[trigger] entries[i].key, k),
    ensures
        spec_lookup(entries, k) is None,
    decreases entries.len(),
{
    if entries.len() > 0 {
        lemma_lex_irrefl(k);
        lemma_lookup_all_below(entries.drop_first(), k);
    }
}

/// Looking up in a concatenation searches the left run first.
pub proof fn lemma_lookup_concat(s1: Seq<KeyedRowV>, s2: Seq<KeyedRowV>, k: Seq<u8>)
    ensures
        spec_lookup(s1 + s2, k) == (if spec_lookup(s1, k) is Some {
            spec_lookup(s1, k)
        } else {
            spec_lookup(s2, k)
        }),
    decreases s1.len(),
{
    if s1.len() == 0 {
        assert(s1 + s2 =~= s2);
    } else {
        assert((s1 + s2).drop_first() =~= s1.drop_first() + s2);
        lemma_lookup_concat(s1.drop_first(), s2, k);
    }
}

impl Memtable {
    /// The buffered rows, in key order.
    pub closed spec fn spec_entries(&self) -> Seq<KeyedRowV> {
        self.entries@.map(|i: int, e: KeyedRow| e@)
    }

    /// The buffer keeps its rows in strictly increasing key order.
    pub open spec fn inv(&self) -> bool {
        spec_sorted(self.spec_entries())
    }

    /// The row buffered under key `k`, if any.
    pub open spec fn spec_get(&self, k: Seq<u8>) -> Option<KeyedRowV> {
        spec_lookup(self.spec_entries(), k)
    }

    pub fn new() -> (r: Self)
        ensures
            r.inv(),
            r.spec_entries() == Seq::<KeyedRowV>::empty(),
    {
        let r = Memtable { entries: Vec::new() };
        proof {
            assert(r.spec_entries() =~= Seq::<KeyedRowV>::empty());
        }
        r
    }

    /// How many rows are buffered.
    pub fn approximate_row_count(&self) -> (r: usize)
        ensures
            r == self.spec_entries().len(),
    {
        self.entries.len()
    }

    pub fn is_empty(&self) -> (r: bool)
        ensures
            r == (self.spec_entries().len() == 0),
    {
        self.entries.len() == 0
    }

    /// The buffered row at position `i` in key order.
    pub fn entry_at(&self, i: usize) -> (r: &KeyedRow)
        requires
            i < self.spec_entries().len(),
        ensures
            r@ == self.spec_entries()[i as int],
    {
        &self.entries[i]
    }

    /// Buffer a row: an existing row under the same key is replaced, any
    /// other key keeps its row, and the key order is kept.
    #[verifier::loop_isolation(false)]
    pub fn put(&mut self, key: Vec<u8>, sequence: u64, row: Vec<u8>)
        requires
            old(self).inv(),
        ensures
            final(self).inv(),
            final(self).spec_get(key@) == Some(
                KeyedRowV { key: key@, sequence, row: row@ },
            ),
            forall|k: Seq<u8>|
                k != key@ ==> #[trigger] final(self).spec_get(k) == old(self).spec_get(k),
            final(self).spec_entries().len() <= old(self).spec_entries().len() + 1,
    {
        let ghost pre = self.spec_entries();
        let n = self.entries.len();
        let mut p: usize = 0;
        while p < n && key_lt(&self.entries[p].key, &key)
            invariant
                p <= n,
                n == pre.len(),
                self.spec_entries() == pre,
                forall|j: int| 0 <= j < p ==> lex_lt(#[trigger] pre[j].key, key@),
            decreases n - p,
        {
            p += 1;
        }
        let ghost e = KeyedRowV { key: key@, sequence, row: row@ };
        if p < n && !key_lt(&key, &self.entries[p].key) {
            // Equal key: replace the buffered row.
            proof {
                lemma_lex_total(pre[p as int].key, key@);
                assert(pre[p as int].key == key@);
            }
            self.entries.set(p, KeyedRow { key, sequence, row });
            proof {
                let post = self.spec_entries();
                assert(post =~= pre.update(p as int, e));
                assert forall|i: int, j: int| 0 <= i < j < post.len() implies lex_lt(
                    #[trigger] post[i].key,
                    #[trigger] post[j].key,
                ) by {
                    assert(pre[i].key == post[i].key || i == p);
                    assert(pre[j].key == post[j].key || j == p);
                }
                self.lemma_put_lookup(pre, p as int, e, true);
            }
        } else {
            self.entries.insert(p, KeyedRow { key, sequence, row });
            proof {
                let post = self.spec_entries();
                assert(post =~= pre.take(p as int) + seq![e] + pre.skip(p as int));
                assert forall|i: int, j: int| 0 <= i < j < post.len() implies lex_lt(
                    #[trigger] post[i].key,
                    #[trigger] post[j].key,
                ) by {
                    assert(forall|x: int| 0 <= x < p ==> post[x] == pre[x]);
                    assert(forall|x: int|
                        p < x < post.len() ==> post[x] == pre[x - 1]);
                    assert(post[p as int] == e);
                    if j > p {
                        // every entry after the insertion point sits above the key
                        assert(lex_lt(key@, post[j].key)) by {
                            if j == p + 1 {
                            } else {
                                lemma_lex_trans(key@, pre[p as int].key, pre[j - 1].key);
                            }
                        }
                    }
                    if i < p && j == p {
                    } else if i < p && j > p {
                        lemma_lex_trans(post[i].key, key@, post[j].key);
                    }
                }
                self.lemma_put_lookup(pre, p as int, e, false);
            }
        }
    }

    /// After a put, the new key maps to the new row and every other key
    /// is untouched.
    proof fn lemma_put_lookup(&self, pre: Seq<KeyedRowV>, p: int, e: KeyedRowV, replaced: bool)
        requires
            spec_sorted(pre),
            0 <= p <= pre.len(),
            forall|j: int| 0 <= j < p ==> lex_lt(#[trigger] pre[j].key, e.key),
            replaced ==> p < pre.len() && pre[p].key == e.key && self.spec_entries() == pre.update(
                p,
                e,
            ),
            !replaced ==> (p < pre.len() ==> lex_lt(e.key, pre[p].key)) && self.spec_entries()
                == pre.take(p) + seq![e] + pre.skip(p),
        ensures
            spec_lookup(self.spec_entries(), e.key) == Some(e),
            forall|k: Seq<u8>|
                k != e.key ==> #[trigger] spec_lookup(self.spec_entries(), k) == spec_lookup(
                    pre,
                    k,
                ),
    {
        let post = self.spec_entries();
        let left = pre.take(p);
        assert forall|j: int| 0 <= j < left.len() implies lex_lt(#[trigger] left[j].key, e.key) by {}
        if replaced {
            let right = pre.skip(p + 1);
            assert(post =~= left + seq![e] + right);
            assert(pre =~= left + seq![pre[p]] + right);
            lemma_lookup_concat(left + seq![e], right, e.key);
            lemma_lookup_concat(left, seq![e], e.key);
            lemma_lookup_all_below(left, e.key);
            assert(spec_lookup(seq![e], e.key) == Some(e));
            assert(spec_lookup(post, e.key) == Some(e));
            assert forall|k: Seq<u8>| k != e.key implies #[trigger] spec_lookup(post, k)
                == spec_lookup(pre, k) by {
                lemma_lookup_concat(left + seq![e], right, k);
                lemma_lookup_concat(left, seq![e], k);
                lemma_lookup_concat(left + seq![pre[p]], right, k);
                lemma_lookup_concat(left, seq![pre[p]], k);
                reveal_with_fuel(spec_lookup, 3);
                assert(seq![e].drop_first() =~= Seq::<KeyedRowV>::empty());
                assert(seq![pre[p]].drop_first() =~= Seq::<KeyedRowV>::empty());
                assert(seq![e][0] == e);
                assert(seq![pre[p]][0] == pre[p]);
                assert(spec_lookup(seq![e], k) is None);
                assert(spec_lookup(seq![pre[p]], k) is None);
            }
        } else {
            let right = pre.skip(p);
            assert(post =~= left + seq![e] + right);
            assert(pre =~= left + right);
            lemma_lookup_concat(left + seq![e], right, e.key);
            lemma_lookup_concat(left, seq![e], e.key);
            lemma_lookup_all_below(left, e.key);
            assert(spec_lookup(post, e.key) == Some(e));
            assert forall|k: Seq<u8>| k != e.key implies #[trigger] spec_lookup(post, k)
                == spec_lookup(pre, k) by {
                lemma_lookup_concat(left + seq![e], right, k);
                lemma_lookup_concat(left, seq![e], k);
                lemma_lookup_concat(left, right, k);
                reveal_with_fuel(spec_lookup, 3);
                assert(seq![e].drop_first() =~= Seq::<KeyedRowV>::empty());
                assert(seq![e][0] == e);
                assert(spec_lookup(seq![e], k) is None);
            }
        }
    }

    /// Hand the buffered rows out and leave the buffer empty, as moving
    /// the buffer aside for a flush does.
    pub fn take_entries(&mut self) -> (r: Vec<KeyedRow>)
        requires
            old(self).inv(),
        ensures
            final(self).inv(),
            final(self).spec_entries() == Seq::<KeyedRowV>::empty(),
            r@.map(|i: int, e: KeyedRow| e@) == old(self).spec_entries(),
    {
        let mut taken: Vec<KeyedRow> = Vec::new();
        core::mem::swap(&mut taken, &mut self.entries);
        proof {
            assert(self.spec_entries() =~= Seq::<KeyedRowV>::empty());
        }
        taken
    }

    /// Read the row buffered under `key`.
    pub fn get(&self, key: &Vec<u8>) -> (r: Option<&KeyedRow>)
        requires
            self.inv(),
        ensures
            match r {
                Some(e) => self.spec_get(key@) == Some(e@),
                None => self.spec_get(key@) is None,
            },
    {
        let n = self.entries.len();
        let mut i: usize = 0;
        proof {
            assert(self.spec_entries().skip(0) =~= self.spec_entries());
        }
        while i < n
            invariant
                i <= n,
                n == self.spec_entries().len(),
                spec_lookup(self.spec_entries(), key@) == spec_lookup(
                    self.spec_entries().skip(i as int),
                    key@,
                ),
                forall|j: int| 0 <= j < i ==> (#[trigger] self.spec_entries()[j]).key != key@,
            decreases n - i,
        {
            proof {
                assert(self.spec_entries().skip(i as int)[0] == self.spec_entries()[i as int]);
                assert(self.spec_entries().skip(i as int).drop_first() =~= self.spec_entries().skip(
                    i as int + 1,
                ));
            }
            if byte_keys_equal(&self.entries[i].key, key) {
                return Some(&self.entries[i]);
            }
            i += 1;
        }
        None
    }

    /// The rows buffered with key in `[lo, hi]`, in key order: exactly
    /// the in-range filter of the whole buffer.
    #[verifier::loop_isolation(false)]
    pub fn scan_range(&self, lo: &Vec<u8>, hi: &Vec<u8>) -> (r: Vec<KeyedRow>)
        requires
            self.inv(),
        ensures
            r@.map(|i: int, e: KeyedRow| e@) == self.spec_entries().filter(
                |e: KeyedRowV| !lex_lt(e.key, lo@) && !lex_lt(hi@, e.key),
            ),
    {
        let ghost pred = |e: KeyedRowV| !lex_lt(e.key, lo@) && !lex_lt(hi@, e.key);
        let mut r: Vec<KeyedRow> = Vec::new();
        let n = self.entries.len();
        let mut i: usize = 0;
        proof {
            assert(self.spec_entries().take(0).filter(pred) =~= Seq::<KeyedRowV>::empty());
            assert(r@.map(|k: int, e: KeyedRow| e@) =~= Seq::<KeyedRowV>::empty());
        }
        while i < n
            invariant
                i <= n,
                n == self.spec_entries().len(),
                r@.map(|k: int, e: KeyedRow| e@) == self.spec_entries().take(i as int).filter(pred),
            decreases n - i,
        {
            let e = &self.entries[i];
            proof {
                assert(self.spec_entries().take(i as int + 1).drop_last() =~= self.spec_entries(
                ).take(i as int));
                assert(self.spec_entries().take(i as int + 1).last() == self.spec_entries()[i
                    as int]);
                reveal_with_fuel(Seq::filter, 2);
            }
            if !key_lt(&e.key, lo) && !key_lt(hi, &e.key) {
                let copy = KeyedRow {
                    key: clone_bytes(&e.key),
                    sequence: e.sequence,
                    row: clone_bytes(&e.row),
                };
                r.push(copy);
                proof {
                    assert(r@.map(|k: int, e: KeyedRow| e@) =~= self.spec_entries().take(
                        i as int + 1,
                    ).filter(pred));
                }
            } else {
                proof {
                    assert(r@.map(|k: int, e: KeyedRow| e@) =~= self.spec_entries().take(
                        i as int + 1,
                    ).filter(pred));
                }
            }
            i += 1;
        }
        proof {
            assert(self.spec_entries().take(n as int) =~= self.spec_entries());
        }
        r
    }
}

/// Whether two byte keys hold the same bytes.
pub fn byte_keys_equal(a: &Vec<u8>, b: &Vec<u8>) -> (r: bool)
    ensures
        r == (a@ == b@),
{
    if a.len() != b.len() {
        proof {
            assert(a@.len() != b@.len());
        }
        return false;
    }
    let n = a.len();
    let mut i: usize = 0;
    while i < n
        invariant
            i <= n,
            n == a@.len(),
            a@.len() == b@.len(),
            forall|j: int| 0 <= j < i ==> a@[j] == b@[j],
        decreases n - i,
    {
        if a[i] != b[i] {
            return false;
        }
        i += 1;
    }
    proof {
        assert(a@ =~= b@);
    }
    true
}

/// Copy a byte vector.
pub fn clone_bytes(v: &Vec<u8>) -> (r: Vec<u8>)
    ensures
        r@ == v@,
{
    let n = v.len();
    let mut r: Vec<u8> = Vec::with_capacity(n);
    let mut i: usize = 0;
    while i < n
        invariant
            i <= n,
            n == v@.len(),
            r@ == v@.take(i as int),
        decreases n - i,
    {
        r.push(v[i]);
        i += 1;
        proof {
            assert(r@ =~= v@.take(i as int));
        }
    }
    proof {
        assert(v@.take(n as int) =~= v@);
    }
    r
}

} // verus!
