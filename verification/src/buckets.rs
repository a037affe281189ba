//! Time buckets of the table-backed write-ahead log: one bucket per time
//! window (or one permanent bucket without a time-to-live), each owning
//! one log table per shard, named after the namespace, the bucket's start
//! and the shard number.

use vstd::prelude::*;
use vstd::string::StringExecFns;

verus! {

/// One day in milliseconds: the width of a timed bucket.
pub const BUCKET_DURATION_MS: i64 = 86400000;

/// Millisecond timestamps are kept below the year ten thousand so their
/// compact rendering always has fourteen digits.
pub const MAX_FORMAT_MS: i64 = 253402300799999;

/// The compact `year month day hour minute second` rendering of a
/// millisecond timestamp on the proleptic Gregorian calendar, in
/// universal time: a function of the milliseconds alone.
pub uninterp spec fn utc_compact_of(ms: i64) -> Seq<char>;

/// Relies on chrono's universal-time calendar: `DateTime::from_timestamp_millis`
/// accepts every non-negative timestamp below the year ten thousand, and
/// the `%Y%m%d%H%M%S` rendering of such a timestamp has fourteen digits.
#[verifier::external_body]
fn format_timestamp_utc(ms: i64) -> (r: String)
    requires
        0 <= ms <= MAX_FORMAT_MS,
    ensures
        r@ == utc_compact_of(ms),
        r@.len() == 14,
{
    let dt = chrono::DateTime::<chrono::Utc>::from_timestamp_millis(ms).unwrap();
    dt.format("%Y%m%d%H%M%S").to_string()
}

/// The character of one decimal digit.
pub open spec fn spec_digit_char(d: int) -> char {
    if d == 0 {
        '0'
    } else if d == 1 {
        '1'
    } else if d == 2 {
        '2'
    } else if d == 3 {
        '3'
    } else if d == 4 {
        '4'
    } else if d == 5 {
        '5'
    } else if d == 6 {
        '6'
    } else if d == 7 {
        '7'
    } else if d == 8 {
        '8'
    } else {
        '9'
    }
}

/// The decimal digits of a number, most significant first.
pub open spec fn spec_dec_digits(n: int) -> Seq<char>
    decreases n,
{
    if n < 10 {
        seq![spec_digit_char(n)]
    } else {
        spec_dec_digits(n / 10) + seq![spec_digit_char(n % 10)]
    }
}

/// A number rendered in decimal, left-padded with zeros to six places.
pub open spec fn spec_padded6(n: int) -> Seq<char> {
    spec_zeros6(n) + spec_dec_digits(n)
}

/// The zeros that pad a number to six places.
pub open spec fn spec_zeros6(n: int) -> Seq<char> {
    if n < 10 {
        seq!['0', '0', '0', '0', '0']
    } else if n < 100 {
        seq!['0', '0', '0', '0']
    } else if n < 1000 {
        seq!['0', '0', '0']
    } else if n < 10000 {
        seq!['0', '0']
    } else if n < 100000 {
        seq!['0']
    } else {
        Seq::empty()
    }
}

/// Append the decimal digits of `n`, most significant first.
fn push_dec_digits(n: u64, out: &mut String)
    ensures
        final(out)@ == old(out)@ + spec_dec_digits(n as int),
    decreases n,
{
    if n >= 10 {
        push_dec_digits(n / 10, out);
    }
    let d = n % 10;
    push_digit(d, out);
    proof {
        if n < 10 {
            assert(out@ =~= old(out)@ + spec_dec_digits(n as int));
        } else {
            assert(out@ =~= old(out)@ + spec_dec_digits(n as int));
        }
    }
}

/// Append one decimal digit.
fn push_digit(d: u64, out: &mut String)
    requires
        d < 10,
    ensures
        final(out)@ == old(out)@ + seq![spec_digit_char(d as int)],
{
    proof {
        reveal_strlit("0");
        reveal_strlit("1");
        reveal_strlit("2");
        reveal_strlit("3");
        reveal_strlit("4");
        reveal_strlit("5");
        reveal_strlit("6");
        reveal_strlit("7");
        reveal_strlit("8");
        reveal_strlit("9");
    }
    match d {
        0 => out.append("0"),
        1 => out.append("1"),
        2 => out.append("2"),
        3 => out.append("3"),
        4 => out.append("4"),
        5 => out.append("5"),
        6 => out.append("6"),
        7 => out.append("7"),
        8 => out.append("8"),
        _ => out.append("9"),
    }
    proof {
        assert(out@ =~= old(out)@ + seq![spec_digit_char(d as int)]);
    }
}

/// Append `n` in decimal, left-padded with zeros to six places.
fn push_padded6(n: u64, out: &mut String)
    ensures
        final(out)@ == old(out)@ + spec_padded6(n as int),
{
    proof {
        reveal_strlit("0");
        reveal_strlit("00");
        reveal_strlit("000");
        reveal_strlit("0000");
        reveal_strlit("00000");
    }
    if n < 10 {
        out.append("00000");
    } else if n < 100 {
        out.append("0000");
    } else if n < 1000 {
        out.append("000");
    } else if n < 10000 {
        out.append("00");
    } else if n < 100000 {
        out.append("0");
    }
    proof {
        assert(out@ =~= old(out)@ + spec_zeros6(n as int));
    }
    push_dec_digits(n, out);
    proof {
        assert(out@ =~= old(out)@ + spec_padded6(n as int));
    }
}

/// The name of a timed bucket's log table for one shard.
pub open spec fn spec_timed_wal_name(namespace: Seq<char>, gmt_start_ms: i64, shard: int) -> Seq<
    char,
> {
    "wal_"@ + namespace + "_"@ + utc_compact_of(gmt_start_ms) + "_"@ + spec_padded6(shard)
}

/// The name of the permanent bucket's log table for one shard.
pub open spec fn spec_permanent_wal_name(namespace: Seq<char>, shard: int) -> Seq<char> {
    "wal_"@ + namespace + "_permanent_"@ + spec_padded6(shard)
}

/// The time window and shard count of one bucket; a permanent bucket has
/// no window.
#[derive(Debug, Clone, Copy)]
pub struct BucketEntry {
    shard_num: usize,
    gmt_start_ms: i64,
    bucket_duration_ms: i64,
    permanent: bool,
}

impl BucketEntry {
    /// The window and bounds a bucket entry always satisfies.
    pub open spec fn inv(&self) -> bool {
        &&& self.spec_shard_num() > 0
        &&& !self.spec_is_permanent() ==> {
            &&& self.spec_duration() > 0
            &&& 0 <= self.spec_gmt_start_ms()
            &&& self.spec_gmt_start_ms() + self.spec_duration() <= MAX_FORMAT_MS
            &&& self.spec_gmt_start_ms() % self.spec_duration() == 0
        }
    }

    pub closed spec fn spec_shard_num(&self) -> usize {
        self.shard_num
    }

    pub closed spec fn spec_gmt_start_ms(&self) -> i64 {
        self.gmt_start_ms
    }

    pub closed spec fn spec_duration(&self) -> i64 {
        self.bucket_duration_ms
    }

    pub closed spec fn spec_is_permanent(&self) -> bool {
        self.permanent
    }

    /// A timed bucket: its start must sit on a window boundary and the
    /// whole window must be representable.
    pub fn new_timed(shard_num: usize, gmt_start_ms: i64, bucket_duration_ms: i64) -> (r: Option<
        BucketEntry,
    >)
        ensures
            r is Some <==> shard_num > 0 && bucket_duration_ms > 0 && 0 <= gmt_start_ms
                && gmt_start_ms + bucket_duration_ms <= MAX_FORMAT_MS && gmt_start_ms
                % bucket_duration_ms == 0,
            r is Some ==> {
                let e = r->Some_0;
                &&& e.inv()
                &&& !e.spec_is_permanent()
                &&& e.spec_shard_num() == shard_num
                &&& e.spec_gmt_start_ms() == gmt_start_ms
                &&& e.spec_duration() == bucket_duration_ms
            },
    {
        if shard_num == 0 || bucket_duration_ms <= 0 || gmt_start_ms < 0 {
            return None;
        }
        if gmt_start_ms > MAX_FORMAT_MS - bucket_duration_ms {
            return None;
        }
        if gmt_start_ms % bucket_duration_ms != 0 {
            return None;
        }
        Some(BucketEntry { shard_num, gmt_start_ms, bucket_duration_ms, permanent: false })
    }

    /// The permanent bucket, used when the time-to-live is disabled.
    pub fn new_permanent(shard_num: usize) -> (r: Option<BucketEntry>)
        ensures
            r is Some <==> shard_num > 0,
            r is Some ==> {
                let e = r->Some_0;
                &&& e.inv()
                &&& e.spec_is_permanent()
                &&& e.spec_shard_num() == shard_num
            },
    {
        if shard_num == 0 {
            return None;
        }
        Some(BucketEntry { shard_num, gmt_start_ms: 0, bucket_duration_ms: 0, permanent: true })
    }

    pub fn is_permanent(&self) -> (r: bool)
        ensures
            r == self.spec_is_permanent(),
    {
        self.permanent
    }

    pub fn gmt_start_ms(&self) -> (r: i64)
        ensures
            r == self.spec_gmt_start_ms(),
    {
        self.gmt_start_ms
    }

    pub fn shard_num(&self) -> (r: usize)
        ensures
            r == self.spec_shard_num(),
    {
        self.shard_num
    }

    /// Whether this bucket's whole window sits at or before the boundary:
    /// a permanent bucket never expires.
    pub fn is_expired(&self, expired_boundary: i64) -> (r: bool)
        requires
            self.inv(),
        ensures
            r == (!self.spec_is_permanent() && self.spec_gmt_start_ms() + self.spec_duration()
                <= expired_boundary),
    {
        if self.permanent {
            return false;
        }
        if expired_boundary < self.bucket_duration_ms {
            return false;
        }
        self.gmt_start_ms <= expired_boundary - self.bucket_duration_ms
    }
}

/// One bucket: its window and the names of its per-shard log tables.
#[derive(Debug)]
pub struct Bucket {
    entry: BucketEntry,
    namespace: String,
    wal_shard_names: Vec<String>,
}

impl Bucket {
    pub closed spec fn spec_entry(&self) -> BucketEntry {
        self.entry
    }

    /// The per-shard log table names, in shard order.
    pub closed spec fn spec_names(&self) -> Seq<Seq<char>> {
        self.wal_shard_names@.map(|i: int, s: String| s@)
    }

    /// The names cover every shard and follow the naming scheme.
    pub open spec fn inv(&self) -> bool {
        &&& self.spec_entry().inv()
        &&& self.spec_names().len() == self.spec_entry().spec_shard_num()
        &&& forall|i: int|
            0 <= i < self.spec_names().len() ==> #[trigger] self.spec_names()[i] == (
            if self.spec_entry().spec_is_permanent() {
                spec_permanent_wal_name(self.spec_namespace(), i)
            } else {
                spec_timed_wal_name(
                    self.spec_namespace(),
                    self.spec_entry().spec_gmt_start_ms(),
                    i,
                )
            })
    }

    /// The namespace the bucket was created under.
    pub closed spec fn spec_namespace(&self) -> Seq<char> {
        self.namespace@
    }

    /// Build a bucket: one log table name per shard.
    #[verifier::loop_isolation(false)]
    pub fn new(namespace: &str, entry: BucketEntry) -> (r: Bucket)
        requires
            entry.inv(),
        ensures
            r.inv(),
            r.spec_entry() == entry,
            r.spec_namespace() == namespace@,
    {
        let shard_num = entry.shard_num();
        let mut wal_shard_names: Vec<String> = Vec::with_capacity(shard_num);
        let mut shard_id: usize = 0;
        proof {
            reveal_strlit("wal_");
            reveal_strlit("_");
            reveal_strlit("_permanent_");
        }
        while shard_id < shard_num
            invariant
                shard_id <= shard_num,
                wal_shard_names@.len() == shard_id,
                forall|i: int|
                    0 <= i < shard_id ==> #[trigger] old_names_at(wal_shard_names@, i) == (
                    if entry.spec_is_permanent() {
                        spec_permanent_wal_name(namespace@, i)
                    } else {
                        spec_timed_wal_name(namespace@, entry.spec_gmt_start_ms(), i)
                    }),
            decreases shard_num - shard_id,
        {
            let mut name = String::new();
            name.append("wal_");
            name.append(namespace);
            if entry.is_permanent() {
                name.append("_permanent_");
                push_padded6(shard_id as u64, &mut name);
                proof {
                    assert(name@ =~= spec_permanent_wal_name(namespace@, shard_id as int));
                }
            } else {
                name.append("_");
                let ts = format_timestamp_utc(entry.gmt_start_ms());
                name.append(ts.as_str());
                name.append("_");
                push_padded6(shard_id as u64, &mut name);
                proof {
                    assert(name@ =~= spec_timed_wal_name(
                        namespace@,
                        entry.spec_gmt_start_ms(),
                        shard_id as int,
                    ));
                }
            }
            let ghost prev = wal_shard_names@;
            let ghost built = name@;
            wal_shard_names.push(name);
            shard_id += 1;
            proof {
                assert forall|i: int| 0 <= i < shard_id implies #[trigger] old_names_at(
                    wal_shard_names@,
                    i,
                ) == (if entry.spec_is_permanent() {
                    spec_permanent_wal_name(namespace@, i)
                } else {
                    spec_timed_wal_name(namespace@, entry.spec_gmt_start_ms(), i)
                }) by {
                    assert(wal_shard_names@.map(|x: int, s: String| s@)[i]
                        == wal_shard_names@[i]@);
                    if i < shard_id - 1 {
                        assert(wal_shard_names@[i] == prev[i]);
                        assert(old_names_at(prev, i) == prev[i]@);
                    } else {
                        assert(wal_shard_names@[i]@ == built);
                    }
                }
            }
        }
        let ns = namespace.to_owned();
        let r = Bucket { entry, namespace: ns, wal_shard_names };
        proof {
            assert forall|i: int| 0 <= i < r.spec_names().len() implies #[trigger] r.spec_names()[i]
                == (if r.spec_entry().spec_is_permanent() {
                spec_permanent_wal_name(r.spec_namespace(), i)
            } else {
                spec_timed_wal_name(
                    r.spec_namespace(),
                    r.spec_entry().spec_gmt_start_ms(),
                    i,
                )
            }) by {
                assert(old_names_at(r.wal_shard_names@, i) == r.spec_names()[i]);
            }
        }
        r
    }

    pub fn gmt_start_ms(&self) -> (r: i64)
        ensures
            r == self.spec_entry().spec_gmt_start_ms(),
    {
        self.entry.gmt_start_ms()
    }

    pub fn entry(&self) -> (r: &BucketEntry)
        ensures
            *r == self.spec_entry(),
    {
        &self.entry
    }

    /// The log table of a region: regions are spread over the shards by
    /// their identifier.
    pub fn wal_shard_table(&self, region_id: u64) -> (r: &String)
        requires
            self.inv(),
        ensures
            r@ == self.spec_names()[(region_id as int) % (self.spec_names().len() as int)],
    {
        let index = (region_id % (self.wal_shard_names.len() as u64)) as usize;
        &self.wal_shard_names[index]
    }
}

/// The name a bucket already stored for a shard; a helper for the name
/// builder's bookkeeping.
pub open spec fn old_names_at(names: Seq<String>, i: int) -> Seq<char> {
    names.map(|x: int, s: String| s@)[i]
}


/// The buckets of one namespace: one per time window, or one permanent
/// bucket when the time-to-live is disabled.
#[derive(Debug)]
pub enum BucketSet {
    Timed(Vec<Bucket>),
    Permanent(Option<Bucket>),
}

impl BucketSet {
    /// The start timestamps of the timed buckets, in insertion order.
    pub closed spec fn spec_starts(&self) -> Seq<i64> {
        match self {
            BucketSet::Timed(buckets) => buckets@.map(
                |i: int, b: Bucket| b.spec_entry().spec_gmt_start_ms(),
            ),
            BucketSet::Permanent(..) => Seq::empty(),
        }
    }

    /// The timed buckets themselves, in insertion order.
    pub closed spec fn spec_buckets(&self) -> Seq<Bucket> {
        match self {
            BucketSet::Timed(buckets) => buckets@,
            BucketSet::Permanent(Some(b)) => seq![*b],
            BucketSet::Permanent(None) => Seq::empty(),
        }
    }

    pub open spec fn spec_is_timed(&self) -> bool {
        self is Timed
    }

    /// Whether the permanent bucket is present.
    pub closed spec fn spec_has_permanent(&self) -> bool {
        match self {
            BucketSet::Permanent(b) => b is Some,
            _ => false,
        }
    }

    /// Every held bucket is well formed and no two timed buckets share a
    /// start.
    pub closed spec fn inv(&self) -> bool {
        &&& forall|i: int|
            0 <= i < self.spec_buckets().len() ==> (#[trigger] self.spec_buckets()[i]).inv()
        &&& spec_unique_starts(self.spec_buckets())
    }

    /// An empty bucket set: timed windows with a time-to-live, one
    /// permanent bucket without.
    pub fn new(has_ttl: bool) -> (r: BucketSet)
        ensures
            r.inv(),
            r.spec_is_timed() == has_ttl,
            r.spec_buckets().len() == 0,
    {
        if has_ttl {
            let r = BucketSet::Timed(Vec::new());
            proof {
                assert(r.spec_buckets() =~= Seq::<Bucket>::empty());
                assert(r.spec_starts() =~= Seq::<i64>::empty());
            }
            r
        } else {
            BucketSet::Permanent(None)
        }
    }

    /// Insert a bucket. A bucket for the same window must not already be
    /// held: an overwrite would lose the older bucket's log tables.
    pub fn insert_bucket(&mut self, bucket: Bucket)
        requires
            old(self).inv(),
            bucket.inv(),
            old(self).spec_is_timed() ==> !old(self).spec_starts().contains(
                bucket.spec_entry().spec_gmt_start_ms(),
            ),
            !old(self).spec_is_timed() ==> !old(self).spec_has_permanent(),
        ensures
            final(self).inv(),
            final(self).spec_is_timed() == old(self).spec_is_timed(),
            final(self).spec_is_timed() ==> final(self).spec_buckets() == old(
                self,
            ).spec_buckets().push(bucket),
            !final(self).spec_is_timed() ==> final(self).spec_has_permanent()
                && final(self).spec_buckets() == seq![bucket],
    {
        let ghost b = bucket;
        match self {
            BucketSet::Timed(buckets) => {
                let ghost prev = buckets@;
                buckets.push(bucket);
                proof {
                    let starts = prev.map(|x: int, y: Bucket| y.spec_entry().spec_gmt_start_ms());
                    assert forall|i: int, j: int| 0 <= i < j < buckets@.len() implies (
                    #[trigger] buckets@[i]).spec_entry().spec_gmt_start_ms() != (
                    #[trigger] buckets@[j]).spec_entry().spec_gmt_start_ms() by {
                        if j == prev.len() {
                            assert(starts[i] == prev[i].spec_entry().spec_gmt_start_ms());
                            if prev[i].spec_entry().spec_gmt_start_ms() == b.spec_entry(
                            ).spec_gmt_start_ms() {
                                assert(starts.contains(b.spec_entry().spec_gmt_start_ms()));
                            }
                        } else {
                            assert(prev[i] == buckets@[i] && prev[j] == buckets@[j]);
                        }
                    }
                }
            },
            BucketSet::Permanent(slot) => {
                *slot = Some(bucket);
                proof {
                    assert(self.spec_buckets() =~= seq![b]);
                }
            },
        }
    }

    /// Get the bucket whose window starts at `start_ms`; the permanent
    /// bucket answers for every timestamp.
    pub fn get_bucket(&self, start_ms: i64) -> (r: Option<&Bucket>)
        requires
            self.inv(),
        ensures
            !self.spec_is_timed() ==> (r is Some <==> self.spec_has_permanent()),
            self.spec_is_timed() ==> (r is Some <==> self.spec_starts().contains(start_ms)),
            r matches Some(bb) ==> self.spec_buckets().contains(*bb) && (self.spec_is_timed()
                ==> bb.spec_entry().spec_gmt_start_ms() == start_ms),
    {
        match self {
            BucketSet::Timed(buckets) => {
                let n = buckets.len();
                let mut i: usize = 0;
                while i < n
                    invariant
                        i <= n,
                        n == buckets@.len(),
                        self.inv(),
                        self is Timed,
                        buckets@ == self.spec_buckets(),
                        forall|j: int|
                            0 <= j < i ==> (#[trigger] buckets@[j]).spec_entry(
                            ).spec_gmt_start_ms() != start_ms,
                    decreases n - i,
                {
                    if buckets[i].gmt_start_ms() == start_ms {
                        proof {
                            assert(self.spec_buckets().contains(buckets@[i as int]));
                            assert(self.spec_starts()[i as int] == start_ms);
                            assert(self.spec_starts().contains(start_ms));
                        }
                        return Some(&buckets[i]);
                    }
                    i += 1;
                }
                proof {
                    if self.spec_starts().contains(start_ms) {
                        let x = choose|x: int|
                            0 <= x < self.spec_starts().len() && #[trigger] self.spec_starts()[x]
                                == start_ms;
                        assert(buckets@[x].spec_entry().spec_gmt_start_ms() == start_ms);
                    }
                }
                None
            },
            BucketSet::Permanent(slot) => {
                match slot {
                    Some(b) => {
                        proof {
                            assert(self.spec_buckets()[0] == *b);
                            assert(self.spec_buckets().contains(*b));
                        }
                        Some(b)
                    },
                    None => None,
                }
            },
        }
    }

    /// The start timestamps of the buckets whose whole window sits at or
    /// before `now` minus the time-to-live; the permanent bucket never
    /// expires.
    #[verifier::loop_isolation(false)]
    pub fn expired_buckets(&self, now: i64, ttl_ms: i64) -> (r: Vec<i64>)
        requires
            self.inv(),
            ttl_ms >= 0,
        ensures
            !self.spec_is_timed() ==> r@.len() == 0,
            self.spec_is_timed() && now >= i64::MIN + ttl_ms ==> r@ == self.spec_buckets().map(
                |i: int, b: Bucket| b.spec_entry().spec_gmt_start_ms(),
            ).filter(spec_expired_pred(self.spec_buckets(), (now - ttl_ms) as i64)),
            self.spec_is_timed() && now < i64::MIN + ttl_ms ==> r@.len() == 0,
    {
        match self {
            BucketSet::Timed(buckets) => {
                if now < i64::MIN + ttl_ms {
                    return Vec::new();
                }
                let earliest = now - ttl_ms;
                let ghost pred = spec_expired_pred(self.spec_buckets(), earliest);
                let ghost starts = self.spec_buckets().map(
                    |i: int, b: Bucket| b.spec_entry().spec_gmt_start_ms(),
                );
                let mut r: Vec<i64> = Vec::new();
                let n = buckets.len();
                let mut i: usize = 0;
                proof {
                    assert(starts.take(0).filter(pred) =~= Seq::<i64>::empty());
                }
                while i < n
                    invariant
                        i <= n,
                        n == buckets@.len(),
                        r@ == starts.take(i as int).filter(pred),
                    decreases n - i,
                {
                    proof {
                        assert(starts.take(i as int + 1).drop_last() =~= starts.take(i as int));
                        assert(starts.take(i as int + 1).last() == starts[i as int]);
                        reveal_with_fuel(Seq::filter, 2);
                    }
                    let b = &buckets[i];
                    let expired = b.entry().is_expired(earliest);
                    proof {
                        // with unique starts the predicate holds of this
                        // start exactly when this bucket has expired
                        let bs = self.spec_buckets();
                        assert(starts[i as int] == bs[i as int].spec_entry().spec_gmt_start_ms());
                        if pred(starts[i as int]) {
                            let j = choose|j: int|
                                0 <= j < bs.len() && (#[trigger] bs[j]).spec_entry(
                                ).spec_gmt_start_ms() == starts[i as int] && !bs[j].spec_entry(
                                ).spec_is_permanent() && bs[j].spec_entry().spec_gmt_start_ms()
                                    + bs[j].spec_entry().spec_duration() <= earliest;
                            if j != i {
                                assert(bs[j].spec_entry().spec_gmt_start_ms() == bs[i
                                    as int].spec_entry().spec_gmt_start_ms());
                                assert(false);
                            }
                        }
                        if expired {
                            assert(bs[i as int].spec_entry().spec_gmt_start_ms() == starts[i
                                as int] && !bs[i as int].spec_entry().spec_is_permanent() && bs[i
                                as int].spec_entry().spec_gmt_start_ms() + bs[i
                                as int].spec_entry().spec_duration() <= earliest);
                            assert(pred(starts[i as int]));
                        }
                        assert(pred(starts[i as int]) == expired);
                    }
                    if expired {
                        r.push(b.gmt_start_ms());
                        proof {
                            assert(r@ =~= starts.take(i as int + 1).filter(pred));
                        }
                    } else {
                        proof {
                            assert(r@ =~= starts.take(i as int + 1).filter(pred));
                        }
                    }
                    i += 1;
                }
                proof {
                    assert(starts.take(n as int) =~= starts);
                }
                r
            },
            BucketSet::Permanent(..) => Vec::new(),
        }
    }

    /// The start timestamps of the held buckets, in insertion order.
    pub fn buckets(&self) -> (r: Vec<i64>)
        ensures
            r@ == self.spec_buckets().map(|i: int, b: Bucket| b.spec_entry().spec_gmt_start_ms()),
    {
        let ghost starts = self.spec_buckets().map(
            |i: int, b: Bucket| b.spec_entry().spec_gmt_start_ms(),
        );
        match self {
            BucketSet::Timed(buckets) => {
                let mut r: Vec<i64> = Vec::new();
                let n = buckets.len();
                let mut i: usize = 0;
                proof {
                    assert(r@ =~= starts.take(0));
                }
                while i < n
                    invariant
                        i <= n,
                        n == buckets@.len(),
                        buckets@ == self.spec_buckets(),
                        starts == self.spec_buckets().map(
                            |x: int, b: Bucket| b.spec_entry().spec_gmt_start_ms(),
                        ),
                        r@ == starts.take(i as int),
                    decreases n - i,
                {
                    r.push(buckets[i].gmt_start_ms());
                    i += 1;
                    proof {
                        assert(r@ =~= starts.take(i as int));
                    }
                }
                proof {
                    assert(starts.take(n as int) =~= starts);
                }
                r
            },
            BucketSet::Permanent(slot) => {
                match slot {
                    Some(b) => {
                        let mut r: Vec<i64> = Vec::new();
                        r.push(b.gmt_start_ms());
                        proof {
                            assert(r@ =~= starts);
                        }
                        r
                    },
                    None => {
                        let r: Vec<i64> = Vec::new();
                        proof {
                            assert(r@ =~= starts);
                        }
                        r
                    },
                }
            },
        }
    }

    /// Remove the timed bucket whose window starts at `start_ms`; a
    /// permanent bucket set is left alone, and so is a timed set without
    /// such a bucket.
    #[verifier::loop_isolation(false)]
    pub fn remove_timed_bucket(&mut self, start_ms: i64)
        requires
            old(self).inv(),
        ensures
            final(self).inv(),
            final(self).spec_is_timed() == old(self).spec_is_timed(),
            !old(self).spec_is_timed() ==> *final(self) == *old(self),
            old(self).spec_is_timed() && !old(self).spec_starts().contains(start_ms)
                ==> final(self).spec_buckets() == old(self).spec_buckets(),
            old(self).spec_is_timed() && old(self).spec_starts().contains(start_ms) ==> exists|
                idx: int,
            |
                0 <= idx < old(self).spec_buckets().len() && old(self).spec_starts()[idx]
                    == start_ms && final(self).spec_buckets() == old(self).spec_buckets().remove(
                    idx,
                ),
    {
        match self {
            BucketSet::Timed(buckets) => {
                let ghost pre = buckets@;
                let ghost starts = pre.map(|x: int, b: Bucket| b.spec_entry().spec_gmt_start_ms());
                let n = buckets.len();
                let mut i: usize = 0;
                while i < n
                    invariant
                        i <= n,
                        n == pre.len(),
                        buckets@ == pre,
                        forall|j: int|
                            0 <= j < i ==> (#[trigger] pre[j]).spec_entry().spec_gmt_start_ms()
                                != start_ms,
                    decreases n - i,
                {
                    if buckets[i].gmt_start_ms() == start_ms {
                        proof {
                            assert(starts[i as int] == start_ms);
                        }
                        buckets.remove(i);
                        proof {
                            let post = buckets@;
                            assert(post =~= pre.remove(i as int));
                            assert forall|x: int, y: int| 0 <= x < y < post.len() implies (
                            #[trigger] post[x]).spec_entry().spec_gmt_start_ms() != (
                            #[trigger] post[y]).spec_entry().spec_gmt_start_ms() by {
                                let x0: int = if x < i {
                                    x
                                } else {
                                    x + 1
                                };
                                let y0: int = if y < i {
                                    y
                                } else {
                                    y + 1
                                };
                                assert(post[x] == pre[x0]);
                                assert(post[y] == pre[y0]);
                            }
                        }
                        return ;
                    }
                    i += 1;
                }
                proof {
                    if starts.contains(start_ms) {
                        let x = choose|x: int|
                            0 <= x < starts.len() && #[trigger] starts[x] == start_ms;
                        assert(pre[x].spec_entry().spec_gmt_start_ms() == start_ms);
                    }
                }
            },
            BucketSet::Permanent(..) => {},
        }
    }
}

/// No two buckets share a window start.
pub open spec fn spec_unique_starts(bs: Seq<Bucket>) -> bool {
    forall|i: int, j: int|
        0 <= i < j < bs.len() ==> (#[trigger] bs[i]).spec_entry().spec_gmt_start_ms() != (
        #[trigger] bs[j]).spec_entry().spec_gmt_start_ms()
}

/// Whether the bucket holding a start timestamp has expired; the
/// predicate driving the expiry filter.
pub open spec fn spec_expired_pred(buckets: Seq<Bucket>, earliest: i64) -> spec_fn(i64) -> bool {
    |s: i64|
        exists|i: int|
            0 <= i < buckets.len() && (#[trigger] buckets[i]).spec_entry().spec_gmt_start_ms() == s
                && !buckets[i].spec_entry().spec_is_permanent()
                && buckets[i].spec_entry().spec_gmt_start_ms()
                + buckets[i].spec_entry().spec_duration() <= earliest
}

} // verus!
