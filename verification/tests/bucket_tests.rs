use analytic_engine::buckets::{Bucket, BucketEntry, BucketSet, BUCKET_DURATION_MS};

const DAY_MS: i64 = 86400000;

#[test]
fn test_timed_bucket() {
    // Gmt time: 2022-03-28 00:00:00
    let gmt_start_ms = 1648425600000i64;
    let entry = BucketEntry::new_timed(4, gmt_start_ms, BUCKET_DURATION_MS).unwrap();
    assert!(!entry.is_permanent());

    let bucket = Bucket::new("test", entry);
    let expect_names = [
        "wal_test_20220328000000_000000",
        "wal_test_20220328000000_000001",
        "wal_test_20220328000000_000002",
        "wal_test_20220328000000_000003",
    ];
    for (region, expected) in expect_names.iter().enumerate() {
        assert_eq!(*expected, bucket.wal_shard_table(region as u64));
    }
}

#[test]
fn test_permanent_bucket() {
    let entry = BucketEntry::new_permanent(4).unwrap();
    assert!(entry.is_permanent());

    let bucket = Bucket::new("test", entry);
    let expect_names = [
        "wal_test_permanent_000000",
        "wal_test_permanent_000001",
        "wal_test_permanent_000002",
        "wal_test_permanent_000003",
    ];
    for (region, expected) in expect_names.iter().enumerate() {
        assert_eq!(*expected, bucket.wal_shard_table(region as u64));
    }
}

#[test]
fn test_permanent_bucket_set() {
    let entry = BucketEntry::new_permanent(4).unwrap();
    let bucket = Bucket::new("test", entry);

    let mut bucket_set = BucketSet::new(false);
    let buckets = bucket_set.buckets();
    assert!(buckets.is_empty());

    bucket_set.insert_bucket(bucket);

    assert!(bucket_set.get_bucket(0).is_some());
    assert!(bucket_set.get_bucket(i64::MIN).is_some());
    assert!(bucket_set.get_bucket(i64::MAX).is_some());
    assert!(bucket_set.get_bucket(1648425600000).is_some());

    let buckets = bucket_set.buckets();
    assert_eq!(1, buckets.len());

    assert!(bucket_set.expired_buckets(i64::MAX, 100).is_empty());

    bucket_set.remove_timed_bucket(0);
    assert!(bucket_set.get_bucket(0).is_some());
}

fn new_timed_bucket(ts: i64) -> Bucket {
    let entry = BucketEntry::new_timed(1, ts, BUCKET_DURATION_MS).unwrap();
    Bucket::new("test", entry)
}

#[test]
fn test_timed_bucket_set() {
    let mut bucket_set = BucketSet::new(true);

    let timestamps = [
        // Gmt time: 2022-03-20 00:00:00
        1647734400000i64,
        // Gmt time: 2022-03-21 00:00:00
        1647820800000,
        // Gmt time: 2022-03-22 00:00:00
        1647907200000,
        // Gmt time: 2022-03-23 00:00:00
        1647993600000,
    ];

    bucket_set.insert_bucket(new_timed_bucket(timestamps[0]));
    bucket_set.insert_bucket(new_timed_bucket(timestamps[1]));
    bucket_set.insert_bucket(new_timed_bucket(timestamps[2]));

    assert_eq!(3, bucket_set.buckets().len());

    for ts in &timestamps[0..3] {
        let bucket = bucket_set.get_bucket(*ts).unwrap();
        assert_eq!(*ts, bucket.gmt_start_ms());
    }
    assert!(bucket_set.get_bucket(timestamps[3]).is_none());

    // Insert bucket of last timestamp.
    bucket_set.insert_bucket(new_timed_bucket(timestamps[3]));

    let ttl_1d = DAY_MS;
    // No expired bucket.
    assert!(bucket_set.expired_buckets(timestamps[0], ttl_1d).is_empty());
    assert!(bucket_set.expired_buckets(timestamps[1], ttl_1d).is_empty());
    // One expired bucket.
    let expired = bucket_set.expired_buckets(timestamps[2], ttl_1d);
    assert_eq!(1, expired.len());
    assert_eq!(timestamps[0], expired[0]);
    // No expired bucket.
    assert!(bucket_set
        .expired_buckets(timestamps[2] - 1, ttl_1d)
        .is_empty());
    // Now: 2022-03-22 08:00:00 GMT, one expired bucket.
    let expired = bucket_set.expired_buckets(1647936000000, ttl_1d);
    assert_eq!(1, expired.len());
    assert_eq!(timestamps[0], expired[0]);
    // Now: 2022-03-23 08:00:00 GMT, two expired buckets.
    let expired = bucket_set.expired_buckets(1648022400000, ttl_1d);
    assert_eq!(2, expired.len());
    assert_eq!(timestamps[0], expired[0]);
    assert_eq!(timestamps[1], expired[1]);

    bucket_set.remove_timed_bucket(timestamps[0]);
    assert!(bucket_set.get_bucket(timestamps[0]).is_none());
    // It is okay to remove again.
    bucket_set.remove_timed_bucket(timestamps[0]);
    bucket_set.remove_timed_bucket(timestamps[2]);
    let buckets = bucket_set.buckets();
    assert_eq!(2, buckets.len());
    assert_eq!(timestamps[1], buckets[0]);
    assert_eq!(timestamps[3], buckets[1]);
}

#[test]
fn misaligned_bucket_start_is_rejected() {
    assert!(BucketEntry::new_timed(4, 1648425600001, BUCKET_DURATION_MS).is_none());
    assert!(BucketEntry::new_timed(0, 1648425600000, BUCKET_DURATION_MS).is_none());
    assert!(BucketEntry::new_timed(4, -1, BUCKET_DURATION_MS).is_none());
}
