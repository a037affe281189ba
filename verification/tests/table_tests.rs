use analytic_engine::bloom::BloomFilter;
use analytic_engine::memtable::Memtable;
use analytic_engine::serial_executor::{FlushState, ScheduleDecision, TableFlushScheduler};
use analytic_engine::table::{Table, TableError};

fn write(table: &mut Table, key: &str, row: &str) -> u64 {
    table
        .write(key.as_bytes().to_vec(), row.as_bytes().to_vec())
        .unwrap()
}

fn read_row(table: &Table, key: &str) -> Option<(u64, Vec<u8>)> {
    table
        .read(&key.as_bytes().to_vec())
        .map(|e| (e.sequence, e.row.clone()))
}

#[test]
fn write_then_read_observes_all_writes() {
    let mut table = Table::create(1);
    let s1 = write(&mut table, "a", "1|a|1.0");
    let s2 = write(&mut table, "b", "2|a|2.0");
    let s3 = write(&mut table, "c", "1|b|3.0");

    // every written row is observed, and nothing else
    assert_eq!(read_row(&table, "a"), Some((s1, b"1|a|1.0".to_vec())));
    assert_eq!(read_row(&table, "b"), Some((s2, b"2|a|2.0".to_vec())));
    assert_eq!(read_row(&table, "c"), Some((s3, b"1|b|3.0".to_vec())));
    assert_eq!(read_row(&table, "d"), None);

    // a rewrite shadows the older row
    let s4 = write(&mut table, "a", "9|a|9.0");
    assert_eq!(read_row(&table, "a"), Some((s4, b"9|a|9.0".to_vec())));
}

#[test]
fn sequences_grow_strictly() {
    let mut table = Table::create(1);
    let mut last = 0;
    for i in 0..10 {
        let seq = write(&mut table, "k", &format!("row{}", i));
        assert!(seq > last);
        last = seq;
    }
    assert_eq!(table.last_sequence(), last);
}

#[test]
fn flush_then_read_serves_from_files() {
    let mut table = Table::create(1);
    write(&mut table, "a", "1");
    write(&mut table, "b", "2");
    write(&mut table, "c", "3");

    table.flush().unwrap();
    assert_eq!(table.last_flushed_sequence(), table.last_sequence());

    assert_eq!(read_row(&table, "a").unwrap().1, b"1".to_vec());
    assert_eq!(read_row(&table, "b").unwrap().1, b"2".to_vec());
    assert_eq!(read_row(&table, "c").unwrap().1, b"3".to_vec());
    assert_eq!(read_row(&table, "d"), None);
}

#[test]
fn reopen_restores_flushed_and_unflushed_rows() {
    let mut table = Table::create(1);
    write(&mut table, "a", "1");
    write(&mut table, "b", "2");
    table.flush().unwrap();
    // an unflushed tail stays in the log only
    write(&mut table, "c", "3");
    let expected_a = read_row(&table, "a");
    let expected_c = read_row(&table, "c");
    let last = table.last_sequence();

    // kill the process: only the durable store survives
    let store = table.into_store();
    let reopened = Table::reopen(1, store);

    assert_eq!(read_row(&reopened, "a"), expected_a);
    assert_eq!(read_row(&reopened, "b").unwrap().1, b"2".to_vec());
    assert_eq!(read_row(&reopened, "c"), expected_c);
    assert_eq!(read_row(&reopened, "d"), None);
    assert_eq!(reopened.last_sequence(), last);
}

#[test]
fn reopen_after_flush_only_uses_files() {
    let mut table = Table::create(1);
    write(&mut table, "a", "1");
    write(&mut table, "b", "2");
    table.flush().unwrap();
    let flushed = table.last_flushed_sequence();

    let reopened = Table::reopen(1, table.into_store());
    assert_eq!(reopened.last_flushed_sequence(), flushed);
    assert_eq!(read_row(&reopened, "a").unwrap().1, b"1".to_vec());
    assert_eq!(read_row(&reopened, "b").unwrap().1, b"2".to_vec());
}

#[test]
fn at_most_one_flush_is_admitted() {
    let mut scheduler = TableFlushScheduler::new();

    // two requests race for the ready scheduler: only the first one
    // starts a job
    let first = scheduler.try_schedule();
    assert!(matches!(first, ScheduleDecision::Start));
    let second = scheduler.try_schedule();
    assert!(matches!(second, ScheduleDecision::Wait));
    assert_eq!(scheduler.stall_count(), 1);

    // once the job finishes, the next request is admitted
    scheduler.on_flush_finished(Ok(()));
    assert!(matches!(scheduler.try_schedule(), ScheduleDecision::Start));
    scheduler.on_flush_finished(Err("disk full".to_string()));

    // a failed background flush makes later requests fail fast
    match scheduler.try_schedule() {
        ScheduleDecision::Fail { err_msg } => assert_eq!(err_msg, "disk full"),
        _ => panic!("expected fail-fast after a background failure"),
    }
    assert!(matches!(scheduler.state(), FlushState::Failed { .. }));

    scheduler.reset();
    assert!(matches!(scheduler.try_schedule(), ScheduleDecision::Start));
}

#[test]
fn repeated_flush_is_harmless() {
    let mut table = Table::create(1);
    write(&mut table, "a", "1");
    assert!(table.flush().is_ok());
    // flushing an empty buffer is fine too
    assert!(table.flush().is_ok());
    assert_eq!(read_row(&table, "a").unwrap().1, b"1".to_vec());
}

#[test]
fn memtable_scan_range_is_the_filtered_scan() {
    let mut m = Memtable::new();
    m.put(b"a".to_vec(), 1, b"1".to_vec());
    m.put(b"c".to_vec(), 2, b"3".to_vec());
    m.put(b"b".to_vec(), 3, b"2".to_vec());
    m.put(b"d".to_vec(), 4, b"4".to_vec());

    // the buffer is key ordered
    assert_eq!(m.approximate_row_count(), 4);
    assert_eq!(m.entry_at(0).key, b"a".to_vec());
    assert_eq!(m.entry_at(1).key, b"b".to_vec());
    assert_eq!(m.entry_at(2).key, b"c".to_vec());
    assert_eq!(m.entry_at(3).key, b"d".to_vec());

    // a range scan returns exactly the in-range rows, in order
    let hits = m.scan_range(&b"b".to_vec(), &b"c".to_vec());
    assert_eq!(hits.len(), 2);
    assert_eq!(hits[0].key, b"b".to_vec());
    assert_eq!(hits[1].key, b"c".to_vec());

    // a full-range scan returns everything
    let all = m.scan_range(&b"".to_vec(), &b"z".to_vec());
    assert_eq!(all.len(), 4);

    // a put under an existing key replaces the row
    m.put(b"b".to_vec(), 5, b"22".to_vec());
    assert_eq!(m.approximate_row_count(), 4);
    assert_eq!(m.get(&b"b".to_vec()).unwrap().row, b"22".to_vec());
    assert_eq!(m.get(&b"b".to_vec()).unwrap().sequence, 5);
}

#[test]
fn bloom_probe_never_denies_an_inserted_key() {
    let mut filter = BloomFilter::new();
    let keys: Vec<Vec<u8>> = (0..100u32).map(|i| format!("key-{}", i).into_bytes()).collect();
    for key in &keys {
        filter.insert(key);
    }
    for key in &keys {
        assert!(filter.probe(key));
    }
}

#[test]
fn empty_bloom_denies_a_key() {
    let filter = BloomFilter::new();
    assert!(!filter.probe(&b"absent".to_vec()));
}

#[test]
fn compaction_keeps_the_latest_row_per_key() {
    let mut table = Table::create(1);
    let keys = ["a", "b", "c"];
    let mut latest = [0u64; 3];
    for round in 0..30u32 {
        let ki = (round as usize) % 3;
        let seq = write(&mut table, keys[ki], &format!("v{}", round));
        latest[ki] = seq;
        if round % 10 == 9 {
            table.flush().unwrap();
        }
    }

    table.compact().unwrap();

    // every key is unique and carries its latest-sequence value
    assert_eq!(read_row(&table, "a").unwrap().0, latest[0]);
    assert_eq!(read_row(&table, "b").unwrap().0, latest[1]);
    assert_eq!(read_row(&table, "c").unwrap().0, latest[2]);
    assert_eq!(read_row(&table, "a").unwrap().1, b"v27".to_vec());
    assert_eq!(read_row(&table, "b").unwrap().1, b"v28".to_vec());
    assert_eq!(read_row(&table, "c").unwrap().1, b"v29".to_vec());

    // the merged contents survive a reopen too
    let reopened = Table::reopen(1, table.into_store());
    assert_eq!(read_row(&reopened, "b").unwrap().1, b"v28".to_vec());
}

#[test]
fn alter_under_wrong_pre_version_fails_and_changes_nothing() {
    let mut table = Table::create(1);
    assert_eq!(table.schema_version(), 1);

    // a correct pre-version advances the schema
    assert_eq!(table.alter_schema(1), Ok(2));
    assert_eq!(table.schema_version(), 2);

    // a stale pre-version is refused and the schema is unchanged
    assert_eq!(
        table.alter_schema(0),
        Err(TableError::InvalidPreVersion {
            expect: 2,
            given: 0
        })
    );
    assert_eq!(table.schema_version(), 2);

    // the acknowledged version survives a reopen
    let reopened = Table::reopen(1, table.into_store());
    assert_eq!(reopened.schema_version(), 2);
}
