use analytic_engine::log_batch::{LogWriteBatch, LogWriteEntry};
use analytic_engine::partition::{
    format_sub_partition_table_name, HashPartitionInfo, PartitionDefinition, PartitionInfo,
};

#[test]
fn log_write_batch_collects_entries() {
    let mut batch = LogWriteBatch::new(9);
    assert!(batch.is_empty());
    assert_eq!(batch.region_id, 9);

    batch.push(LogWriteEntry {
        payload: vec![1, 2, 3],
    });
    batch.push(LogWriteEntry { payload: vec![4] });
    assert_eq!(batch.len(), 2);
    assert!(!batch.is_empty());
    assert_eq!(batch.entries[0].payload, vec![1, 2, 3]);
    assert_eq!(batch.entries[1].payload, vec![4]);

    batch.clear();
    assert!(batch.is_empty());

    let default_batch = LogWriteBatch::default();
    assert_eq!(default_batch.region_id, 0);
    assert!(default_batch.is_empty());
}

#[test]
fn sub_partition_table_names() {
    assert_eq!(
        format_sub_partition_table_name("orders", "p3"),
        "__orders_p3"
    );
}

#[test]
fn partition_definitions_are_copied_out() {
    let info = PartitionInfo::Hash(HashPartitionInfo {
        version: 1,
        partition_definitions: vec![
            PartitionDefinition {
                name: "p0".to_string(),
                origin_name: None,
            },
            PartitionDefinition {
                name: "p1".to_string(),
                origin_name: Some("old_p1".to_string()),
            },
        ],
        expr: b"hash(tag)".to_vec(),
        linear: false,
    });
    let defs = info.get_definitions();
    assert_eq!(defs.len(), 2);
    assert_eq!(defs[0].name, "p0");
    assert_eq!(defs[1].name, "p1");
}
