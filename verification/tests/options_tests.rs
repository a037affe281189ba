use analytic_engine::table_options::{
    Compression, StorageFormatHint, TableOptions, UpdateMode, DEFAULT_NUM_ROWS_PER_ROW_GROUP,
};

#[test]
fn default_options_match_the_documented_defaults() {
    let opts = TableOptions::default();
    assert_eq!(opts.num_rows_per_row_group, DEFAULT_NUM_ROWS_PER_ROW_GROUP);
    assert_eq!(opts.num_rows_per_row_group, 8192);
    assert_eq!(opts.compression, Compression::Zstd);
    assert_eq!(opts.update_mode, UpdateMode::Overwrite);
    assert_eq!(opts.storage_format_hint, StorageFormatHint::Auto);
    assert!(opts.enable_ttl);
    assert_eq!(opts.segment_duration_ms, 86400000);

    let builder = opts.sst_builder_options();
    assert_eq!(builder.num_rows_per_row_group, 8192);
    assert_eq!(builder.compression, Compression::Zstd);
}

#[test]
fn flush_threshold_follows_the_write_buffer_size() {
    let opts = TableOptions::default();
    assert!(!opts.should_flush(0));
    assert!(!opts.should_flush(opts.write_buffer_size as u64 - 1));
    assert!(opts.should_flush(opts.write_buffer_size as u64));
}
