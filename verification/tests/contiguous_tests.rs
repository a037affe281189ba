use analytic_engine::contiguous::{
    ContiguousRow, ContiguousRowReader, ContiguousRowWriter, ProjectedContiguousRow,
};
use analytic_engine::datum::{Datum, DatumKind};
use analytic_engine::schema::{ColumnSchema, IndexInWriterSchema, RowProjector, Schema};

fn column(id: u32, name: &str, data_type: DatumKind) -> ColumnSchema {
    ColumnSchema {
        id,
        name: name.to_string(),
        data_type,
        is_nullable: true,
        is_tag: false,
    }
}

fn build_schema() -> Schema {
    Schema::try_new(
        vec![
            column(1, "key", DatumKind::Varbinary),
            column(2, "ts", DatumKind::Timestamp),
            column(3, "value", DatumKind::Double),
            column(4, "name", DatumKind::String),
            column(5, "count", DatumKind::UInt64),
            column(6, "flag", DatumKind::Boolean),
            column(7, "small", DatumKind::Int16),
        ],
        1,
        1,
    )
    .unwrap()
}

fn build_rows() -> Vec<Vec<Datum>> {
    vec![
        vec![
            Datum::Varbinary(b"binary key".to_vec()),
            Datum::Timestamp(1000),
            Datum::Double(10.0f64.to_bits()),
            Datum::String("string value".to_string()),
            Datum::UInt64(1001),
            Datum::Boolean(true),
            Datum::Int16(-7),
        ],
        vec![
            Datum::Varbinary(b"binary key1".to_vec()),
            Datum::Timestamp(1001),
            Datum::Double(11.0f64.to_bits()),
            Datum::String("string value 1".to_string()),
            Datum::UInt64(1002),
            Datum::Boolean(false),
            Datum::Int16(2),
        ],
        // a row with nulls exercises the bit-set encoding
        vec![
            Datum::Varbinary(b"key".to_vec()),
            Datum::Timestamp(1002),
            Datum::Null,
            Datum::String("saludo señor".to_string()),
            Datum::Null,
            Datum::Null,
            Datum::Int16(0),
        ],
    ]
}

fn check_row(row: &[Datum], reader: &impl ContiguousRow, projection: Option<Vec<usize>>) {
    let range = if let Some(projection) = projection {
        projection
    } else {
        (0..reader.num_datum_views()).collect()
    };
    for i in range {
        let datum = &row[i];
        let view = reader.datum_view_at(i);
        assert_eq!(*datum, view);
    }
}

#[test]
fn test_contiguous_read_write() {
    let schema = build_schema();
    let rows = build_rows();
    let index_in_writer = IndexInWriterSchema::for_same_schema(schema.num_columns());

    let mut buf = Vec::new();
    for row in rows {
        let writer = ContiguousRowWriter::new(&schema, &index_in_writer);
        writer.write_row(&mut buf, &row).unwrap();

        let reader = ContiguousRowReader::try_new(&buf, &schema).unwrap();
        check_row(&row, &reader, None);
    }
}

#[test]
fn test_project_contiguous_read_write() {
    let schema = build_schema();
    assert!(schema.num_columns() > 1);
    let projection: Vec<usize> = (0..schema.num_columns() - 1).collect();
    let projector = RowProjector::new(projection.iter().map(|i| Some(*i)).collect());
    let rows = build_rows();
    let index_in_writer = IndexInWriterSchema::for_same_schema(schema.num_columns());

    let mut buf = Vec::new();
    for row in rows {
        let writer = ContiguousRowWriter::new(&schema, &index_in_writer);
        writer.write_row(&mut buf, &row).unwrap();

        let source_row = ContiguousRowReader::try_new(&buf, &schema).unwrap();
        let projected_row = ProjectedContiguousRow::new(source_row, &projector);
        check_row(&row, &projected_row, Some(projection.clone()));
    }
}

#[test]
fn too_long_payload_is_rejected() {
    let schema = Schema::try_new(
        vec![
            column(1, "ts", DatumKind::Timestamp),
            column(2, "blob", DatumKind::Varbinary),
        ],
        0,
        1,
    )
    .unwrap();
    let index_in_writer = IndexInWriterSchema::for_same_schema(schema.num_columns());
    let writer = ContiguousRowWriter::new(&schema, &index_in_writer);

    let oversize = vec![0u8; 16 * 1024 * 1024 + 1];
    let row = vec![Datum::Timestamp(1), Datum::Varbinary(oversize)];
    let mut buf = Vec::new();
    let err = writer.write_row(&mut buf, &row).unwrap_err();
    assert!(matches!(
        err,
        analytic_engine::contiguous::Error::StringTooLong { .. }
    ));
}

#[test]
fn short_buffer_is_rejected() {
    let schema = build_schema();
    let buf = vec![0u8, 1];
    assert!(matches!(
        ContiguousRowReader::try_new(&buf, &schema),
        Err(analytic_engine::contiguous::Error::NumNullColsMissing)
    ));

    // a header that promises a bit set the buffer does not hold
    let buf = vec![7u8, 0, 0, 0];
    assert!(matches!(
        ContiguousRowReader::try_new(&buf, &schema),
        Err(analytic_engine::contiguous::Error::InvalidBitSetBytes { .. })
    ));
}

#[test]
fn missing_writer_column_reads_as_null() {
    let schema = build_schema();
    // table column 4 ("count") has no source in the writer schema
    let mut indexes: Vec<Option<usize>> = (0..schema.num_columns()).map(Some).collect();
    indexes[4] = None;
    let index_in_writer = IndexInWriterSchema::from_indexes(indexes);

    let rows = build_rows();
    let writer = ContiguousRowWriter::new(&schema, &index_in_writer);
    let mut buf = Vec::new();
    writer.write_row(&mut buf, &rows[0]).unwrap();
    let reader = ContiguousRowReader::try_new(&buf, &schema).unwrap();
    assert_eq!(reader.datum_view_at(4), Datum::Null);
    assert_eq!(reader.datum_view_at(3), rows[0][3]);
}
