use hdfs_gui_lib::csv::csv_field;
use hdfs_gui_lib::csv::csv_line;
use hdfs_gui_lib::project::i64_to_dec;
use hdfs_gui_lib::project::orc_meta;
use hdfs_gui_lib::project::parquet_meta;
use hdfs_gui_lib::project::project;
use hdfs_gui_lib::project::render_cell_string;
use hdfs_gui_lib::project::u64_to_dec;
use hdfs_gui_lib::project::CellValue;
use hdfs_gui_lib::project::Column;
use hdfs_gui_lib::project::ColumnBatch;

#[test]
fn projecting_two_rows_keeps_order_and_renders_values() {
    let batch = ColumnBatch {
        columns: vec![
            Column {
                name: "id".to_string(),
                values: vec![CellValue::Int64(1), CellValue::Int64(2)],
            },
            Column {
                name: "name".to_string(),
                values: vec![
                    CellValue::Text("a".to_string()),
                    CellValue::Text("b".to_string()),
                ],
            },
        ],
    };
    let rows = project(&batch);
    assert_eq!(rows.len(), 2);
    assert_eq!(
        rows[0].fields,
        vec![("id".to_string(), "1".to_string()), ("name".to_string(), "a".to_string())]
    );
    assert_eq!(
        rows[1].fields,
        vec![("id".to_string(), "2".to_string()), ("name".to_string(), "b".to_string())]
    );
}

#[test]
fn projector_renders_every_cell_kind() {
    assert_eq!(render_cell_string(&CellValue::Null), "NULL");
    assert_eq!(render_cell_string(&CellValue::Bool(true)), "true");
    assert_eq!(render_cell_string(&CellValue::Bool(false)), "false");
    assert_eq!(render_cell_string(&CellValue::Int64(-42)), "-42");
    assert_eq!(render_cell_string(&CellValue::UInt64(7)), "7");
    assert_eq!(render_cell_string(&CellValue::Text("x,y".to_string())), "x,y");
    assert_eq!(render_cell_string(&CellValue::Rendered("3.5".to_string())), "3.5");
}

#[test]
fn projecting_an_empty_batch_yields_no_rows() {
    let batch = ColumnBatch { columns: vec![] };
    assert_eq!(project(&batch).len(), 0);
}

#[test]
fn decimal_rendering_exact_values() {
    assert_eq!(u64_to_dec(0), "0");
    assert_eq!(u64_to_dec(10), "10");
    assert_eq!(u64_to_dec(u64::MAX), "18446744073709551615");
    assert_eq!(i64_to_dec(0), "0");
    assert_eq!(i64_to_dec(-1), "-1");
    assert_eq!(i64_to_dec(i64::MIN), "-9223372036854775808");
    assert_eq!(i64_to_dec(i64::MAX), "9223372036854775807");
}

#[test]
fn csv_field_escapes_quotes_and_wraps_commas() {
    assert_eq!(csv_field("plain"), "plain");
    assert_eq!(csv_field("say \"hi\""), "say \"\"hi\"\"");
    assert_eq!(csv_field("a,b"), "\"a,b\"");
    assert_eq!(csv_field("q\"uote,comma"), "\"q\"\"uote,comma\"");
    assert_eq!(csv_field(""), "");
}

#[test]
fn csv_line_joins_fields_with_commas() {
    let fields = vec!["id".to_string(), "name".to_string(), "note".to_string()];
    assert_eq!(csv_line(&fields), "id,name,note");
    assert_eq!(csv_line(&vec!["solo".to_string()]), "solo");
    assert_eq!(csv_line(&Vec::new()), "");
}

#[test]
fn meta_defaults_when_no_compression_is_reported() {
    let m = orc_meta(5, None);
    assert_eq!(m.total, 5);
    assert_eq!(m.compression_type.as_deref(), Some("NONE"));
    let m = orc_meta(5, Some("ZLIB".to_string()));
    assert_eq!(m.compression_type.as_deref(), Some("ZLIB"));
    let m = parquet_meta(9, None);
    assert_eq!(m.compression_type.as_deref(), Some("Uncompressed"));
    let m = parquet_meta(9, Some("SNAPPY".to_string()));
    assert_eq!(m.compression_type.as_deref(), Some("SNAPPY"));
}
