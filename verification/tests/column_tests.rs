//! Tests of the columnar writer and reader.

use table_log::column::{read_columns, write_columns};
use table_log::schema::{Field, Ptype, Row, Schema, Value};
use table_log::TableError;

fn field(name: &str, ptype: Ptype, nullable: bool) -> Field {
    Field { name: name.to_string(), ptype, nullable }
}

fn sample_schema() -> Schema {
    Schema::new(vec![
        field("id", Ptype::Int, false),
        field("name", Ptype::Str, false),
        field("updated_at", Ptype::Ts, true),
    ])
    .expect("schema")
}

#[test]
fn roundtrip_mixed_schema() {
    let schema = sample_schema();
    let rows = vec![
        Row {
            cells: vec![
                Some(Value::Int(1)),
                Some(Value::Str(b"Albert".to_vec())),
                Some(Value::Ts(1665031876786)),
            ],
        },
        Row {
            cells: vec![
                Some(Value::Int(-2)),
                Some(Value::Str(b"".to_vec())),
                None,
            ],
        },
        Row {
            cells: vec![
                Some(Value::Int(3)),
                Some(Value::Str(b"Carl".to_vec())),
                Some(Value::Ts(-7)),
            ],
        },
    ];
    let (bytes, count) = write_columns(&schema, &rows).expect("write");
    assert_eq!(count, 3);
    let back = read_columns(&schema, &bytes);
    assert_eq!(back, rows);
}

#[test]
fn roundtrip_zero_rows() {
    let schema = sample_schema();
    let rows: Vec<Row> = vec![];
    let (bytes, count) = write_columns(&schema, &rows).expect("write");
    assert_eq!(count, 0);
    assert_eq!(bytes, vec![0u8; 8]);
    let back = read_columns(&schema, &bytes);
    assert_eq!(back.len(), 0);
}

#[test]
fn null_in_required_field_fails() {
    let schema = sample_schema();
    let rows = vec![Row {
        cells: vec![
            Some(Value::Int(1)),
            None,
            Some(Value::Ts(5)),
        ],
    }];
    let err = write_columns(&schema, &rows).expect_err("must fail");
    assert!(matches!(err, TableError::NullInRequiredField));
}

#[test]
fn exact_bytes_single_int_column() {
    let schema = Schema::new(vec![field("a", Ptype::Int, false)]).expect("schema");
    let rows = vec![Row { cells: vec![Some(Value::Int(7))] }];
    let (bytes, count) = write_columns(&schema, &rows).expect("write");
    assert_eq!(count, 1);
    assert_eq!(
        bytes,
        vec![1, 0, 0, 0, 0, 0, 0, 0, 7, 0, 0, 0, 0, 0, 0, 0]
    );
}

#[test]
fn exact_bytes_nullable_column_and_string() {
    // One nullable string column, two rows: "ab" then null. The image
    // is: row count 2, definition levels [1, 0], then the one present
    // value: length prefix 2 and the bytes of "ab".
    let schema = Schema::new(vec![field("s", Ptype::Str, true)]).expect("schema");
    let rows = vec![
        Row { cells: vec![Some(Value::Str(b"ab".to_vec()))] },
        Row { cells: vec![None] },
    ];
    let (bytes, count) = write_columns(&schema, &rows).expect("write");
    assert_eq!(count, 2);
    let mut expected: Vec<u8> = vec![2, 0, 0, 0, 0, 0, 0, 0];
    expected.push(1);
    expected.push(0);
    expected.extend_from_slice(&[2, 0, 0, 0, 0, 0, 0, 0]);
    expected.extend_from_slice(b"ab");
    assert_eq!(bytes, expected);
    let back = read_columns(&schema, &bytes);
    assert_eq!(back, rows);
}

#[test]
fn duplicate_field_names_rejected() {
    let r = Schema::new(vec![
        field("a", Ptype::Int, false),
        field("a", Ptype::Str, true),
    ]);
    assert!(r.is_none());
}
