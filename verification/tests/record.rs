use savegame::cursor::ByteCursor;
use savegame::error::{DecodeError, ErrorKind};
use savegame::record::{read_rows, Entry, Record, Row, Value};
use savegame::schema::{FieldDef, FieldType, TableSchema};

fn field(name: &str, field_type: FieldType, is_list: bool) -> FieldDef {
    FieldDef {
        name: name.to_string(),
        field_type,
        is_list,
        nested: TableSchema { fields: vec![] },
    }
}

fn strukt(name: &str, is_list: bool, fields: Vec<FieldDef>) -> FieldDef {
    FieldDef {
        name: name.to_string(),
        field_type: FieldType::Struct,
        is_list,
        nested: TableSchema { fields },
    }
}

fn schema(fields: Vec<FieldDef>) -> TableSchema {
    TableSchema { fields }
}

fn record(entries: Vec<(&str, Value)>) -> Record {
    Record {
        entries: entries
            .into_iter()
            .map(|(name, value)| Entry { name: name.to_string(), value })
            .collect(),
    }
}

fn text(s: &str) -> Value {
    Value::Text(s.to_string())
}

fn err(kind: ErrorKind, offset: usize) -> DecodeError {
    DecodeError { kind, offset }
}

fn read(schema: &TableSchema, data: &[u8]) -> (Result<Record, DecodeError>, usize) {
    let mut cursor = ByteCursor::new(data);
    let r = Record::read(&mut cursor, schema);
    (r, cursor.offset())
}

fn id_name() -> TableSchema {
    schema(vec![field("id", FieldType::Uint32, false), field("name", FieldType::String, false)])
}

#[test]
fn record_of_id_and_name() {
    let data = [0, 0, 0, 7, 1, b'x'];
    assert_eq!(
        read(&id_name(), &data),
        (Ok(record(vec![("id", Value::Uint32(7)), ("name", text("x"))])), 6)
    );
}

#[test]
fn record_roundtrip_id_and_name() {
    let written = record(vec![("id", Value::Uint32(7)), ("name", text("x"))]);
    let bytes = written.to_bytes(&id_name()).unwrap();
    assert_eq!(bytes, vec![0, 0, 0, 7, 1, b'x']);
    assert_eq!(read(&id_name(), &bytes), (Ok(written), 6));
}

#[test]
fn every_scalar_width() {
    let table = schema(vec![
        field("a", FieldType::Int8, false),
        field("b", FieldType::Uint8, false),
        field("c", FieldType::Int16, false),
        field("d", FieldType::Uint16, false),
        field("e", FieldType::Int32, false),
        field("f", FieldType::Uint32, false),
        field("g", FieldType::Int64, false),
        field("h", FieldType::Uint64, false),
        field("i", FieldType::StringID, false),
        field("j", FieldType::String, false),
    ]);
    let data = [
        0x80, // a
        0x80, // b
        0xFF, 0xFE, // c
        0xFF, 0xFE, // d
        0xFF, 0xFF, 0xFF, 0xFD, // e
        0xFF, 0xFF, 0xFF, 0xFD, // f
        0xFF, 0xFF, 0xFF, 0xFF, 0xFF, 0xFF, 0xFF, 0xFC, // g
        0xFF, 0xFF, 0xFF, 0xFF, 0xFF, 0xFF, 0xFF, 0xFC, // h
        0x00, 0x00, 0x12, 0x34, // i
        0x03, b'a', b'b', b'c', // j
    ];
    let expected = record(vec![
        ("a", Value::Int8(-128)),
        ("b", Value::Uint8(128)),
        ("c", Value::Int16(-2)),
        ("d", Value::Uint16(0xFFFE)),
        ("e", Value::Int32(-3)),
        ("f", Value::Uint32(0xFFFF_FFFD)),
        ("g", Value::Int64(-4)),
        ("h", Value::Uint64(0xFFFF_FFFF_FFFF_FFFC)),
        ("i", Value::StringID(0x1234)),
        ("j", text("abc")),
    ]);
    assert_eq!(read(&table, &data), (Ok(expected), data.len()));
}

#[test]
fn list_of_scalars() {
    let table = schema(vec![field("xs", FieldType::Uint16, true), field("n", FieldType::Uint8, false)]);
    let data = [3, 0, 1, 0, 2, 1, 0, 9];
    assert_eq!(
        read(&table, &data),
        (
            Ok(record(vec![
                ("xs", Value::List(vec![Value::Uint16(1), Value::Uint16(2), Value::Uint16(256)])),
                ("n", Value::Uint8(9)),
            ])),
            8
        )
    );
}

#[test]
fn empty_list() {
    let table = schema(vec![field("xs", FieldType::Int64, true)]);
    assert_eq!(read(&table, &[0]), (Ok(record(vec![("xs", Value::List(vec![]))])), 1));
}

#[test]
fn list_of_strings() {
    let table = schema(vec![field("names", FieldType::String, true)]);
    let data = [2, 2, b'h', b'i', 0];
    assert_eq!(
        read(&table, &data),
        (Ok(record(vec![("names", Value::List(vec![text("hi"), text("")]))])), 5)
    );
}

#[test]
fn nested_record() {
    let table = schema(vec![
        field("a", FieldType::Uint8, false),
        strukt("p", false, vec![field("x", FieldType::Int16, false), field("y", FieldType::Int16, false)]),
        field("b", FieldType::Uint8, false),
    ]);
    let data = [1, 0, 2, 0xFF, 0xFF, 3];
    assert_eq!(
        read(&table, &data),
        (
            Ok(record(vec![
                ("a", Value::Uint8(1)),
                ("p", Value::Struct(record(vec![("x", Value::Int16(2)), ("y", Value::Int16(-1))]))),
                ("b", Value::Uint8(3)),
            ])),
            6
        )
    );
}

#[test]
fn list_of_records() {
    let table = schema(vec![strukt("ps", true, vec![field("x", FieldType::Uint8, false)])]);
    let data = [2, 10, 20];
    assert_eq!(
        read(&table, &data),
        (
            Ok(record(vec![(
                "ps",
                Value::List(vec![
                    Value::Struct(record(vec![("x", Value::Uint8(10))])),
                    Value::Struct(record(vec![("x", Value::Uint8(20))])),
                ]),
            )])),
            3
        )
    );
}

#[test]
fn empty_schema_gives_empty_record() {
    assert_eq!(read(&schema(vec![]), &[1, 2, 3]), (Ok(record(vec![])), 0));
}

#[test]
fn truncated_record_is_out_of_bounds() {
    assert_eq!(read(&id_name(), &[0, 0, 0]), (Err(err(ErrorKind::OutOfBounds, 0)), 0));
    assert_eq!(read(&id_name(), &[0, 0, 0, 7]), (Err(err(ErrorKind::OutOfBounds, 4)), 0));
    assert_eq!(read(&id_name(), &[0, 0, 0, 7, 2, b'x']), (Err(err(ErrorKind::OutOfBounds, 5)), 0));
}

#[test]
fn truncated_list_is_out_of_bounds() {
    let table = schema(vec![field("xs", FieldType::Uint16, true)]);
    assert_eq!(read(&table, &[2, 0, 1, 0]), (Err(err(ErrorKind::OutOfBounds, 3)), 0));
}

#[test]
fn string_value_must_be_utf8() {
    assert_eq!(
        read(&id_name(), &[0, 0, 0, 7, 1, 0xFF]),
        (Err(err(ErrorKind::InvalidEncoding, 5)), 0)
    );
}

#[test]
fn malformed_string_length() {
    assert_eq!(
        read(&id_name(), &[0, 0, 0, 7, 0xF8, 0, 0, 0, 0]),
        (Err(err(ErrorKind::MalformedGamma, 4)), 0)
    );
}

#[test]
fn field_of_type_end_has_no_values() {
    let table = schema(vec![field("a", FieldType::Uint8, false), field("z", FieldType::End, false)]);
    assert_eq!(read(&table, &[1, 2, 3]), (Err(err(ErrorKind::UnknownFieldType, 1)), 0));
}

#[test]
fn rows_until_the_block_is_exhausted() {
    let data = [0, 0, 0, 1, 1, b'a', 0, 0, 0, 2, 0, 0, 0, 0, 3, 2, b'c', b'd'];
    let rows = read_rows(ByteCursor::new(&data), &id_name(), false).unwrap();
    assert_eq!(
        rows,
        vec![
            Row { index: None, record: record(vec![("id", Value::Uint32(1)), ("name", text("a"))]) },
            Row { index: None, record: record(vec![("id", Value::Uint32(2)), ("name", text(""))]) },
            Row { index: None, record: record(vec![("id", Value::Uint32(3)), ("name", text("cd"))]) },
        ]
    );
}

#[test]
fn no_rows_in_an_empty_block() {
    assert_eq!(read_rows(ByteCursor::new(&[]), &id_name(), false), Ok(vec![]));
    assert_eq!(read_rows(ByteCursor::new(&[]), &id_name(), true), Ok(vec![]));
    assert_eq!(read_rows(ByteCursor::new(&[]), &schema(vec![]), false), Ok(vec![]));
}

#[test]
fn partial_last_row_is_out_of_bounds() {
    let data = [0, 0, 0, 1, 0, 0, 0];
    assert_eq!(
        read_rows(ByteCursor::new(&data), &id_name(), false),
        Err(err(ErrorKind::OutOfBounds, 5))
    );
}

#[test]
fn sparse_rows_keep_their_numbers() {
    let table = schema(vec![field("v", FieldType::Uint8, false)]);
    let data = [5, 50, 0x81, 0x00, 60, 0, 70];
    assert_eq!(
        read_rows(ByteCursor::new(&data), &table, true),
        Ok(vec![
            Row { index: Some(5), record: record(vec![("v", Value::Uint8(50))]) },
            Row { index: Some(256), record: record(vec![("v", Value::Uint8(60))]) },
            Row { index: Some(0), record: record(vec![("v", Value::Uint8(70))]) },
        ])
    );
}

#[test]
fn sparse_rows_of_an_empty_schema() {
    assert_eq!(
        read_rows(ByteCursor::new(&[3, 9]), &schema(vec![]), true),
        Ok(vec![
            Row { index: Some(3), record: record(vec![]) },
            Row { index: Some(9), record: record(vec![]) },
        ])
    );
}

#[test]
fn records_that_take_no_bytes_give_no_rows() {
    assert_eq!(read_rows(ByteCursor::new(&[1, 2, 3]), &schema(vec![]), false), Ok(vec![]));
    let hollow = schema(vec![strukt("s", false, vec![])]);
    assert_eq!(read_rows(ByteCursor::new(&[1, 2, 3]), &hollow, false), Ok(vec![]));
}

#[test]
fn rows_start_at_the_block_position() {
    let data = [0xEE, 0xEE, 7, 8, 0xDD];
    let table = schema(vec![field("v", FieldType::Uint8, false)]);
    let mut cursor = ByteCursor::new(&data);
    cursor.read_u16().unwrap();
    let block = cursor.take_block(2).unwrap();
    assert_eq!(
        read_rows(block, &table, false),
        Ok(vec![
            Row { index: None, record: record(vec![("v", Value::Uint8(7))]) },
            Row { index: None, record: record(vec![("v", Value::Uint8(8))]) },
        ])
    );
}

#[test]
fn record_to_bytes_layout() {
    let table = schema(vec![
        field("a", FieldType::Int16, false),
        field("xs", FieldType::Uint8, true),
        strukt("p", false, vec![field("s", FieldType::String, false)]),
        field("g", FieldType::Int64, false),
    ]);
    let value = record(vec![
        ("a", Value::Int16(-2)),
        ("xs", Value::List(vec![Value::Uint8(1), Value::Uint8(2)])),
        ("p", Value::Struct(record(vec![("s", text("é"))]))),
        ("g", Value::Int64(-1)),
    ]);
    assert_eq!(
        value.to_bytes(&table),
        Some(vec![
            0xFF, 0xFE, 2, 1, 2, 2, 0xC3, 0xA9, 0xFF, 0xFF, 0xFF, 0xFF, 0xFF, 0xFF, 0xFF, 0xFF,
        ])
    );
}

#[test]
fn record_roundtrip_of_every_type() {
    let table = schema(vec![
        field("a", FieldType::Int8, false),
        field("b", FieldType::Uint8, true),
        field("c", FieldType::Int16, false),
        field("d", FieldType::Uint16, false),
        field("e", FieldType::Int32, true),
        field("f", FieldType::Uint32, false),
        field("g", FieldType::Int64, false),
        field("h", FieldType::Uint64, false),
        field("i", FieldType::StringID, false),
        field("j", FieldType::String, true),
        strukt(
            "k",
            true,
            vec![field("x", FieldType::Int32, false), strukt("in", false, vec![field("t", FieldType::String, false)])],
        ),
    ]);
    let inner = |x: i32, t: &str| {
        Value::Struct(record(vec![
            ("x", Value::Int32(x)),
            ("in", Value::Struct(record(vec![("t", text(t))]))),
        ]))
    };
    let value = record(vec![
        ("a", Value::Int8(i8::MIN)),
        ("b", Value::List(vec![Value::Uint8(0), Value::Uint8(255)])),
        ("c", Value::Int16(i16::MAX)),
        ("d", Value::Uint16(u16::MAX)),
        ("e", Value::List(vec![Value::Int32(i32::MIN), Value::Int32(-1), Value::Int32(i32::MAX)])),
        ("f", Value::Uint32(u32::MAX)),
        ("g", Value::Int64(i64::MIN)),
        ("h", Value::Uint64(u64::MAX)),
        ("i", Value::StringID(0xDEAD_BEEF)),
        ("j", Value::List(vec![text(""), text("töwn"), text(&"long".repeat(100))])),
        ("k", Value::List(vec![inner(1, "one"), inner(-2, "zwei")])),
    ]);
    let mut bytes = value.to_bytes(&table).unwrap();
    let len = bytes.len();
    bytes.push(0x99);
    assert_eq!(read(&table, &bytes), (Ok(value), len));
}

#[test]
fn record_to_bytes_refuses_a_misfit() {
    let table = id_name();
    assert_eq!(record(vec![("id", Value::Uint32(7))]).to_bytes(&table), None);
    assert_eq!(
        record(vec![("id", Value::Int32(7)), ("name", text("x"))]).to_bytes(&table),
        None
    );
    assert_eq!(
        record(vec![("ID", Value::Uint32(7)), ("name", text("x"))]).to_bytes(&table),
        None
    );
    assert_eq!(
        record(vec![("id", Value::Uint32(7)), ("name", Value::List(vec![text("x")]))]).to_bytes(&table),
        None
    );
    assert_eq!(
        record(vec![("id", Value::Uint32(7)), ("name", text("x")), ("more", Value::Uint8(1))])
            .to_bytes(&table),
        None
    );
    let lists = schema(vec![field("xs", FieldType::Uint8, true)]);
    assert_eq!(record(vec![("xs", Value::Uint8(1))]).to_bytes(&lists), None);
    assert_eq!(
        record(vec![("xs", Value::List(vec![Value::Uint8(1), Value::Int8(1)]))]).to_bytes(&lists),
        None
    );
    let ends = schema(vec![field("z", FieldType::End, false)]);
    assert_eq!(record(vec![("z", Value::Uint8(1))]).to_bytes(&ends), None);
}
