use savegame::cursor::ByteCursor;
use savegame::error::{DecodeError, ErrorKind};
use savegame::schema::{FieldDef, FieldType, TableSchema};

fn field(name: &str, field_type: FieldType, is_list: bool) -> FieldDef {
    FieldDef {
        name: name.to_string(),
        field_type,
        is_list,
        nested: TableSchema { fields: vec![] },
    }
}

fn strukt(name: &str, is_list: bool, fields: Vec<FieldDef>) -> FieldDef {
    FieldDef {
        name: name.to_string(),
        field_type: FieldType::Struct,
        is_list,
        nested: TableSchema { fields },
    }
}

fn decode(block: &[u8]) -> Result<TableSchema, DecodeError> {
    TableSchema::decode(ByteCursor::new(block))
}

fn err(kind: ErrorKind, offset: usize) -> DecodeError {
    DecodeError { kind, offset }
}

#[test]
fn field_type_tags() {
    let all = [
        FieldType::End,
        FieldType::Int8,
        FieldType::Uint8,
        FieldType::Int16,
        FieldType::Uint16,
        FieldType::Int32,
        FieldType::Uint32,
        FieldType::Int64,
        FieldType::Uint64,
        FieldType::StringID,
        FieldType::String,
        FieldType::Struct,
    ];
    for (tag, field_type) in all.iter().enumerate() {
        assert_eq!(FieldType::from_tag(tag as u8), Some(*field_type));
        assert_eq!(field_type.to_tag(), tag as u8);
    }
    for tag in 12..=255u8 {
        assert_eq!(FieldType::from_tag(tag), None);
    }
}

#[test]
fn single_zero_byte_is_the_empty_schema() {
    assert_eq!(decode(&[0]), Ok(TableSchema { fields: vec![] }));
}

#[test]
fn empty_block_is_the_empty_schema() {
    assert_eq!(decode(&[]), Ok(TableSchema { fields: vec![] }));
}

#[test]
fn flat_schema() {
    let block = [0x06, 0x02, b'i', b'd', 0x0A, 0x04, b'n', b'a', b'm', b'e', 0x00];
    assert_eq!(
        decode(&block),
        Ok(TableSchema {
            fields: vec![
                field("id", FieldType::Uint32, false),
                field("name", FieldType::String, false),
            ],
        })
    );
}

#[test]
fn list_flag_is_bit_four() {
    let block = [0x12, 0x01, b'a', 0x02, 0x01, b'b', 0x1A, 0x01, b'c', 0x00];
    assert_eq!(
        decode(&block),
        Ok(TableSchema {
            fields: vec![
                field("a", FieldType::Uint8, true),
                field("b", FieldType::Uint8, false),
                field("c", FieldType::String, true),
            ],
        })
    );
}

#[test]
fn high_tag_bits_are_ignored() {
    let block = [0xE1, 0x01, b'a', 0xF3, 0x01, b'b', 0x00];
    assert_eq!(
        decode(&block),
        Ok(TableSchema {
            fields: vec![field("a", FieldType::Int8, false), field("b", FieldType::Int16, true)],
        })
    );
}

#[test]
fn every_real_type_decodes() {
    let types = [
        FieldType::Int8,
        FieldType::Uint8,
        FieldType::Int16,
        FieldType::Uint16,
        FieldType::Int32,
        FieldType::Uint32,
        FieldType::Int64,
        FieldType::Uint64,
        FieldType::StringID,
        FieldType::String,
    ];
    for (i, field_type) in types.iter().enumerate() {
        let block = [i as u8 + 1, 0x01, b'f', 0x00];
        assert_eq!(
            decode(&block),
            Ok(TableSchema { fields: vec![field("f", *field_type, false)] })
        );
    }
}

#[test]
fn nested_list_follows_its_field_and_parent_resumes() {
    let block = [
        0x02, 0x01, b'a', // a: Uint8
        0x0B, 0x01, b's', // s: Struct
        0x03, 0x01, b'x', //   x: Int16
        0x03, 0x01, b'y', //   y: Int16
        0x00, //             end of s
        0x02, 0x01, b'b', // b: Uint8
        0x00, // end
    ];
    assert_eq!(
        decode(&block),
        Ok(TableSchema {
            fields: vec![
                field("a", FieldType::Uint8, false),
                strukt(
                    "s",
                    false,
                    vec![field("x", FieldType::Int16, false), field("y", FieldType::Int16, false)],
                ),
                field("b", FieldType::Uint8, false),
            ],
        })
    );
}

#[test]
fn structs_nest_deeply() {
    let block = [
        0x0B, 0x01, b'a', 0x1B, 0x01, b'b', 0x0B, 0x01, b'c', 0x00, 0x05, 0x01, b'd', 0x00, 0x00,
        0x01, 0x01, b'e', 0x00,
    ];
    assert_eq!(
        decode(&block),
        Ok(TableSchema {
            fields: vec![
                strukt(
                    "a",
                    false,
                    vec![strukt(
                        "b",
                        true,
                        vec![strukt("c", false, vec![]), field("d", FieldType::Int32, false)],
                    )],
                ),
                field("e", FieldType::Int8, false),
            ],
        })
    );
}

#[test]
fn struct_as_last_field() {
    let block = [0x0B, 0x01, b's', 0x02, 0x01, b'x', 0x00, 0x00];
    assert_eq!(
        decode(&block),
        Ok(TableSchema {
            fields: vec![strukt("s", false, vec![field("x", FieldType::Uint8, false)])],
        })
    );
}

#[test]
fn nibble_above_eleven_is_unknown() {
    for nibble in 12..=15u8 {
        assert_eq!(decode(&[nibble, 0x01, b'a', 0x00]), Err(err(ErrorKind::UnknownFieldType, 0)));
        assert_eq!(
            decode(&[0x10 | nibble, 0x01, b'a', 0x00]),
            Err(err(ErrorKind::UnknownFieldType, 0))
        );
    }
    assert_eq!(
        decode(&[0x01, 0x01, b'a', 0x0C, 0x01, b'b', 0x00]),
        Err(err(ErrorKind::UnknownFieldType, 3))
    );
}

#[test]
fn nibble_zero_in_a_nonzero_tag_is_unknown() {
    assert_eq!(decode(&[0x10, 0x01, b'a', 0x00]), Err(err(ErrorKind::UnknownFieldType, 0)));
    assert_eq!(decode(&[0x20, 0x01, b'a', 0x00]), Err(err(ErrorKind::UnknownFieldType, 0)));
}

#[test]
fn zero_name_length_ends_the_list() {
    let block = [0x02, 0x01, b'a', 0x03, 0x00, 0x02, 0x01, b'b', 0x00];
    assert_eq!(decode(&block), Ok(TableSchema { fields: vec![field("a", FieldType::Uint8, false)] }));
    assert_eq!(decode(&[0x05, 0x00]), Ok(TableSchema { fields: vec![] }));
}

#[test]
fn zero_name_length_ends_a_nested_list() {
    let block = [0x0B, 0x01, b's', 0x02, 0x01, b'x', 0x03, 0x00, 0x02, 0x01, b'b', 0x00];
    assert_eq!(
        decode(&block),
        Ok(TableSchema {
            fields: vec![
                strukt("s", false, vec![field("x", FieldType::Uint8, false)]),
                field("b", FieldType::Uint8, false),
            ],
        })
    );
}

#[test]
fn missing_end_marker_is_out_of_bounds() {
    assert_eq!(decode(&[0x02, 0x01, b'a']), Err(err(ErrorKind::OutOfBounds, 3)));
    assert_eq!(decode(&[0x0B, 0x01, b's', 0x00]), Err(err(ErrorKind::OutOfBounds, 4)));
}

#[test]
fn truncated_declaration_is_out_of_bounds() {
    assert_eq!(decode(&[0x02]), Err(err(ErrorKind::OutOfBounds, 1)));
    assert_eq!(decode(&[0x02, 0x05, b'a', b'b']), Err(err(ErrorKind::OutOfBounds, 2)));
    assert_eq!(decode(&[0x02, 0x80]), Err(err(ErrorKind::OutOfBounds, 1)));
}

#[test]
fn malformed_name_length() {
    assert_eq!(decode(&[0x02, 0xFF, b'a', 0x00]), Err(err(ErrorKind::MalformedGamma, 1)));
}

#[test]
fn name_must_be_utf8() {
    assert_eq!(decode(&[0x02, 0x02, 0xC3, 0x28, 0x00]), Err(err(ErrorKind::InvalidEncoding, 2)));
}

#[test]
fn name_with_two_byte_length() {
    let name = "n".repeat(200);
    let mut block = vec![0x0A, 0x80, 200];
    block.extend_from_slice(name.as_bytes());
    block.push(0);
    assert_eq!(decode(&block), Ok(TableSchema { fields: vec![field(&name, FieldType::String, false)] }));
}

#[test]
fn bytes_after_the_end_marker_are_not_read() {
    assert_eq!(decode(&[0x00, 0xFF, 0xFF]), Ok(TableSchema { fields: vec![] }));
}

#[test]
fn read_moves_past_the_end_marker() {
    let data = [0x02, 0x01, b'a', 0x00, 0x77];
    let mut cursor = ByteCursor::new(&data);
    let schema = TableSchema::read(&mut cursor).unwrap();
    assert_eq!(schema.fields.len(), 1);
    assert_eq!(cursor.offset(), 4);
    assert_eq!(cursor.read_u8(), Ok(0x77));
}

#[test]
fn read_leaves_the_cursor_on_failure() {
    let data = [0x55, 0x02, 0x01, b'a', 0x0F];
    let mut cursor = ByteCursor::new(&data);
    assert_eq!(cursor.read_u8(), Ok(0x55));
    assert_eq!(TableSchema::read(&mut cursor), Err(err(ErrorKind::UnknownFieldType, 4)));
    assert_eq!(cursor.offset(), 1);
}

#[test]
fn read_at_the_end_is_out_of_bounds() {
    let data: [u8; 0] = [];
    let mut cursor = ByteCursor::new(&data);
    assert_eq!(TableSchema::read(&mut cursor), Err(err(ErrorKind::OutOfBounds, 0)));
}

#[test]
fn schema_to_bytes_layout() {
    let schema = TableSchema {
        fields: vec![
            field("a", FieldType::Uint8, true),
            strukt("s", false, vec![field("x", FieldType::Int16, false)]),
            field("b", FieldType::StringID, false),
        ],
    };
    assert_eq!(
        schema.to_bytes(),
        Some(vec![
            0x12, 0x01, b'a', 0x0B, 0x01, b's', 0x03, 0x01, b'x', 0x00, 0x09, 0x01, b'b', 0x00,
        ])
    );
    assert_eq!(TableSchema { fields: vec![] }.to_bytes(), Some(vec![0x00]));
}

#[test]
fn schema_roundtrip() {
    let schema = TableSchema {
        fields: vec![
            field("identifier", FieldType::Uint32, false),
            strukt(
                "größe",
                true,
                vec![
                    field("w", FieldType::Int64, false),
                    strukt("deep", false, vec![field("names", FieldType::String, true)]),
                    field("h", FieldType::Uint64, false),
                ],
            ),
            strukt("empty", false, vec![]),
            field("tail", FieldType::Int8, true),
        ],
    };
    let bytes = schema.to_bytes().unwrap();
    assert_eq!(decode(&bytes), Ok(schema));
}

#[test]
fn schema_to_bytes_refuses_what_cannot_be_read_back() {
    assert_eq!(TableSchema { fields: vec![field("", FieldType::Uint8, false)] }.to_bytes(), None);
    assert_eq!(TableSchema { fields: vec![field("a", FieldType::End, false)] }.to_bytes(), None);
    let mut stray = field("a", FieldType::Uint8, false);
    stray.nested = TableSchema { fields: vec![field("x", FieldType::Uint8, false)] };
    assert_eq!(TableSchema { fields: vec![stray] }.to_bytes(), None);
    assert_eq!(
        TableSchema { fields: vec![strukt("s", false, vec![field("", FieldType::Uint8, false)])] }
            .to_bytes(),
        None
    );
    assert_eq!(
        TableSchema {
            fields: vec![field("ok", FieldType::Uint8, false), field("", FieldType::Uint8, false)],
        }
        .to_bytes(),
        None
    );
}
