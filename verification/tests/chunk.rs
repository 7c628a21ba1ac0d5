use savegame::chunk::{
    next_chunk, read_chunks, read_frame, read_payload, Chunk, ChunkHeader, ChunkKind, Table,
};
use savegame::container::Savegame;
use savegame::cursor::ByteCursor;
use savegame::error::{DecodeError, ErrorKind};
use savegame::record::{Entry, Record, Row, Value};
use savegame::schema::{FieldDef, FieldType, TableSchema};

fn field(name: &str, field_type: FieldType, is_list: bool) -> FieldDef {
    FieldDef {
        name: name.to_string(),
        field_type,
        is_list,
        nested: TableSchema { fields: vec![] },
    }
}

fn record(entries: Vec<(&str, Value)>) -> Record {
    Record {
        entries: entries
            .into_iter()
            .map(|(name, value)| Entry { name: name.to_string(), value })
            .collect(),
    }
}

fn err(kind: ErrorKind, offset: usize) -> DecodeError {
    DecodeError { kind, offset }
}

fn next(data: &[u8]) -> (Result<Option<Chunk>, DecodeError>, usize) {
    let mut cursor = ByteCursor::new(data);
    let r = next_chunk(&mut cursor);
    (r, cursor.offset())
}

fn id_name_chunk() -> Chunk {
    Chunk {
        label: *b"CITY",
        kind: ChunkKind::Table,
        payload: Table {
            schema: TableSchema {
                fields: vec![
                    field("id", FieldType::Uint32, false),
                    field("name", FieldType::String, false),
                ],
            },
            rows: vec![Row {
                index: None,
                record: record(vec![("id", Value::Uint32(7)), ("name", Value::Text("x".to_string()))]),
            }],
        },
    }
}

const ID_NAME_BYTES: [u8; 24] = [
    b'C', b'I', b'T', b'Y', 3, // frame
    11, 0x06, 0x02, b'i', b'd', 0x0A, 0x04, b'n', b'a', b'm', b'e', 0x00, // header block
    6, 0, 0, 0, 7, 1, b'x', // data block
];

#[test]
fn chunk_kind_tags() {
    let all = [
        ChunkKind::Riff,
        ChunkKind::Array,
        ChunkKind::SparseArray,
        ChunkKind::Table,
        ChunkKind::SparseTable,
    ];
    for (tag, kind) in all.iter().enumerate() {
        assert_eq!(ChunkKind::from_tag(tag as u8), Some(*kind));
        assert_eq!(kind.to_tag(), tag as u8);
    }
    for tag in 5..=255u8 {
        assert_eq!(ChunkKind::from_tag(tag), None);
    }
}

#[test]
fn empty_table_chunk() {
    let data = [b'T', b'E', b'S', b'T', 3, 0, 0];
    let (chunk, offset) = next(&data);
    let chunk = chunk.unwrap().unwrap();
    assert_eq!(chunk.label, *b"TEST");
    assert_eq!(chunk.kind, ChunkKind::Table);
    assert_eq!(chunk.payload.schema, TableSchema { fields: vec![] });
    assert_eq!(chunk.payload.rows, vec![]);
    assert_eq!(offset, 7);
}

#[test]
fn table_chunk_with_terminated_empty_schema() {
    let data = [b'T', b'E', b'S', b'T', 3, 1, 0, 0];
    assert_eq!(
        next(&data),
        (
            Ok(Some(Chunk {
                label: *b"TEST",
                kind: ChunkKind::Table,
                payload: Table { schema: TableSchema { fields: vec![] }, rows: vec![] },
            })),
            8
        )
    );
}

#[test]
fn table_chunk_with_one_row() {
    assert_eq!(next(&ID_NAME_BYTES), (Ok(Some(id_name_chunk())), 24));
}

#[test]
fn table_chunk_roundtrip() {
    let chunk = id_name_chunk();
    let bytes = chunk.to_bytes().unwrap();
    assert_eq!(bytes, ID_NAME_BYTES.to_vec());
    assert_eq!(next(&bytes), (Ok(Some(chunk)), 24));
}

#[test]
fn sparse_table_chunk() {
    let data = [
        b'S', b'P', b'R', b'S', 4, // frame
        4, 0x02, 0x01, b'v', 0x00, // header block
        4, 9, 90, 2, 20, // data block
    ];
    let expected = Chunk {
        label: *b"SPRS",
        kind: ChunkKind::SparseTable,
        payload: Table {
            schema: TableSchema { fields: vec![field("v", FieldType::Uint8, false)] },
            rows: vec![
                Row { index: Some(9), record: record(vec![("v", Value::Uint8(90))]) },
                Row { index: Some(2), record: record(vec![("v", Value::Uint8(20))]) },
            ],
        },
    };
    assert_eq!(expected.to_bytes(), Some(data.to_vec()));
    assert_eq!(next(&data), (Ok(Some(expected)), data.len()));
}

#[test]
fn end_of_stream_is_no_chunk() {
    assert_eq!(next(&[]), (Ok(None), 0));
    let mut cursor = ByteCursor::new(&ID_NAME_BYTES);
    assert!(next_chunk(&mut cursor).unwrap().is_some());
    assert_eq!(next_chunk(&mut cursor), Ok(None));
    assert_eq!(cursor.offset(), 24);
}

#[test]
fn partial_frame_is_out_of_bounds() {
    assert_eq!(next(b"T"), (Err(err(ErrorKind::OutOfBounds, 0)), 0));
    assert_eq!(next(b"TES"), (Err(err(ErrorKind::OutOfBounds, 0)), 0));
    assert_eq!(next(b"TEST"), (Err(err(ErrorKind::OutOfBounds, 4)), 0));
}

#[test]
fn kind_above_four_is_unknown() {
    assert_eq!(next(b"TEST\x05\x00\x00"), (Err(err(ErrorKind::UnknownChunkKind, 4)), 0));
    assert_eq!(next(b"TEST\xFF"), (Err(err(ErrorKind::UnknownChunkKind, 4)), 0));
}

#[test]
fn other_kinds_are_framed_but_unsupported() {
    for (tag, kind) in [(0u8, ChunkKind::Riff), (1, ChunkKind::Array), (2, ChunkKind::SparseArray)] {
        let data = [b'M', b'A', b'P', b'S', tag, 1, 2, 3];
        let mut cursor = ByteCursor::new(&data);
        assert_eq!(read_frame(&mut cursor), Ok(Some(ChunkHeader { label: *b"MAPS", kind })));
        assert_eq!(cursor.offset(), 5);
        assert_eq!(read_payload(&mut cursor, kind), Err(err(ErrorKind::UnsupportedChunkKind, 5)));
        assert_eq!(cursor.offset(), 5);
        assert_eq!(next(&data), (Err(err(ErrorKind::UnsupportedChunkKind, 5)), 0));
    }
}

#[test]
fn label_need_not_be_text() {
    let data = [0xFF, 0x00, 0x80, 0x01, 3, 0, 0];
    assert_eq!(next(&data).0.unwrap().unwrap().label, [0xFF, 0x00, 0x80, 0x01]);
}

#[test]
fn header_block_limits_the_schema() {
    // the header block holds one declaration and no end marker; the byte after it is the
    // data block's length, not a part of the schema
    let data = [b'T', b'E', b'S', b'T', 3, 3, 0x02, 0x01, b'v', 0];
    assert_eq!(next(&data), (Err(err(ErrorKind::OutOfBounds, 9)), 0));
}

#[test]
fn data_block_limits_the_rows() {
    let data = [b'T', b'E', b'S', b'T', 3, 4, 0x04, 0x01, b'v', 0x00, 3, 0, 1, 0, 2];
    assert_eq!(next(&data), (Err(err(ErrorKind::OutOfBounds, 13)), 0));
}

#[test]
fn block_longer_than_the_stream() {
    assert_eq!(next(b"TEST\x03\x05\x00"), (Err(err(ErrorKind::OutOfBounds, 6)), 0));
    assert_eq!(next(b"TEST\x03\x00\x02\x00"), (Err(err(ErrorKind::OutOfBounds, 7)), 0));
    assert_eq!(next(b"TEST\x03"), (Err(err(ErrorKind::OutOfBounds, 5)), 0));
    assert_eq!(next(b"TEST\x03\x00"), (Err(err(ErrorKind::OutOfBounds, 6)), 0));
}

#[test]
fn schema_errors_carry_stream_offsets() {
    let data = [b'T', b'E', b'S', b'T', 3, 4, 0x0D, 0x01, b'v', 0x00, 0];
    assert_eq!(next(&data), (Err(err(ErrorKind::UnknownFieldType, 6)), 0));
    let data = [b'A', b'B', b'C', b'D', 3, 0, 0, b'T', b'E', b'S', b'T', 3, 1, 0x0F, 0];
    assert_eq!(
        read_chunks(&data),
        Err(err(ErrorKind::UnknownFieldType, 13))
    );
}

#[test]
fn read_chunks_walks_the_stream() {
    let mut data = ID_NAME_BYTES.to_vec();
    data.extend_from_slice(&[b'T', b'E', b'S', b'T', 3, 0, 0]);
    data.extend_from_slice(&[b'S', b'P', b'R', b'S', 4, 4, 0x02, 0x01, b'v', 0x00, 2, 1, 10]);
    let chunks = read_chunks(&data).unwrap();
    assert_eq!(chunks.len(), 3);
    assert_eq!(chunks[0], id_name_chunk());
    assert_eq!(chunks[1].label, *b"TEST");
    assert_eq!(chunks[1].payload.rows.len(), 0);
    assert_eq!(chunks[2].kind, ChunkKind::SparseTable);
    assert_eq!(
        chunks[2].payload.rows,
        vec![Row { index: Some(1), record: record(vec![("v", Value::Uint8(10))]) }]
    );
}

#[test]
fn read_chunks_of_an_empty_body() {
    assert_eq!(read_chunks(&[]), Ok(vec![]));
}

#[test]
fn read_chunks_stops_at_the_first_failure() {
    let mut data = ID_NAME_BYTES.to_vec();
    data.extend_from_slice(b"RIFF\x00\x01\x02");
    assert_eq!(read_chunks(&data), Err(err(ErrorKind::UnsupportedChunkKind, 29)));
    let mut data = ID_NAME_BYTES.to_vec();
    data.extend_from_slice(b"XY");
    assert_eq!(read_chunks(&data), Err(err(ErrorKind::OutOfBounds, 24)));
}

#[test]
fn chunks_of_an_opened_container() {
    let mut file = b"OTTN\x00\x02\x00\x00".to_vec();
    file.extend_from_slice(&ID_NAME_BYTES);
    let save = Savegame::new(&file).unwrap();
    assert_eq!(read_chunks(save.image()), Ok(vec![id_name_chunk()]));
}

#[test]
fn chunk_to_bytes_refuses_what_cannot_be_read_back() {
    let mut chunk = id_name_chunk();
    chunk.kind = ChunkKind::Riff;
    assert_eq!(chunk.to_bytes(), None);
    let mut chunk = id_name_chunk();
    chunk.kind = ChunkKind::SparseTable;
    assert_eq!(chunk.to_bytes(), None);
    let mut chunk = id_name_chunk();
    chunk.payload.rows[0].index = Some(1);
    assert_eq!(chunk.to_bytes(), None);
    let mut chunk = id_name_chunk();
    chunk.payload.rows[0].record.entries.pop();
    assert_eq!(chunk.to_bytes(), None);
    let mut chunk = id_name_chunk();
    chunk.payload.schema.fields[0].name.clear();
    assert_eq!(chunk.to_bytes(), None);
    let hollow = Chunk {
        label: *b"ZERO",
        kind: ChunkKind::Table,
        payload: Table {
            schema: TableSchema { fields: vec![] },
            rows: vec![Row { index: None, record: record(vec![]) }],
        },
    };
    assert_eq!(hollow.to_bytes(), None);
}

#[test]
fn table_to_bytes_layout() {
    let table = Table { schema: TableSchema { fields: vec![] }, rows: vec![] };
    assert_eq!(table.to_bytes(false), Some(vec![1, 0, 0]));
    assert_eq!(table.to_bytes(true), Some(vec![1, 0, 0]));
}
