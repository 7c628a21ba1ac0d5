use vstd::prelude::*;
use crate::cursor::{take_bytes, take_uint, ByteCursor};
use crate::error::{failure, DecodeError, ErrorKind};
use crate::gamma::gamma_decode;
use crate::record::{read_rows, rows_decode, rows_model, Row, RowModel};
use crate::schema::{bytes_left, table_schema, FieldModel, TableSchema};

verus! {

/// The kind of a chunk, as its one-byte tag names it.
#[derive(Clone, Copy, Debug, PartialEq, Eq, Structural)]
pub enum ChunkKind {
    Riff,
    Array,
    SparseArray,
    Table,
    SparseTable,
}

/// The chunk kind that a tag value names; none above 4.
pub open spec fn chunk_kind_of_tag(tag: u8) -> Option<ChunkKind> {
    if tag == 0 {
        Some(ChunkKind::Riff)
    } else if tag == 1 {
        Some(ChunkKind::Array)
    } else if tag == 2 {
        Some(ChunkKind::SparseArray)
    } else if tag == 3 {
        Some(ChunkKind::Table)
    } else if tag == 4 {
        Some(ChunkKind::SparseTable)
    } else {
        None
    }
}

impl ChunkKind {
    /// The tag value of this kind.
    pub open spec fn tag(self) -> u8 {
        match self {
            ChunkKind::Riff => 0,
            ChunkKind::Array => 1,
            ChunkKind::SparseArray => 2,
            ChunkKind::Table => 3,
            ChunkKind::SparseTable => 4,
        }
    }

    /// Whether chunks of this kind hold a table, which is what this decoder can decode.
    pub open spec fn is_table(self) -> bool {
        self == ChunkKind::Table || self == ChunkKind::SparseTable
    }

    /// The chunk kind that a raw tag value names.
    pub fn from_tag(tag: u8) -> (r: Option<ChunkKind>)
        ensures
            r == chunk_kind_of_tag(tag),
    {
        match tag {
            0 => Some(ChunkKind::Riff),
            1 => Some(ChunkKind::Array),
            2 => Some(ChunkKind::SparseArray),
            3 => Some(ChunkKind::Table),
            4 => Some(ChunkKind::SparseTable),
            _ => None,
        }
    }

    /// The raw tag value of this kind.
    pub fn to_tag(self) -> (tag: u8)
        ensures
            tag == self.tag(),
            chunk_kind_of_tag(tag) == Some(self),
    {
        match self {
            ChunkKind::Riff => 0,
            ChunkKind::Array => 1,
            ChunkKind::SparseArray => 2,
            ChunkKind::Table => 3,
            ChunkKind::SparseTable => 4,
        }
    }
}

/// The frame of a chunk: its four-byte label and its kind.
#[derive(Clone, Copy, Debug, PartialEq, Eq)]
pub struct ChunkHeader {
    pub label: [u8; 4],
    pub kind: ChunkKind,
}

/// The payload of a table chunk: the schema from its header block and the rows from its data
/// block.
#[derive(Debug, PartialEq, Eq)]
pub struct Table {
    pub schema: TableSchema,
    pub rows: Vec<Row>,
}

/// A decoded chunk. Its values stand on their own: nothing in it refers back to the buffer.
#[derive(Debug, PartialEq, Eq)]
pub struct Chunk {
    pub label: [u8; 4],
    pub kind: ChunkKind,
    pub payload: Table,
}

/// A chunk frame as a mathematical value.
pub struct ChunkHeaderModel {
    pub label: Seq<u8>,
    pub kind: ChunkKind,
}

/// A table payload as a mathematical value.
pub struct TableModel {
    pub schema: Seq<FieldModel>,
    pub rows: Seq<RowModel>,
}

/// A chunk as a mathematical value.
pub struct ChunkModel {
    pub label: Seq<u8>,
    pub kind: ChunkKind,
    pub payload: TableModel,
}

impl View for ChunkHeader {
    type V = ChunkHeaderModel;

    open spec fn view(&self) -> ChunkHeaderModel {
        ChunkHeaderModel { label: self.label@, kind: self.kind }
    }
}

impl View for Table {
    type V = TableModel;

    open spec fn view(&self) -> TableModel {
        TableModel { schema: self.schema@, rows: rows_model(self.rows@) }
    }
}

impl View for Chunk {
    type V = ChunkModel;

    open spec fn view(&self) -> ChunkModel {
        ChunkModel { label: self.label@, kind: self.kind, payload: self.payload@ }
    }
}

/// The frame that stands at `pos` in a chunk stream, which takes five bytes, or `None` where
/// the stream ends at `pos`. A stream that ends inside a frame is out of bounds; a kind tag
/// above 4 is an unknown chunk kind.
pub open spec fn frame_decode(bytes: Seq<u8>, pos: int) -> Result<
    Option<ChunkHeaderModel>,
    DecodeError,
> {
    if pos >= bytes.len() {
        Ok(None)
    } else {
        match take_bytes(bytes, pos, 4) {
            Err(e) => Err(e),
            Ok(label) => match take_uint(bytes, pos + 4, 1) {
                Err(e) => Err(e),
                Ok(tag) => match chunk_kind_of_tag(tag as u8) {
                    None => Err(failure(ErrorKind::UnknownChunkKind, pos + 4)),
                    Some(kind) => Ok(Some(ChunkHeaderModel { label, kind })),
                },
            },
        }
    }
}

/// The length of the frame of a chunk: four bytes of label and one of kind.
pub const FRAME_LEN: usize = 5;

/// A block that stands at `pos`: a variable-length byte count and that many bytes. The
/// result is the position at which the block's bytes start and the position at which they
/// end.
pub open spec fn block_decode(bytes: Seq<u8>, pos: int) -> Result<(int, int), DecodeError> {
    match gamma_decode(bytes, pos) {
        Err(e) => Err(e),
        Ok((len, width)) => match take_bytes(bytes, pos + width, len as nat) {
            Err(e) => Err(e),
            Ok(_) => Ok((pos + width, pos + width + len)),
        },
    }
}

/// The table payload that stands at `pos`, and how many bytes it takes: a header block with
/// the schema, then a data block with the rows. Each block is decoded on its own bytes only.
pub open spec fn table_decode(bytes: Seq<u8>, pos: int, sparse: bool) -> Result<
    (TableModel, nat),
    DecodeError,
> {
    match block_decode(bytes, pos) {
        Err(e) => Err(e),
        Ok((header_start, header_end)) => match table_schema(bytes.take(header_end), header_start) {
            Err(e) => Err(e),
            Ok(schema) => match block_decode(bytes, header_end) {
                Err(e) => Err(e),
                Ok((data_start, data_end)) => match rows_decode(
                    bytes.take(data_end),
                    data_start,
                    schema,
                    sparse,
                ) {
                    Err(e) => Err(e),
                    Ok(rows) => Ok((TableModel { schema, rows }, (data_end - pos) as nat)),
                },
            },
        }
    }
}

/// The payload of a chunk of the given kind that stands at `pos`. Only tables have a payload
/// that this decoder knows; for the other kinds the payload is refused where it starts.
pub open spec fn payload_decode(bytes: Seq<u8>, pos: int, kind: ChunkKind) -> Result<
    (TableModel, nat),
    DecodeError,
> {
    match kind {
        ChunkKind::Table => table_decode(bytes, pos, false),
        ChunkKind::SparseTable => table_decode(bytes, pos, true),
        _ => Err(failure(ErrorKind::UnsupportedChunkKind, pos)),
    }
}

/// The chunk that stands at `pos` in a chunk stream, and how many bytes it takes, or `None`
/// where the stream ends at `pos`.
pub open spec fn chunk_decode(bytes: Seq<u8>, pos: int) -> Result<
    Option<(ChunkModel, nat)>,
    DecodeError,
> {
    match frame_decode(bytes, pos) {
        Err(e) => Err(e),
        Ok(None) => Ok(None),
        Ok(Some(frame)) => match payload_decode(bytes, pos + FRAME_LEN, frame.kind) {
            Err(e) => Err(e),
            Ok((payload, n)) => Ok(
                Some(
                    (
                        ChunkModel { label: frame.label, kind: frame.kind, payload },
                        (FRAME_LEN + n) as nat,
                    ),
                ),
            ),
        },
    }
}

/// The chunks of a stream of which `done` have been decoded and the rest decodes to `rest`.
pub open spec fn chunks_joined(done: Seq<ChunkModel>, rest: Result<Seq<ChunkModel>, DecodeError>) -> Result<
    Seq<ChunkModel>,
    DecodeError,
> {
    match rest {
        Ok(more) => Ok(done + more),
        Err(e) => Err(e),
    }
}

/// All the chunks of a stream from `pos` on, in stream order. Each chunk starts where the one
/// before it ends, and the stream ends where a chunk would start and no byte is left.
pub open spec fn chunks_decode(bytes: Seq<u8>, pos: int) -> Result<Seq<ChunkModel>, DecodeError>
    decreases bytes_left(bytes, pos),
{
    match chunk_decode(bytes, pos) {
        Err(e) => Err(e),
        Ok(None) => Ok(Seq::empty()),
        Ok(Some((chunk, n))) => chunks_joined(seq![chunk], chunks_decode(bytes, pos + n)),
    }
}

/// The mathematical value of a run of chunks.
pub open spec fn chunks_model(chunks: Seq<Chunk>) -> Seq<ChunkModel>
    decreases chunks.len(),
{
    if chunks.len() == 0 {
        Seq::empty()
    } else {
        chunks_model(chunks.drop_last()).push(chunks.last()@)
    }
}

/// Reads the frame of the next chunk: its label and kind. At the end of the stream there is
/// no frame, which is no failure.
pub fn read_frame(cursor: &mut ByteCursor) -> (r: Result<Option<ChunkHeader>, DecodeError>)
    ensures
        match frame_decode(old(cursor).bytes(), old(cursor).position()) {
            Err(e) => r == Err::<Option<ChunkHeader>, _>(e) && final(cursor).advanced_from(old(cursor), 0),
            Ok(None) => r is Ok && r->Ok_0 is None && final(cursor).advanced_from(old(cursor), 0),
            Ok(Some(frame)) => {
                &&& r is Ok
                &&& r->Ok_0 is Some
                &&& r->Ok_0->Some_0@ == frame
                &&& final(cursor).advanced_from(old(cursor), FRAME_LEN as int)
            },
        },
{
    if cursor.remaining() == 0 {
        return Ok(None);
    }
    let start = cursor.offset();
    let label = cursor.read_bytes(4)?;
    let kind_at = cursor.offset();
    let tag = match cursor.read_u8() {
        Ok(tag) => tag,
        Err(e) => {
            cursor.rewind(start);
            return Err(e);
        },
    };
    match ChunkKind::from_tag(tag) {
        None => {
            cursor.rewind(start);
            Err(DecodeError::new(ErrorKind::UnknownChunkKind, kind_at))
        },
        Some(kind) => {
            let header = ChunkHeader { label: [label[0], label[1], label[2], label[3]], kind };
            assert(header.label@ =~= label@);
            Ok(Some(header))
        },
    }
}

/// Reads a table payload without restoring the position after a failure.
fn read_table_blocks(cursor: &mut ByteCursor, sparse: bool) -> (r: Result<Table, DecodeError>)
    ensures
        final(cursor).bytes() == old(cursor).bytes(),
        match table_decode(old(cursor).bytes(), old(cursor).position(), sparse) {
            Err(e) => r == Err::<Table, _>(e),
            Ok((table, n)) => {
                &&& r is Ok
                &&& r->Ok_0@ == table
                &&& final(cursor).position() == old(cursor).position() + n
            },
        },
{
    let header_len = cursor.read_gamma()?;
    let header = cursor.take_block(header_len as usize)?;
    let schema = TableSchema::decode(header)?;
    let data_len = cursor.read_gamma()?;
    let data = cursor.take_block(data_len as usize)?;
    let rows = read_rows(data, &schema, sparse)?;
    Ok(Table { schema, rows })
}

/// Reads the payload of a chunk of the given kind.
pub fn read_payload(cursor: &mut ByteCursor, kind: ChunkKind) -> (r: Result<Table, DecodeError>)
    ensures
        match payload_decode(old(cursor).bytes(), old(cursor).position(), kind) {
            Err(e) => r == Err::<Table, _>(e) && final(cursor).advanced_from(old(cursor), 0),
            Ok((table, n)) => {
                &&& r is Ok
                &&& r->Ok_0@ == table
                &&& final(cursor).advanced_from(old(cursor), n as int)
            },
        },
{
    let start = cursor.offset();
    let outcome = match kind {
        ChunkKind::Table => read_table_blocks(cursor, false),
        ChunkKind::SparseTable => read_table_blocks(cursor, true),
        _ => Err(DecodeError::new(ErrorKind::UnsupportedChunkKind, start)),
    };
    if outcome.is_err() {
        cursor.rewind(start);
    }
    outcome
}

/// Reads the next chunk of the stream: its frame, then the payload that its kind calls for.
/// At the end of the stream there is no chunk, which is no failure.
pub fn next_chunk(cursor: &mut ByteCursor) -> (r: Result<Option<Chunk>, DecodeError>)
    ensures
        match chunk_decode(old(cursor).bytes(), old(cursor).position()) {
            Err(e) => r == Err::<Option<Chunk>, _>(e) && final(cursor).advanced_from(old(cursor), 0),
            Ok(None) => r is Ok && r->Ok_0 is None && final(cursor).advanced_from(old(cursor), 0),
            Ok(Some((chunk, n))) => {
                &&& r is Ok
                &&& r->Ok_0 is Some
                &&& r->Ok_0->Some_0@ == chunk
                &&& final(cursor).advanced_from(old(cursor), n as int)
            },
        },
{
    let start = cursor.offset();
    let frame = match read_frame(cursor)? {
        None => {
            return Ok(None);
        },
        Some(frame) => frame,
    };
    match read_payload(cursor, frame.kind) {
        Ok(payload) => Ok(Some(Chunk { label: frame.label, kind: frame.kind, payload })),
        Err(e) => {
            cursor.rewind(start);
            Err(e)
        },
    }
}

/// Decodes every chunk of a decompressed body, in stream order.
pub fn read_chunks(body: &[u8]) -> (r: Result<Vec<Chunk>, DecodeError>)
    ensures
        match chunks_decode(body@, 0) {
            Err(e) => r == Err::<Vec<Chunk>, _>(e),
            Ok(chunks) => r is Ok && chunks_model(r->Ok_0@) == chunks,
        },
{
    let mut cursor = ByteCursor::new(body);
    let mut chunks: Vec<Chunk> = Vec::new();
    loop
        invariant
            cursor.bytes() == body@,
            chunks_decode(body@, 0) == chunks_joined(
                chunks_model(chunks@),
                chunks_decode(body@, cursor.position()),
            ),
        decreases bytes_left(body@, cursor.position()),
    {
        let ghost done = chunks_model(chunks@);
        match next_chunk(&mut cursor)? {
            None => {
                proof {
                    assert(done + Seq::<ChunkModel>::empty() =~= done);
                }
                return Ok(chunks);
            },
            Some(chunk) => {
                proof {
                    if let Ok(more) = chunks_decode(body@, cursor.position()) {
                        assert(done + (seq![chunk@] + more) =~= done.push(chunk@) + more);
                    }
                    assert(chunks@.push(chunk).drop_last() =~= chunks@);
                }
                chunks.push(chunk);
            },
        }
    }
}

} // verus!
