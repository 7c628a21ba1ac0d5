use vstd::prelude::*;
use crate::chunk::{
    block_decode, chunk_decode, frame_decode, table_decode, Chunk, ChunkHeaderModel, ChunkKind,
    ChunkModel, Table, TableModel,
};
use crate::cursor::{lemma_part_at, take_uint};
use crate::endian::lemma_be_uint_digits;
use crate::error::DecodeError;
use crate::gamma::{
    gamma_encode, gamma_len, lemma_gamma_at, lemma_gamma_roundtrip, write_gamma,
};
use crate::record::{row_decode, rows_decode, rows_model, Row, RowModel};
use crate::record_writer::{lemma_record_at, record_encode, record_fits, write_entries};
use crate::schema::{lemma_schema_at, schema_encode, schema_wf, table_schema, FieldModel, TableSchema};
use crate::writer::put_bytes;

verus! {

/// The bytes of a row: for a sparse table the row number, then the record.
pub open spec fn row_encode(fields: Seq<FieldModel>, row: RowModel) -> Seq<u8> {
    match row.index {
        Some(index) => gamma_encode(index) + record_encode(fields, row.record, 0),
        None => record_encode(fields, row.record, 0),
    }
}

/// Whether a row can be written down and read back: it carries a row number exactly in a
/// sparse table, its record fits the schema, and it takes at least one byte.
pub open spec fn row_fits(fields: Seq<FieldModel>, row: RowModel, sparse: bool) -> bool {
    &&& row.index is Some == sparse
    &&& record_fits(fields, row.record, 0)
    &&& row_encode(fields, row).len() > 0
}

/// The bytes of the rows from index `from` on, one after the other.
pub open spec fn rows_encode(fields: Seq<FieldModel>, rows: Seq<RowModel>, from: nat) -> Seq<u8>
    decreases rows.len() - from,
{
    if from >= rows.len() {
        Seq::empty()
    } else {
        row_encode(fields, rows[from as int]) + rows_encode(fields, rows, from + 1)
    }
}

/// Whether every row from index `from` on can be written down and read back.
pub open spec fn rows_fit(fields: Seq<FieldModel>, rows: Seq<RowModel>, sparse: bool, from: nat) -> bool
    decreases rows.len() - from,
{
    from < rows.len() ==> row_fits(fields, rows[from as int], sparse) && rows_fit(
        fields,
        rows,
        sparse,
        from + 1,
    )
}

/// A block: the byte count of `content` and `content` itself.
pub open spec fn block_encode(content: Seq<u8>) -> Seq<u8> {
    gamma_encode(content.len() as u32) + content
}

/// The bytes of a table payload: the header block with the schema, then the data block with
/// the rows.
pub open spec fn table_encode(table: TableModel) -> Seq<u8> {
    block_encode(schema_encode(table.schema)) + block_encode(
        rows_encode(table.schema, table.rows, 0),
    )
}

/// Whether a table payload can be written down and read back: its schema and rows can, and
/// each of its two blocks has a length that fits 32 bits.
pub open spec fn table_fits(table: TableModel, sparse: bool) -> bool {
    &&& schema_wf(table.schema)
    &&& rows_fit(table.schema, table.rows, sparse, 0)
    &&& schema_encode(table.schema).len() <= u32::MAX
    &&& rows_encode(table.schema, table.rows, 0).len() <= u32::MAX
}

/// The bytes of a chunk: label, kind tag, payload.
pub open spec fn chunk_encode(chunk: ChunkModel) -> Seq<u8> {
    chunk.label + seq![chunk.kind.tag()] + table_encode(chunk.payload)
}

/// Whether a chunk can be written down and read back: it has a label of four bytes, holds a
/// table, and its payload can.
pub open spec fn chunk_fits(chunk: ChunkModel) -> bool {
    &&& chunk.label.len() == 4
    &&& chunk.kind.is_table()
    &&& table_fits(chunk.payload, chunk.kind == ChunkKind::SparseTable)
}

/// Where the bytes of a row stand at `pos`, decoding a row at `pos` gives the row and takes
/// those bytes.
pub proof fn lemma_row_at(bytes: Seq<u8>, pos: int, fields: Seq<FieldModel>, row: RowModel, sparse: bool)
    requires
        row_fits(fields, row, sparse),
        0 <= pos,
        pos + row_encode(fields, row).len() <= bytes.len(),
        bytes.subrange(pos, pos + row_encode(fields, row).len()) == row_encode(fields, row),
    ensures
        row_decode(bytes, pos, fields, sparse) == Ok::<_, DecodeError>(
            (row, row_encode(fields, row).len()),
        ),
{
    let code = row_encode(fields, row);
    let record = record_encode(fields, row.record, 0);
    assert(row.record.skip(0) =~= row.record);
    match row.index {
        Some(index) => {
            let width = gamma_len(index) as int;
            lemma_gamma_roundtrip(index, Seq::empty(), Seq::empty());
            assert(code.subrange(0, width) =~= gamma_encode(index));
            lemma_part_at(bytes, pos, code, 0, gamma_encode(index));
            lemma_gamma_at(bytes, pos, index);
            assert(code.subrange(width, width + record.len() as int) =~= record);
            lemma_part_at(bytes, pos, code, width, record);
            lemma_record_at(bytes, pos + width, fields, row.record, 0);
        },
        None => {
            lemma_record_at(bytes, pos, fields, row.record, 0);
        },
    }
}

/// Where the bytes of the rows from index `from` on stand at `pos` and reach to the end of
/// the buffer, decoding rows from `pos` on gives those rows.
pub proof fn lemma_rows_at(
    bytes: Seq<u8>,
    pos: int,
    fields: Seq<FieldModel>,
    rows: Seq<RowModel>,
    sparse: bool,
    from: nat,
)
    requires
        from <= rows.len(),
        rows_fit(fields, rows, sparse, from),
        0 <= pos,
        pos + rows_encode(fields, rows, from).len() == bytes.len(),
        bytes.subrange(pos, bytes.len() as int) == rows_encode(fields, rows, from),
    ensures
        rows_decode(bytes, pos, fields, sparse) == Ok::<_, DecodeError>(rows.skip(from as int)),
    decreases rows.len() - from,
{
    let code = rows_encode(fields, rows, from);
    if from >= rows.len() {
        assert(rows.skip(from as int) =~= Seq::<RowModel>::empty());
    } else {
        let row = rows[from as int];
        let first = row_encode(fields, row);
        let rest = rows_encode(fields, rows, from + 1);
        assert(code.subrange(0, first.len() as int) =~= first);
        lemma_part_at(bytes, pos, code, 0, first);
        lemma_row_at(bytes, pos, fields, row, sparse);
        assert(code.subrange(first.len() as int, (first.len() + rest.len()) as int) =~= rest);
        lemma_part_at(bytes, pos, code, first.len() as int, rest);
        lemma_rows_at(bytes, pos + first.len(), fields, rows, sparse, from + 1);
        assert(seq![row] + rows.skip(from as int + 1) =~= rows.skip(from as int));
    }
}

/// Where a block stands at `pos`, it is found there: its bytes start after the byte count and
/// end where the block ends.
pub proof fn lemma_block_at(bytes: Seq<u8>, pos: int, content: Seq<u8>)
    requires
        content.len() <= u32::MAX,
        0 <= pos,
        pos + block_encode(content).len() <= bytes.len(),
        bytes.subrange(pos, pos + block_encode(content).len()) == block_encode(content),
    ensures
        block_decode(bytes, pos) == Ok::<_, DecodeError>(
            (
                pos + gamma_len(content.len() as u32),
                pos + gamma_len(content.len() as u32) + content.len(),
            ),
        ),
        block_encode(content).len() == gamma_len(content.len() as u32) + content.len(),
        bytes.subrange(
            pos + gamma_len(content.len() as u32),
            pos + gamma_len(content.len() as u32) + content.len(),
        ) == content,
{
    let len = content.len() as u32;
    let width = gamma_len(len) as int;
    let code = block_encode(content);
    lemma_gamma_roundtrip(len, Seq::empty(), Seq::empty());
    assert(code.subrange(0, width) =~= gamma_encode(len));
    lemma_part_at(bytes, pos, code, 0, gamma_encode(len));
    lemma_gamma_at(bytes, pos, len);
    assert(code.subrange(width, width + content.len() as int) =~= content);
    lemma_part_at(bytes, pos, code, width, content);
}

/// Where the bytes of a table payload stand at `pos`, decoding a table at `pos` gives the
/// table and takes those bytes.
pub proof fn lemma_table_at(bytes: Seq<u8>, pos: int, table: TableModel, sparse: bool)
    requires
        table_fits(table, sparse),
        0 <= pos,
        pos + table_encode(table).len() <= bytes.len(),
        bytes.subrange(pos, pos + table_encode(table).len()) == table_encode(table),
    ensures
        table_decode(bytes, pos, sparse) == Ok::<_, DecodeError>((table, table_encode(table).len())),
{
    let header = schema_encode(table.schema);
    let data = rows_encode(table.schema, table.rows, 0);
    let code = table_encode(table);
    let first = block_encode(header);
    let second = block_encode(data);
    lemma_gamma_roundtrip(header.len() as u32, Seq::empty(), Seq::empty());
    lemma_gamma_roundtrip(data.len() as u32, Seq::empty(), Seq::empty());
    assert(code.subrange(0, first.len() as int) =~= first);
    lemma_part_at(bytes, pos, code, 0, first);
    lemma_block_at(bytes, pos, header);
    let header_start = pos + gamma_len(header.len() as u32);
    let header_end = header_start + header.len();
    let window = bytes.take(header_end);
    assert(window.subrange(header_start, header_end) =~= bytes.subrange(header_start, header_end));
    lemma_schema_at(window, header_start, table.schema);
    assert(header.len() > 0) by {
        if table.schema.len() == 0 {
        } else {
            assert(header.len() >= schema_encode(table.schema.drop_first()).len());
            lemma_schema_nonempty(table.schema.drop_first());
        }
    }
    assert(table_schema(window, header_start) == Ok::<_, DecodeError>(table.schema));
    assert(code.subrange(first.len() as int, (first.len() + second.len()) as int) =~= second);
    lemma_part_at(bytes, pos, code, first.len() as int, second);
    lemma_block_at(bytes, header_end, data);
    let data_start = header_end + gamma_len(data.len() as u32);
    let data_end = data_start + data.len();
    let rows_window = bytes.take(data_end);
    assert(rows_window.subrange(data_start, rows_window.len() as int) =~= bytes.subrange(
        data_start,
        data_end,
    ));
    lemma_rows_at(rows_window, data_start, table.schema, table.rows, sparse, 0);
    assert(table.rows.skip(0) =~= table.rows);
    assert(table == TableModel { schema: table.schema, rows: table.rows });
}

/// The bytes of a field list are never empty: they end with the end marker.
pub proof fn lemma_schema_nonempty(fields: Seq<FieldModel>)
    ensures
        schema_encode(fields).len() > 0,
    decreases fields.len(),
{
    if fields.len() > 0 {
        lemma_schema_nonempty(fields.drop_first());
    }
}

/// Where the bytes of a chunk stand at `pos`, decoding a chunk at `pos` gives the chunk and
/// takes those bytes.
pub proof fn lemma_chunk_at(bytes: Seq<u8>, pos: int, chunk: ChunkModel)
    requires
        chunk_fits(chunk),
        0 <= pos,
        pos + chunk_encode(chunk).len() <= bytes.len(),
        bytes.subrange(pos, pos + chunk_encode(chunk).len()) == chunk_encode(chunk),
    ensures
        chunk_decode(bytes, pos) == Ok::<_, DecodeError>(
            Some((chunk, chunk_encode(chunk).len())),
        ),
{
    let code = chunk_encode(chunk);
    let payload = table_encode(chunk.payload);
    let sparse = chunk.kind == ChunkKind::SparseTable;
    assert(code.subrange(0, 4) =~= chunk.label);
    lemma_part_at(bytes, pos, code, 0, chunk.label);
    let tag = seq![chunk.kind.tag()];
    assert(code.subrange(4, 5) =~= tag);
    lemma_part_at(bytes, pos, code, 4, tag);
    lemma_be_uint_digits(tag);
    assert(take_uint(bytes, pos + 4, 1) == Ok::<_, DecodeError>(chunk.kind.tag() as nat));
    assert(frame_decode(bytes, pos) == Ok::<_, DecodeError>(
        Some(ChunkHeaderModel { label: chunk.label, kind: chunk.kind }),
    ));
    assert(code.subrange(5, 5 + payload.len() as int) =~= payload);
    lemma_part_at(bytes, pos, code, 5, payload);
    lemma_table_at(bytes, pos + 5, chunk.payload, sparse);
    assert(chunk == ChunkModel { label: chunk.label, kind: chunk.kind, payload: chunk.payload });
}

/// Writing down a chunk that fits and decoding the bytes gives the chunk back, with its
/// schema and every row, wherever the bytes stand in a stream.
pub proof fn lemma_chunk_roundtrip(chunk: ChunkModel, before: Seq<u8>, after: Seq<u8>)
    requires
        chunk_fits(chunk),
    ensures
        chunk_decode(before + chunk_encode(chunk) + after, before.len() as int) == Ok::<
            _,
            DecodeError,
        >(Some((chunk, chunk_encode(chunk).len()))),
{
    let code = chunk_encode(chunk);
    let bytes = before + code + after;
    let pos = before.len() as int;
    assert(bytes.subrange(pos, pos + code.len()) =~= code);
    lemma_chunk_at(bytes, pos, chunk);
}

/// The model of a run of rows has the model of each row at its place.
pub proof fn lemma_rows_model(rows: Seq<Row>)
    ensures
        rows_model(rows).len() == rows.len(),
        forall|i: int| 0 <= i < rows.len() ==> #[trigger] rows_model(rows)[i] == rows[i]@,
    decreases rows.len(),
{
    if rows.len() > 0 {
        lemma_rows_model(rows.drop_last());
    }
}

/// Writes a row, unless the row cannot be written down and read back. May leave a part of
/// the row in `out` where it gives up.
fn write_row(schema: &TableSchema, row: &Row, sparse: bool, out: &mut Vec<u8>) -> (ok: bool)
    ensures
        ok == row_fits(schema@, row@, sparse),
        ok ==> final(out)@ == old(out)@ + row_encode(schema@, row@),
{
    let start = out.len();
    match row.index {
        Some(index) => {
            if !sparse {
                return false;
            }
            write_gamma(index, out);
            proof {
                lemma_gamma_roundtrip(index, Seq::empty(), Seq::empty());
            }
        },
        None => {
            if sparse {
                return false;
            }
        },
    }
    if !write_entries(schema, &row.record, out) {
        return false;
    }
    assert(out@ =~= old(out)@ + row_encode(schema@, row@));
    out.len() > start
}

/// Writes rows one after the other, unless one of them cannot be written down and read
/// back. May leave a part of the rows in `out` where it gives up.
fn write_rows(schema: &TableSchema, rows: &Vec<Row>, sparse: bool, out: &mut Vec<u8>) -> (ok: bool)
    ensures
        ok == rows_fit(schema@, rows_model(rows@), sparse, 0),
        ok ==> final(out)@ == old(out)@ + rows_encode(schema@, rows_model(rows@), 0),
{
    let ghost model = rows_model(rows@);
    proof {
        lemma_rows_model(rows@);
    }
    let mut i: usize = 0;
    while i < rows.len()
        invariant
            i <= rows.len(),
            model == rows_model(rows@),
            model.len() == rows.len(),
            forall|k: int| 0 <= k < rows.len() ==> #[trigger] model[k] == rows@[k]@,
            rows_fit(schema@, model, sparse, 0) == rows_fit(schema@, model, sparse, i as nat),
            out@ + rows_encode(schema@, model, i as nat) == old(out)@ + rows_encode(
                schema@,
                model,
                0,
            ),
        decreases rows.len() - i,
    {
        let ghost before = out@;
        if !write_row(schema, &rows[i], sparse, out) {
            return false;
        }
        proof {
            assert(out@ + rows_encode(schema@, model, (i + 1) as nat) =~= before + rows_encode(
                schema@,
                model,
                i as nat,
            ));
        }
        i = i + 1;
    }
    assert(out@ =~= old(out)@ + rows_encode(schema@, model, 0));
    true
}

impl Table {
    /// The bytes of this table as a chunk holds them, with row numbers if `sparse` is set, or
    /// `None` where the table cannot be written down and read back.
    pub fn to_bytes(&self, sparse: bool) -> (r: Option<Vec<u8>>)
        ensures
            r is Some <==> table_fits(self@, sparse),
            r matches Some(bytes) ==> bytes@ == table_encode(self@),
    {
        let header = match self.schema.to_bytes() {
            Some(header) => header,
            None => {
                return None;
            },
        };
        let mut data: Vec<u8> = Vec::new();
        if !write_rows(&self.schema, &self.rows, sparse, &mut data) {
            return None;
        }
        assert(data@ =~= rows_encode(self@.schema, self@.rows, 0));
        if header.len() > u32::MAX as usize || data.len() > u32::MAX as usize {
            return None;
        }
        let mut out: Vec<u8> = Vec::new();
        write_gamma(header.len() as u32, &mut out);
        put_bytes(header.as_slice(), &mut out);
        write_gamma(data.len() as u32, &mut out);
        put_bytes(data.as_slice(), &mut out);
        assert(out@ =~= table_encode(self@));
        Some(out)
    }
}

impl Chunk {
    /// The bytes of this chunk as a chunk stream holds them, or `None` where the chunk cannot
    /// be written down and read back: it holds no table, or its table cannot.
    pub fn to_bytes(&self) -> (r: Option<Vec<u8>>)
        ensures
            r is Some <==> chunk_fits(self@),
            r matches Some(bytes) ==> bytes@ == chunk_encode(self@),
    {
        let sparse = match self.kind {
            ChunkKind::Table => false,
            ChunkKind::SparseTable => true,
            _ => {
                return None;
            },
        };
        let payload = match self.payload.to_bytes(sparse) {
            Some(payload) => payload,
            None => {
                return None;
            },
        };
        let mut out: Vec<u8> = Vec::new();
        out.push(self.label[0]);
        out.push(self.label[1]);
        out.push(self.label[2]);
        out.push(self.label[3]);
        out.push(self.kind.to_tag());
        put_bytes(payload.as_slice(), &mut out);
        assert(out@ =~= chunk_encode(self@));
        Some(out)
    }
}

} // verus!
