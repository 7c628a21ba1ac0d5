use vstd::prelude::*;
use crate::cursor::{
    joined, lemma_joined_end, lemma_joined_push, take_int, take_text, take_uint, ByteCursor,
    Decoded,
};
use crate::error::{failure, DecodeError, ErrorKind};
use crate::gamma::gamma_decode;
use crate::record_writer::{lemma_decoded_record, record_fits};
use crate::schema::{
    bytes_left, field_model, lemma_fields_model, FieldDef, FieldModel, FieldType, TableSchema,
};

verus! {

/// A decoded value: a scalar of one of the field types, a nested record, or a list.
#[derive(Debug, PartialEq, Eq)]
pub enum Value {
    Int8(i8),
    Uint8(u8),
    Int16(i16),
    Uint16(u16),
    Int32(i32),
    Uint32(u32),
    Int64(i64),
    Uint64(u64),
    StringID(u32),
    Text(String),
    Struct(Record),
    List(Vec<Value>),
}

/// One field of a record: the field's name and its value.
#[derive(Debug, PartialEq, Eq)]
pub struct Entry {
    pub name: String,
    pub value: Value,
}

/// A decoded record: one entry for each field of its schema, in schema order.
#[derive(Debug, PartialEq, Eq)]
pub struct Record {
    pub entries: Vec<Entry>,
}

/// One row of a table: the record, and for a sparse table the row number stored before it.
#[derive(Debug, PartialEq, Eq)]
pub struct Row {
    pub index: Option<u32>,
    pub record: Record,
}

/// A value as a mathematical value.
pub enum ValueModel {
    Int8(i8),
    Uint8(u8),
    Int16(i16),
    Uint16(u16),
    Int32(i32),
    Uint32(u32),
    Int64(i64),
    Uint64(u64),
    StringID(u32),
    Text(Seq<char>),
    Struct(Seq<EntryModel>),
    List(Seq<ValueModel>),
}

/// An entry as a mathematical value.
pub struct EntryModel {
    pub name: Seq<char>,
    pub value: ValueModel,
}

/// A row as a mathematical value.
pub struct RowModel {
    pub index: Option<u32>,
    pub record: Seq<EntryModel>,
}

/// The mathematical value of a value.
pub open spec fn value_model(value: Value) -> ValueModel
    decreases value,
{
    match value {
        Value::Int8(v) => ValueModel::Int8(v),
        Value::Uint8(v) => ValueModel::Uint8(v),
        Value::Int16(v) => ValueModel::Int16(v),
        Value::Uint16(v) => ValueModel::Uint16(v),
        Value::Int32(v) => ValueModel::Int32(v),
        Value::Uint32(v) => ValueModel::Uint32(v),
        Value::Int64(v) => ValueModel::Int64(v),
        Value::Uint64(v) => ValueModel::Uint64(v),
        Value::StringID(v) => ValueModel::StringID(v),
        Value::Text(text) => ValueModel::Text(text@),
        Value::Struct(record) => ValueModel::Struct(entries_model(record.entries@)),
        Value::List(items) => ValueModel::List(values_model(items@)),
    }
}

/// The mathematical value of a run of values.
pub open spec fn values_model(values: Seq<Value>) -> Seq<ValueModel>
    decreases values,
{
    if values.len() == 0 {
        Seq::empty()
    } else {
        values_model(values.drop_last()).push(value_model(values.last()))
    }
}

/// The mathematical value of a run of entries.
pub open spec fn entries_model(entries: Seq<Entry>) -> Seq<EntryModel>
    decreases entries,
{
    if entries.len() == 0 {
        Seq::empty()
    } else {
        entries_model(entries.drop_last()).push(
            EntryModel { name: entries.last().name@, value: value_model(entries.last().value) },
        )
    }
}

/// The mathematical value of a run of rows.
pub open spec fn rows_model(rows: Seq<Row>) -> Seq<RowModel>
    decreases rows.len(),
{
    if rows.len() == 0 {
        Seq::empty()
    } else {
        rows_model(rows.drop_last()).push(
            RowModel { index: rows.last().index, record: rows.last().record@ },
        )
    }
}

impl View for Value {
    type V = ValueModel;

    open spec fn view(&self) -> ValueModel {
        value_model(*self)
    }
}

impl View for Record {
    type V = Seq<EntryModel>;

    open spec fn view(&self) -> Seq<EntryModel> {
        entries_model(self.entries@)
    }
}

impl View for Row {
    type V = RowModel;

    open spec fn view(&self) -> RowModel {
        RowModel { index: self.index, record: self.record@ }
    }
}

/// The outcome of decoding a single value of the field's type at `pos`, whatever the field's
/// list flag says.
///
/// The integer types take their width in bytes, big-endian, signed ones in two's complement;
/// a `StringID` is a four-byte unsigned number; a `String` is a variable-length byte count
/// and that many bytes of UTF-8; a `Struct` is a record of the field's nested schema. The
/// type `End` has no values.
pub open spec fn scalar_decode(bytes: Seq<u8>, pos: int, field: FieldModel) -> Decoded<ValueModel>
    decreases field, 0nat, 0nat,
{
    match field.field_type {
        FieldType::End => Err(failure(ErrorKind::UnknownFieldType, pos)),
        FieldType::Int8 => match take_int(bytes, pos, 1) {
            Ok(v) => Ok((ValueModel::Int8(v as i8), 1)),
            Err(e) => Err(e),
        },
        FieldType::Uint8 => match take_uint(bytes, pos, 1) {
            Ok(v) => Ok((ValueModel::Uint8(v as u8), 1)),
            Err(e) => Err(e),
        },
        FieldType::Int16 => match take_int(bytes, pos, 2) {
            Ok(v) => Ok((ValueModel::Int16(v as i16), 2)),
            Err(e) => Err(e),
        },
        FieldType::Uint16 => match take_uint(bytes, pos, 2) {
            Ok(v) => Ok((ValueModel::Uint16(v as u16), 2)),
            Err(e) => Err(e),
        },
        FieldType::Int32 => match take_int(bytes, pos, 4) {
            Ok(v) => Ok((ValueModel::Int32(v as i32), 4)),
            Err(e) => Err(e),
        },
        FieldType::Uint32 => match take_uint(bytes, pos, 4) {
            Ok(v) => Ok((ValueModel::Uint32(v as u32), 4)),
            Err(e) => Err(e),
        },
        FieldType::Int64 => match take_int(bytes, pos, 8) {
            Ok(v) => Ok((ValueModel::Int64(v as i64), 8)),
            Err(e) => Err(e),
        },
        FieldType::Uint64 => match take_uint(bytes, pos, 8) {
            Ok(v) => Ok((ValueModel::Uint64(v as u64), 8)),
            Err(e) => Err(e),
        },
        FieldType::StringID => match take_uint(bytes, pos, 4) {
            Ok(v) => Ok((ValueModel::StringID(v as u32), 4)),
            Err(e) => Err(e),
        },
        FieldType::String => match gamma_decode(bytes, pos) {
            Err(e) => Err(e),
            Ok((len, width)) => match take_text(bytes, pos + width, len as nat) {
                Ok(text) => Ok((ValueModel::Text(text), width + len as nat)),
                Err(e) => Err(e),
            },
        },
        FieldType::Struct => match record_decode(bytes, pos, field.nested, 0) {
            Ok((entries, n)) => Ok((ValueModel::Struct(entries), n)),
            Err(e) => Err(e),
        },
    }
}

/// The outcome of decoding `count` values of the field's type, one after the other.
pub open spec fn elems_decode(bytes: Seq<u8>, pos: int, field: FieldModel, count: nat) -> Decoded<
    Seq<ValueModel>,
>
    decreases field, 1nat, count,
{
    if count == 0 {
        Ok((Seq::empty(), 0))
    } else {
        match scalar_decode(bytes, pos, field) {
            Err(e) => Err(e),
            Ok((first, n)) => joined(
                seq![first],
                n,
                elems_decode(bytes, pos + n, field, (count - 1) as nat),
            ),
        }
    }
}

/// The outcome of decoding the value of a field: a single value, or for a list field a
/// variable-length element count and that many values.
pub open spec fn field_decode(bytes: Seq<u8>, pos: int, field: FieldModel) -> Decoded<ValueModel>
    decreases field, 2nat, 0nat,
{
    if field.is_list {
        match gamma_decode(bytes, pos) {
            Err(e) => Err(e),
            Ok((count, width)) => match elems_decode(bytes, pos + width, field, count as nat) {
                Err(e) => Err(e),
                Ok((items, n)) => Ok((ValueModel::List(items), width + n)),
            },
        }
    } else {
        scalar_decode(bytes, pos, field)
    }
}

/// The outcome of decoding the fields of a record from the field at index `from` on, each in
/// schema order and none left out.
pub open spec fn record_decode(bytes: Seq<u8>, pos: int, fields: Seq<FieldModel>, from: nat) -> Decoded<
    Seq<EntryModel>,
>
    decreases fields, fields.len() - from, 0nat,
{
    if from >= fields.len() {
        Ok((Seq::empty(), 0))
    } else {
        match field_decode(bytes, pos, fields[from as int]) {
            Err(e) => Err(e),
            Ok((value, n)) => joined(
                seq![EntryModel { name: fields[from as int].name, value }],
                n,
                record_decode(bytes, pos + n, fields, from + 1),
            ),
        }
    }
}

/// The outcome of decoding one row at `pos`: for a sparse table a variable-length row number
/// first, then the record.
pub open spec fn row_decode(bytes: Seq<u8>, pos: int, fields: Seq<FieldModel>, sparse: bool) -> Decoded<
    RowModel,
> {
    if sparse {
        match gamma_decode(bytes, pos) {
            Err(e) => Err(e),
            Ok((index, width)) => match record_decode(bytes, pos + width, fields, 0) {
                Err(e) => Err(e),
                Ok((record, n)) => Ok((RowModel { index: Some(index), record }, width + n)),
            },
        }
    } else {
        match record_decode(bytes, pos, fields, 0) {
            Err(e) => Err(e),
            Ok((record, n)) => Ok((RowModel { index: None, record }, n)),
        }
    }
}

/// The rows of a data block, where the block is the part of `bytes` from `pos` on: rows are
/// decoded one after the other until the block is exhausted.
///
/// A schema whose records take no bytes at all can never exhaust a block; such a table holds
/// no rows.
pub open spec fn rows_decode(bytes: Seq<u8>, pos: int, fields: Seq<FieldModel>, sparse: bool) -> Result<
    Seq<RowModel>,
    DecodeError,
>
    decreases bytes_left(bytes, pos),
{
    if pos >= bytes.len() {
        Ok(Seq::empty())
    } else {
        match row_decode(bytes, pos, fields, sparse) {
            Err(e) => Err(e),
            Ok((row, n)) => if n == 0 {
                Ok(Seq::empty())
            } else {
                match rows_decode(bytes, pos + n, fields, sparse) {
                    Err(e) => Err(e),
                    Ok(rest) => Ok(seq![row] + rest),
                }
            },
        }
    }
}

/// Reads a single value of the field's type. Says nothing of the position after a failure.
fn read_scalar(cursor: &mut ByteCursor, field: &FieldDef) -> (r: Result<Value, DecodeError>)
    ensures
        final(cursor).bytes() == old(cursor).bytes(),
        match scalar_decode(old(cursor).bytes(), old(cursor).position(), field@) {
            Err(e) => r == Err::<Value, _>(e),
            Ok((value, n)) => {
                &&& r is Ok
                &&& r->Ok_0@ == value
                &&& final(cursor).position() == old(cursor).position() + n
            },
        },
    decreases field, 0nat, 0nat,
{
    match field.field_type {
        FieldType::End => Err(DecodeError::new(ErrorKind::UnknownFieldType, cursor.offset())),
        FieldType::Int8 => Ok(Value::Int8(cursor.read_i8()?)),
        FieldType::Uint8 => Ok(Value::Uint8(cursor.read_u8()?)),
        FieldType::Int16 => Ok(Value::Int16(cursor.read_i16()?)),
        FieldType::Uint16 => Ok(Value::Uint16(cursor.read_u16()?)),
        FieldType::Int32 => Ok(Value::Int32(cursor.read_i32()?)),
        FieldType::Uint32 => Ok(Value::Uint32(cursor.read_u32()?)),
        FieldType::Int64 => Ok(Value::Int64(cursor.read_i64()?)),
        FieldType::Uint64 => Ok(Value::Uint64(cursor.read_u64()?)),
        FieldType::StringID => Ok(Value::StringID(cursor.read_u32()?)),
        FieldType::String => {
            let len = cursor.read_gamma()?;
            Ok(Value::Text(cursor.read_string(len as usize)?))
        },
        FieldType::Struct => Ok(Value::Struct(read_entries(cursor, &field.nested)?)),
    }
}

/// Reads the value of a field. Says nothing of the position after a failure.
fn read_field(cursor: &mut ByteCursor, field: &FieldDef) -> (r: Result<Value, DecodeError>)
    ensures
        final(cursor).bytes() == old(cursor).bytes(),
        match field_decode(old(cursor).bytes(), old(cursor).position(), field@) {
            Err(e) => r == Err::<Value, _>(e),
            Ok((value, n)) => {
                &&& r is Ok
                &&& r->Ok_0@ == value
                &&& final(cursor).position() == old(cursor).position() + n
            },
        },
    decreases field, 2nat, 0nat,
{
    if !field.is_list {
        return read_scalar(cursor, field);
    }
    let ghost bytes = cursor.bytes();
    let count = cursor.read_gamma()?;
    let ghost start = cursor.position();
    let mut items: Vec<Value> = Vec::new();
    let mut i: u32 = 0;
    while i < count
        invariant
            cursor.bytes() == bytes,
            bytes == old(cursor).bytes(),
            field.is_list,
            old(cursor).position() <= start,
            gamma_decode(bytes, old(cursor).position()) == Ok::<_, DecodeError>(
                (count, (start - old(cursor).position()) as nat),
            ),
            i <= count,
            start <= cursor.position(),
            elems_decode(bytes, start, field@, count as nat) == joined(
                values_model(items@),
                (cursor.position() - start) as nat,
                elems_decode(bytes, cursor.position(), field@, (count - i) as nat),
            ),
        decreases count - i,
    {
        let ghost pos = cursor.position();
        let ghost done = values_model(items@);
        let item = read_scalar(cursor, field)?;
        proof {
            lemma_joined_push(
                done,
                (pos - start) as nat,
                item@,
                (cursor.position() - pos) as nat,
                elems_decode(bytes, cursor.position(), field@, (count - i - 1) as nat),
            );
            assert(items@.push(item).drop_last() =~= items@);
        }
        items.push(item);
        i = i + 1;
    }
    proof {
        lemma_joined_end(values_model(items@), (cursor.position() - start) as nat, 0);
    }
    Ok(Value::List(items))
}

/// Reads one record of the schema. Says nothing of the position after a failure.
fn read_entries(cursor: &mut ByteCursor, schema: &TableSchema) -> (r: Result<Record, DecodeError>)
    ensures
        final(cursor).bytes() == old(cursor).bytes(),
        match record_decode(old(cursor).bytes(), old(cursor).position(), schema@, 0) {
            Err(e) => r == Err::<Record, _>(e),
            Ok((entries, n)) => {
                &&& r is Ok
                &&& r->Ok_0@ == entries
                &&& final(cursor).position() == old(cursor).position() + n
            },
        },
    decreases schema, 0nat, 0nat,
{
    let ghost bytes = cursor.bytes();
    let ghost start = cursor.position();
    proof {
        lemma_fields_model(schema.fields@);
    }
    let mut entries: Vec<Entry> = Vec::new();
    let mut i: usize = 0;
    while i < schema.fields.len()
        invariant
            cursor.bytes() == bytes,
            bytes == old(cursor).bytes(),
            start == old(cursor).position(),
            i <= schema.fields.len(),
            start <= cursor.position(),
            schema@.len() == schema.fields.len(),
            forall|k: int| 0 <= k < schema.fields.len() ==> #[trigger] schema@[k] == field_model(schema.fields@[k]),
            record_decode(bytes, start, schema@, 0) == joined(
                entries_model(entries@),
                (cursor.position() - start) as nat,
                record_decode(bytes, cursor.position(), schema@, i as nat),
            ),
        decreases schema.fields.len() - i,
    {
        let ghost pos = cursor.position();
        let ghost done = entries_model(entries@);
        let field = &schema.fields[i];
        let value = read_field(cursor, field)?;
        let entry = Entry { name: field.name.clone(), value };
        proof {
            lemma_joined_push(
                done,
                (pos - start) as nat,
                EntryModel { name: entry.name@, value: entry.value@ },
                (cursor.position() - pos) as nat,
                record_decode(bytes, cursor.position(), schema@, (i + 1) as nat),
            );
            assert(entries@.push(entry).drop_last() =~= entries@);
        }
        entries.push(entry);
        i = i + 1;
    }
    proof {
        lemma_joined_end(entries_model(entries@), (cursor.position() - start) as nat, 0);
    }
    Ok(Record { entries })
}

/// The rows of a block of which `done` have been decoded and the rest decodes to `rest`.
pub open spec fn rows_joined(done: Seq<RowModel>, rest: Result<Seq<RowModel>, DecodeError>) -> Result<
    Seq<RowModel>,
    DecodeError,
> {
    match rest {
        Ok(more) => Ok(done + more),
        Err(e) => Err(e),
    }
}

/// Reads one row. Says nothing of the position after a failure.
fn read_row(cursor: &mut ByteCursor, schema: &TableSchema, sparse: bool) -> (r: Result<
    Row,
    DecodeError,
>)
    ensures
        final(cursor).bytes() == old(cursor).bytes(),
        match row_decode(old(cursor).bytes(), old(cursor).position(), schema@, sparse) {
            Err(e) => r == Err::<Row, _>(e),
            Ok((row, n)) => {
                &&& r is Ok
                &&& r->Ok_0@ == row
                &&& final(cursor).position() == old(cursor).position() + n
            },
        },
{
    let index = if sparse {
        Some(cursor.read_gamma()?)
    } else {
        None
    };
    let record = read_entries(cursor, schema)?;
    Ok(Row { index, record })
}

impl Record {
    /// Reads one record of the schema: every field in schema order, none left out.
    pub fn read(cursor: &mut ByteCursor, schema: &TableSchema) -> (r: Result<Record, DecodeError>)
        ensures
            match record_decode(old(cursor).bytes(), old(cursor).position(), schema@, 0) {
                Err(e) => r == Err::<Record, _>(e) && final(cursor).advanced_from(old(cursor), 0),
                Ok((entries, n)) => {
                    &&& r is Ok
                    &&& r->Ok_0@ == entries
                    &&& final(cursor).advanced_from(old(cursor), n as int)
                },
            },
            r matches Ok(record) ==> record_fits(schema@, record@, 0),
    {
        proof {
            lemma_decoded_record(cursor.bytes(), cursor.position(), schema@);
        }
        let start = cursor.offset();
        match read_entries(cursor, schema) {
            Ok(record) => Ok(record),
            Err(e) => {
                cursor.rewind(start);
                Err(e)
            },
        }
    }
}

/// Decodes the rows of a data block, one after the other until the block is exhausted. With
/// `sparse` set each record is preceded by its row number, which is kept with the record.
pub fn read_rows(block: ByteCursor, schema: &TableSchema, sparse: bool) -> (r: Result<
    Vec<Row>,
    DecodeError,
>)
    ensures
        match rows_decode(block.bytes(), block.position(), schema@, sparse) {
            Err(e) => r == Err::<Vec<Row>, _>(e),
            Ok(rows) => r is Ok && rows_model(r->Ok_0@) == rows,
        },
{
    let mut cursor = block;
    let ghost bytes = block.bytes();
    let ghost start = block.position();
    let mut rows: Vec<Row> = Vec::new();
    loop
        invariant
            cursor.bytes() == bytes,
            bytes == block.bytes(),
            start == block.position(),
            rows_decode(bytes, start, schema@, sparse) == rows_joined(
                rows_model(rows@),
                rows_decode(bytes, cursor.position(), schema@, sparse),
            ),
        decreases bytes_left(bytes, cursor.position()),
    {
        let ghost done = rows_model(rows@);
        if cursor.remaining() == 0 {
            proof {
                assert(done + Seq::<RowModel>::empty() =~= done);
            }
            return Ok(rows);
        }
        let before = cursor.offset();
        let row = read_row(&mut cursor, schema, sparse)?;
        if cursor.offset() == before {
            proof {
                assert(done + Seq::<RowModel>::empty() =~= done);
            }
            return Ok(rows);
        }
        proof {
            let rest = rows_decode(bytes, cursor.position(), schema@, sparse);
            if let Ok(more) = rest {
                assert(done + (seq![row@] + more) =~= done.push(row@) + more);
            }
            assert(rows@.push(row).drop_last() =~= rows@);
        }
        rows.push(row);
    }
}

} // verus!
