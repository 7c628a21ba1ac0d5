use vstd::prelude::*;
use crate::cursor::{
    joined, lemma_joined_end, lemma_joined_push, lemma_part_at, take_text, ByteCursor, Decoded,
};
use crate::endian::lemma_be_uint_digits;
use crate::error::{failure, DecodeError, ErrorKind};
use vstd::utf8::{decode_utf8, encode_utf8};
use crate::gamma::{
    gamma_decode, gamma_encode, gamma_len, lemma_gamma_at, lemma_gamma_roundtrip, write_gamma,
};
use crate::writer::put_bytes;

verus! {

/// The type of a table field, as its four-bit tag names it.
#[derive(Clone, Copy, Debug, PartialEq, Eq, Structural)]
pub enum FieldType {
    /// Tag 0. Never the type of a real field: a tag byte of 0 ends a field list.
    End,
    Int8,
    Uint8,
    Int16,
    Uint16,
    Int32,
    Uint32,
    Int64,
    Uint64,
    StringID,
    String,
    Struct,
}

/// The field type that a tag value names; none above 11.
pub open spec fn field_type_of_tag(tag: u8) -> Option<FieldType> {
    if tag == 0 {
        Some(FieldType::End)
    } else if tag == 1 {
        Some(FieldType::Int8)
    } else if tag == 2 {
        Some(FieldType::Uint8)
    } else if tag == 3 {
        Some(FieldType::Int16)
    } else if tag == 4 {
        Some(FieldType::Uint16)
    } else if tag == 5 {
        Some(FieldType::Int32)
    } else if tag == 6 {
        Some(FieldType::Uint32)
    } else if tag == 7 {
        Some(FieldType::Int64)
    } else if tag == 8 {
        Some(FieldType::Uint64)
    } else if tag == 9 {
        Some(FieldType::StringID)
    } else if tag == 10 {
        Some(FieldType::String)
    } else if tag == 11 {
        Some(FieldType::Struct)
    } else {
        None
    }
}

impl FieldType {
    /// The tag value of this type.
    pub open spec fn tag(self) -> u8 {
        match self {
            FieldType::End => 0,
            FieldType::Int8 => 1,
            FieldType::Uint8 => 2,
            FieldType::Int16 => 3,
            FieldType::Uint16 => 4,
            FieldType::Int32 => 5,
            FieldType::Uint32 => 6,
            FieldType::Int64 => 7,
            FieldType::Uint64 => 8,
            FieldType::StringID => 9,
            FieldType::String => 10,
            FieldType::Struct => 11,
        }
    }

    /// The field type that a raw tag value names.
    pub fn from_tag(tag: u8) -> (r: Option<FieldType>)
        ensures
            r == field_type_of_tag(tag),
    {
        match tag {
            0 => Some(FieldType::End),
            1 => Some(FieldType::Int8),
            2 => Some(FieldType::Uint8),
            3 => Some(FieldType::Int16),
            4 => Some(FieldType::Uint16),
            5 => Some(FieldType::Int32),
            6 => Some(FieldType::Uint32),
            7 => Some(FieldType::Int64),
            8 => Some(FieldType::Uint64),
            9 => Some(FieldType::StringID),
            10 => Some(FieldType::String),
            11 => Some(FieldType::Struct),
            _ => None,
        }
    }

    /// The raw tag value of this type.
    pub fn to_tag(self) -> (tag: u8)
        ensures
            tag == self.tag(),
            field_type_of_tag(tag) == Some(self),
    {
        match self {
            FieldType::End => 0,
            FieldType::Int8 => 1,
            FieldType::Uint8 => 2,
            FieldType::Int16 => 3,
            FieldType::Uint16 => 4,
            FieldType::Int32 => 5,
            FieldType::Uint32 => 6,
            FieldType::Int64 => 7,
            FieldType::Uint64 => 8,
            FieldType::StringID => 9,
            FieldType::String => 10,
            FieldType::Struct => 11,
        }
    }
}

/// One field of a table: its name, its type, and whether its value is a counted list of that
/// type rather than a single value. A field of type `Struct` owns the schema of its own
/// fields; for every other type `nested` is empty.
#[derive(Debug, PartialEq, Eq)]
pub struct FieldDef {
    pub name: String,
    pub field_type: FieldType,
    pub is_list: bool,
    pub nested: TableSchema,
}

/// The fields of a table, in the order in which rows store them.
#[derive(Debug, PartialEq, Eq)]
pub struct TableSchema {
    pub fields: Vec<FieldDef>,
}

/// A field as a mathematical value.
pub struct FieldModel {
    pub name: Seq<char>,
    pub field_type: FieldType,
    pub is_list: bool,
    pub nested: Seq<FieldModel>,
}

/// The mathematical value of a field.
pub open spec fn field_model(field: FieldDef) -> FieldModel
    decreases field,
{
    FieldModel {
        name: field.name@,
        field_type: field.field_type,
        is_list: field.is_list,
        nested: fields_model(field.nested.fields@),
    }
}

/// The mathematical value of a run of fields.
pub open spec fn fields_model(fields: Seq<FieldDef>) -> Seq<FieldModel>
    decreases fields,
{
    if fields.len() == 0 {
        Seq::empty()
    } else {
        fields_model(fields.drop_last()).push(field_model(fields.last()))
    }
}

/// The model of a run of fields has the model of each field at its place.
pub proof fn lemma_fields_model(fields: Seq<FieldDef>)
    ensures
        fields_model(fields).len() == fields.len(),
        forall|i: int| 0 <= i < fields.len() ==> #[trigger] fields_model(fields)[i] == field_model(fields[i]),
    decreases fields.len(),
{
    if fields.len() > 0 {
        lemma_fields_model(fields.drop_last());
    }
}

impl View for FieldDef {
    type V = FieldModel;

    open spec fn view(&self) -> FieldModel {
        field_model(*self)
    }
}

impl View for TableSchema {
    type V = Seq<FieldModel>;

    open spec fn view(&self) -> Seq<FieldModel> {
        fields_model(self.fields@)
    }
}

/// What a field declaration says of the field itself: its name, type and list flag.
pub struct FieldHead {
    pub name: Seq<char>,
    pub field_type: FieldType,
    pub is_list: bool,
}

/// What stands at `pos` in a field list, and how many bytes it takes: a field declaration, or
/// `None` for the end of the list.
///
/// A tag byte of 0 ends the list. Any other tag carries the list flag in bit 4 and the field
/// type in its low nibble, which must lie in `1..=11`; the name's length follows as a
/// variable-length integer, then the name in UTF-8. A name length of 0 ends the list as well.
pub open spec fn item_decode(bytes: Seq<u8>, pos: int) -> Decoded<Option<FieldHead>> {
    if !(0 <= pos < bytes.len()) {
        Err(failure(ErrorKind::OutOfBounds, pos))
    } else if bytes[pos] == 0 {
        Ok((None, 1))
    } else {
        match field_type_of_tag(bytes[pos] % 16) {
            None => Err(failure(ErrorKind::UnknownFieldType, pos)),
            Some(FieldType::End) => Err(failure(ErrorKind::UnknownFieldType, pos)),
            Some(field_type) => match gamma_decode(bytes, pos + 1) {
                Err(e) => Err(e),
                Ok((len, width)) => if len == 0 {
                    Ok((None, 1 + width))
                } else {
                    match take_text(bytes, pos + 1 + width, len as nat) {
                        Err(e) => Err(e),
                        Ok(name) => Ok(
                            (
                                Some(
                                    FieldHead {
                                        name,
                                        field_type,
                                        is_list: bytes[pos] / 16 % 2 == 1,
                                    },
                                ),
                                1 + width + len as nat,
                            ),
                        ),
                    }
                },
            },
        }
    }
}

/// How many bytes stand at or after `pos`.
pub open spec fn bytes_left(bytes: Seq<u8>, pos: int) -> nat {
    if pos <= bytes.len() {
        (bytes.len() - pos) as nat
    } else {
        0
    }
}

/// The field list that starts at `pos`, and how many bytes it takes up to and including its
/// end marker.
///
/// The field list of a `Struct` field stands right after that field's declaration; the list
/// that the field belongs to goes on after the nested list's end marker.
pub open spec fn schema_decode(bytes: Seq<u8>, pos: int) -> Decoded<Seq<FieldModel>>
    decreases bytes_left(bytes, pos),
{
    match item_decode(bytes, pos) {
        Err(e) => Err(e),
        Ok((None, n)) => Ok((Seq::empty(), n)),
        Ok((Some(head), n)) => {
            let inner = if head.field_type == FieldType::Struct {
                schema_decode(bytes, pos + n)
            } else {
                Ok((Seq::empty(), 0))
            };
            match inner {
                Err(e) => Err(e),
                Ok((nested, m)) => joined(
                    seq![
                        FieldModel {
                            name: head.name,
                            field_type: head.field_type,
                            is_list: head.is_list,
                            nested,
                        },
                    ],
                    n + m,
                    schema_decode(bytes, pos + n + m),
                ),
            }
        },
    }
}

/// The schema that a header block holds, where the block is the part of `bytes` from `start`
/// on. An empty block holds the empty schema; bytes after the end marker are not read.
pub open spec fn table_schema(bytes: Seq<u8>, start: int) -> Result<Seq<FieldModel>, DecodeError> {
    if start >= bytes.len() {
        Ok(Seq::empty())
    } else {
        match schema_decode(bytes, start) {
            Ok((fields, _)) => Ok(fields),
            Err(e) => Err(e),
        }
    }
}

/// Reads what stands at the cursor in a field list: a declaration, or `None` for the end of
/// the list. Says nothing of the position after a failure.
fn read_item(cursor: &mut ByteCursor) -> (r: Result<Option<(String, FieldType, bool)>, DecodeError>)
    ensures
        final(cursor).bytes() == old(cursor).bytes(),
        match item_decode(old(cursor).bytes(), old(cursor).position()) {
            Err(e) => r == Err::<Option<(String, FieldType, bool)>, _>(e),
            Ok((None, n)) => {
                &&& r is Ok
                &&& r->Ok_0 is None
                &&& final(cursor).position() == old(cursor).position() + n
            },
            Ok((Some(head), n)) => {
                &&& r is Ok
                &&& r->Ok_0 is Some
                &&& r->Ok_0->Some_0.0@ == head.name
                &&& r->Ok_0->Some_0.1 == head.field_type
                &&& r->Ok_0->Some_0.2 == head.is_list
                &&& final(cursor).position() == old(cursor).position() + n
            },
        },
{
    let start = cursor.offset();
    let tag = cursor.read_u8()?;
    proof {
        lemma_be_uint_digits(old(cursor).bytes().subrange(start as int, start + 1));
        assert(tag & 0x0F == tag % 16) by (bit_vector);
        assert((tag & 0x10 != 0) == (tag / 16 % 2 == 1)) by (bit_vector);
    }
    if tag == 0 {
        return Ok(None);
    }
    let field_type = match FieldType::from_tag(tag & 0x0F) {
        None => {
            return Err(DecodeError::new(ErrorKind::UnknownFieldType, start));
        },
        Some(FieldType::End) => {
            return Err(DecodeError::new(ErrorKind::UnknownFieldType, start));
        },
        Some(field_type) => field_type,
    };
    let len = cursor.read_gamma()?;
    if len == 0 {
        return Ok(None);
    }
    let name = cursor.read_string(len as usize)?;
    Ok(Some((name, field_type, tag & 0x10 != 0)))
}

/// Reads a field list up to and including its end marker. Says nothing of the position after
/// a failure.
fn read_fields(cursor: &mut ByteCursor) -> (r: Result<Vec<FieldDef>, DecodeError>)
    ensures
        final(cursor).bytes() == old(cursor).bytes(),
        match schema_decode(old(cursor).bytes(), old(cursor).position()) {
            Err(e) => r == Err::<Vec<FieldDef>, _>(e),
            Ok((fields, n)) => {
                &&& r is Ok
                &&& fields_model(r->Ok_0@) == fields
                &&& final(cursor).position() == old(cursor).position() + n
            },
        },
    decreases bytes_left(old(cursor).bytes(), old(cursor).position()),
{
    let ghost bytes = cursor.bytes();
    let ghost start = cursor.position();
    let mut fields: Vec<FieldDef> = Vec::new();
    loop
        invariant
            cursor.bytes() == bytes,
            bytes == old(cursor).bytes(),
            start == old(cursor).position(),
            start <= cursor.position(),
            schema_decode(bytes, start) == joined(
                fields_model(fields@),
                (cursor.position() - start) as nat,
                schema_decode(bytes, cursor.position()),
            ),
        decreases bytes_left(bytes, cursor.position()),
    {
        let ghost pos = cursor.position();
        let ghost done = fields_model(fields@);
        let item = read_item(cursor)?;
        match item {
            None => {
                proof {
                    lemma_joined_end(done, (pos - start) as nat, (cursor.position() - pos) as nat);
                }
                return Ok(fields);
            },
            Some((name, field_type, is_list)) => {
                let ghost after_head = cursor.position();
                let nested = match field_type {
                    FieldType::Struct => read_fields(cursor)?,
                    _ => Vec::new(),
                };
                let field = FieldDef {
                    name,
                    field_type,
                    is_list,
                    nested: TableSchema { fields: nested },
                };
                proof {
                    let width = (cursor.position() - pos) as nat;
                    lemma_joined_push(
                        done,
                        (pos - start) as nat,
                        field_model(field),
                        width,
                        schema_decode(bytes, cursor.position()),
                    );
                    assert(fields@.push(field).drop_last() =~= fields@);
                }
                fields.push(field);
            },
        }
    }
}

impl TableSchema {
    /// Reads a field list, nested lists included, up to and including its end marker.
    pub fn read(cursor: &mut ByteCursor) -> (r: Result<TableSchema, DecodeError>)
        ensures
            match schema_decode(old(cursor).bytes(), old(cursor).position()) {
                Err(e) => r == Err::<TableSchema, _>(e) && final(cursor).advanced_from(old(cursor), 0),
                Ok((fields, n)) => {
                    &&& r is Ok
                    &&& r->Ok_0@ == fields
                    &&& final(cursor).advanced_from(old(cursor), n as int)
                },
            },
            r matches Ok(schema) ==> schema_wf(schema@),
    {
        proof {
            lemma_decoded_schema_wf(cursor.bytes(), cursor.position());
        }
        let start = cursor.offset();
        match read_fields(cursor) {
            Ok(fields) => Ok(TableSchema { fields }),
            Err(e) => {
                cursor.rewind(start);
                Err(e)
            },
        }
    }

    /// Decodes the schema that a header block holds. An empty block holds the empty schema;
    /// otherwise the block must start with a field list, and what follows that list's end
    /// marker is not read.
    pub fn decode(block: ByteCursor) -> (r: Result<TableSchema, DecodeError>)
        ensures
            match table_schema(block.bytes(), block.position()) {
                Err(e) => r == Err::<TableSchema, _>(e),
                Ok(fields) => r is Ok && r->Ok_0@ == fields,
            },
            r matches Ok(schema) ==> schema_wf(schema@),
    {
        let mut block = block;
        if block.remaining() == 0 {
            return Ok(TableSchema { fields: Vec::new() });
        }
        TableSchema::read(&mut block)
    }
}

/// A tag byte of 0 ends a field list at once: at the start of a header block it makes the
/// empty schema. A tag byte whose low nibble is 12 or more is an unknown field type, and so is
/// any other tag byte whose low nibble is 0.
pub proof fn lemma_tag_outcomes(bytes: Seq<u8>, pos: int)
    requires
        0 <= pos < bytes.len(),
    ensures
        bytes[pos] == 0 ==> schema_decode(bytes, pos) == Ok::<_, DecodeError>(
            (Seq::<FieldModel>::empty(), 1nat),
        ),
        bytes[pos] == 0 ==> table_schema(bytes, pos) == Ok::<_, DecodeError>(
            Seq::<FieldModel>::empty(),
        ),
        bytes[pos] % 16 >= 12 || (bytes[pos] != 0 && bytes[pos] % 16 == 0) ==> schema_decode(
            bytes,
            pos,
        ) == Err::<(Seq<FieldModel>, nat), _>(failure(ErrorKind::UnknownFieldType, pos)),
        bytes[pos] % 16 >= 12 || (bytes[pos] != 0 && bytes[pos] % 16 == 0) ==> table_schema(
            bytes,
            pos,
        ) == Err::<Seq<FieldModel>, _>(failure(ErrorKind::UnknownFieldType, pos)),
{
}

/// The flag that a tag byte carries in bit 4 for a list field.
pub const LIST_FLAG: u8 = 0x10;

/// The tag byte of a field declaration: the type's tag, with the list flag for a list field.
pub open spec fn tag_byte(field_type: FieldType, is_list: bool) -> u8 {
    if is_list {
        (field_type.tag() + LIST_FLAG) as u8
    } else {
        field_type.tag()
    }
}

/// The bytes of a field declaration: tag byte, name length and name, and for a `Struct` field
/// the field list of its nested schema right behind.
pub open spec fn field_encode(field: FieldModel) -> Seq<u8>
    decreases field,
{
    if field.field_type == FieldType::Struct {
        head_encode(field) + schema_encode(field.nested)
    } else {
        head_encode(field)
    }
}

/// The bytes of a field list: each field's declaration in order, then the end marker 0.
pub open spec fn schema_encode(fields: Seq<FieldModel>) -> Seq<u8>
    decreases fields,
{
    if fields.len() == 0 {
        seq![0u8]
    } else {
        field_encode(fields[0]) + schema_encode(fields.drop_first())
    }
}

/// Whether a field can be written down and read back: it has a real type, a name that is not
/// empty and whose UTF-8 form has a length that fits 32 bits, and a nested schema of the same
/// kind exactly when it is a `Struct`.
pub open spec fn field_wf(field: FieldModel) -> bool
    decreases field,
{
    &&& field.field_type != FieldType::End
    &&& field.name.len() > 0
    &&& encode_utf8(field.name).len() <= u32::MAX
    &&& if field.field_type == FieldType::Struct {
        schema_wf(field.nested)
    } else {
        field.nested.len() == 0
    }
}

/// Whether every field of a schema can be written down and read back.
pub open spec fn schema_wf(fields: Seq<FieldModel>) -> bool
    decreases fields,
{
    fields.len() > 0 ==> field_wf(fields[0]) && schema_wf(fields.drop_first())
}

/// The encoding of a non-empty text is not empty.
proof fn lemma_encode_utf8_nonempty(text: Seq<char>)
    requires
        text.len() > 0,
    ensures
        encode_utf8(text).len() > 0,
{
    vstd::utf8::encode_utf8_first_scalar(text);
}

/// The bytes of a field declaration without the nested list.
pub open spec fn head_encode(field: FieldModel) -> Seq<u8> {
    seq![tag_byte(field.field_type, field.is_list)] + gamma_encode(
        encode_utf8(field.name).len() as u32,
    ) + encode_utf8(field.name)
}

/// A tag byte gives back the type and the list flag that it was made of.
proof fn lemma_tag_byte(field_type: FieldType, is_list: bool)
    ensures
        field_type != FieldType::End ==> tag_byte(field_type, is_list) != 0,
        field_type_of_tag(tag_byte(field_type, is_list) % 16) == Some(field_type),
        (tag_byte(field_type, is_list) / 16 % 2 == 1) == is_list,
{
}

/// Where the declaration of a well-formed field stands at `pos`, decoding at `pos` gives the
/// declaration back.
proof fn lemma_head_at(bytes: Seq<u8>, pos: int, field: FieldModel)
    requires
        field.field_type != FieldType::End,
        field.name.len() > 0,
        encode_utf8(field.name).len() <= u32::MAX,
        0 <= pos,
        pos + head_encode(field).len() <= bytes.len(),
        bytes.subrange(pos, pos + head_encode(field).len()) == head_encode(field),
    ensures
        item_decode(bytes, pos) == Ok::<_, DecodeError>(
            (
                Some(
                    FieldHead {
                        name: field.name,
                        field_type: field.field_type,
                        is_list: field.is_list,
                    },
                ),
                head_encode(field).len(),
            ),
        ),
{
    let name = encode_utf8(field.name);
    let tag = tag_byte(field.field_type, field.is_list);
    let len = name.len() as u32;
    let width = gamma_len(len) as int;
    let head = head_encode(field);
    lemma_encode_utf8_nonempty(field.name);
    lemma_gamma_roundtrip(len, Seq::empty(), Seq::empty());
    lemma_tag_byte(field.field_type, field.is_list);
    assert(head.len() == 1 + width + name.len());
    assert(bytes.subrange(pos, pos + head.len())[0] == bytes[pos]);
    assert(bytes[pos] == tag);
    assert(head.subrange(1, 1 + width) =~= gamma_encode(len));
    lemma_part_at(bytes, pos, head, 1, gamma_encode(len));
    lemma_gamma_at(bytes, pos + 1, len);
    assert(head.subrange(1 + width, 1 + width + name.len() as int) =~= name);
    lemma_part_at(bytes, pos, head, 1 + width, name);
    vstd::utf8::encode_utf8_valid_utf8(field.name);
    vstd::utf8::encode_utf8_decode_utf8(field.name);
    assert(take_text(bytes, pos + 1 + width, len as nat) == Ok::<_, DecodeError>(field.name));
}

/// Where the encoding of a well-formed field list stands at `pos` in a buffer, decoding at
/// `pos` gives the list back and takes the bytes of the encoding.
pub proof fn lemma_schema_at(bytes: Seq<u8>, pos: int, fields: Seq<FieldModel>)
    requires
        schema_wf(fields),
        0 <= pos,
        pos + schema_encode(fields).len() <= bytes.len(),
        bytes.subrange(pos, pos + schema_encode(fields).len()) == schema_encode(fields),
    ensures
        schema_decode(bytes, pos) == Ok::<_, DecodeError>((fields, schema_encode(fields).len())),
    decreases fields,
{
    let code = schema_encode(fields);
    if fields.len() == 0 {
        assert(bytes.subrange(pos, pos + code.len())[0] == bytes[pos]);
        assert(item_decode(bytes, pos) == Ok::<_, DecodeError>((None::<FieldHead>, 1nat)));
        assert(fields =~= Seq::<FieldModel>::empty());
    } else {
        let field = fields[0];
        let rest = fields.drop_first();
        assert(field_wf(field));
        let head = head_encode(field);
        let nested_code = if field.field_type == FieldType::Struct {
            schema_encode(field.nested)
        } else {
            Seq::<u8>::empty()
        };
        let rest_code = schema_encode(rest);
        assert(field_encode(field) =~= head + nested_code);
        assert(code =~= head + nested_code + rest_code);
        assert(code.subrange(0, head.len() as int) =~= head);
        lemma_part_at(bytes, pos, code, 0, head);
        lemma_head_at(bytes, pos, field);
        if field.field_type == FieldType::Struct {
            assert(code.subrange(head.len() as int, (head.len() + nested_code.len()) as int)
                =~= nested_code);
            lemma_part_at(bytes, pos, code, head.len() as int, nested_code);
            lemma_schema_at(bytes, pos + head.len(), field.nested);
        } else {
            assert(field.nested =~= Seq::<FieldModel>::empty());
        }
        let offset = (head.len() + nested_code.len()) as int;
        assert(code.subrange(offset, offset + rest_code.len() as int) =~= rest_code);
        lemma_part_at(bytes, pos, code, offset, rest_code);
        lemma_schema_at(bytes, pos + offset, rest);
        assert(seq![field] + rest =~= fields);
        let inner: Decoded<Seq<FieldModel>> = if field.field_type == FieldType::Struct {
            schema_decode(bytes, pos + head.len())
        } else {
            Ok((Seq::empty(), 0))
        };
        assert(inner == Ok::<_, DecodeError>((field.nested, nested_code.len())));
        assert(schema_decode(bytes, pos + offset) == Ok::<_, DecodeError>((rest, rest_code.len())));
        assert(schema_decode(bytes, pos) == joined(
            seq![field],
            (head.len() + nested_code.len()) as nat,
            schema_decode(bytes, pos + head.len() + nested_code.len()),
        ));
    }
}

/// Writing a well-formed schema down and decoding the bytes gives the schema back, wherever
/// the bytes stand in a buffer: the field list of a `Struct` field is read right after the
/// field's declaration, and the fields that follow it are read after the nested list's end
/// marker, each at its place and in order.
pub proof fn lemma_schema_roundtrip(fields: Seq<FieldModel>, before: Seq<u8>, after: Seq<u8>)
    requires
        schema_wf(fields),
    ensures
        schema_decode(before + schema_encode(fields) + after, before.len() as int) == Ok::<
            _,
            DecodeError,
        >((fields, schema_encode(fields).len())),
{
    let bytes = before + schema_encode(fields) + after;
    let pos = before.len() as int;
    assert(bytes.subrange(pos, pos + schema_encode(fields).len()) =~= schema_encode(fields));
    lemma_schema_at(bytes, pos, fields);
}

/// A well-formed field in front of a well-formed list makes a well-formed list.
proof fn lemma_schema_wf_cons(field: FieldModel, rest: Seq<FieldModel>)
    requires
        field_wf(field),
        schema_wf(rest),
    ensures
        schema_wf(seq![field] + rest),
{
    let all = seq![field] + rest;
    assert(all[0] == field);
    assert(all.drop_first() =~= rest);
}

/// Every schema that decoding gives is well-formed: each field has a real type and a name
/// that is not empty, and only `Struct` fields have fields of their own.
pub proof fn lemma_decoded_schema_wf(bytes: Seq<u8>, pos: int)
    ensures
        schema_decode(bytes, pos) matches Ok((fields, _)) ==> schema_wf(fields),
        table_schema(bytes, pos) matches Ok(fields) ==> schema_wf(fields),
    decreases bytes_left(bytes, pos),
{
    if let Ok((Some(head), n)) = item_decode(bytes, pos) {
        let width = gamma_decode(bytes, pos + 1)->Ok_0.1;
        let len = gamma_decode(bytes, pos + 1)->Ok_0.0;
        let run = bytes.subrange(pos + 1 + width, pos + 1 + width + len);
        assert(head.name == decode_utf8(run));
        vstd::utf8::decode_utf8_encode_utf8(run);
        assert(head.name.len() > 0) by {
            if head.name.len() == 0 {
                assert(encode_utf8(head.name).len() == 0);
            }
        }
        if head.field_type == FieldType::Struct {
            lemma_decoded_schema_wf(bytes, pos + n);
        }
        let inner: Decoded<Seq<FieldModel>> = if head.field_type == FieldType::Struct {
            schema_decode(bytes, pos + n)
        } else {
            Ok((Seq::empty(), 0))
        };
        if let Ok((nested, m)) = inner {
            lemma_decoded_schema_wf(bytes, pos + n + m);
            if let Ok((rest, _)) = schema_decode(bytes, pos + n + m) {
                let field = FieldModel {
                    name: head.name,
                    field_type: head.field_type,
                    is_list: head.is_list,
                    nested,
                };
                assert(field_wf(field));
                lemma_schema_wf_cons(field, rest);
            }
        }
    }
}

/// Writes a field declaration, nested list included, unless the field is not well-formed.
/// May leave a part of the declaration in `out` where it gives up.
fn write_field(field: &FieldDef, out: &mut Vec<u8>) -> (ok: bool)
    ensures
        ok == field_wf(field@),
        ok ==> final(out)@ == old(out)@ + field_encode(field@),
    decreases field,
{
    let name = field.name.as_str().as_bytes();
    proof {
        if field.name@.len() > 0 {
            lemma_encode_utf8_nonempty(field.name@);
        }
        lemma_fields_model(field.nested.fields@);
        lemma_tag_byte(field.field_type, field.is_list);
    }
    if name.len() == 0 || name.len() > u32::MAX as usize {
        return false;
    }
    let tag = field.field_type.to_tag();
    if tag == 0 {
        return false;
    }
    out.push(if field.is_list { tag + LIST_FLAG } else { tag });
    write_gamma(name.len() as u32, out);
    put_bytes(name, out);
    assert(out@ =~= old(out)@ + head_encode(field@));
    match field.field_type {
        FieldType::Struct => {
            let ok = write_fields(&field.nested.fields, out);
            assert(ok ==> out@ =~= old(out)@ + field_encode(field@));
            ok
        },
        _ => field.nested.fields.len() == 0,
    }
}

/// Writes a field list and its end marker, unless a field is not well-formed. May leave a
/// part of the list in `out` where it gives up.
fn write_fields(fields: &Vec<FieldDef>, out: &mut Vec<u8>) -> (ok: bool)
    ensures
        ok == schema_wf(fields_model(fields@)),
        ok ==> final(out)@ == old(out)@ + schema_encode(fields_model(fields@)),
    decreases fields,
{
    let ghost model = fields_model(fields@);
    proof {
        lemma_fields_model(fields@);
        assert(model.skip(0) =~= model);
    }
    let mut i: usize = 0;
    while i < fields.len()
        invariant
            i <= fields.len(),
            model == fields_model(fields@),
            model.len() == fields.len(),
            forall|k: int| 0 <= k < fields.len() ==> #[trigger] model[k] == field_model(fields@[k]),
            schema_wf(model) == schema_wf(model.skip(i as int)),
            out@ + schema_encode(model.skip(i as int)) == old(out)@ + schema_encode(model),
        decreases fields.len() - i,
    {
        let ghost rest = model.skip(i as int);
        let ghost before = out@;
        proof {
            assert(rest[0] == model[i as int]);
            assert(rest.drop_first() =~= model.skip(i + 1));
        }
        if !write_field(&fields[i], out) {
            return false;
        }
        proof {
            assert(out@ + schema_encode(model.skip(i + 1)) =~= before + schema_encode(rest));
        }
        i = i + 1;
    }
    proof {
        assert(model.skip(i as int) =~= Seq::<FieldModel>::empty());
        assert(out@ + seq![0u8] == old(out)@ + schema_encode(model));
    }
    out.push(0);
    assert(out@ =~= old(out)@ + schema_encode(model));
    true
}

impl TableSchema {
    /// The bytes of this schema as a header block holds them, or `None` where the schema
    /// cannot be written down so that it reads back: a field of type `End`, an empty name, a
    /// name longer than 32 bits can count, or nested fields under a field that is no `Struct`.
    pub fn to_bytes(&self) -> (r: Option<Vec<u8>>)
        ensures
            r is Some <==> schema_wf(self@),
            r matches Some(bytes) ==> bytes@ == schema_encode(self@),
    {
        let mut out: Vec<u8> = Vec::new();
        if write_fields(&self.fields, &mut out) {
            assert(out@ =~= schema_encode(self@));
            Some(out)
        } else {
            None
        }
    }
}

} // verus!
