use vstd::prelude::*;
use vstd::utf8::{encode_utf8, encode_utf8_decode_utf8, encode_utf8_valid_utf8};
use crate::cursor::{joined, lemma_part_at, take_int, take_text, take_uint};
use crate::endian::{
    be_bytes, lemma_be_bytes_len, lemma_be_roundtrip, lemma_radix_values, radix,
    twos_complement_bits,
};
use crate::error::DecodeError;
use crate::gamma::{
    gamma_decode, gamma_encode, gamma_len, lemma_gamma_at, lemma_gamma_roundtrip, write_gamma,
};
use crate::record::{
    elems_decode, entries_model, field_decode, record_decode, scalar_decode, value_model,
    values_model, Entry, EntryModel, Record, Value, ValueModel,
};
use crate::schema::{
    field_model, lemma_fields_model, FieldDef, FieldModel, FieldType, TableSchema,
};
use crate::writer::{
    put_bytes, put_i16, put_i32, put_i64, put_i8, put_u16, put_u32, put_u64, put_u8,
};

verus! {

/// Whether `value` is a single value of the field's type that can be written down: an
/// integer of the type's variant, a text whose UTF-8 form has a length that fits 32 bits, or
/// a record that fits the nested schema.
pub open spec fn scalar_fits(field: FieldModel, value: ValueModel) -> bool
    decreases field, 0nat, 0nat,
{
    match (field.field_type, value) {
        (FieldType::Int8, ValueModel::Int8(_)) => true,
        (FieldType::Uint8, ValueModel::Uint8(_)) => true,
        (FieldType::Int16, ValueModel::Int16(_)) => true,
        (FieldType::Uint16, ValueModel::Uint16(_)) => true,
        (FieldType::Int32, ValueModel::Int32(_)) => true,
        (FieldType::Uint32, ValueModel::Uint32(_)) => true,
        (FieldType::Int64, ValueModel::Int64(_)) => true,
        (FieldType::Uint64, ValueModel::Uint64(_)) => true,
        (FieldType::StringID, ValueModel::StringID(_)) => true,
        (FieldType::String, ValueModel::Text(text)) => encode_utf8(text).len() <= u32::MAX,
        (FieldType::Struct, ValueModel::Struct(entries)) => record_fits(field.nested, entries, 0),
        _ => false,
    }
}

/// The bytes of a single value of the field's type.
pub open spec fn scalar_encode(field: FieldModel, value: ValueModel) -> Seq<u8>
    decreases field, 0nat, 0nat,
{
    match value {
        ValueModel::Int8(v) => be_bytes(twos_complement_bits(v as int, 1), 1),
        ValueModel::Uint8(v) => be_bytes(v as nat, 1),
        ValueModel::Int16(v) => be_bytes(twos_complement_bits(v as int, 2), 2),
        ValueModel::Uint16(v) => be_bytes(v as nat, 2),
        ValueModel::Int32(v) => be_bytes(twos_complement_bits(v as int, 4), 4),
        ValueModel::Uint32(v) => be_bytes(v as nat, 4),
        ValueModel::Int64(v) => be_bytes(twos_complement_bits(v as int, 8), 8),
        ValueModel::Uint64(v) => be_bytes(v as nat, 8),
        ValueModel::StringID(v) => be_bytes(v as nat, 4),
        ValueModel::Text(text) => gamma_encode(encode_utf8(text).len() as u32) + encode_utf8(text),
        ValueModel::Struct(entries) => record_encode(field.nested, entries, 0),
        ValueModel::List(_) => Seq::empty(),
    }
}

/// Whether every item from index `from` on is a single value of the field's type.
pub open spec fn elems_fit(field: FieldModel, items: Seq<ValueModel>, from: nat) -> bool
    decreases field, 1nat, items.len() - from,
{
    from < items.len() ==> scalar_fits(field, items[from as int]) && elems_fit(
        field,
        items,
        from + 1,
    )
}

/// The bytes of the items from index `from` on, one after the other.
pub open spec fn elems_encode(field: FieldModel, items: Seq<ValueModel>, from: nat) -> Seq<u8>
    decreases field, 1nat, items.len() - from,
{
    if from >= items.len() {
        Seq::empty()
    } else {
        scalar_encode(field, items[from as int]) + elems_encode(field, items, from + 1)
    }
}

/// Whether `value` is a value of the field: for a list field a list of at most `2^32 - 1`
/// single values, otherwise a single value.
pub open spec fn value_fits(field: FieldModel, value: ValueModel) -> bool
    decreases field, 2nat, 0nat,
{
    if field.is_list {
        value matches ValueModel::List(items) && items.len() <= u32::MAX && elems_fit(
            field,
            items,
            0,
        )
    } else {
        scalar_fits(field, value)
    }
}

/// The bytes of the value of a field: for a list field the element count and the elements.
pub open spec fn value_encode(field: FieldModel, value: ValueModel) -> Seq<u8>
    decreases field, 2nat, 0nat,
{
    if field.is_list {
        match value {
            ValueModel::List(items) => gamma_encode(items.len() as u32) + elems_encode(
                field,
                items,
                0,
            ),
            _ => Seq::empty(),
        }
    } else {
        scalar_encode(field, value)
    }
}

/// Whether a record fits a schema from the field at index `from` on: it has one entry for
/// each field, under the field's name and with a value of the field.
pub open spec fn record_fits(fields: Seq<FieldModel>, entries: Seq<EntryModel>, from: nat) -> bool
    decreases fields, fields.len() - from, 0nat,
{
    &&& entries.len() == fields.len()
    &&& from < fields.len() ==> {
        &&& entries[from as int].name == fields[from as int].name
        &&& value_fits(fields[from as int], entries[from as int].value)
        &&& record_fits(fields, entries, from + 1)
    }
}

/// The bytes of a record from the field at index `from` on: the values in schema order.
pub open spec fn record_encode(fields: Seq<FieldModel>, entries: Seq<EntryModel>, from: nat) -> Seq<u8>
    decreases fields, fields.len() - from, 0nat,
{
    if from >= fields.len() {
        Seq::empty()
    } else {
        value_encode(fields[from as int], entries[from as int].value) + record_encode(
            fields,
            entries,
            from + 1,
        )
    }
}

/// Where the big-endian spelling of a number that fits `width` bytes stands at `pos`,
/// reading an unsigned integer of that width at `pos` gives the number.
pub proof fn lemma_uint_at(bytes: Seq<u8>, pos: int, value: nat, width: nat)
    requires
        value < radix(width),
        0 <= pos,
        pos + width <= bytes.len(),
        bytes.subrange(pos, pos + width) == be_bytes(value, width),
    ensures
        take_uint(bytes, pos, width) == Ok::<_, DecodeError>(value),
{
    lemma_be_roundtrip(value, width);
}

/// Where the two's complement spelling of a signed number that fits `width` bytes stands at
/// `pos`, reading a signed integer of that width at `pos` gives the number.
pub proof fn lemma_int_at(bytes: Seq<u8>, pos: int, value: int, width: nat)
    requires
        -(radix(width) as int) <= 2 * value < radix(width),
        0 <= pos,
        pos + width <= bytes.len(),
        bytes.subrange(pos, pos + width) == be_bytes(twos_complement_bits(value, width), width),
    ensures
        take_int(bytes, pos, width) == Ok::<_, DecodeError>(value),
{
    lemma_be_roundtrip(twos_complement_bits(value, width), width);
}

/// Where the UTF-8 form of a text stands at `pos`, reading that many bytes of text at `pos`
/// gives the text.
pub proof fn lemma_text_at(bytes: Seq<u8>, pos: int, text: Seq<char>)
    requires
        0 <= pos,
        pos + encode_utf8(text).len() <= bytes.len(),
        bytes.subrange(pos, pos + encode_utf8(text).len()) == encode_utf8(text),
    ensures
        take_text(bytes, pos, encode_utf8(text).len()) == Ok::<_, DecodeError>(text),
{
    encode_utf8_valid_utf8(text);
    encode_utf8_decode_utf8(text);
}

/// Where the bytes of a single value that fits the field stand at `pos`, decoding a single
/// value of the field's type at `pos` gives the value and takes those bytes.
pub proof fn lemma_scalar_at(bytes: Seq<u8>, pos: int, field: FieldModel, value: ValueModel)
    requires
        scalar_fits(field, value),
        0 <= pos,
        pos + scalar_encode(field, value).len() <= bytes.len(),
        bytes.subrange(pos, pos + scalar_encode(field, value).len()) == scalar_encode(field, value),
    ensures
        scalar_decode(bytes, pos, field) == Ok::<_, DecodeError>(
            (value, scalar_encode(field, value).len()),
        ),
    decreases field, 0nat, 0nat,
{
    lemma_radix_values();
    match value {
        ValueModel::Int8(v) => {
            lemma_be_bytes_len(twos_complement_bits(v as int, 1), 1);
            lemma_int_at(bytes, pos, v as int, 1);
        },
        ValueModel::Uint8(v) => {
            lemma_be_bytes_len(v as nat, 1);
            lemma_uint_at(bytes, pos, v as nat, 1);
        },
        ValueModel::Int16(v) => {
            lemma_be_bytes_len(twos_complement_bits(v as int, 2), 2);
            lemma_int_at(bytes, pos, v as int, 2);
        },
        ValueModel::Uint16(v) => {
            lemma_be_bytes_len(v as nat, 2);
            lemma_uint_at(bytes, pos, v as nat, 2);
        },
        ValueModel::Int32(v) => {
            lemma_be_bytes_len(twos_complement_bits(v as int, 4), 4);
            lemma_int_at(bytes, pos, v as int, 4);
        },
        ValueModel::Uint32(v) => {
            lemma_be_bytes_len(v as nat, 4);
            lemma_uint_at(bytes, pos, v as nat, 4);
        },
        ValueModel::Int64(v) => {
            lemma_be_bytes_len(twos_complement_bits(v as int, 8), 8);
            lemma_int_at(bytes, pos, v as int, 8);
        },
        ValueModel::Uint64(v) => {
            lemma_be_bytes_len(v as nat, 8);
            lemma_uint_at(bytes, pos, v as nat, 8);
        },
        ValueModel::StringID(v) => {
            lemma_be_bytes_len(v as nat, 4);
            lemma_uint_at(bytes, pos, v as nat, 4);
        },
        ValueModel::Text(text) => {
            let name = encode_utf8(text);
            let len = name.len() as u32;
            let width = gamma_len(len) as int;
            let code = scalar_encode(field, value);
            lemma_gamma_roundtrip(len, Seq::empty(), Seq::empty());
            assert(code.subrange(0, width) =~= gamma_encode(len));
            lemma_part_at(bytes, pos, code, 0, gamma_encode(len));
            lemma_gamma_at(bytes, pos, len);
            assert(code.subrange(width, width + name.len() as int) =~= name);
            lemma_part_at(bytes, pos, code, width, name);
            lemma_text_at(bytes, pos + width, text);
        },
        ValueModel::Struct(entries) => {
            lemma_record_at(bytes, pos, field.nested, entries, 0);
            assert(entries.skip(0) =~= entries);
        },
        ValueModel::List(_) => {},
    }
}

/// Where the bytes of the items from index `from` on stand at `pos`, decoding that many
/// values of the field's type at `pos` gives those items and takes those bytes.
pub proof fn lemma_elems_at(
    bytes: Seq<u8>,
    pos: int,
    field: FieldModel,
    items: Seq<ValueModel>,
    from: nat,
)
    requires
        from <= items.len(),
        elems_fit(field, items, from),
        0 <= pos,
        pos + elems_encode(field, items, from).len() <= bytes.len(),
        bytes.subrange(pos, pos + elems_encode(field, items, from).len()) == elems_encode(
            field,
            items,
            from,
        ),
    ensures
        elems_decode(bytes, pos, field, (items.len() - from) as nat) == Ok::<_, DecodeError>(
            (items.skip(from as int), elems_encode(field, items, from).len()),
        ),
    decreases field, 1nat, items.len() - from,
{
    let code = elems_encode(field, items, from);
    if from >= items.len() {
        assert(items.skip(from as int) =~= Seq::<ValueModel>::empty());
    } else {
        let first = scalar_encode(field, items[from as int]);
        let rest = elems_encode(field, items, from + 1);
        assert(code.subrange(0, first.len() as int) =~= first);
        lemma_part_at(bytes, pos, code, 0, first);
        lemma_scalar_at(bytes, pos, field, items[from as int]);
        assert(code.subrange(first.len() as int, (first.len() + rest.len()) as int) =~= rest);
        lemma_part_at(bytes, pos, code, first.len() as int, rest);
        lemma_elems_at(bytes, pos + first.len(), field, items, from + 1);
        assert(seq![items[from as int]] + items.skip(from as int + 1) =~= items.skip(from as int));
        assert(elems_decode(bytes, pos, field, (items.len() - from) as nat) == joined(
            seq![items[from as int]],
            first.len(),
            elems_decode(bytes, pos + first.len(), field, (items.len() - from - 1) as nat),
        ));
    }
}

/// Where the bytes of a value that fits the field stand at `pos`, decoding the field's value
/// at `pos` gives the value and takes those bytes.
pub proof fn lemma_value_at(bytes: Seq<u8>, pos: int, field: FieldModel, value: ValueModel)
    requires
        value_fits(field, value),
        0 <= pos,
        pos + value_encode(field, value).len() <= bytes.len(),
        bytes.subrange(pos, pos + value_encode(field, value).len()) == value_encode(field, value),
    ensures
        field_decode(bytes, pos, field) == Ok::<_, DecodeError>(
            (value, value_encode(field, value).len()),
        ),
    decreases field, 2nat, 0nat,
{
    if field.is_list {
        let items = value->List_0;
        let count = items.len() as u32;
        let width = gamma_len(count) as int;
        let code = value_encode(field, value);
        let body = elems_encode(field, items, 0);
        lemma_gamma_roundtrip(count, Seq::empty(), Seq::empty());
        assert(code.subrange(0, width) =~= gamma_encode(count));
        lemma_part_at(bytes, pos, code, 0, gamma_encode(count));
        lemma_gamma_at(bytes, pos, count);
        assert(code.subrange(width, width + body.len() as int) =~= body);
        lemma_part_at(bytes, pos, code, width, body);
        lemma_elems_at(bytes, pos + width, field, items, 0);
        assert(items.skip(0) =~= items);
    } else {
        lemma_scalar_at(bytes, pos, field, value);
    }
}

/// Where the bytes of a record that fits the schema stand at `pos`, from the field at index
/// `from` on, decoding those fields at `pos` gives the record's entries from that index on
/// and takes those bytes.
pub proof fn lemma_record_at(
    bytes: Seq<u8>,
    pos: int,
    fields: Seq<FieldModel>,
    entries: Seq<EntryModel>,
    from: nat,
)
    requires
        record_fits(fields, entries, from),
        0 <= pos,
        pos + record_encode(fields, entries, from).len() <= bytes.len(),
        bytes.subrange(pos, pos + record_encode(fields, entries, from).len()) == record_encode(
            fields,
            entries,
            from,
        ),
    ensures
        record_decode(bytes, pos, fields, from) == Ok::<_, DecodeError>(
            (
                if from <= entries.len() {
                    entries.skip(from as int)
                } else {
                    Seq::empty()
                },
                record_encode(fields, entries, from).len(),
            ),
        ),
    decreases fields, fields.len() - from, 0nat,
{
    let code = record_encode(fields, entries, from);
    if from >= fields.len() {
        if from == entries.len() {
            assert(entries.skip(from as int) =~= Seq::<EntryModel>::empty());
        }
    } else {
        let field = fields[from as int];
        let entry = entries[from as int];
        let first = value_encode(field, entry.value);
        let rest = record_encode(fields, entries, from + 1);
        assert(code.subrange(0, first.len() as int) =~= first);
        lemma_part_at(bytes, pos, code, 0, first);
        lemma_value_at(bytes, pos, field, entry.value);
        assert(code.subrange(first.len() as int, (first.len() + rest.len()) as int) =~= rest);
        lemma_part_at(bytes, pos, code, first.len() as int, rest);
        lemma_record_at(bytes, pos + first.len(), fields, entries, from + 1);
        assert(seq![entry] + entries.skip(from as int + 1) =~= entries.skip(from as int));
        assert(entry == EntryModel { name: field.name, value: entry.value });
        assert(record_decode(bytes, pos, fields, from) == joined(
            seq![EntryModel { name: field.name, value: entry.value }],
            first.len(),
            record_decode(bytes, pos + first.len(), fields, from + 1),
        ));
    }
}

/// Writing down a record that fits its schema and decoding the bytes by the same schema gives
/// the record back, wherever the bytes stand in a buffer.
pub proof fn lemma_record_roundtrip(
    fields: Seq<FieldModel>,
    entries: Seq<EntryModel>,
    before: Seq<u8>,
    after: Seq<u8>,
)
    requires
        record_fits(fields, entries, 0),
    ensures
        record_decode(
            before + record_encode(fields, entries, 0) + after,
            before.len() as int,
            fields,
            0,
        ) == Ok::<_, DecodeError>((entries, record_encode(fields, entries, 0).len())),
{
    let code = record_encode(fields, entries, 0);
    let bytes = before + code + after;
    let pos = before.len() as int;
    assert(bytes.subrange(pos, pos + code.len()) =~= code);
    lemma_record_at(bytes, pos, fields, entries, 0);
    assert(entries.skip(0) =~= entries);
}

/// Items that each fit the field fit it as a run.
proof fn lemma_elems_fit(field: FieldModel, items: Seq<ValueModel>, from: nat)
    requires
        forall|i: int| from <= i < items.len() ==> scalar_fits(field, #[trigger] items[i]),
    ensures
        elems_fit(field, items, from),
    decreases items.len() - from,
{
    if from < items.len() {
        lemma_elems_fit(field, items, from + 1);
    }
}

/// Entries that each carry their field's name and a value that fits the field fit the schema
/// as a record.
proof fn lemma_entries_fit(fields: Seq<FieldModel>, entries: Seq<EntryModel>, from: nat)
    requires
        entries.len() == fields.len(),
        forall|i: int|
            from <= i < fields.len() ==> (#[trigger] entries[i]).name == fields[i].name
                && value_fits(fields[i], entries[i].value),
    ensures
        record_fits(fields, entries, from),
    decreases fields.len() - from,
{
    if from < fields.len() {
        lemma_entries_fit(fields, entries, from + 1);
    }
}

/// A single value that decoding gives fits the field.
pub proof fn lemma_decoded_scalar_fits(bytes: Seq<u8>, pos: int, field: FieldModel)
    ensures
        scalar_decode(bytes, pos, field) matches Ok((value, _)) ==> scalar_fits(field, value),
    decreases field, 0nat, 0nat,
{
    match field.field_type {
        FieldType::String => {
            if let Ok((len, width)) = gamma_decode(bytes, pos) {
                if let Ok(text) = take_text(bytes, pos + width, len as nat) {
                    let run = bytes.subrange(pos + width, pos + width + len);
                    vstd::utf8::decode_utf8_encode_utf8(run);
                }
            }
        },
        FieldType::Struct => {
            lemma_decoded_record_fits(bytes, pos, field.nested, 0);
            if let Ok((entries, _)) = record_decode(bytes, pos, field.nested, 0) {
                lemma_entries_fit(field.nested, entries, 0);
            }
        },
        _ => {},
    }
}

/// The values that decoding a run gives are as many as were asked for, and each fits the
/// field.
pub proof fn lemma_decoded_elems_fit(bytes: Seq<u8>, pos: int, field: FieldModel, count: nat)
    ensures
        elems_decode(bytes, pos, field, count) matches Ok((items, _)) ==> items.len() == count
            && forall|i: int| 0 <= i < items.len() ==> scalar_fits(field, #[trigger] items[i]),
    decreases field, 1nat, count,
{
    if count > 0 {
        lemma_decoded_scalar_fits(bytes, pos, field);
        if let Ok((first, n)) = scalar_decode(bytes, pos, field) {
            lemma_decoded_elems_fit(bytes, pos + n, field, (count - 1) as nat);
        }
    }
}

/// The value of a field that decoding gives fits the field.
pub proof fn lemma_decoded_value_fits(bytes: Seq<u8>, pos: int, field: FieldModel)
    ensures
        field_decode(bytes, pos, field) matches Ok((value, _)) ==> value_fits(field, value),
    decreases field, 2nat, 0nat,
{
    if field.is_list {
        if let Ok((count, width)) = gamma_decode(bytes, pos) {
            lemma_decoded_elems_fit(bytes, pos + width, field, count as nat);
            if let Ok((items, _)) = elems_decode(bytes, pos + width, field, count as nat) {
                lemma_elems_fit(field, items, 0);
            }
        }
    } else {
        lemma_decoded_scalar_fits(bytes, pos, field);
    }
}

/// The entries that decoding a record from field `from` on gives are one for each of those
/// fields, each under its field's name and with a value that fits the field.
pub proof fn lemma_decoded_record_fits(bytes: Seq<u8>, pos: int, fields: Seq<FieldModel>, from: nat)
    requires
        from <= fields.len(),
    ensures
        record_decode(bytes, pos, fields, from) matches Ok((entries, _)) ==> entries.len()
            == fields.len() - from && forall|i: int|
            0 <= i < entries.len() ==> (#[trigger] entries[i]).name == fields[from + i].name
                && value_fits(fields[from + i], entries[i].value),
    decreases fields, fields.len() - from, 0nat,
{
    if from < fields.len() {
        lemma_decoded_value_fits(bytes, pos, fields[from as int]);
        if let Ok((value, n)) = field_decode(bytes, pos, fields[from as int]) {
            lemma_decoded_record_fits(bytes, pos + n, fields, from + 1);
        }
    }
}

/// Every record that decoding gives fits the schema it was decoded by.
pub proof fn lemma_decoded_record(bytes: Seq<u8>, pos: int, fields: Seq<FieldModel>)
    ensures
        record_decode(bytes, pos, fields, 0) matches Ok((entries, _)) ==> record_fits(
            fields,
            entries,
            0,
        ),
{
    lemma_decoded_record_fits(bytes, pos, fields, 0);
    if let Ok((entries, _)) = record_decode(bytes, pos, fields, 0) {
        lemma_entries_fit(fields, entries, 0);
    }
}

/// The model of a run of values has the model of each value at its place.
pub proof fn lemma_values_model(values: Seq<Value>)
    ensures
        values_model(values).len() == values.len(),
        forall|i: int| 0 <= i < values.len() ==> #[trigger] values_model(values)[i] == value_model(values[i]),
    decreases values.len(),
{
    if values.len() > 0 {
        lemma_values_model(values.drop_last());
    }
}

/// The model of a run of entries has the model of each entry at its place.
pub proof fn lemma_entries_model(entries: Seq<Entry>)
    ensures
        entries_model(entries).len() == entries.len(),
        forall|i: int| 0 <= i < entries.len() ==> #[trigger] entries_model(entries)[i] == (EntryModel {
            name: entries[i].name@,
            value: value_model(entries[i].value),
        }),
    decreases entries.len(),
{
    if entries.len() > 0 {
        lemma_entries_model(entries.drop_last());
    }
}

/// Writes a single value of the field's type, unless the value does not fit. May leave a part
/// of the value in `out` where it gives up.
fn write_scalar(field: &FieldDef, value: &Value, out: &mut Vec<u8>) -> (ok: bool)
    ensures
        ok == scalar_fits(field@, value@),
        ok ==> final(out)@ == old(out)@ + scalar_encode(field@, value@),
    decreases field, 0nat, 0nat,
{
    match value {
        Value::Int8(v) => match field.field_type {
            FieldType::Int8 => {
                put_i8(*v, out);
                true
            },
            _ => false,
        },
        Value::Uint8(v) => match field.field_type {
            FieldType::Uint8 => {
                put_u8(*v, out);
                true
            },
            _ => false,
        },
        Value::Int16(v) => match field.field_type {
            FieldType::Int16 => {
                put_i16(*v, out);
                true
            },
            _ => false,
        },
        Value::Uint16(v) => match field.field_type {
            FieldType::Uint16 => {
                put_u16(*v, out);
                true
            },
            _ => false,
        },
        Value::Int32(v) => match field.field_type {
            FieldType::Int32 => {
                put_i32(*v, out);
                true
            },
            _ => false,
        },
        Value::Uint32(v) => match field.field_type {
            FieldType::Uint32 => {
                put_u32(*v, out);
                true
            },
            _ => false,
        },
        Value::Int64(v) => match field.field_type {
            FieldType::Int64 => {
                put_i64(*v, out);
                true
            },
            _ => false,
        },
        Value::Uint64(v) => match field.field_type {
            FieldType::Uint64 => {
                put_u64(*v, out);
                true
            },
            _ => false,
        },
        Value::StringID(v) => match field.field_type {
            FieldType::StringID => {
                put_u32(*v, out);
                true
            },
            _ => false,
        },
        Value::Text(text) => match field.field_type {
            FieldType::String => {
                let bytes = text.as_str().as_bytes();
                if bytes.len() > u32::MAX as usize {
                    return false;
                }
                write_gamma(bytes.len() as u32, out);
                put_bytes(bytes, out);
                assert(out@ =~= old(out)@ + scalar_encode(field@, value@));
                true
            },
            _ => false,
        },
        Value::Struct(record) => match field.field_type {
            FieldType::Struct => write_entries(&field.nested, record, out),
            _ => false,
        },
        Value::List(_) => false,
    }
}

/// Writes the value of a field, unless the value does not fit. May leave a part of the value
/// in `out` where it gives up.
fn write_value(field: &FieldDef, value: &Value, out: &mut Vec<u8>) -> (ok: bool)
    ensures
        ok == value_fits(field@, value@),
        ok ==> final(out)@ == old(out)@ + value_encode(field@, value@),
    decreases field, 2nat, 0nat,
{
    if !field.is_list {
        return write_scalar(field, value, out);
    }
    let items = match value {
        Value::List(items) => items,
        _ => {
            return false;
        },
    };
    let ghost model = values_model(items@);
    proof {
        lemma_values_model(items@);
        assert(value@ == ValueModel::List(model));
    }
    if items.len() > u32::MAX as usize {
        return false;
    }
    write_gamma(items.len() as u32, out);
    let ghost start = out@;
    let mut i: usize = 0;
    while i < items.len()
        invariant
            i <= items.len(),
            field.is_list,
            value@ == ValueModel::List(model),
            items.len() <= u32::MAX,
            start == old(out)@ + gamma_encode(items.len() as u32),
            model == values_model(items@),
            model.len() == items.len(),
            forall|k: int| 0 <= k < items.len() ==> #[trigger] model[k] == value_model(items@[k]),
            elems_fit(field@, model, 0) == elems_fit(field@, model, i as nat),
            out@ + elems_encode(field@, model, i as nat) == start + elems_encode(field@, model, 0),
        decreases items.len() - i,
    {
        let ghost before = out@;
        if !write_scalar(field, &items[i], out) {
            return false;
        }
        proof {
            assert(out@ + elems_encode(field@, model, (i + 1) as nat) =~= before + elems_encode(
                field@,
                model,
                i as nat,
            ));
        }
        i = i + 1;
    }
    assert(out@ =~= old(out)@ + value_encode(field@, value@));
    true
}

/// Writes a record by its schema, unless the record does not fit. May leave a part of the
/// record in `out` where it gives up.
pub(crate) fn write_entries(schema: &TableSchema, record: &Record, out: &mut Vec<u8>) -> (ok: bool)
    ensures
        ok == record_fits(schema@, record@, 0),
        ok ==> final(out)@ == old(out)@ + record_encode(schema@, record@, 0),
    decreases schema, 0nat, 0nat,
{
    let ghost fields = schema@;
    let ghost entries = record@;
    proof {
        lemma_fields_model(schema.fields@);
        lemma_entries_model(record.entries@);
    }
    if record.entries.len() != schema.fields.len() {
        return false;
    }
    let mut i: usize = 0;
    while i < schema.fields.len()
        invariant
            i <= schema.fields.len(),
            fields == schema@,
            entries == record@,
            fields.len() == schema.fields.len(),
            entries.len() == fields.len(),
            record.entries.len() == schema.fields.len(),
            forall|k: int| 0 <= k < schema.fields.len() ==> #[trigger] fields[k] == field_model(schema.fields@[k]),
            forall|k: int| 0 <= k < record.entries.len() ==> #[trigger] entries[k] == (EntryModel {
                name: record.entries@[k].name@,
                value: value_model(record.entries@[k].value),
            }),
            record_fits(fields, entries, 0) == record_fits(fields, entries, i as nat),
            out@ + record_encode(fields, entries, i as nat) == old(out)@ + record_encode(
                fields,
                entries,
                0,
            ),
        decreases schema.fields.len() - i,
    {
        let ghost before = out@;
        let field = &schema.fields[i];
        let entry = &record.entries[i];
        if entry.name != field.name {
            return false;
        }
        if !write_value(field, &entry.value, out) {
            return false;
        }
        proof {
            assert(out@ + record_encode(fields, entries, (i + 1) as nat) =~= before
                + record_encode(fields, entries, i as nat));
        }
        i = i + 1;
    }
    assert(out@ =~= old(out)@ + record_encode(fields, entries, 0));
    true
}

impl Record {
    /// The bytes of this record as a data block holds them under the given schema, or `None`
    /// where the record does not fit the schema.
    pub fn to_bytes(&self, schema: &TableSchema) -> (r: Option<Vec<u8>>)
        ensures
            r is Some <==> record_fits(schema@, self@, 0),
            r matches Some(bytes) ==> bytes@ == record_encode(schema@, self@, 0),
    {
        let mut out: Vec<u8> = Vec::new();
        if write_entries(schema, self, &mut out) {
            assert(out@ =~= record_encode(schema@, self@, 0));
            Some(out)
        } else {
            None
        }
    }
}

} // verus!
