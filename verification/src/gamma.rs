use vstd::prelude::*;
use crate::endian::{be_uint, lemma_be_uint_digits, lemma_radix_values, radix};
use crate::error::{failure, DecodeError, ErrorKind};

verus! {

/// The largest value that each encoded width of one to four bytes can carry.
pub const GAMMA_MAX_1: u32 = 0x7F;

pub const GAMMA_MAX_2: u32 = 0x3FFF;

pub const GAMMA_MAX_3: u32 = 0x1F_FFFF;

pub const GAMMA_MAX_4: u32 = 0x0FFF_FFFF;

/// How many bytes the variable-length integer occupies whose first byte is `lead`.
///
/// The first byte's high bits are a unary length prefix: `0` for one byte, `10` for two,
/// `110` for three, `1110` for four and `11110` for five.
pub open spec fn gamma_width(lead: u8) -> nat {
    if lead < 0x80 {
        1
    } else if lead < 0xC0 {
        2
    } else if lead < 0xE0 {
        3
    } else if lead < 0xF0 {
        4
    } else {
        5
    }
}

/// The value bits that the first byte carries below its length prefix. In the five-byte form
/// the first byte's low bits are discarded.
pub open spec fn gamma_lead_bits(lead: u8) -> nat {
    if lead < 0x80 {
        lead as nat
    } else if lead < 0xC0 {
        (lead - 0x80) as nat
    } else if lead < 0xE0 {
        (lead - 0xC0) as nat
    } else if lead < 0xF0 {
        (lead - 0xE0) as nat
    } else {
        0
    }
}

/// What decoding a variable-length integer at `pos` yields: the value and the number of bytes
/// it occupies.
///
/// The first byte's low bits are the most significant part of the value; every following byte
/// contributes all eight of its bits. A first byte with all five prefix bits set is malformed.
pub open spec fn gamma_decode(bytes: Seq<u8>, pos: int) -> Result<(u32, nat), DecodeError> {
    if !(0 <= pos < bytes.len()) {
        Err(failure(ErrorKind::OutOfBounds, pos))
    } else if bytes[pos] >= 0xF8 {
        Err(failure(ErrorKind::MalformedGamma, pos))
    } else {
        let width = gamma_width(bytes[pos]);
        if pos + width > bytes.len() {
            Err(failure(ErrorKind::OutOfBounds, pos))
        } else {
            let tail = bytes.subrange(pos + 1, pos + width);
            let value = gamma_lead_bits(bytes[pos]) * radix((width - 1) as nat) + be_uint(tail);
            Ok((value as u32, width))
        }
    }
}

/// How many bytes the canonical encoding of `value` takes.
pub open spec fn gamma_len(value: u32) -> nat {
    if value <= GAMMA_MAX_1 {
        1
    } else if value <= GAMMA_MAX_2 {
        2
    } else if value <= GAMMA_MAX_3 {
        3
    } else if value <= GAMMA_MAX_4 {
        4
    } else {
        5
    }
}

/// The canonical encoding of `value`: the shortest form that can carry it. The first byte
/// holds the length prefix and the value's most significant bits, the others the rest of the
/// value in big-endian order.
pub open spec fn gamma_encode(value: u32) -> Seq<u8> {
    if value <= GAMMA_MAX_1 {
        seq![value as u8]
    } else if value <= GAMMA_MAX_2 {
        seq![(0x80 + value / 0x100) as u8, (value % 0x100) as u8]
    } else if value <= GAMMA_MAX_3 {
        seq![(0xC0 + value / 0x1_0000) as u8, (value / 0x100 % 0x100) as u8, (value % 0x100) as u8]
    } else if value <= GAMMA_MAX_4 {
        seq![
            (0xE0 + value / 0x100_0000) as u8,
            (value / 0x1_0000 % 0x100) as u8,
            (value / 0x100 % 0x100) as u8,
            (value % 0x100) as u8,
        ]
    } else {
        seq![
            0xF0u8,
            (value / 0x100_0000) as u8,
            (value / 0x1_0000 % 0x100) as u8,
            (value / 0x100 % 0x100) as u8,
            (value % 0x100) as u8,
        ]
    }
}

/// Appends the canonical encoding of `value` to `out`.
pub fn write_gamma(value: u32, out: &mut Vec<u8>)
    ensures
        final(out)@ == old(out)@ + gamma_encode(value),
{
    if value <= GAMMA_MAX_1 {
        out.push(value as u8);
    } else if value <= GAMMA_MAX_2 {
        out.push((0x80 + value / 0x100) as u8);
        out.push((value % 0x100) as u8);
    } else if value <= GAMMA_MAX_3 {
        out.push((0xC0 + value / 0x1_0000) as u8);
        out.push((value / 0x100 % 0x100) as u8);
        out.push((value % 0x100) as u8);
    } else if value <= GAMMA_MAX_4 {
        out.push((0xE0 + value / 0x100_0000) as u8);
        out.push((value / 0x1_0000 % 0x100) as u8);
        out.push((value / 0x100 % 0x100) as u8);
        out.push((value % 0x100) as u8);
    } else {
        out.push(0xF0);
        out.push((value / 0x100_0000) as u8);
        out.push((value / 0x1_0000 % 0x100) as u8);
        out.push((value / 0x100 % 0x100) as u8);
        out.push((value % 0x100) as u8);
    }
    assert(out@ =~= old(out)@ + gamma_encode(value));
}

proof fn lemma_digits_of_u32(v: u32)
    ensures
        v == (v / 0x100) * 0x100 + v % 0x100,
        v == (v / 0x1_0000) * 0x1_0000 + (v / 0x100 % 0x100) * 0x100 + v % 0x100,
        v == (v / 0x100_0000) * 0x100_0000 + (v / 0x1_0000 % 0x100) * 0x1_0000 + (v / 0x100
            % 0x100) * 0x100 + v % 0x100,
{
    assert(v / 0x100 == (v / 0x1_0000) * 0x100 + v / 0x100 % 0x100);
    assert(v / 0x1_0000 == (v / 0x100_0000) * 0x100 + v / 0x1_0000 % 0x100);
}

/// Encoding any value and decoding the result gives the value back and consumes exactly the
/// bytes of the encoding, wherever the encoding stands in a buffer: one byte up to 127, two up
/// to 16383, three up to 2097151, four up to 268435455, five above.
pub proof fn lemma_gamma_roundtrip(value: u32, before: Seq<u8>, after: Seq<u8>)
    ensures
        gamma_encode(value).len() == gamma_len(value),
        gamma_decode(before + gamma_encode(value) + after, before.len() as int) == Ok::<
            _,
            DecodeError,
        >((value, gamma_len(value))),
{
    let width = gamma_len(value);
    let code = gamma_encode(value);
    let bytes = before + code + after;
    let pos = before.len() as int;
    let tail = bytes.subrange(pos + 1, pos + width);
    lemma_radix_values();
    lemma_digits_of_u32(value);
    assert(code.len() == width);
    assert(bytes[pos] == code[0]);
    assert(tail =~= code.subrange(1, width as int));
    lemma_be_uint_digits(tail);
    if width == 1 {
        assert(be_uint(tail) == 0);
        assert(gamma_lead_bits(code[0]) * radix(0) + be_uint(tail) == value);
    } else if width == 2 {
        assert(tail[0] == code[1]);
    } else if width == 3 {
        assert(tail[0] == code[1] && tail[1] == code[2]);
    } else if width == 4 {
        assert(tail[0] == code[1] && tail[1] == code[2] && tail[2] == code[3]);
    } else {
        assert(tail[0] == code[1] && tail[1] == code[2] && tail[2] == code[3] && tail[3]
            == code[4]);
    }
}

/// Where the canonical encoding of `value` stands at `pos` in a buffer, decoding at `pos`
/// gives `value` and takes the bytes of the encoding.
pub proof fn lemma_gamma_at(bytes: Seq<u8>, pos: int, value: u32)
    requires
        0 <= pos,
        pos + gamma_len(value) <= bytes.len(),
        bytes.subrange(pos, pos + gamma_len(value)) == gamma_encode(value),
    ensures
        gamma_decode(bytes, pos) == Ok::<_, DecodeError>((value, gamma_len(value))),
{
    let before = bytes.take(pos);
    let after = bytes.skip(pos + gamma_len(value));
    lemma_gamma_roundtrip(value, before, after);
    assert(bytes =~= before + gamma_encode(value) + after);
}

} // verus!
