use vstd::prelude::*;
use crate::endian::{
    be_bytes, lemma_be_bytes_1, lemma_be_bytes_2, lemma_be_bytes_4, lemma_be_bytes_8,
    lemma_radix_values, twos_complement_bits,
};

verus! {

/// Appends `bytes` to `out`.
pub fn put_bytes(bytes: &[u8], out: &mut Vec<u8>)
    ensures
        final(out)@ == old(out)@ + bytes@,
{
    let mut i: usize = 0;
    while i < bytes.len()
        invariant
            i <= bytes.len(),
            out@ == old(out)@ + bytes@.take(i as int),
        decreases bytes.len() - i,
    {
        out.push(bytes[i]);
        i = i + 1;
        assert(out@ =~= old(out)@ + bytes@.take(i as int));
    }
    assert(bytes@.take(bytes.len() as int) =~= bytes@);
}

/// Appends one byte.
pub fn put_u8(value: u8, out: &mut Vec<u8>)
    ensures
        final(out)@ == old(out)@ + be_bytes(value as nat, 1),
{
    proof {
        lemma_be_bytes_1(value as nat);
    }
    out.push(value);
    assert(out@ =~= old(out)@ + be_bytes(value as nat, 1));
}

/// Appends a `u16` in big-endian order.
pub fn put_u16(value: u16, out: &mut Vec<u8>)
    ensures
        final(out)@ == old(out)@ + be_bytes(value as nat, 2),
{
    proof {
        lemma_be_bytes_2(value as nat);
    }
    out.push((value / 0x100) as u8);
    out.push((value % 0x100) as u8);
    assert(out@ =~= old(out)@ + be_bytes(value as nat, 2));
}

/// Appends a `u32` in big-endian order.
pub fn put_u32(value: u32, out: &mut Vec<u8>)
    ensures
        final(out)@ == old(out)@ + be_bytes(value as nat, 4),
{
    proof {
        lemma_be_bytes_4(value as nat);
    }
    out.push((value / 0x100_0000) as u8);
    out.push((value / 0x1_0000 % 0x100) as u8);
    out.push((value / 0x100 % 0x100) as u8);
    out.push((value % 0x100) as u8);
    assert(out@ =~= old(out)@ + be_bytes(value as nat, 4));
}

/// Appends a `u64` in big-endian order.
pub fn put_u64(value: u64, out: &mut Vec<u8>)
    ensures
        final(out)@ == old(out)@ + be_bytes(value as nat, 8),
{
    proof {
        lemma_be_bytes_8(value as nat);
    }
    put_u32((value / 0x1_0000_0000) as u32, out);
    put_u32((value % 0x1_0000_0000) as u32, out);
    assert(out@ =~= old(out)@ + be_bytes(value as nat, 8));
}

/// Appends one byte that holds a signed number in two's complement.
pub fn put_i8(value: i8, out: &mut Vec<u8>)
    ensures
        final(out)@ == old(out)@ + be_bytes(twos_complement_bits(value as int, 1), 1),
{
    proof {
        lemma_radix_values();
        assert(value as u8 == if value < 0 { value + 0x100 } else { value as int }) by (bit_vector);
    }
    put_u8(value as u8, out);
}

/// Appends an `i16` in big-endian two's complement.
pub fn put_i16(value: i16, out: &mut Vec<u8>)
    ensures
        final(out)@ == old(out)@ + be_bytes(twos_complement_bits(value as int, 2), 2),
{
    proof {
        lemma_radix_values();
        assert(value as u16 == if value < 0 { value + 0x1_0000 } else { value as int })
            by (bit_vector);
    }
    put_u16(value as u16, out);
}

/// Appends an `i32` in big-endian two's complement.
pub fn put_i32(value: i32, out: &mut Vec<u8>)
    ensures
        final(out)@ == old(out)@ + be_bytes(twos_complement_bits(value as int, 4), 4),
{
    proof {
        lemma_radix_values();
        assert(value as u32 == if value < 0 { value + 0x1_0000_0000 } else { value as int })
            by (bit_vector);
    }
    put_u32(value as u32, out);
}

/// Appends an `i64` in big-endian two's complement.
pub fn put_i64(value: i64, out: &mut Vec<u8>)
    ensures
        final(out)@ == old(out)@ + be_bytes(twos_complement_bits(value as int, 8), 8),
{
    proof {
        lemma_radix_values();
        assert(value as u64 == if value < 0 {
            value + 0x1_0000_0000_0000_0000
        } else {
            value as int
        }) by (bit_vector);
    }
    put_u64(value as u64, out);
}

} // verus!
