use vstd::prelude::*;

verus! {

/// The unsigned number that `bytes` spell in big-endian order (most significant byte first).
pub open spec fn be_uint(bytes: Seq<u8>) -> nat
    decreases bytes.len(),
{
    if bytes.len() == 0 {
        0
    } else {
        be_uint(bytes.drop_last()) * 256 + bytes.last() as nat
    }
}

/// The `width` bytes that spell `value` in big-endian order; the inverse of [`be_uint`] for
/// values below `256^width`.
pub open spec fn be_bytes(value: nat, width: nat) -> Seq<u8>
    decreases width,
{
    if width == 0 {
        Seq::empty()
    } else {
        be_bytes(value / 256, (width - 1) as nat).push((value % 256) as u8)
    }
}

/// `256^width`: the number of values that `width` bytes can spell.
pub open spec fn radix(width: nat) -> nat
    decreases width,
{
    if width == 0 {
        1
    } else {
        256 * radix((width - 1) as nat)
    }
}

/// The signed reading of an unsigned `width`-byte number in two's complement.
pub open spec fn twos_complement(value: nat, width: nat) -> int {
    if 2 * value >= radix(width) {
        value - radix(width)
    } else {
        value as int
    }
}

/// The unsigned `width`-byte number whose two's complement reading is `value`.
pub open spec fn twos_complement_bits(value: int, width: nat) -> nat {
    if value < 0 {
        (value + radix(width)) as nat
    } else {
        value as nat
    }
}

pub proof fn lemma_radix_values()
    ensures
        radix(0) == 1,
        radix(1) == 0x100,
        radix(2) == 0x1_0000,
        radix(3) == 0x100_0000,
        radix(4) == 0x1_0000_0000,
        radix(8) == 0x1_0000_0000_0000_0000,
{
    reveal_with_fuel(radix, 9);
}

/// `be_bytes` yields exactly `width` bytes.
pub proof fn lemma_be_bytes_len(value: nat, width: nat)
    ensures
        be_bytes(value, width).len() == width,
    decreases width,
{
    if width > 0 {
        lemma_be_bytes_len(value / 256, (width - 1) as nat);
    }
}

/// Spelling a value that fits in `width` bytes and reading it back gives the value.
pub proof fn lemma_be_roundtrip(value: nat, width: nat)
    requires
        value < radix(width),
    ensures
        be_uint(be_bytes(value, width)) == value,
    decreases width,
{
    if width > 0 {
        let head = be_bytes(value / 256, (width - 1) as nat);
        lemma_be_roundtrip(value / 256, (width - 1) as nat);
        assert(be_bytes(value, width).drop_last() =~= head);
    }
}

/// The value of a run of one to eight bytes, written out digit by digit.
pub proof fn lemma_be_uint_digits(b: Seq<u8>)
    ensures
        b.len() == 1 ==> be_uint(b) == b[0],
        b.len() == 2 ==> be_uint(b) == b[0] * 0x100 + b[1],
        b.len() == 3 ==> be_uint(b) == b[0] * 0x1_0000 + b[1] * 0x100 + b[2],
        b.len() == 4 ==> be_uint(b) == b[0] * 0x100_0000 + b[1] * 0x1_0000 + b[2] * 0x100 + b[3],
        b.len() == 8 ==> be_uint(b) == b[0] * 0x100_0000_0000_0000 + b[1] * 0x1_0000_0000_0000
            + b[2] * 0x100_0000_0000 + b[3] * 0x1_0000_0000 + b[4] * 0x100_0000 + b[5] * 0x1_0000
            + b[6] * 0x100 + b[7],
{
    reveal_with_fuel(be_uint, 9);
    if b.len() == 1 {
    } else if b.len() == 2 {
        assert(b.drop_last().last() == b[0]);
    } else if b.len() == 3 {
        let b2 = b.drop_last();
        assert(b2.last() == b[1]);
        assert(b2.drop_last().last() == b[0]);
    } else if b.len() == 4 {
        let b3 = b.drop_last();
        let b2 = b3.drop_last();
        assert(b3.last() == b[2]);
        assert(b2.last() == b[1]);
        assert(b2.drop_last().last() == b[0]);
    } else if b.len() == 8 {
        let b7 = b.drop_last();
        let b6 = b7.drop_last();
        let b5 = b6.drop_last();
        let b4 = b5.drop_last();
        let b3 = b4.drop_last();
        let b2 = b3.drop_last();
        assert(b7.last() == b[6]);
        assert(b6.last() == b[5]);
        assert(b5.last() == b[4]);
        assert(b4.last() == b[3]);
        assert(b3.last() == b[2]);
        assert(b2.last() == b[1]);
        assert(b2.drop_last().last() == b[0]);
    }
}

/// The spelling of a value in one byte.
pub proof fn lemma_be_bytes_1(v: nat)
    ensures
        be_bytes(v, 1) == seq![(v % 0x100) as u8],
{
    reveal_with_fuel(be_bytes, 2);
    assert(be_bytes(v, 1) =~= seq![(v % 0x100) as u8]);
}

/// The spelling of a value in two bytes.
pub proof fn lemma_be_bytes_2(v: nat)
    ensures
        be_bytes(v, 2) == seq![(v / 0x100 % 0x100) as u8, (v % 0x100) as u8],
{
    lemma_be_bytes_1(v / 0x100);
    assert(be_bytes(v, 2) =~= seq![(v / 0x100 % 0x100) as u8, (v % 0x100) as u8]);
}

/// The spelling of a value in three bytes.
pub proof fn lemma_be_bytes_3(v: nat)
    ensures
        be_bytes(v, 3) == seq![
            (v / 0x1_0000 % 0x100) as u8,
            (v / 0x100 % 0x100) as u8,
            (v % 0x100) as u8,
        ],
{
    lemma_be_bytes_2(v / 0x100);
    assert(v / 0x100 / 0x100 == v / 0x1_0000);
    assert(be_bytes(v, 3) =~= seq![
        (v / 0x1_0000 % 0x100) as u8,
        (v / 0x100 % 0x100) as u8,
        (v % 0x100) as u8,
    ]);
}

/// The spelling of a value in four bytes.
pub proof fn lemma_be_bytes_4(v: nat)
    ensures
        be_bytes(v, 4) == seq![
            (v / 0x100_0000 % 0x100) as u8,
            (v / 0x1_0000 % 0x100) as u8,
            (v / 0x100 % 0x100) as u8,
            (v % 0x100) as u8,
        ],
{
    lemma_be_bytes_3(v / 0x100);
    assert(v / 0x100 / 0x100 == v / 0x1_0000);
    assert(v / 0x100 / 0x1_0000 == v / 0x100_0000);
    assert(be_bytes(v, 4) =~= seq![
        (v / 0x100_0000 % 0x100) as u8,
        (v / 0x1_0000 % 0x100) as u8,
        (v / 0x100 % 0x100) as u8,
        (v % 0x100) as u8,
    ]);
}

/// The spelling of a value in eight bytes: the four high bytes, then the four low ones.
pub proof fn lemma_be_bytes_8(v: nat)
    ensures
        be_bytes(v, 8) == be_bytes(v / 0x1_0000_0000, 4) + be_bytes(v % 0x1_0000_0000, 4),
{
    let high = v / 0x1_0000_0000;
    let low = v % 0x1_0000_0000;
    lemma_be_bytes_4(low);
    reveal_with_fuel(be_bytes, 5);
    assert(v / 0x100 / 0x100 / 0x100 / 0x100 == high);
    assert(v % 0x100 == low % 0x100);
    assert(v / 0x100 % 0x100 == low / 0x100 % 0x100);
    assert(v / 0x100 / 0x100 % 0x100 == low / 0x1_0000 % 0x100);
    assert(v / 0x100 / 0x100 / 0x100 % 0x100 == low / 0x100_0000 % 0x100);
    assert(be_bytes(v, 8) =~= be_bytes(high, 4) + be_bytes(low, 4));
}

} // verus!
