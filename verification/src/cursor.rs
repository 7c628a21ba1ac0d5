use vstd::prelude::*;
use vstd::slice::{slice_subrange, slice_to_vec};
use vstd::utf8::{decode_utf8, valid_utf8};
use crate::gamma::{gamma_decode, gamma_lead_bits, gamma_width};
use crate::text::string_from_utf8;
use crate::endian::{
    be_uint, lemma_be_uint_digits, lemma_radix_values, radix, twos_complement,
};
use crate::error::{failure, DecodeError, ErrorKind};

verus! {

/// A decoded value of type `T` together with the number of bytes it took, or the failure.
pub type Decoded<T> = Result<(T, nat), DecodeError>;

/// The outcome of decoding a run of items of which `done` has been decoded from `used` bytes
/// and the rest decodes to `rest`.
pub open spec fn joined<T>(done: Seq<T>, used: nat, rest: Decoded<Seq<T>>) -> Decoded<Seq<T>> {
    match rest {
        Ok((more, n)) => Ok((done + more, used + n)),
        Err(e) => Err(e),
    }
}

/// Decoding one more item and then the rest is the same as counting the item as done.
pub proof fn lemma_joined_push<T>(done: Seq<T>, used: nat, item: T, width: nat, rest: Decoded<Seq<T>>)
    ensures
        joined(done, used, joined(seq![item], width, rest)) == joined(
            done.push(item),
            used + width,
            rest,
        ),
{
    if let Ok((more, n)) = rest {
        assert(done + (seq![item] + more) =~= done.push(item) + more);
    }
}

/// With nothing left to decode, the outcome is what has been decoded.
pub proof fn lemma_joined_end<T>(done: Seq<T>, used: nat, width: nat)
    ensures
        joined(done, used, Ok((Seq::empty(), width))) == Ok::<_, DecodeError>((done, used + width)),
{
    assert(done + Seq::<T>::empty() =~= done);
}

/// Where `whole` stands at `pos` in a buffer, the part of `whole` that starts at `offset`
/// stands at `pos + offset`.
pub proof fn lemma_part_at(bytes: Seq<u8>, pos: int, whole: Seq<u8>, offset: int, part: Seq<u8>)
    requires
        0 <= pos,
        pos + whole.len() <= bytes.len(),
        bytes.subrange(pos, pos + whole.len()) == whole,
        0 <= offset,
        offset + part.len() <= whole.len(),
        whole.subrange(offset, offset + part.len()) == part,
    ensures
        bytes.subrange(pos + offset, pos + offset + part.len()) == part,
{
    let here = bytes.subrange(pos, pos + whole.len());
    let there = bytes.subrange(pos + offset, pos + offset + part.len());
    assert forall|i: int| 0 <= i < part.len() implies there[i] == part[i] by {
        assert(there[i] == here[offset + i]);
        assert(whole.subrange(offset, offset + part.len())[i] == whole[offset + i]);
    }
    assert(there =~= part);
}

/// What reading `width` raw bytes at `pos` yields: the bytes, or `OutOfBounds` when fewer than
/// `width` bytes remain.
pub open spec fn take_bytes(bytes: Seq<u8>, pos: int, width: nat) -> Result<Seq<u8>, DecodeError> {
    if 0 <= pos && pos + width <= bytes.len() {
        Ok(bytes.subrange(pos, pos + width))
    } else {
        Err(failure(ErrorKind::OutOfBounds, pos))
    }
}

/// What reading an unsigned big-endian integer of `width` bytes at `pos` yields.
pub open spec fn take_uint(bytes: Seq<u8>, pos: int, width: nat) -> Result<nat, DecodeError> {
    match take_bytes(bytes, pos, width) {
        Ok(run) => Ok(be_uint(run)),
        Err(e) => Err(e),
    }
}

/// What reading a signed (two's complement) big-endian integer of `width` bytes at `pos` yields.
pub open spec fn take_int(bytes: Seq<u8>, pos: int, width: nat) -> Result<int, DecodeError> {
    match take_bytes(bytes, pos, width) {
        Ok(run) => Ok(twos_complement(be_uint(run), width)),
        Err(e) => Err(e),
    }
}

/// What reading `width` bytes of UTF-8 text at `pos` yields: the characters, `OutOfBounds` when
/// fewer than `width` bytes remain, or `InvalidEncoding` when the bytes are not well-formed.
pub open spec fn take_text(bytes: Seq<u8>, pos: int, width: nat) -> Result<Seq<char>, DecodeError> {
    match take_bytes(bytes, pos, width) {
        Ok(run) => if valid_utf8(run) {
            Ok(decode_utf8(run))
        } else {
            Err(failure(ErrorKind::InvalidEncoding, pos))
        },
        Err(e) => Err(e),
    }
}

/// A reading position in a borrowed byte buffer.
///
/// The cursor never owns the buffer; it carries the buffer's extent and a position that only
/// moves forward. A read that fails leaves the position where it was.
pub struct ByteCursor<'a> {
    data: &'a [u8],
    pos: usize,
}

impl<'a> ByteCursor<'a> {
    #[verifier::type_invariant]
    spec fn in_bounds(self) -> bool {
        self.pos <= self.data@.len()
    }

    /// The whole buffer the cursor reads from.
    pub closed spec fn bytes(&self) -> Seq<u8> {
        self.data@
    }

    /// The index of the next byte to be read.
    pub closed spec fn position(&self) -> int {
        self.pos as int
    }

    /// `self` is `before` moved forward by `count` bytes over the same buffer.
    pub open spec fn advanced_from(&self, before: &ByteCursor<'a>, count: int) -> bool {
        &&& self.bytes() == before.bytes()
        &&& self.position() == before.position() + count
    }

    /// A cursor at the start of `data`.
    pub fn new(data: &'a [u8]) -> (cursor: ByteCursor<'a>)
        ensures
            cursor.bytes() == data@,
            cursor.position() == 0,
    {
        ByteCursor { data, pos: 0 }
    }

    /// The index of the next byte to be read.
    pub fn offset(&self) -> (pos: usize)
        ensures
            pos == self.position(),
            pos <= self.bytes().len(),
    {
        proof {
            use_type_invariant(self);
        }
        self.pos
    }

    /// How many bytes are left to read.
    pub fn remaining(&self) -> (count: usize)
        ensures
            count == self.bytes().len() - self.position(),
    {
        proof {
            use_type_invariant(self);
        }
        self.data.len() - self.pos
    }

    /// Reads the next `count` bytes.
    pub fn read_bytes(&mut self, count: usize) -> (r: Result<&'a [u8], DecodeError>)
        ensures
            match take_bytes(old(self).bytes(), old(self).position(), count as nat) {
                Ok(run) => {
                    &&& r is Ok
                    &&& r->Ok_0@ == run
                    &&& final(self).advanced_from(old(self), count as int)
                },
                Err(e) => r == Err::<&[u8], _>(e) && final(self).advanced_from(old(self), 0),
            },
    {
        proof {
            use_type_invariant(&*self);
        }
        if count > self.data.len() - self.pos {
            return Err(DecodeError::new(ErrorKind::OutOfBounds, self.pos));
        }
        let start = self.pos;
        let run = slice_subrange(self.data, start, start + count);
        self.pos = start + count;
        Ok(run)
    }

    /// Splits off the next `count` bytes as a block: a cursor of its own that stands where this
    /// one stood and whose buffer ends where the block ends. This cursor moves past the block.
    pub fn take_block(&mut self, count: usize) -> (r: Result<ByteCursor<'a>, DecodeError>)
        ensures
            match take_bytes(old(self).bytes(), old(self).position(), count as nat) {
                Ok(_) => {
                    &&& r is Ok
                    &&& r->Ok_0.position() == old(self).position()
                    &&& r->Ok_0.bytes() == old(self).bytes().take(old(self).position() + count)
                    &&& final(self).advanced_from(old(self), count as int)
                },
                Err(e) => r == Err::<ByteCursor<'a>, _>(e) && final(self).advanced_from(old(self), 0),
            },
    {
        proof {
            use_type_invariant(&*self);
        }
        if count > self.data.len() - self.pos {
            return Err(DecodeError::new(ErrorKind::OutOfBounds, self.pos));
        }
        let start = self.pos;
        let block = ByteCursor { data: slice_subrange(self.data, 0, start + count), pos: start };
        self.pos = start + count;
        Ok(block)
    }

    /// Moves the cursor to a position inside its buffer.
    pub(crate) fn rewind(&mut self, pos: usize)
        requires
            pos <= old(self).bytes().len(),
        ensures
            final(self).bytes() == old(self).bytes(),
            final(self).position() == pos,
    {
        proof {
            use_type_invariant(&*self);
        }
        self.pos = pos;
    }

    /// Reads everything from the position to the end of the buffer.
    pub fn read_rest(&mut self) -> (rest: &'a [u8])
        ensures
            rest@ == old(self).bytes().skip(old(self).position()),
            final(self).bytes() == old(self).bytes(),
            final(self).position() == old(self).bytes().len(),
    {
        proof {
            use_type_invariant(&*self);
        }
        let rest = slice_subrange(self.data, self.pos, self.data.len());
        self.pos = self.data.len();
        rest
    }

    /// Reads one byte.
    pub fn read_u8(&mut self) -> (r: Result<u8, DecodeError>)
        ensures
            match take_uint(old(self).bytes(), old(self).position(), 1) {
                Ok(v) => r is Ok && r->Ok_0 == v && final(self).advanced_from(old(self), 1),
                Err(e) => r == Err::<u8, _>(e) && final(self).advanced_from(old(self), 0),
            },
    {
        let b = self.read_bytes(1)?;
        proof {
            lemma_be_uint_digits(b@);
        }
        Ok(b[0])
    }

    /// Reads a big-endian `u16`.
    pub fn read_u16(&mut self) -> (r: Result<u16, DecodeError>)
        ensures
            match take_uint(old(self).bytes(), old(self).position(), 2) {
                Ok(v) => r is Ok && r->Ok_0 == v && final(self).advanced_from(old(self), 2),
                Err(e) => r == Err::<u16, _>(e) && final(self).advanced_from(old(self), 0),
            },
    {
        let b = self.read_bytes(2)?;
        proof {
            lemma_be_uint_digits(b@);
        }
        Ok(b[0] as u16 * 0x100 + b[1] as u16)
    }

    /// Reads a big-endian `u32`.
    pub fn read_u32(&mut self) -> (r: Result<u32, DecodeError>)
        ensures
            match take_uint(old(self).bytes(), old(self).position(), 4) {
                Ok(v) => r is Ok && r->Ok_0 == v && final(self).advanced_from(old(self), 4),
                Err(e) => r == Err::<u32, _>(e) && final(self).advanced_from(old(self), 0),
            },
    {
        let b = self.read_bytes(4)?;
        proof {
            lemma_be_uint_digits(b@);
        }
        Ok(b[0] as u32 * 0x100_0000 + b[1] as u32 * 0x1_0000 + b[2] as u32 * 0x100 + b[3] as u32)
    }

    /// Reads a big-endian `u64`.
    pub fn read_u64(&mut self) -> (r: Result<u64, DecodeError>)
        ensures
            match take_uint(old(self).bytes(), old(self).position(), 8) {
                Ok(v) => r is Ok && r->Ok_0 == v && final(self).advanced_from(old(self), 8),
                Err(e) => r == Err::<u64, _>(e) && final(self).advanced_from(old(self), 0),
            },
    {
        let b = self.read_bytes(8)?;
        proof {
            lemma_be_uint_digits(b@);
        }
        Ok(b[0] as u64 * 0x100_0000_0000_0000 + b[1] as u64 * 0x1_0000_0000_0000
            + b[2] as u64 * 0x100_0000_0000 + b[3] as u64 * 0x1_0000_0000
            + b[4] as u64 * 0x100_0000 + b[5] as u64 * 0x1_0000
            + b[6] as u64 * 0x100 + b[7] as u64)
    }

    /// Reads one byte as a signed number.
    pub fn read_i8(&mut self) -> (r: Result<i8, DecodeError>)
        ensures
            match take_int(old(self).bytes(), old(self).position(), 1) {
                Ok(v) => r is Ok && r->Ok_0 == v && final(self).advanced_from(old(self), 1),
                Err(e) => r == Err::<i8, _>(e) && final(self).advanced_from(old(self), 0),
            },
    {
        let u = self.read_u8()?;
        proof {
            lemma_radix_values();
            assert(u as i8 == if u >= 0x80 { u - 0x100 } else { u as int }) by (bit_vector);
        }
        Ok(u as i8)
    }

    /// Reads a big-endian `i16`.
    pub fn read_i16(&mut self) -> (r: Result<i16, DecodeError>)
        ensures
            match take_int(old(self).bytes(), old(self).position(), 2) {
                Ok(v) => r is Ok && r->Ok_0 == v && final(self).advanced_from(old(self), 2),
                Err(e) => r == Err::<i16, _>(e) && final(self).advanced_from(old(self), 0),
            },
    {
        let u = self.read_u16()?;
        proof {
            lemma_radix_values();
            assert(u as i16 == if u >= 0x8000 { u - 0x1_0000 } else { u as int }) by (bit_vector);
        }
        Ok(u as i16)
    }

    /// Reads a big-endian `i32`.
    pub fn read_i32(&mut self) -> (r: Result<i32, DecodeError>)
        ensures
            match take_int(old(self).bytes(), old(self).position(), 4) {
                Ok(v) => r is Ok && r->Ok_0 == v && final(self).advanced_from(old(self), 4),
                Err(e) => r == Err::<i32, _>(e) && final(self).advanced_from(old(self), 0),
            },
    {
        let u = self.read_u32()?;
        proof {
            lemma_radix_values();
            assert(u as i32 == if u >= 0x8000_0000 { u - 0x1_0000_0000 } else { u as int })
                by (bit_vector);
        }
        Ok(u as i32)
    }

    /// Reads a big-endian `i64`.
    pub fn read_i64(&mut self) -> (r: Result<i64, DecodeError>)
        ensures
            match take_int(old(self).bytes(), old(self).position(), 8) {
                Ok(v) => r is Ok && r->Ok_0 == v && final(self).advanced_from(old(self), 8),
                Err(e) => r == Err::<i64, _>(e) && final(self).advanced_from(old(self), 0),
            },
    {
        let u = self.read_u64()?;
        proof {
            lemma_radix_values();
            assert(u as i64 == if u >= 0x8000_0000_0000_0000 {
                u - 0x1_0000_0000_0000_0000
            } else {
                u as int
            }) by (bit_vector);
        }
        Ok(u as i64)
    }

    /// Reads the next `count` bytes as UTF-8 text.
    pub fn read_string(&mut self, count: usize) -> (r: Result<String, DecodeError>)
        ensures
            match take_text(old(self).bytes(), old(self).position(), count as nat) {
                Ok(text) => {
                    &&& r is Ok
                    &&& r->Ok_0@ == text
                    &&& final(self).advanced_from(old(self), count as int)
                },
                Err(e) => r == Err::<String, _>(e) && final(self).advanced_from(old(self), 0),
            },
    {
        let start = self.pos;
        let run = self.read_bytes(count)?;
        match string_from_utf8(slice_to_vec(run)) {
            Ok(text) => Ok(text),
            Err(_) => {
                self.pos = start;
                Err(DecodeError::new(ErrorKind::InvalidEncoding, start))
            },
        }
    }

    /// Reads a variable-length unsigned integer of one to five bytes.
    pub fn read_gamma(&mut self) -> (r: Result<u32, DecodeError>)
        ensures
            match gamma_decode(old(self).bytes(), old(self).position()) {
                Ok((value, width)) => {
                    &&& r == Ok::<u32, DecodeError>(value)
                    &&& final(self).advanced_from(old(self), width as int)
                },
                Err(e) => r == Err::<u32, _>(e) && final(self).advanced_from(old(self), 0),
            },
    {
        proof {
            use_type_invariant(&*self);
            lemma_radix_values();
        }
        let start = self.pos;
        let left = self.data.len() - start;
        if left == 0 {
            return Err(DecodeError::new(ErrorKind::OutOfBounds, start));
        }
        let lead = self.data[start];
        let ghost width = gamma_width(lead);
        let ghost tail = self.data@.subrange(start + 1, start + width);
        let ghost head = gamma_lead_bits(lead);
        proof {
            assert(lead & 0x80 == 0 <==> lead < 0x80) by (bit_vector);
            assert(lead & 0x40 == 0 && lead >= 0x80 <==> 0x80 <= lead < 0xC0) by (bit_vector);
            assert(lead & 0x20 == 0 && lead >= 0xC0 <==> 0xC0 <= lead < 0xE0) by (bit_vector);
            assert(lead & 0x10 == 0 && lead >= 0xE0 <==> 0xE0 <= lead < 0xF0) by (bit_vector);
            assert(lead & 0x08 == 0 && lead >= 0xF0 <==> 0xF0 <= lead < 0xF8) by (bit_vector);
        }
        if lead & 0x80 == 0 {
            self.pos = start + 1;
            proof {
                assert(width == 1 && head == lead);
                assert(be_uint(tail) == 0);
                assert(head * radix(0) + be_uint(tail) == lead);
            }
            Ok(lead as u32)
        } else if lead & 0x40 == 0 {
            if left < 2 {
                return Err(DecodeError::new(ErrorKind::OutOfBounds, start));
            }
            let b1 = self.data[start + 1];
            self.pos = start + 2;
            let value = (((lead & 0x3F) as u32) << 8) | b1 as u32;
            proof {
                assert(value == (lead - 0x80) * 0x100 + b1) by (bit_vector)
                    requires
                        0x80 <= lead < 0xC0,
                        value == (((lead & 0x3F) as u32) << 8) | b1 as u32,
                ;
                assert(width == 2 && head == lead - 0x80);
                lemma_be_uint_digits(tail);
                assert(tail[0] == b1);
                assert(head * radix(1) + be_uint(tail) == value);
            }
            Ok(value)
        } else if lead & 0x20 == 0 {
            if left < 3 {
                return Err(DecodeError::new(ErrorKind::OutOfBounds, start));
            }
            let b1 = self.data[start + 1];
            let b2 = self.data[start + 2];
            self.pos = start + 3;
            let value = (((lead & 0x1F) as u32) << 16) | ((b1 as u32) << 8) | b2 as u32;
            proof {
                assert(value == (lead - 0xC0) * 0x1_0000 + b1 * 0x100 + b2) by (bit_vector)
                    requires
                        0xC0 <= lead < 0xE0,
                        value == (((lead & 0x1F) as u32) << 16) | ((b1 as u32) << 8) | b2 as u32,
                ;
                assert(width == 3 && head == lead - 0xC0);
                lemma_be_uint_digits(tail);
                assert(tail[0] == b1 && tail[1] == b2);
                assert(head * radix(2) + be_uint(tail) == value);
            }
            Ok(value)
        } else if lead & 0x10 == 0 {
            if left < 4 {
                return Err(DecodeError::new(ErrorKind::OutOfBounds, start));
            }
            let b1 = self.data[start + 1];
            let b2 = self.data[start + 2];
            let b3 = self.data[start + 3];
            self.pos = start + 4;
            let value = (((lead & 0x0F) as u32) << 24) | ((b1 as u32) << 16) | ((b2 as u32) << 8)
                | b3 as u32;
            proof {
                assert(value == (lead - 0xE0) * 0x100_0000 + b1 * 0x1_0000 + b2 * 0x100 + b3)
                    by (bit_vector)
                    requires
                        0xE0 <= lead < 0xF0,
                        value == (((lead & 0x0F) as u32) << 24) | ((b1 as u32) << 16) | ((b2 as u32)
                            << 8) | b3 as u32,
                ;
                assert(width == 4 && head == lead - 0xE0);
                lemma_be_uint_digits(tail);
                assert(tail[0] == b1 && tail[1] == b2 && tail[2] == b3);
                assert(head * radix(3) + be_uint(tail) == value);
            }
            Ok(value)
        } else if lead & 0x08 == 0 {
            if left < 5 {
                return Err(DecodeError::new(ErrorKind::OutOfBounds, start));
            }
            let b1 = self.data[start + 1];
            let b2 = self.data[start + 2];
            let b3 = self.data[start + 3];
            let b4 = self.data[start + 4];
            self.pos = start + 5;
            let value = ((b1 as u32) << 24) | ((b2 as u32) << 16) | ((b3 as u32) << 8) | b4 as u32;
            proof {
                assert(value == b1 * 0x100_0000 + b2 * 0x1_0000 + b3 * 0x100 + b4) by (bit_vector)
                    requires
                        value == ((b1 as u32) << 24) | ((b2 as u32) << 16) | ((b3 as u32) << 8)
                            | b4 as u32,
                ;
                assert(width == 5 && head == 0);
                lemma_be_uint_digits(tail);
                assert(tail[0] == b1 && tail[1] == b2 && tail[2] == b3 && tail[3] == b4);
                assert(head * radix(4) + be_uint(tail) == value);
            }
            Ok(value)
        } else {
            Err(DecodeError::new(ErrorKind::MalformedGamma, start))
        }
    }
}

/// At the end of a buffer, which is where `read_rest` leaves a cursor, every read that asks
/// for at least one byte fails with `OutOfBounds`.
pub proof fn lemma_reads_fail_at_end(bytes: Seq<u8>, width: nat)
    requires
        width > 0,
    ensures
        take_bytes(bytes, bytes.len() as int, width) == Err::<Seq<u8>, _>(
            failure(ErrorKind::OutOfBounds, bytes.len() as int),
        ),
        take_uint(bytes, bytes.len() as int, width) == Err::<nat, _>(
            failure(ErrorKind::OutOfBounds, bytes.len() as int),
        ),
        take_int(bytes, bytes.len() as int, width) == Err::<int, _>(
            failure(ErrorKind::OutOfBounds, bytes.len() as int),
        ),
        take_text(bytes, bytes.len() as int, width) == Err::<Seq<char>, _>(
            failure(ErrorKind::OutOfBounds, bytes.len() as int),
        ),
        gamma_decode(bytes, bytes.len() as int) == Err::<(u32, nat), _>(
            failure(ErrorKind::OutOfBounds, bytes.len() as int),
        ),
{
}

} // verus!
