//! The bit set itself: construction, indexed reads and writes, and the
//! views of its contents.
use vstd::prelude::*;

use crate::render::{list_text, range_message, range_text, render_list};
use crate::bits::{
    bit_of, bit_offset, block_count, byte_index, lemma_mask_clear, lemma_mask_set,
    lemma_mask_test, lemma_split_position, lemma_zero_byte,
};

verus! {

/// What can go wrong when building or indexing a [`BitSet`].
#[derive(Debug, Clone, Copy, PartialEq, Eq, Structural)]
pub enum BitSetError {
    /// A bit set of size zero was asked for.
    InvalidArgument,
    /// `index` does not address a bit of a set of `size` bits.
    IndexOutOfRange { size: usize, index: isize },
}

/// The bit position that `index` addresses in a set of `size` bits, if any.
///
/// A non-negative index addresses its own position; a negative one counts
/// from the end, `-1` being the last bit. An index below `-size` addresses
/// nothing and is rejected like one at or past `size`, rather than wrapping
/// to a position outside the set.
pub open spec fn resolve(index: int, size: int) -> Option<int> {
    if index < 0 {
        if index + size >= 0 {
            Some(index + size)
        } else {
            None
        }
    } else if index < size {
        Some(index)
    } else {
        None
    }
}

/// The error for an `index` that addresses no bit of a set of `size` bits.
pub open spec fn out_of_range(size: usize, index: isize) -> BitSetError {
    BitSetError::IndexOutOfRange { size, index }
}

/// Every bit of `blocks` at a position from `size` on is clear.
pub open spec fn padding_clear(size: int, blocks: Seq<u8>) -> bool {
    forall|i: int|
        size <= i < 8 * blocks.len() ==> !#[trigger] bit_of(blocks[byte_index(i)], bit_offset(i))
}

/// `blocks` is the packed form of `bits`: one byte for each eight bits
/// begun, bit `i` at offset `i % 8` of byte `i / 8`, all other bits clear.
pub open spec fn packs(blocks: Seq<u8>, bits: Seq<bool>) -> bool {
    &&& blocks.len() == block_count(bits.len())
    &&& forall|i: int|
        0 <= i < 8 * blocks.len() ==> #[trigger] bit_of(blocks[byte_index(i)], bit_offset(i)) == (
        i < bits.len() && bits[i])
}

/// The positions of the set bits of `bits`, in ascending order.
pub open spec fn positions(bits: Seq<bool>) -> Seq<int>
    decreases bits.len(),
{
    if bits.len() == 0 {
        Seq::empty()
    } else {
        let rest = positions(bits.drop_last());
        if bits.last() {
            rest.push(bits.len() - 1)
        } else {
            rest
        }
    }
}

/// The entries of `v` as mathematical integers.
pub open spec fn as_ints(v: Seq<usize>) -> Seq<int> {
    v.map_values(|x: usize| x as int)
}

/// The message of `e`.
pub open spec fn error_text(e: BitSetError) -> Seq<char> {
    match e {
        BitSetError::InvalidArgument => "size cannot be zero"@,
        BitSetError::IndexOutOfRange { size, index } => range_text(size as int, index as int),
    }
}

/// A fixed number of bits, all clear at construction, packed eight to a
/// byte.
pub struct BitSet {
    size: usize,
    blocks: Vec<u8>,
}

impl View for BitSet {
    type V = Seq<bool>;

    /// The bits in order of position.
    closed spec fn view(&self) -> Seq<bool> {
        Seq::new(self.size as nat, |i: int| bit_of(self.blocks@[byte_index(i)], bit_offset(i)))
    }
}

impl BitSet {
    /// The size is positive, there is exactly one byte for each eight bits
    /// begun, and the bits of the last byte past the size stay clear.
    pub closed spec fn wf(&self) -> bool {
        &&& self.size > 0
        &&& self.blocks@.len() == block_count(self.size as nat)
        &&& padding_clear(self.size as int, self.blocks@)
    }

    /// A set of `size` bits, all clear; `size` zero is refused.
    pub fn new(size: usize) -> (r: Result<BitSet, BitSetError>)
        ensures
            match r {
                Ok(b) => size > 0 && b.wf() && b@ == Seq::new(size as nat, |i: int| false),
                Err(e) => size == 0 && e == BitSetError::InvalidArgument,
            },
    {
        if size == 0 {
            return Err(BitSetError::InvalidArgument);
        }
        proof {
            lemma_split_position((size - 1) as usize);
        }
        let count: usize = ((size - 1) >> 3) + 1;
        let blocks: Vec<u8> = vec![0u8; count];
        proof {
            assert forall|i: int| 0 <= i < 8 * blocks@.len() implies !#[trigger] bit_of(
                blocks@[byte_index(i)],
                bit_offset(i),
            ) by {
                lemma_zero_byte(bit_offset(i));
            }
        }
        let b = BitSet { size, blocks };
        assert(b@ =~= Seq::new(size as nat, |i: int| false));
        Ok(b)
    }

    /// The bit position that `index` addresses, or the error for it.
    fn check_index(&self, index: isize) -> (r: Result<usize, BitSetError>)
        requires
            self.wf(),
        ensures
            match resolve(index as int, self@.len() as int) {
                Some(p) => r == Ok::<usize, BitSetError>(p as usize),
                None => r == Err::<usize, BitSetError>(out_of_range(self.size, index)),
            },
            self@.len() == self.size,
    {
        if index < 0 {
            let back: usize = ((-(index + 1)) as usize) + 1;
            if back > self.size {
                Err(out_of_range_error(self.size, index))
            } else {
                Ok(self.size - back)
            }
        } else if (index as usize) < self.size {
            Ok(index as usize)
        } else {
            Err(out_of_range_error(self.size, index))
        }
    }

    /// The bit that `index` addresses (negative indices count from the end).
    pub fn get(&self, index: isize) -> (r: Result<bool, BitSetError>)
        requires
            self.wf(),
        ensures
            match resolve(index as int, self@.len() as int) {
                Some(p) => r == Ok::<bool, BitSetError>(self@[p]),
                None => r == Err::<bool, BitSetError>(out_of_range(self@.len() as usize, index)),
            },
    {
        match self.check_index(index) {
            Err(e) => Err(e),
            Ok(p) => Ok(self.bit_at(p)),
        }
    }

    fn bit_at(&self, p: usize) -> (r: bool)
        requires
            self.wf(),
            p < self@.len(),
        ensures
            r == self@[p as int],
    {
        proof {
            lemma_split_position(p);
        }
        let pos: usize = p >> 3;
        let offset: u8 = (p & 7) as u8;
        let mask: u8 = 1u8 << offset;
        proof {
            lemma_mask_test(self.blocks@[pos as int], offset);
        }
        (self.blocks[pos] & mask) != 0
    }

    /// Sets the bit that `index` addresses to `value`; on an index that
    /// addresses no bit the set is left as it was.
    pub fn set(&mut self, index: isize, value: bool) -> (r: Result<(), BitSetError>)
        requires
            old(self).wf(),
        ensures
            final(self).wf(),
            final(self)@.len() == old(self)@.len(),
            match resolve(index as int, old(self)@.len() as int) {
                Some(p) => r == Ok::<(), BitSetError>(()) && final(self)@ == old(self)@.update(
                    p,
                    value,
                ),
                None => r == Err::<(), BitSetError>(out_of_range(old(self)@.len() as usize, index))
                    && final(self)@ == old(self)@,
            },
    {
        match self.check_index(index) {
            Err(e) => Err(e),
            Ok(p) => {
                self.write_bit(p, value);
                Ok(())
            },
        }
    }

    /// Whether the bit at position `index` is set; a position past the end
    /// gives `false` rather than an error.
    pub fn contains(&self, index: usize) -> (r: bool)
        requires
            self.wf(),
        ensures
            r == (index < self@.len() && self@[index as int]),
    {
        if index < self.size {
            self.bit_at(index)
        } else {
            false
        }
    }

    /// The number of bits, as given at construction.
    pub fn len(&self) -> (r: usize)
        requires
            self.wf(),
        ensures
            r == self@.len(),
            r > 0,
    {
        self.size
    }

    /// A copy of the packed bytes: one byte for each eight bits begun, bit
    /// `i` at offset `i % 8` of byte `i / 8`, the bits past the end clear.
    pub fn blocks(&self) -> (r: Vec<u8>)
        requires
            self.wf(),
        ensures
            packs(r@, self@),
    {
        let r = self.blocks.clone();
        proof {
            assert forall|i: int| 0 <= i < 8 * r@.len() implies #[trigger] bit_of(
                r@[byte_index(i)],
                bit_offset(i),
            ) == (i < self@.len() && self@[i]) by {
                if i >= self.size {
                    assert(!bit_of(self.blocks@[byte_index(i)], bit_offset(i)));
                }
            }
        }
        r
    }

    /// The positions of the set bits, in ascending order, each once.
    pub fn elements(&self) -> (r: Vec<usize>)
        requires
            self.wf(),
        ensures
            as_ints(r@) == positions(self@),
    {
        let mut out: Vec<usize> = Vec::new();
        let mut i: usize = 0;
        while i < self.size
            invariant
                self.wf(),
                i <= self@.len(),
                as_ints(out@) == positions(self@.subrange(0, i as int)),
            decreases self.size - i,
        {
            let ghost prefix = self@.subrange(0, i as int + 1);
            assert(prefix.drop_last() =~= self@.subrange(0, i as int));
            if self.bit_at(i) {
                out.push(i);
            }
            assert(as_ints(out@) =~= positions(prefix));
            i = i + 1;
        }
        assert(self@.subrange(0, self@.len() as int) =~= self@);
        out
    }

    /// The positions of the set bits written as a list, in ascending order:
    /// `[0, 3, 7]`.
    pub fn repr(&self) -> (r: String)
        requires
            self.wf(),
        ensures
            r@ == list_text(positions(self@)),
    {
        let elements = self.elements();
        render_list(&elements)
    }

    fn write_bit(&mut self, p: usize, value: bool)
        requires
            old(self).wf(),
            p < old(self)@.len(),
        ensures
            final(self).wf(),
            final(self)@ == old(self)@.update(p as int, value),
    {
        proof {
            lemma_split_position(p);
        }
        let pos: usize = p >> 3;
        let offset: u8 = (p & 7) as u8;
        let mask: u8 = 1u8 << offset;
        let byte: u8 = self.blocks[pos];
        let new_byte: u8 = if value {
            byte | mask
        } else {
            byte & !mask
        };
        let ghost before = self.blocks@;
        proof {
            assert forall|o: u8| o < 8 implies #[trigger] bit_of(new_byte, o) == (if o == offset {
                value
            } else {
                bit_of(byte, o)
            }) by {
                if value {
                    lemma_mask_set(byte, offset, o);
                } else {
                    lemma_mask_clear(byte, offset, o);
                }
            }
        }
        let ghost after = before.update(pos as int, new_byte);
        proof {
            assert forall|i: int| 0 <= i < 8 * after.len() implies #[trigger] bit_of(
                after[byte_index(i)],
                bit_offset(i),
            ) == (if i == p {
                value
            } else {
                bit_of(before[byte_index(i)], bit_offset(i))
            }) by {
                if byte_index(i) == pos as int {
                    assert(bit_offset(i) < 8);
                }
            }
        }
        proof {
            assert forall|i: int| self.size <= i < 8 * after.len() implies !#[trigger] bit_of(
                after[byte_index(i)],
                bit_offset(i),
            ) by {
                assert(!bit_of(before[byte_index(i)], bit_offset(i)));
            }
        }
        self.blocks.set(pos, new_byte);
        assert(self@ =~= old(self)@.update(p as int, value));
    }
}

impl BitSetError {
    /// A sentence that says what went wrong.
    pub fn message(&self) -> (r: String)
        ensures
            r@ == error_text(*self),
    {
        match self {
            BitSetError::InvalidArgument => String::from_str("size cannot be zero"),
            BitSetError::IndexOutOfRange { size, index } => range_message(*size, *index),
        }
    }
}

fn out_of_range_error(size: usize, index: isize) -> (r: BitSetError)
    ensures
        r == out_of_range(size, index),
{
    BitSetError::IndexOutOfRange { size, index }
}

} // verus!
