//! A fixed-size, densely packed array of bits.
//!
//! The bits of a [`BitSet`] live in a vector of bytes: bit `i` is bit `i % 8`
//! (counting from the least significant bit) of byte `i / 8`. The size is
//! chosen at construction and never changes.
//!
//! Reads and writes take an index that may be negative, counting from the
//! end as in Python (`-1` is the last bit). An index below `-size` is
//! rejected with [`BitSetError::IndexOutOfRange`], like one at or past the
//! end, instead of wrapping to a position outside the set.
//! [`BitSet::contains`] never fails: a position past the end is simply not
//! contained.
use vstd::prelude::*;

pub mod bits;
pub mod bitset;
pub mod laws;
pub mod render;

pub use bitset::{BitSet, BitSetError};
