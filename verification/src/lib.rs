//! Probabilistic set-membership structures and small supporting collections.
//!
//! The centrepiece is [`bloom_filter::BloomFilter`], a fixed-size bit array
//! answering approximate membership queries with no false negatives and a
//! bounded false-positive rate.  The crate also carries a binary-heap
//! [`queue::PriorityQueue`] and the basic [`graph`] vocabulary types.

pub mod bloom_filter;
pub mod decimal;
pub mod graph;
pub mod queue;
pub mod set_ops;

use vstd::prelude::*;

verus! {

/// The error values that fallible operations of this crate return.
#[derive(Clone, Copy, Debug, PartialEq, Eq, Structural)]
pub enum Error {
    /// Construction parameters that the sizing rules reject: a zero
    /// capacity, a false-positive probability outside `(0, 1)`, or a
    /// derived hash count of zero.
    InvalidConfiguration,
    /// A binary set operation over two filters whose descriptors differ.
    ParameterMismatch,
}

} // verus!
