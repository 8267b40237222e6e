//! The set capability interface: approximate or exact membership
//! structures that support insertion, queries and binary set algebra
//! between two values of the same concrete type.

use vstd::prelude::*;
use crate::Error;

verus! {

/// Operations shared by set-like containers.
///
/// Each implementor supplies `inv`, its own well-formedness condition;
/// every operation preserves it.  Binary operations are only defined
/// between two instances of the identical concrete type, and report
/// [`Error::ParameterMismatch`] instead of producing a result when the
/// two operands are structurally incomparable.
pub trait SetOps: Sized {
    /// The element type that membership is asked about.
    type T;

    /// The implementor's well-formedness condition.
    spec fn inv(&self) -> bool;

    /// Which elements the container accepts: implementors with machine
    /// limits (say, on an element's size) state them here.
    spec fn admits(e: &Self::T) -> bool;

    /// Adds an element; the element is a member afterwards.
    fn insert(&mut self, e: Self::T)
        requires
            old(self).inv(),
            Self::admits(&e),
        ensures
            final(self).inv(),
    ;

    /// Asks whether an element is (possibly) a member.
    fn contains(&self, e: Self::T) -> bool
        requires
            self.inv(),
            Self::admits(&e),
    ;

    /// Structural equality of two containers.
    fn equals(&self, other: Self) -> bool
        requires
            self.inv(),
            other.inv(),
    ;

    /// A new container holding every member of either operand.
    fn union(&self, other: Self) -> (r: Result<Self, Error>)
        requires
            self.inv(),
            other.inv(),
        ensures
            (r matches Ok(u) ==> u.inv()),
    ;

    /// A new container approximating the members common to both operands.
    fn intersection(&self, other: Self) -> (r: Result<Self, Error>)
        requires
            self.inv(),
            other.inv(),
        ensures
            (r matches Ok(u) ==> u.inv()),
    ;

    /// A new container approximating the members of `self` absent from
    /// `other`.
    fn difference(&self, other: Self) -> (r: Result<Self, Error>)
        requires
            self.inv(),
            other.inv(),
        ensures
            (r matches Ok(u) ==> u.inv()),
    ;
}

} // verus!
