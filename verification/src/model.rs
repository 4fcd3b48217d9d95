//! The mathematical value that a wire type stands for.
use vstd::prelude::*;

verus! {

/// A type whose values stand for mathematical values: integers, sequences
/// and records of those. Contracts speak of the model, never of the
/// representation.
pub trait Model: Sized {
    type M;

    spec fn model(&self) -> Self::M;

    /// A copy that stands for the same value.
    fn duplicate(&self) -> (r: Self)
        ensures
            r.model() == self.model(),
    ;
}

/// The models of a row of values, in order.
pub open spec fn models<T: Model>(items: Seq<T>) -> Seq<T::M> {
    Seq::new(items.len(), |i: int| items[i].model())
}

impl Model for bool {
    type M = bool;

    open spec fn model(&self) -> bool {
        *self
    }

    fn duplicate(&self) -> (r: Self) {
        *self
    }
}

impl Model for u8 {
    type M = u8;

    open spec fn model(&self) -> u8 {
        *self
    }

    fn duplicate(&self) -> (r: Self) {
        *self
    }
}

impl Model for u16 {
    type M = u16;

    open spec fn model(&self) -> u16 {
        *self
    }

    fn duplicate(&self) -> (r: Self) {
        *self
    }
}

impl Model for u32 {
    type M = u32;

    open spec fn model(&self) -> u32 {
        *self
    }

    fn duplicate(&self) -> (r: Self) {
        *self
    }
}

impl Model for u64 {
    type M = u64;

    open spec fn model(&self) -> u64 {
        *self
    }

    fn duplicate(&self) -> (r: Self) {
        *self
    }
}

impl Model for u128 {
    type M = u128;

    open spec fn model(&self) -> u128 {
        *self
    }

    fn duplicate(&self) -> (r: Self) {
        *self
    }
}

impl Model for i8 {
    type M = i8;

    open spec fn model(&self) -> i8 {
        *self
    }

    fn duplicate(&self) -> (r: Self) {
        *self
    }
}

impl Model for i16 {
    type M = i16;

    open spec fn model(&self) -> i16 {
        *self
    }

    fn duplicate(&self) -> (r: Self) {
        *self
    }
}

impl Model for i32 {
    type M = i32;

    open spec fn model(&self) -> i32 {
        *self
    }

    fn duplicate(&self) -> (r: Self) {
        *self
    }
}

impl Model for i64 {
    type M = i64;

    open spec fn model(&self) -> i64 {
        *self
    }

    fn duplicate(&self) -> (r: Self) {
        *self
    }
}

impl Model for i128 {
    type M = i128;

    open spec fn model(&self) -> i128 {
        *self
    }

    fn duplicate(&self) -> (r: Self) {
        *self
    }
}

} // verus!
