//! The trailing partial slot of a vectorized sequence: it holds either
//! nothing (the source divides evenly) or exactly one trailing value.

use vstd::prelude::*;

verus! {

/// A slot of size zero or one for the trailing partial value.
#[derive(Debug)]
pub struct Partial<T> {
    slot: Option<T>,
}

impl<T> View for Partial<T> {
    type V = Option<T>;

    closed spec fn view(&self) -> Option<T> {
        self.slot
    }
}

impl<T> Partial<T> {
    /// The number of values the slot holds: zero or one.
    pub open spec fn size_spec(&self) -> nat {
        if self@ is Some {
            1
        } else {
            0
        }
    }

    /// An empty slot.
    pub fn empty() -> (r: Partial<T>)
        ensures
            r@ is None,
    {
        Partial { slot: None }
    }

    /// A slot holding one trailing value.
    pub fn of(item: T) -> (r: Partial<T>)
        ensures
            r@ == Some(item),
    {
        Partial { slot: Some(item) }
    }

    /// Takes the trailing value out, leaving the slot empty.
    pub fn take_partial(&mut self) -> (r: Option<T>)
        ensures
            r == old(self)@,
            final(self)@ is None,
    {
        self.slot.take()
    }

    /// How many values the slot still holds.
    pub fn size(&self) -> (r: usize)
        ensures
            r == self.size_spec(),
    {
        match &self.slot {
            Some(_) => 1,
            None => 0,
        }
    }
}

} // verus!
