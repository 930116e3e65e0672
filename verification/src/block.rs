//! Fixed-width blocks of lane elements.

use vstd::prelude::*;

use crate::error::Error;
use crate::repr::Repr;

verus! {

/// A fixed-width aggregate of lane elements, processed together.
///
/// A block's width (its lane count) is the length of its element vector and
/// never changes once the block is built; every constructor fixes it and
/// every method preserves it.
#[derive(Debug)]
pub struct Block<B> {
    elems: Vec<B>,
}

impl<B> View for Block<B> {
    type V = Seq<B>;

    closed spec fn view(&self) -> Seq<B> {
        self.elems@
    }
}

impl<B: Repr> Block<B> {
    /// Builds a block from a collection, checking that its length equals the
    /// requested lane count exactly.
    pub fn new(input: &Vec<B>, lanes: usize) -> (r: Result<Block<B>, Error>)
        ensures
            match r {
                Ok(b) => input@.len() == lanes && b@ == input@,
                Err(e) => input@.len() != lanes && e == (Error::LengthMismatch {
                    expected: lanes,
                    got: input@.len() as usize,
                }),
            },
    {
        if input.len() != lanes {
            return Err(Error::LengthMismatch { expected: lanes, got: input.len() });
        }
        let mut elems: Vec<B> = Vec::new();
        let mut j: usize = 0;
        while j < lanes
            invariant
                j <= lanes,
                lanes == input@.len(),
                elems@ == input@.subrange(0, j as int),
            decreases lanes - j,
        {
            elems.push(input[j]);
            j = j + 1;
        }
        proof {
            assert(elems@ =~= input@);
        }
        Ok(Block { elems })
    }

    /// Builds a block where every lane holds the same scalar.
    pub fn splat(value: B, lanes: usize) -> (r: Block<B>)
        ensures
            r@ == Seq::new(lanes as nat, |i: int| value),
    {
        let mut elems: Vec<B> = Vec::new();
        let mut j: usize = 0;
        while j < lanes
            invariant
                j <= lanes,
                elems@ == Seq::new(j as nat, |i: int| value),
            decreases lanes - j,
        {
            elems.push(value);
            j = j + 1;
            proof {
                assert(elems@ =~= Seq::new(j as nat, |i: int| value));
            }
        }
        Block { elems }
    }

    /// Copies `lanes` contiguous elements out of a region, starting at
    /// `start`, into a fresh block. The range is checked once, here, by the
    /// precondition; no unchecked access exists anywhere below it.
    pub fn read_from(region: &Vec<B>, start: usize, lanes: usize) -> (r: Block<B>)
        requires
            start + lanes <= region@.len(),
        ensures
            r@ == region@.subrange(start as int, start + lanes),
    {
        let mut elems: Vec<B> = Vec::new();
        let mut j: usize = 0;
        while j < lanes
            invariant
                j <= lanes,
                start + lanes <= region.len(),
                elems@ == region@.subrange(start as int, start + j),
            decreases lanes - j,
        {
            elems.push(region[start + j]);
            j = j + 1;
            proof {
                assert(elems@ =~= region@.subrange(start as int, start + j));
            }
        }
        Block { elems }
    }

    /// The lane count of this block.
    pub fn lanes(&self) -> (r: usize)
        ensures
            r == self@.len(),
    {
        self.elems.len()
    }

    /// Reads one lane.
    pub fn lane(&self, i: usize) -> (r: B)
        requires
            i < self@.len(),
        ensures
            r == self@[i as int],
    {
        self.elems[i]
    }

    /// Overwrites one lane.
    pub fn set_lane(&mut self, i: usize, value: B)
        requires
            i < old(self)@.len(),
        ensures
            final(self)@ == old(self)@.update(i as int, value),
    {
        self.elems[i] = value;
    }
}

} // verus!
