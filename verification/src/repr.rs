//! The element-representability contract: which scalar kinds may populate
//! lanes.

use vstd::prelude::*;

verus! {

/// A scalar numeric kind that may be a lane element.
///
/// The set of implementors is the closed set of plain integer kinds below;
/// each carries its canonical multiplicative identity. Lane elements must be
/// trivially copyable values, which the `Copy` bound enforces.
pub trait Repr: Copy {
    /// The multiplicative identity of this scalar kind.
    spec fn one_spec() -> Self;

    /// Returns the multiplicative identity.
    fn one() -> (r: Self)
        ensures
            r == Self::one_spec(),
    ;
}

impl Repr for u8 {
    open spec fn one_spec() -> u8 {
        1u8
    }

    fn one() -> (r: u8)
    {
        1
    }
}

impl Repr for u16 {
    open spec fn one_spec() -> u16 {
        1u16
    }

    fn one() -> (r: u16)
    {
        1
    }
}

impl Repr for u32 {
    open spec fn one_spec() -> u32 {
        1u32
    }

    fn one() -> (r: u32)
    {
        1
    }
}

impl Repr for u64 {
    open spec fn one_spec() -> u64 {
        1u64
    }

    fn one() -> (r: u64)
    {
        1
    }
}

impl Repr for u128 {
    open spec fn one_spec() -> u128 {
        1u128
    }

    fn one() -> (r: u128)
    {
        1
    }
}

impl Repr for usize {
    open spec fn one_spec() -> usize {
        1usize
    }

    fn one() -> (r: usize)
    {
        1
    }
}

impl Repr for i8 {
    open spec fn one_spec() -> i8 {
        1i8
    }

    fn one() -> (r: i8)
    {
        1
    }
}

impl Repr for i16 {
    open spec fn one_spec() -> i16 {
        1i16
    }

    fn one() -> (r: i16)
    {
        1
    }
}

impl Repr for i32 {
    open spec fn one_spec() -> i32 {
        1i32
    }

    fn one() -> (r: i32)
    {
        1
    }
}

impl Repr for i64 {
    open spec fn one_spec() -> i64 {
        1i64
    }

    fn one() -> (r: i64)
    {
        1
    }
}

impl Repr for i128 {
    open spec fn one_spec() -> i128 {
        1i128
    }

    fn one() -> (r: i128)
    {
        1
    }
}

impl Repr for isize {
    open spec fn one_spec() -> isize {
        1isize
    }

    fn one() -> (r: isize)
    {
        1
    }
}

} // verus!
