//! A small sample API, used as input when scraping crate interfaces.

use vstd::prelude::*;

verus! {

/// thing
pub fn x(y: i32) {
}

/// Takes a vector.
pub fn gen1(m: Vec<i32>) {
}

/// Takes a vector of vectors.
pub fn gen2(m: Vec<Vec<i32>>) {
}

/// A borrowing struct.
pub struct Borrows<'a>(pub &'a [i32]);

impl<'a> Borrows<'a> {
    /// Borrow a slice.
    pub fn new(v: &'a [i32]) -> (r: Borrows<'a>)
        ensures
            r.0@ == v@,
    {
        Borrows(v)
    }
}

/// non-opaque struct
/// hmm...
pub struct NonOpaque {
    pub member_b: Vec<i32>,
}

/// partially-opaque struct
pub struct PartiallyOpaque {
    pub member_c: Vec<i32>,
    _nonexhaustive: (),
}

/// Items in a submodule.
pub struct InMod {
    pub n: i8,
}

} // verus!
