//! A bare matrix shape record, kept from an exploratory matrix-backed
//! network variant.  It carries only its dimensions.

use vstd::prelude::*;

verus! {

/// A matrix reduced to its shape: `(rows, columns)`.
pub struct Matrix {
    shape: (usize, usize),
}

impl Matrix {
    /// The recorded shape.
    pub closed spec fn shape_spec(&self) -> (usize, usize) {
        self.shape
    }

    pub fn new(shape: (usize, usize)) -> (m: Self)
        ensures
            m.shape_spec() == shape,
    {
        Self { shape }
    }
}

impl Default for Matrix {
    fn default() -> (m: Self)
        ensures
            m.shape_spec() == (1usize, 1usize),
    {
        Self::new((1, 1))
    }
}

} // verus!
