//! A matrix with no keys, for a keyboard half that has none of its own.
use vstd::prelude::*;

use crate::keyboard::Matrix;
use crate::layer::MatrixLoc;

verus! {

/// A matrix on which nothing is ever pressed.
pub struct PhantomMatrix;

impl PhantomMatrix {
    /// The empty matrix.
    pub fn new() -> (m: Self)
        ensures
            m == PhantomMatrix,
    {
        PhantomMatrix
    }
}

impl Matrix for PhantomMatrix {
    /// Nothing is ever pressed.
    open spec fn last_reading(&self) -> Option<Seq<MatrixLoc>> {
        Some(Seq::empty())
    }


    /// Reports that no position is pressed.
    fn poll(&mut self) -> (locs: Vec<MatrixLoc>)
        ensures
            locs@ == Seq::<MatrixLoc>::empty(),
    {
        Vec::new()
    }
}

} // verus!
