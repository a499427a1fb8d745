//! Two matrices, a local half and a remote half, read as one.
use vstd::prelude::*;

use crate::keyboard::Matrix;
use crate::layer::MatrixLoc;

verus! {

/// How many columns each half of the keyboard has; the remote half's
/// columns come after the local half's.
pub const HALF_COLUMNS: u8 = 6;

/// A column of the remote half, moved past the local half's columns (modulo
/// 256, as a `u8` addition wraps).
pub open spec fn spec_shift_column(c: u8) -> u8 {
    if c + HALF_COLUMNS > 255 {
        (c + HALF_COLUMNS - 256) as u8
    } else {
        (c + HALF_COLUMNS) as u8
    }
}

/// The positions of both halves: the local half's as they are, then the
/// remote half's with their columns moved past the local half's.
pub open spec fn spec_merge_halves(local: Seq<MatrixLoc>, remote: Seq<MatrixLoc>) -> Seq<MatrixLoc> {
    local + remote.map_values(|l: MatrixLoc| (l.0, spec_shift_column(l.1)))
}

/// Joins the pressed positions of the local half and of the remote half
/// into positions on the whole keyboard.
pub fn merge_halves(local: Vec<MatrixLoc>, remote: Vec<MatrixLoc>) -> (locs: Vec<MatrixLoc>)
    ensures
        locs@ == spec_merge_halves(local@, remote@),
{
    let mut locs: Vec<MatrixLoc> = local;
    let ghost start = locs@;
    let mut i: usize = 0;
    while i < remote.len()
        invariant
            0 <= i <= remote@.len(),
            locs@ == start + remote@.take(i as int).map_values(
                |l: MatrixLoc| (l.0, spec_shift_column(l.1)),
            ),
        decreases remote@.len() - i,
    {
        let (r, c) = remote[i];
        locs.push((r, c.wrapping_add(HALF_COLUMNS)));
        assert(remote@.take(i + 1) =~= remote@.take(i as int).push((r, c)));
        i = i + 1;
    }
    assert(remote@.take(remote@.len() as int) =~= remote@);
    locs
}

/// A matrix made of a local half and a remote half.
pub struct MultiMatrix<L: Matrix, R: Matrix> {
    local_matrix: L,
    remote_matrix: R,
}

impl<L: Matrix, R: Matrix> MultiMatrix<L, R> {
    /// The local half.
    pub closed spec fn spec_local(&self) -> L {
        self.local_matrix
    }

    /// The remote half.
    pub closed spec fn spec_remote(&self) -> R {
        self.remote_matrix
    }

    /// The matrix made of the two halves.
    pub fn new_from_two(local_matrix: L, remote_matrix: R) -> (m: Self)
        ensures
            m.spec_local() == local_matrix,
            m.spec_remote() == remote_matrix,
    {
        MultiMatrix { local_matrix, remote_matrix }
    }
}

impl<L: Matrix, R: Matrix> Matrix for MultiMatrix<L, R> {
    /// What the two halves last reported, joined, when both readings are
    /// stated.
    closed spec fn last_reading(&self) -> Option<Seq<MatrixLoc>> {
        match (self.local_matrix.last_reading(), self.remote_matrix.last_reading()) {
            (Some(l), Some(r)) => Some(spec_merge_halves(l, r)),
            _ => None,
        }
    }

    /// Polls the local half, then the remote half, and joins what they
    /// report.
    fn poll(&mut self) -> (locs: Vec<MatrixLoc>)
        ensures
            final(self).spec_local().last_reading() is Some
                && final(self).spec_remote().last_reading() is Some ==> locs@ == spec_merge_halves(
                final(self).spec_local().last_reading().unwrap(),
                final(self).spec_remote().last_reading().unwrap(),
            ),
    {
        let local = self.local_matrix.poll();
        let remote = self.remote_matrix.poll();
        merge_halves(local, remote)
    }
}

/// Joining keeps every local position as it is, in place, and follows them
/// with every remote position, in order, its row kept and its column moved
/// six along (modulo 256); nothing is left out or added.
pub proof fn lemma_merge_halves_positions(local: Seq<MatrixLoc>, remote: Seq<MatrixLoc>)
    ensures
        spec_merge_halves(local, remote).len() == local.len() + remote.len(),
        forall|i: int| 0 <= i < local.len() ==> #[trigger] spec_merge_halves(local, remote)[i] == local[i],
        forall|i: int|
            0 <= i < remote.len() ==> #[trigger] spec_merge_halves(local, remote)[local.len() + i] == (
                remote[i].0,
                ((remote[i].1 as int + 6) % 256) as u8,
            ),
{
    let m = spec_merge_halves(local, remote);
    assert forall|i: int| 0 <= i < remote.len() implies #[trigger] m[local.len() + i] == (
        remote[i].0,
        ((remote[i].1 as int + 6) % 256) as u8,
    ) by {
        let c = remote[i].1;
        if c + 6 > 255 {
            assert((c as int + 6) % 256 == c as int + 6 - 256);
        } else {
            assert((c as int + 6) % 256 == c as int + 6);
        }
    }
}

} // verus!
