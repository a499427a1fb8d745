//! The bytes in which one keyboard half tells the other which of its
//! positions are pressed: row and column of each position, one after the
//! other.
use vstd::prelude::*;

use crate::layer::MatrixLoc;

verus! {

/// The positions that a notification's bytes stand for: each pair of bytes
/// is a row and a column; a last byte without a partner is left out.
pub open spec fn spec_locs_from_bytes(data: Seq<u8>) -> Seq<MatrixLoc> {
    Seq::new(data.len() / 2, |i: int| (data[2 * i], data[2 * i + 1]))
}

/// The bytes that stand for some positions.
pub open spec fn spec_locs_to_bytes(locs: Seq<MatrixLoc>) -> Seq<u8> {
    Seq::new(2 * locs.len(), |i: int| if i % 2 == 0 { locs[i / 2].0 } else { locs[i / 2].1 })
}

/// Reads the positions out of a notification's bytes.
pub fn locs_from_bytes(data: &[u8]) -> (locs: Vec<MatrixLoc>)
    ensures
        locs@ == spec_locs_from_bytes(data@),
{
    let mut locs: Vec<MatrixLoc> = Vec::new();
    let mut i: usize = 0;
    while i + 1 < data.len()
        invariant
            i == 2 * locs@.len(),
            i <= data@.len(),
            forall|j: int|
                0 <= j < locs@.len() ==> #[trigger] locs@[j] == (data@[2 * j], data@[2 * j + 1]),
        decreases data@.len() - i,
    {
        let row = data[i];
        let col = data[i + 1];
        locs.push((row, col));
        i = i + 2;
    }
    assert(locs@ =~= spec_locs_from_bytes(data@));
    locs
}

/// Writes positions as the bytes of a notification.
pub fn locs_to_bytes(locs: &[MatrixLoc]) -> (data: Vec<u8>)
    requires
        2 * locs@.len() <= usize::MAX,
    ensures
        data@ == spec_locs_to_bytes(locs@),
{
    let mut data: Vec<u8> = Vec::new();
    let mut i: usize = 0;
    while i < locs.len()
        invariant
            0 <= i <= locs@.len(),
            data@.len() == 2 * i,
            forall|j: int|
                0 <= j < 2 * i ==> #[trigger] data@[j] == (if j % 2 == 0 {
                    locs@[j / 2].0
                } else {
                    locs@[j / 2].1
                }),
        decreases locs@.len() - i,
    {
        let (r, c) = locs[i];
        data.push(r);
        data.push(c);
        i = i + 1;
    }
    assert(data@ =~= spec_locs_to_bytes(locs@));
    data
}

/// Reading back what was written gives the same positions.
pub proof fn lemma_bytes_round_trip(locs: Seq<MatrixLoc>)
    ensures
        spec_locs_from_bytes(spec_locs_to_bytes(locs)) == locs,
{
    let data = spec_locs_to_bytes(locs);
    assert forall|i: int| 0 <= i < locs.len() implies #[trigger] spec_locs_from_bytes(data)[i] == locs[i] by {
        assert((2 * i) % 2 == 0);
        assert((2 * i + 1) % 2 == 1);
        assert((2 * i) / 2 == i);
        assert((2 * i + 1) / 2 == i);
    }
    assert(spec_locs_from_bytes(data) =~= locs);
}

/// Writing what was read gives back the bytes, but for a last byte without
/// a partner.
pub proof fn lemma_bytes_read_then_written(data: Seq<u8>)
    ensures
        spec_locs_to_bytes(spec_locs_from_bytes(data)) == data.take((2 * (data.len() / 2)) as int),
{
    let locs = spec_locs_from_bytes(data);
    let t = data.take((2 * (data.len() / 2)) as int);
    assert forall|j: int| 0 <= j < t.len() implies #[trigger] spec_locs_to_bytes(locs)[j] == t[j] by {
        let i = j / 2;
        if j % 2 == 0 {
            assert(j == 2 * i);
        } else {
            assert(j == 2 * i + 1);
        }
    }
    assert(spec_locs_to_bytes(locs) =~= t);
}

/// Reading takes every two bytes as one position, the first byte as its row
/// and the second as its column, and leaves out a last byte without a
/// partner.
pub proof fn lemma_read_positions(data: Seq<u8>)
    ensures
        spec_locs_from_bytes(data).len() == data.len() / 2,
        forall|i: int|
            0 <= i < data.len() / 2 ==> #[trigger] spec_locs_from_bytes(data)[i] == (
                data[2 * i],
                data[2 * i + 1],
            ),
{
}

/// Writing puts each position's row and then its column, position after
/// position, and nothing else.
pub proof fn lemma_written_bytes(locs: Seq<MatrixLoc>)
    ensures
        spec_locs_to_bytes(locs).len() == 2 * locs.len(),
        forall|i: int| 0 <= i < locs.len() ==> #[trigger] spec_locs_to_bytes(locs)[2 * i] == locs[i].0,
        forall|i: int| 0 <= i < locs.len() ==> #[trigger] spec_locs_to_bytes(locs)[2 * i + 1] == locs[i].1,
{
    assert forall|i: int| 0 <= i < locs.len() implies #[trigger] spec_locs_to_bytes(locs)[2 * i] == locs[i].0 by {
        assert((2 * i) % 2 == 0 && (2 * i) / 2 == i);
    }
    assert forall|i: int| 0 <= i < locs.len() implies #[trigger] spec_locs_to_bytes(locs)[2 * i + 1]
        == locs[i].1 by {
        assert((2 * i + 1) % 2 == 1 && (2 * i + 1) / 2 == i);
    }
}

} // verus!
