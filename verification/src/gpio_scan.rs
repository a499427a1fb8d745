//! Working out the pressed positions of a key matrix from a scan: each
//! column is driven in turn, and the rows that read high are pressed in it.
use vstd::prelude::*;

use crate::layer::MatrixLoc;

verus! {

/// The pressed positions in one driven column, by ascending row.
pub open spec fn spec_column_hits(rows: Seq<bool>, col: int) -> Seq<MatrixLoc>
    decreases rows.len(),
{
    if rows.len() == 0 {
        Seq::empty()
    } else {
        let rest = spec_column_hits(rows.drop_last(), col);
        if rows.last() {
            rest.push((((rows.len() - 1) as int) as u8, col as u8))
        } else {
            rest
        }
    }
}

/// The pressed positions of a whole scan, column by column; a column that
/// could not be driven (`None`) contributes none. Row and column numbers
/// are kept modulo 256.
pub open spec fn spec_scan(readings: Seq<Option<Vec<bool>>>) -> Seq<MatrixLoc>
    decreases readings.len(),
{
    if readings.len() == 0 {
        Seq::empty()
    } else {
        let rest = spec_scan(readings.drop_last());
        match readings.last() {
            Some(rows) => rest + spec_column_hits(rows@, readings.len() - 1),
            None => rest,
        }
    }
}

/// The pressed positions of a scan. `readings[c]` is what the rows read
/// while column `c` was driven, or `None` when it could not be driven.
pub fn pressed_positions(readings: &Vec<Option<Vec<bool>>>) -> (positions: Vec<MatrixLoc>)
    ensures
        positions@ == spec_scan(readings@),
{
    let mut positions: Vec<MatrixLoc> = Vec::new();
    let mut col: usize = 0;
    while col < readings.len()
        invariant
            0 <= col <= readings@.len(),
            positions@ == spec_scan(readings@.take(col as int)),
        decreases readings@.len() - col,
    {
        assert(readings@.take(col + 1).drop_last() =~= readings@.take(col as int));
        match &readings[col] {
            Some(rows) => {
                let ghost start = positions@;
                let mut row: usize = 0;
                while row < rows.len()
                    invariant
                        0 <= row <= rows@.len(),
                        col < readings@.len(),
                        positions@ == start + spec_column_hits(rows@.take(row as int), col as int),
                    decreases rows@.len() - row,
                {
                    assert(rows@.take(row + 1).drop_last() =~= rows@.take(row as int));
                    if rows[row] {
                        let loc: MatrixLoc = (#[verifier::truncate] (row as u8), #[verifier::truncate] (col as u8));
                        positions.push(loc);
                        assert(start + spec_column_hits(rows@.take(row + 1), col as int) =~= (start
                            + spec_column_hits(rows@.take(row as int), col as int)).push(loc));
                    }
                    row = row + 1;
                }
                assert(rows@.take(rows@.len() as int) =~= rows@);
            },
            None => {},
        }
        col = col + 1;
    }
    assert(readings@.take(readings@.len() as int) =~= readings@);
    positions
}

proof fn lemma_column_hits(rows: Seq<bool>, col: int)
    requires
        rows.len() <= 256,
    ensures
        forall|i: int|
            0 <= i < spec_column_hits(rows, col).len() ==> {
                let x = #[trigger] spec_column_hits(rows, col)[i];
                &&& x.1 == col as u8
                &&& x.0 < rows.len()
                &&& rows[x.0 as int]
            },
        forall|r: int|
            0 <= r < rows.len() && #[trigger] rows[r] ==> spec_column_hits(rows, col).contains(
                (r as u8, col as u8),
            ),
    decreases rows.len(),
{
    if rows.len() > 0 {
        let front = rows.drop_last();
        lemma_column_hits(front, col);
        let rest = spec_column_hits(front, col);
        let n = rows.len() - 1;
        assert forall|r: int| 0 <= r < rows.len() && #[trigger] rows[r] implies spec_column_hits(
            rows,
            col,
        ).contains((r as u8, col as u8)) by {
            if r < n {
                assert(front[r] == rows[r]);
                let j = choose|j: int| 0 <= j < rest.len() && rest[j] == (r as u8, col as u8);
                if rows.last() {
                    assert(spec_column_hits(rows, col)[j] == rest[j]);
                }
            } else {
                let hits = spec_column_hits(rows, col);
                assert(hits[hits.len() - 1] == (r as u8, col as u8));
            }
        }
        assert forall|i: int| 0 <= i < spec_column_hits(rows, col).len() implies {
            let x = #[trigger] spec_column_hits(rows, col)[i];
            &&& x.1 == col as u8
            &&& x.0 < rows.len()
            &&& rows[x.0 as int]
        } by {
            if i < rest.len() {
                let x = rest[i];
                assert(front[x.0 as int] == rows[x.0 as int]);
            } else {
                assert((n as u8) == n);
            }
        }
    }
}

/// A position with row and column below 256 is among the pressed positions
/// of a scan of at most 256 columns of at most 256 rows exactly when its
/// column was driven and its row read high.
pub proof fn lemma_scan_positions(readings: Seq<Option<Vec<bool>>>, r: int, c: int)
    requires
        readings.len() <= 256,
        forall|i: int| 0 <= i < readings.len() && (#[trigger] readings[i]) is Some ==> readings[i]->0@.len()
            <= 256,
        0 <= r < 256,
        0 <= c < 256,
    ensures
        spec_scan(readings).contains((r as u8, c as u8)) <==> (c < readings.len()
            && readings[c] is Some && r < readings[c]->0@.len() && readings[c]->0@[r]),
    decreases readings.len(),
{
    if readings.len() > 0 {
        let front = readings.drop_last();
        let n = readings.len() - 1;
        assert forall|i: int| 0 <= i < front.len() && (#[trigger] front[i]) is Some implies front[i]->0@.len()
            <= 256 by {
            assert(front[i] == readings[i]);
        }
        lemma_scan_positions(front, r, c);
        let rest = spec_scan(front);
        let all = spec_scan(readings);
        let x = (r as u8, c as u8);
        assert((r as u8) == r && (c as u8) == c);
        if c < n {
            assert(front[c] == readings[c]);
        }
        match readings.last() {
            Some(rows) => {
                assert(readings[n] is Some);
                let hits = spec_column_hits(rows@, n);
                lemma_column_hits(rows@, n);
                assert(all == rest + hits);
                if all.contains(x) {
                    let j = choose|j: int| 0 <= j < all.len() && all[j] == x;
                    if j < rest.len() {
                        assert(rest[j] == x);
                    } else {
                        assert(hits[j - rest.len()] == x);
                        assert((n as u8) == n);
                    }
                }
                if rest.contains(x) {
                    let j = choose|j: int| 0 <= j < rest.len() && rest[j] == x;
                    assert(all[j] == x);
                }
                if c == n && r < rows@.len() && rows@[r] {
                    assert(hits.contains(x));
                    let j = choose|j: int| 0 <= j < hits.len() && hits[j] == x;
                    assert(all[rest.len() + j] == x);
                }
            },
            None => {},
        }
    }
}

/// In one column's pressed positions, every row is below the row count,
/// the column is that column, and the rows strictly increase.
proof fn lemma_column_hits_increasing(rows: Seq<bool>, col: int)
    requires
        rows.len() <= 256,
    ensures
        forall|i: int|
            0 <= i < spec_column_hits(rows, col).len() ==> {
                let x = #[trigger] spec_column_hits(rows, col)[i];
                x.0 < rows.len() && x.1 == col as u8
            },
        forall|i: int, j: int|
            0 <= i < j < spec_column_hits(rows, col).len() ==> (#[trigger] spec_column_hits(rows, col)[i]).0
                < (#[trigger] spec_column_hits(rows, col)[j]).0,
    decreases rows.len(),
{
    if rows.len() > 0 {
        let front = rows.drop_last();
        lemma_column_hits_increasing(front, col);
        let n = rows.len() - 1;
        assert((n as u8) == n);
        let rest = spec_column_hits(front, col);
        let hits = spec_column_hits(rows, col);
        if rows.last() {
            assert(hits == rest.push(((n as u8), col as u8)));
            assert forall|i: int| 0 <= i < hits.len() implies {
                let x = #[trigger] hits[i];
                x.0 < rows.len() && x.1 == col as u8
            } by {
                if i < rest.len() {
                    assert(hits[i] == rest[i]);
                }
            }
            assert forall|i: int, j: int| 0 <= i < j < hits.len() implies (#[trigger] hits[i]).0 < (
            #[trigger] hits[j]).0 by {
                assert(hits[i] == rest[i]);
                if j < rest.len() {
                    assert(hits[j] == rest[j]);
                } else {
                    assert(rest[i].0 < front.len());
                }
            }
        } else {
            assert(hits == rest);
        }
    }
}

/// Every position of a scan of at most 256 columns is in one of its
/// columns.
proof fn lemma_scan_columns(readings: Seq<Option<Vec<bool>>>)
    requires
        readings.len() <= 256,
        forall|i: int| 0 <= i < readings.len() && (#[trigger] readings[i]) is Some ==> readings[i]->0@.len()
            <= 256,
    ensures
        forall|i: int| 0 <= i < spec_scan(readings).len() ==> (#[trigger] spec_scan(readings)[i]).1 < readings.len(),
    decreases readings.len(),
{
    if readings.len() > 0 {
        let front = readings.drop_last();
        assert forall|i: int| 0 <= i < front.len() && (#[trigger] front[i]) is Some implies front[i]->0@.len()
            <= 256 by {
            assert(front[i] == readings[i]);
        }
        lemma_scan_columns(front);
        let n = readings.len() - 1;
        let rest = spec_scan(front);
        let all = spec_scan(readings);
        if let Some(rows) = readings.last() {
            assert(readings[n] is Some);
            let hits = spec_column_hits(rows@, n);
            lemma_column_hits_increasing(rows@, n);
            assert((n as u8) == n);
            assert(all == rest + hits);
            assert forall|i: int| 0 <= i < all.len() implies (#[trigger] all[i]).1 < readings.len() by {
                if i < rest.len() {
                    assert(all[i] == rest[i]);
                } else {
                    assert(all[i] == hits[i - rest.len()]);
                }
            }
        } else {
            assert(all == rest);
        }
    }
}

/// A scan of at most 256 columns of at most 256 rows reports no position
/// twice.
pub proof fn lemma_scan_distinct(readings: Seq<Option<Vec<bool>>>)
    requires
        readings.len() <= 256,
        forall|i: int| 0 <= i < readings.len() && (#[trigger] readings[i]) is Some ==> readings[i]->0@.len()
            <= 256,
    ensures
        forall|i: int, j: int|
            0 <= i < j < spec_scan(readings).len() ==> #[trigger] spec_scan(readings)[i] != #[trigger] spec_scan(
                readings,
            )[j],
    decreases readings.len(),
{
    if readings.len() > 0 {
        let front = readings.drop_last();
        assert forall|i: int| 0 <= i < front.len() && (#[trigger] front[i]) is Some implies front[i]->0@.len()
            <= 256 by {
            assert(front[i] == readings[i]);
        }
        lemma_scan_distinct(front);
        lemma_scan_columns(front);
        let n = readings.len() - 1;
        let rest = spec_scan(front);
        if let Some(rows) = readings.last() {
            assert(readings[n] is Some);
            let hits = spec_column_hits(rows@, n);
            lemma_column_hits_increasing(rows@, n);
            let all = spec_scan(readings);
            assert(all == rest + hits);
            assert((n as u8) == n);
            assert forall|i: int, j: int| 0 <= i < j < all.len() implies #[trigger] all[i] != #[trigger] all[j] by {
                if j < rest.len() {
                    assert(all[i] == rest[i] && all[j] == rest[j]);
                } else if i < rest.len() {
                    assert(all[i] == rest[i]);
                    assert(all[j] == hits[j - rest.len()]);
                    assert(rest[i].1 < n);
                } else {
                    assert(all[i] == hits[i - rest.len()]);
                    assert(all[j] == hits[j - rest.len()]);
                }
            }
        }
    }
}

} // verus!
