use ble_kdb_rs::gpio_scan::pressed_positions;
use ble_kdb_rs::multi_matrix::merge_halves;
use ble_kdb_rs::wire::{locs_from_bytes, locs_to_bytes};
use ble_kdb_rs::{Matrix, MatrixLoc, MultiMatrix, PhantomMatrix};

struct Fixed(Vec<MatrixLoc>);

impl Matrix for Fixed {
    fn poll(&mut self) -> Vec<MatrixLoc> {
        self.0.clone()
    }
}

#[test]
fn phantom_matrix_reports_nothing() {
    let mut m = PhantomMatrix::new();
    assert!(m.poll().is_empty());
}

#[test]
fn remote_columns_come_after_local_ones() {
    let merged = merge_halves(vec![(0, 0), (4, 5)], vec![(1, 0), (2, 5)]);
    assert_eq!(merged, vec![(0, 0), (4, 5), (1, 6), (2, 11)]);
}

#[test]
fn remote_column_wraps_past_255() {
    assert_eq!(merge_halves(vec![], vec![(0, 250), (0, 249)]), vec![(0, 0), (0, 255)]);
}

#[test]
fn multi_matrix_polls_both_halves() {
    let mut m = MultiMatrix::new_from_two(Fixed(vec![(3, 2)]), Fixed(vec![(4, 0), (4, 1)]));
    assert_eq!(m.poll(), vec![(3, 2), (4, 6), (4, 7)]);
}

#[test]
fn multi_matrix_with_phantom_remote() {
    let mut m = MultiMatrix::new_from_two(Fixed(vec![(1, 1)]), PhantomMatrix::new());
    assert_eq!(m.poll(), vec![(1, 1)]);
}

#[test]
fn bytes_pair_into_positions() {
    assert_eq!(locs_from_bytes(&[1, 2, 3, 4]), vec![(1, 2), (3, 4)]);
    assert_eq!(locs_from_bytes(&[1, 2, 3]), vec![(1, 2)]);
    assert_eq!(locs_from_bytes(&[7]), vec![]);
    assert_eq!(locs_from_bytes(&[]), vec![]);
}

#[test]
fn positions_write_as_row_then_column() {
    assert_eq!(locs_to_bytes(&[(4, 2), (0, 11)]), vec![4, 2, 0, 11]);
    assert!(locs_to_bytes(&[]).is_empty());
}

#[test]
fn positions_round_trip_through_bytes() {
    let locs = vec![(0, 0), (4, 5), (255, 1)];
    assert_eq!(locs_from_bytes(&locs_to_bytes(&locs)), locs);
}

#[test]
fn scan_reports_high_rows_column_by_column() {
    let readings = vec![
        Some(vec![false, true, false]),
        None,
        Some(vec![true, false, true]),
    ];
    assert_eq!(pressed_positions(&readings), vec![(1, 0), (0, 2), (2, 2)]);
}

#[test]
fn scan_of_idle_matrix_is_empty() {
    let readings = vec![Some(vec![false; 5]); 6];
    assert!(pressed_positions(&readings).is_empty());
    assert!(pressed_positions(&vec![]).is_empty());
}
