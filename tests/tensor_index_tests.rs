use neuroncore::tensor_index::{compute_strides, ravel_index, unravel_index};
use neuroncore::ComputeError;

#[test]
fn round_trip_flat_and_indices_for_2d() {
    let shape = [2, 3];
    for flat in 0..6 {
        let idx = unravel_index(flat, &shape).unwrap();
        assert_eq!(ravel_index(&idx, &shape).unwrap(), flat);
    }

    let indices = vec![vec![0, 0], vec![1, 2], vec![0, 1]];
    for idx in indices {
        let flat = ravel_index(&idx, &shape).unwrap();
        assert_eq!(unravel_index(flat, &shape).unwrap(), idx);
    }
}

#[test]
fn round_trip_flat_and_indices_for_3d() {
    let shape = [3, 3, 2];
    for flat in 0..18 {
        let idx = unravel_index(flat, &shape).unwrap();
        assert_eq!(ravel_index(&idx, &shape).unwrap(), flat);
    }

    let indices = vec![vec![0, 0, 0], vec![2, 1, 1], vec![1, 2, 0]];
    for idx in indices {
        let flat = ravel_index(&idx, &shape).unwrap();
        assert_eq!(unravel_index(flat, &shape).unwrap(), idx);
    }
}

#[test]
fn ravel_is_row_major() {
    assert_eq!(ravel_index(&[1, 2], &[2, 3]).unwrap(), 5);
    assert_eq!(ravel_index(&[2, 1, 1], &[3, 3, 2]).unwrap(), 15);
    assert_eq!(unravel_index(5, &[2, 3]).unwrap(), vec![1, 2]);
}

#[test]
fn ravel_rank_mismatch_is_dimension_error() {
    let r = ravel_index(&[0], &[2, 3]);
    assert!(matches!(r, Err(ComputeError::DimensionError { .. })));
}

#[test]
fn ravel_out_of_bounds_is_index_error() {
    let r = ravel_index(&[2, 0], &[2, 3]);
    assert!(matches!(r, Err(ComputeError::IndexError { .. })));
}

#[test]
fn unravel_out_of_bounds_is_index_error() {
    assert!(matches!(unravel_index(6, &[2, 3]), Err(ComputeError::IndexError { .. })));
    assert!(matches!(unravel_index(0, &[2, 0]), Err(ComputeError::IndexError { .. })));
}

#[test]
fn strides_are_trailing_products() {
    assert_eq!(compute_strides(&[2, 3, 4]), vec![12, 4, 1]);
    assert_eq!(compute_strides(&[5]), vec![1]);
}
