use neuroncore::timeseries::{windows_1d, windows_2d};
use neuroncore::ComputeError;

#[test]
fn windows_1d_stride_1() {
    let x = [1.0, 2.0, 3.0, 4.0];
    let out = windows_1d(&x, 2, 1).unwrap();
    assert_eq!(out, vec![vec![1.0, 2.0], vec![2.0, 3.0], vec![3.0, 4.0]]);
}

#[test]
fn windows_1d_stride_2() {
    let x = [1.0, 2.0, 3.0, 4.0];
    let out = windows_1d(&x, 3, 2).unwrap();
    assert_eq!(out, vec![vec![1.0, 2.0, 3.0]]);
}

#[test]
fn windows_2d_smoke() {
    let x = vec![vec![1.0], vec![2.0], vec![3.0], vec![4.0]];
    let out = windows_2d(&x, 2, 1).unwrap();
    assert_eq!(
        out,
        vec![
            vec![vec![1.0], vec![2.0]],
            vec![vec![2.0], vec![3.0]],
            vec![vec![3.0], vec![4.0]]
        ]
    );
}

#[test]
fn windows_shorter_input_is_empty() {
    let x = [1.0, 2.0];
    assert!(windows_1d(&x, 3, 1).unwrap().is_empty());
}

#[test]
fn windows_zero_window_or_stride_fails() {
    let x = [1.0, 2.0];
    assert!(matches!(windows_1d(&x, 0, 1), Err(ComputeError::InvalidOperation { .. })));
    assert!(matches!(windows_1d(&x, 1, 0), Err(ComputeError::InvalidOperation { .. })));
}

#[test]
fn windows_huge_stride_gives_one_window() {
    let x = [1, 2, 3];
    assert_eq!(windows_1d(&x, 1, usize::MAX).unwrap(), vec![vec![1]]);
}
