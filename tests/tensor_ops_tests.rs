use neuroncore::{ComputeError, Scalar, Tensor};

#[derive(Clone, Copy, Debug, PartialEq)]
struct F(f32);

impl Scalar for F {
    fn spec_zero() -> Self {
        <F as Scalar>::zero()
    }
    fn spec_one() -> Self {
        <F as Scalar>::one()
    }
    fn spec_nan() -> Self {
        <F as Scalar>::nan()
    }
    fn spec_from_count(n: usize) -> Self {
        <F as Scalar>::from_count(n)
    }
    fn spec_add(self, other: Self) -> Self {
        Scalar::add(self, other)
    }
    fn spec_sub(self, other: Self) -> Self {
        Scalar::sub(self, other)
    }
    fn spec_mul(self, other: Self) -> Self {
        Scalar::mul(self, other)
    }
    fn spec_div(self, other: Self) -> Self {
        Scalar::div(self, other)
    }
    fn spec_neg(self) -> Self {
        Scalar::neg(self)
    }
    fn spec_ln(self) -> Self {
        Scalar::ln(self)
    }
    fn spec_exp(self) -> Self {
        Scalar::exp(self)
    }
    fn spec_sqrt(self) -> Self {
        Scalar::sqrt(self)
    }
    fn spec_is_zero(self) -> bool {
        Scalar::is_zero(self)
    }
    fn spec_is_positive(self) -> bool {
        Scalar::is_positive(self)
    }
    fn spec_max(self, other: Self) -> Self {
        Scalar::max(self, other)
    }
    fn zero() -> Self {
        F(0.0)
    }
    fn one() -> Self {
        F(1.0)
    }
    fn nan() -> Self {
        F(f32::NAN)
    }
    fn from_count(n: usize) -> Self {
        F(n as f32)
    }
    fn add(self, other: Self) -> Self {
        F(self.0 + other.0)
    }
    fn sub(self, other: Self) -> Self {
        F(self.0 - other.0)
    }
    fn mul(self, other: Self) -> Self {
        F(self.0 * other.0)
    }
    fn div(self, other: Self) -> Self {
        F(self.0 / other.0)
    }
    fn neg(self) -> Self {
        F(-self.0)
    }
    fn ln(self) -> Self {
        F(self.0.ln())
    }
    fn exp(self) -> Self {
        F(self.0.exp())
    }
    fn sqrt(self) -> Self {
        F(self.0.sqrt())
    }
    fn is_zero(self) -> bool {
        self.0 == 0.0
    }
    fn is_positive(self) -> bool {
        self.0 > 0.0
    }
    fn max(self, other: Self) -> Self {
        F(self.0.max(other.0))
    }
}

fn tensor(data: &[f32], shape: &[usize]) -> Tensor<F> {
    Tensor::new(data.iter().map(|&v| F(v)).collect(), shape.to_vec()).unwrap()
}

fn values(t: &Tensor<F>) -> Vec<f32> {
    t.data().iter().map(|v| v.0).collect()
}

#[test]
fn tensor_add_broadcast_smoke() {
    let a = tensor(&[1.0, 2.0, 3.0], &[3]);
    let b = tensor(&[10.0], &[1]);
    let c = a.add(&b).unwrap();
    assert_eq!(c.shape(), &[3]);
    assert_eq!(values(&c), vec![11.0, 12.0, 13.0]);
}

#[test]
fn transpose_2d_correctness() {
    let x = tensor(&[1.0, 2.0, 3.0, 4.0, 5.0, 6.0], &[2, 3]);
    let y = x.transpose_2d().unwrap();
    assert_eq!(y.shape(), &[3, 2]);
    assert_eq!(values(&y), vec![1.0, 4.0, 2.0, 5.0, 3.0, 6.0]);
}

#[test]
fn matmul_correctness() {
    let a = tensor(&[1.0, 2.0, 3.0, 4.0], &[2, 2]);
    let b = tensor(&[5.0, 6.0, 7.0, 8.0], &[2, 2]);
    let c = a.matmul(&b).unwrap();
    assert_eq!(c.shape(), &[2, 2]);
    assert_eq!(values(&c), vec![19.0, 22.0, 43.0, 50.0]);
}

#[test]
fn relu_correctness() {
    let x = tensor(&[-1.0, 0.0, 2.0], &[3]);
    let y = x.relu().unwrap();
    assert_eq!(values(&y), vec![0.0, 0.0, 2.0]);
}

#[test]
fn sum_none_correctness() {
    let x = tensor(&[1.0, 2.0, 3.0], &[3]);
    let y = x.sum(None).unwrap();
    assert_eq!(y.shape(), &[1]);
    assert_eq!(values(&y), vec![6.0]);
}

#[test]
fn sum_dim_correctness() {
    let x = tensor(&[1.0, 2.0, 3.0, 4.0], &[2, 2]);

    let along_rows = x.sum(Some(0)).unwrap();
    assert_eq!(along_rows.shape(), &[1, 2]);
    assert_eq!(values(&along_rows), vec![4.0, 6.0]);

    let along_cols = x.sum(Some(1)).unwrap();
    assert_eq!(along_cols.shape(), &[2, 1]);
    assert_eq!(values(&along_cols), vec![3.0, 7.0]);
}

#[test]
fn sum_all_of_matrix() {
    let x = tensor(&[1.0, 2.0, 3.0, 4.0], &[2, 2]);
    let y = x.sum(None).unwrap();
    assert_eq!(y.shape(), &[1]);
    assert_eq!(values(&y), vec![10.0]);
}

#[test]
fn sum_bad_axis_is_dimension_error() {
    let x = tensor(&[1.0, 2.0], &[2]);
    assert!(matches!(x.sum(Some(1)), Err(ComputeError::DimensionError { .. })));
}

#[test]
fn new_rejects_empty_shape() {
    let r = Tensor::new(vec![F(1.0)], vec![]);
    assert!(matches!(r, Err(ComputeError::DimensionError { .. })));
}

#[test]
fn new_rejects_wrong_length() {
    let r = Tensor::new(vec![F(1.0), F(2.0)], vec![3]);
    assert!(matches!(r, Err(ComputeError::ShapeMismatch { expected: 3, got: 2 })));
}

#[test]
fn broadcast_conflict_names_dimension_and_sizes() {
    let a = tensor(&[1.0, 2.0, 3.0, 4.0, 5.0, 6.0], &[2, 3]);
    let b = tensor(&[1.0, 2.0], &[2]);
    let r = a.add(&b);
    assert!(matches!(
        r,
        Err(ComputeError::BroadcastError { dim: 1, shape1: 3, shape2: 2 })
    ));
}

#[test]
fn broadcast_row_against_column() {
    let a = tensor(&[1.0, 2.0], &[2, 1]);
    let b = tensor(&[10.0, 20.0, 30.0], &[1, 3]);
    let c = a.add(&b).unwrap();
    assert_eq!(c.shape(), &[2, 3]);
    assert_eq!(values(&c), vec![11.0, 21.0, 31.0, 12.0, 22.0, 32.0]);
}

#[test]
fn broadcast_lower_rank_operand() {
    let a = tensor(&[1.0, 2.0, 3.0, 4.0, 5.0, 6.0], &[2, 3]);
    let b = tensor(&[10.0, 20.0, 30.0], &[3]);
    let c = a.multiply(&b).unwrap();
    assert_eq!(c.shape(), &[2, 3]);
    assert_eq!(values(&c), vec![10.0, 40.0, 90.0, 40.0, 100.0, 180.0]);
}

#[test]
fn subtract_and_divide_elementwise() {
    let a = tensor(&[6.0, 8.0], &[2]);
    let b = tensor(&[2.0, 4.0], &[2]);
    assert_eq!(values(&a.subtract(&b).unwrap()), vec![4.0, 4.0]);
    assert_eq!(values(&a.divide(&b).unwrap()), vec![3.0, 2.0]);
}

#[test]
fn divide_by_zero_is_nan() {
    let a = tensor(&[1.0, 2.0], &[2]);
    let b = tensor(&[0.0, 1.0], &[2]);
    let c = a.divide(&b).unwrap();
    assert!(c.data()[0].0.is_nan());
    assert_eq!(c.data()[1].0, 2.0);
}

#[test]
fn matmul_rank_and_inner_dimension_errors() {
    let v = tensor(&[1.0, 2.0], &[2]);
    let m = tensor(&[1.0, 2.0, 3.0, 4.0, 5.0, 6.0], &[2, 3]);
    assert!(matches!(v.matmul(&m), Err(ComputeError::DimensionError { .. })));
    assert!(matches!(m.matmul(&m), Err(ComputeError::InvalidOperation { .. })));
}

#[test]
fn transpose_requires_rank_two() {
    let v = tensor(&[1.0, 2.0], &[2]);
    assert!(matches!(v.transpose_2d(), Err(ComputeError::DimensionError { .. })));
}

#[test]
fn zeros_ones_and_like() {
    let z: Tensor<F> = Tensor::zeros(vec![2, 2]).unwrap();
    assert_eq!(values(&z), vec![0.0; 4]);
    let o = Tensor::ones_like(&z);
    assert_eq!(o.shape(), &[2, 2]);
    assert_eq!(values(&o), vec![1.0; 4]);
    assert_eq!(values(&Tensor::zeros_like(&o)), vec![0.0; 4]);
}

#[test]
fn random_is_deterministic_and_in_range() {
    let a: Tensor<F> = Tensor::random(vec![4, 5], 7).unwrap();
    let b: Tensor<F> = Tensor::random(vec![4, 5], 7).unwrap();
    assert_eq!(values(&a), values(&b));
    assert!(values(&a).iter().all(|v| *v >= -1.0 && *v < 1.0));
}
