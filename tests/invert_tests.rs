use neuroncore::ops::{AddOp, DivideOp, InvertibleOp, LogOp, MultiplyOp, Op, SubtractOp};
use neuroncore::{ComputeError, Scalar, Tensor};

#[derive(Clone, Copy, Debug, PartialEq)]
struct F(f32);

impl Scalar for F {
    fn spec_zero() -> Self {
        <F as Scalar>::zero()
    }
    fn spec_one() -> Self {
        <F as Scalar>::one()
    }
    fn spec_nan() -> Self {
        <F as Scalar>::nan()
    }
    fn spec_from_count(n: usize) -> Self {
        <F as Scalar>::from_count(n)
    }
    fn spec_add(self, other: Self) -> Self {
        Scalar::add(self, other)
    }
    fn spec_sub(self, other: Self) -> Self {
        Scalar::sub(self, other)
    }
    fn spec_mul(self, other: Self) -> Self {
        Scalar::mul(self, other)
    }
    fn spec_div(self, other: Self) -> Self {
        Scalar::div(self, other)
    }
    fn spec_neg(self) -> Self {
        Scalar::neg(self)
    }
    fn spec_ln(self) -> Self {
        Scalar::ln(self)
    }
    fn spec_exp(self) -> Self {
        Scalar::exp(self)
    }
    fn spec_sqrt(self) -> Self {
        Scalar::sqrt(self)
    }
    fn spec_is_zero(self) -> bool {
        Scalar::is_zero(self)
    }
    fn spec_is_positive(self) -> bool {
        Scalar::is_positive(self)
    }
    fn spec_max(self, other: Self) -> Self {
        Scalar::max(self, other)
    }
    fn zero() -> Self {
        F(0.0)
    }
    fn one() -> Self {
        F(1.0)
    }
    fn nan() -> Self {
        F(f32::NAN)
    }
    fn from_count(n: usize) -> Self {
        F(n as f32)
    }
    fn add(self, other: Self) -> Self {
        F(self.0 + other.0)
    }
    fn sub(self, other: Self) -> Self {
        F(self.0 - other.0)
    }
    fn mul(self, other: Self) -> Self {
        F(self.0 * other.0)
    }
    fn div(self, other: Self) -> Self {
        F(self.0 / other.0)
    }
    fn neg(self) -> Self {
        F(-self.0)
    }
    fn ln(self) -> Self {
        F(self.0.ln())
    }
    fn exp(self) -> Self {
        F(self.0.exp())
    }
    fn sqrt(self) -> Self {
        F(self.0.sqrt())
    }
    fn is_zero(self) -> bool {
        self.0 == 0.0
    }
    fn is_positive(self) -> bool {
        self.0 > 0.0
    }
    fn max(self, other: Self) -> Self {
        F(self.0.max(other.0))
    }
}

fn tensor(data: &[f32], shape: &[usize]) -> Tensor<F> {
    Tensor::new(data.iter().map(|&v| F(v)).collect(), shape.to_vec()).unwrap()
}

fn values(t: &Tensor<F>) -> Vec<f32> {
    t.data().iter().map(|v| v.0).collect()
}

const TOL: f32 = 1e-5;

fn assert_close(a: &[f32], b: &[f32], label: &str) {
    assert_eq!(a.len(), b.len(), "{label}: length mismatch");
    for (i, (&x, &y)) in a.iter().zip(b.iter()).enumerate() {
        assert!(
            (x - y).abs() < TOL,
            "{label}[{i}]: {x} vs {y} (diff={})",
            (x - y).abs()
        );
    }
}

#[test]
fn add_invert_solve_for_0() {
    let a = tensor(&[1.0, 2.0, 3.0], &[3]);
    let b = tensor(&[4.0, 5.0, 6.0], &[3]);
    let out = AddOp.forward(&[a.clone(), b.clone()]).unwrap();
    let recovered = AddOp.invert(&out, &[None, Some(&b)], 0).unwrap();
    assert_close(&values(&recovered), &values(&a), "add solve_for=0");
}

#[test]
fn add_invert_solve_for_1() {
    let a = tensor(&[1.0, 2.0, 3.0], &[3]);
    let b = tensor(&[4.0, 5.0, 6.0], &[3]);
    let out = AddOp.forward(&[a.clone(), b.clone()]).unwrap();
    let recovered = AddOp.invert(&out, &[Some(&a), None], 1).unwrap();
    assert_close(&values(&recovered), &values(&b), "add solve_for=1");
}

#[test]
fn sub_invert_solve_for_0() {
    let a = tensor(&[10.0, 20.0], &[2]);
    let b = tensor(&[3.0, 7.0], &[2]);
    let out = SubtractOp.forward(&[a.clone(), b.clone()]).unwrap();
    let recovered = SubtractOp.invert(&out, &[None, Some(&b)], 0).unwrap();
    assert_close(&values(&recovered), &values(&a), "sub solve_for=0");
}

#[test]
fn sub_invert_solve_for_1() {
    let a = tensor(&[10.0, 20.0], &[2]);
    let b = tensor(&[3.0, 7.0], &[2]);
    let out = SubtractOp.forward(&[a.clone(), b.clone()]).unwrap();
    let recovered = SubtractOp.invert(&out, &[Some(&a), None], 1).unwrap();
    assert_close(&values(&recovered), &values(&b), "sub solve_for=1");
}

#[test]
fn mul_invert_solve_for_0() {
    let a = tensor(&[2.0, 3.0, 4.0], &[3]);
    let b = tensor(&[5.0, 6.0, 7.0], &[3]);
    let out = MultiplyOp.forward(&[a.clone(), b.clone()]).unwrap();
    let recovered = MultiplyOp.invert(&out, &[None, Some(&b)], 0).unwrap();
    assert_close(&values(&recovered), &values(&a), "mul solve_for=0");
}

#[test]
fn mul_invert_solve_for_1() {
    let a = tensor(&[2.0, 3.0, 4.0], &[3]);
    let b = tensor(&[5.0, 6.0, 7.0], &[3]);
    let out = MultiplyOp.forward(&[a.clone(), b.clone()]).unwrap();
    let recovered = MultiplyOp.invert(&out, &[Some(&a), None], 1).unwrap();
    assert_close(&values(&recovered), &values(&b), "mul solve_for=1");
}

#[test]
fn div_invert_solve_for_0() {
    let a = tensor(&[12.0, 15.0], &[2]);
    let b = tensor(&[3.0, 5.0], &[2]);
    let out = DivideOp.forward(&[a.clone(), b.clone()]).unwrap();
    let recovered = DivideOp.invert(&out, &[None, Some(&b)], 0).unwrap();
    assert_close(&values(&recovered), &values(&a), "div solve_for=0");
}

#[test]
fn div_invert_solve_for_1() {
    let a = tensor(&[12.0, 15.0], &[2]);
    let b = tensor(&[3.0, 5.0], &[2]);
    let out = DivideOp.forward(&[a.clone(), b.clone()]).unwrap();
    let recovered = DivideOp.invert(&out, &[Some(&a), None], 1).unwrap();
    assert_close(&values(&recovered), &values(&b), "div solve_for=1");
}

#[test]
fn log_invert_round_trip() {
    let x = tensor(&[1.0, 2.718281828, 0.5], &[3]);
    let out = LogOp.forward(&[x.clone()]).unwrap();
    let recovered = LogOp.invert(&out, &[None], 0).unwrap();
    assert_close(&values(&recovered), &values(&x), "log round-trip");
}

#[test]
fn add_invert_2d() {
    let a = tensor(&[1.0, 2.0, 3.0, 4.0], &[2, 2]);
    let b = tensor(&[10.0, 20.0, 30.0, 40.0], &[2, 2]);
    let out = AddOp.forward(&[a.clone(), b.clone()]).unwrap();
    let recovered = AddOp.invert(&out, &[None, Some(&b)], 0).unwrap();
    assert_close(&values(&recovered), &values(&a), "add 2d solve_for=0");
    assert_eq!(recovered.shape(), &[2, 2]);
}

#[test]
fn round_trips_on_2d_for_every_position() {
    let a = tensor(&[1.5, -2.0, 3.25, 4.0], &[2, 2]);
    let b = tensor(&[0.5, 8.0, -3.0, 2.0], &[2, 2]);
    let pair = [a.clone(), b.clone()];
    let add = AddOp.forward(&pair).unwrap();
    let sub = SubtractOp.forward(&pair).unwrap();
    let mul = MultiplyOp.forward(&pair).unwrap();
    let div = DivideOp.forward(&pair).unwrap();
    assert_close(&values(&AddOp.invert(&add, &[Some(&a), None], 1).unwrap()), &values(&b), "add");
    assert_close(&values(&SubtractOp.invert(&sub, &[Some(&a), None], 1).unwrap()), &values(&b), "sub");
    assert_close(&values(&SubtractOp.invert(&sub, &[None, Some(&b)], 0).unwrap()), &values(&a), "sub0");
    assert_close(&values(&MultiplyOp.invert(&mul, &[Some(&a), None], 1).unwrap()), &values(&b), "mul");
    assert_close(&values(&DivideOp.invert(&div, &[Some(&a), None], 1).unwrap()), &values(&b), "div");
    assert_close(&values(&DivideOp.invert(&div, &[None, Some(&b)], 0).unwrap()), &values(&a), "div0");
}

#[test]
fn invert_wrong_arity() {
    let out = tensor(&[1.0], &[1]);
    let result = AddOp.invert(&out, &[None], 0);
    assert!(result.is_err());
    assert!(matches!(result, Err(ComputeError::InputCountError { expected: 2, got: 1 })));
}

#[test]
fn invert_solve_for_out_of_bounds() {
    let out = tensor(&[1.0], &[1]);
    let t = tensor(&[1.0], &[1]);
    let result = AddOp.invert(&out, &[Some(&t), None], 5);
    assert!(result.is_err());
    assert!(matches!(result, Err(ComputeError::IndexError { .. })));
}

#[test]
fn invert_solve_for_not_none() {
    let out = tensor(&[1.0], &[1]);
    let t = tensor(&[1.0], &[1]);
    let result = AddOp.invert(&out, &[Some(&t), Some(&t)], 0);
    assert!(result.is_err());
    assert!(matches!(result, Err(ComputeError::InvalidOperation { .. })));
}

#[test]
fn invert_missing_other_input() {
    let out = tensor(&[1.0], &[1]);
    let result = AddOp.invert(&out, &[None, None], 0);
    assert!(result.is_err());
    assert!(matches!(result, Err(ComputeError::InvalidOperation { .. })));
}

#[test]
fn forward_wrong_operand_count() {
    let a = tensor(&[1.0], &[1]);
    let r = AddOp.forward(&[a.clone()]);
    assert!(matches!(r, Err(ComputeError::InputCountError { expected: 2, got: 1 })));
    let r = LogOp.forward(&[a.clone(), a.clone()]);
    assert!(matches!(r, Err(ComputeError::InputCountError { expected: 1, got: 2 })));
}
