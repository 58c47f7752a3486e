use neuroncore::ops::{MatMulOp, ReluOp, SoftmaxOp, SumOp};
use neuroncore::{AddOp, ComputeError, Graph, MultiplyOp, Op, Scalar, Tensor};

#[derive(Clone, Copy, Debug, PartialEq)]
struct F(f32);

impl Scalar for F {
    fn spec_zero() -> Self {
        <F as Scalar>::zero()
    }
    fn spec_one() -> Self {
        <F as Scalar>::one()
    }
    fn spec_nan() -> Self {
        <F as Scalar>::nan()
    }
    fn spec_from_count(n: usize) -> Self {
        <F as Scalar>::from_count(n)
    }
    fn spec_add(self, other: Self) -> Self {
        Scalar::add(self, other)
    }
    fn spec_sub(self, other: Self) -> Self {
        Scalar::sub(self, other)
    }
    fn spec_mul(self, other: Self) -> Self {
        Scalar::mul(self, other)
    }
    fn spec_div(self, other: Self) -> Self {
        Scalar::div(self, other)
    }
    fn spec_neg(self) -> Self {
        Scalar::neg(self)
    }
    fn spec_ln(self) -> Self {
        Scalar::ln(self)
    }
    fn spec_exp(self) -> Self {
        Scalar::exp(self)
    }
    fn spec_sqrt(self) -> Self {
        Scalar::sqrt(self)
    }
    fn spec_is_zero(self) -> bool {
        Scalar::is_zero(self)
    }
    fn spec_is_positive(self) -> bool {
        Scalar::is_positive(self)
    }
    fn spec_max(self, other: Self) -> Self {
        Scalar::max(self, other)
    }
    fn zero() -> Self {
        F(0.0)
    }
    fn one() -> Self {
        F(1.0)
    }
    fn nan() -> Self {
        F(f32::NAN)
    }
    fn from_count(n: usize) -> Self {
        F(n as f32)
    }
    fn add(self, other: Self) -> Self {
        F(self.0 + other.0)
    }
    fn sub(self, other: Self) -> Self {
        F(self.0 - other.0)
    }
    fn mul(self, other: Self) -> Self {
        F(self.0 * other.0)
    }
    fn div(self, other: Self) -> Self {
        F(self.0 / other.0)
    }
    fn neg(self) -> Self {
        F(-self.0)
    }
    fn ln(self) -> Self {
        F(self.0.ln())
    }
    fn exp(self) -> Self {
        F(self.0.exp())
    }
    fn sqrt(self) -> Self {
        F(self.0.sqrt())
    }
    fn is_zero(self) -> bool {
        self.0 == 0.0
    }
    fn is_positive(self) -> bool {
        self.0 > 0.0
    }
    fn max(self, other: Self) -> Self {
        F(self.0.max(other.0))
    }
}

fn tensor(data: &[f32], shape: &[usize]) -> Tensor<F> {
    Tensor::new(data.iter().map(|&v| F(v)).collect(), shape.to_vec()).unwrap()
}

fn values(t: &Tensor<F>) -> Vec<f32> {
    t.data().iter().map(|v| v.0).collect()
}

#[test]
fn graph_forward_add_smoke() {
    let mut g = Graph::new();
    let a = g.add_input(tensor(&[1.0, 2.0], &[1, 2]));
    let b = g.add_input(tensor(&[3.0, 4.0], &[1, 2]));
    let out = g.apply_op(AddOp, &[a, b]);
    let y = g.forward(out).unwrap();
    assert_eq!(values(&y), vec![4.0, 6.0]);
}

#[test]
fn graph_backward_add_smoke() {
    let mut g = Graph::new();
    let a = g.add_parameter(tensor(&[1.0, 2.0], &[1, 2]), true);
    let b = g.add_parameter(tensor(&[3.0, 4.0], &[1, 2]), true);
    let out = g.apply_op(AddOp, &[a, b]);
    g.backward(out).unwrap();
    let ga = g.get_gradient(a).unwrap();
    let gb = g.get_gradient(b).unwrap();
    assert_eq!(values(ga), vec![1.0, 1.0]);
    assert_eq!(values(gb), vec![1.0, 1.0]);
}

#[test]
fn shared_parameter_accumulates_both_contributions() {
    let mut g = Graph::new();
    let p = g.add_parameter(tensor(&[1.0, 2.0, 3.0], &[3]), true);
    let out = g.apply_op(AddOp, &[p, p]);
    g.backward(out).unwrap();
    assert_eq!(values(g.get_gradient(p).unwrap()), vec![2.0, 2.0, 2.0]);
}

#[test]
fn shared_subgraph_accumulates_through_multiply() {
    // y = x * x  => dy/dx = 2x
    let mut g = Graph::new();
    let x = g.add_parameter(tensor(&[3.0, -1.0], &[2]), true);
    let y = g.apply_op(MultiplyOp, &[x, x]);
    g.backward(y).unwrap();
    assert_eq!(values(g.get_gradient(x).unwrap()), vec![6.0, -2.0]);
}

#[test]
fn backward_again_accumulates_until_zero_grad() {
    let mut g = Graph::new();
    let p = g.add_parameter(tensor(&[1.0], &[1]), true);
    let q = g.add_input(tensor(&[5.0], &[1]));
    let out = g.apply_op(MultiplyOp, &[p, q]);
    g.backward(out).unwrap();
    assert_eq!(values(g.get_gradient(p).unwrap()), vec![5.0]);
    g.backward(out).unwrap();
    assert_eq!(values(g.get_gradient(p).unwrap()), vec![10.0]);
    g.zero_grad();
    assert!(g.get_gradient(p).is_none());
}

#[test]
fn inputs_and_frozen_parameters_get_no_gradient() {
    let mut g = Graph::new();
    let x = g.add_input(tensor(&[1.0], &[1]));
    let frozen = g.add_parameter(tensor(&[2.0], &[1]), false);
    let out = g.apply_op(AddOp, &[x, frozen]);
    g.backward(out).unwrap();
    assert!(g.get_gradient(x).is_none());
    assert!(g.get_gradient(frozen).is_none());
    assert_eq!(values(g.get_gradient(out).unwrap()), vec![1.0]);
    assert!(!g.node_requires_grad(x));
    assert!(!g.node_requires_grad(frozen));
    assert!(g.node_requires_grad(out));
    assert!(!g.node_requires_grad(99));
}

#[test]
fn matmul_gradients() {
    let mut g = Graph::new();
    let a = g.add_parameter(tensor(&[1.0, 2.0, 3.0, 4.0], &[2, 2]), true);
    let b = g.add_parameter(tensor(&[5.0, 6.0, 7.0, 8.0], &[2, 2]), true);
    let c = g.apply_op(MatMulOp, &[a, b]);
    g.backward(c).unwrap();
    // grad_a = ones · bᵀ, grad_b = aᵀ · ones
    assert_eq!(values(g.get_gradient(a).unwrap()), vec![11.0, 15.0, 11.0, 15.0]);
    assert_eq!(values(g.get_gradient(b).unwrap()), vec![4.0, 4.0, 6.0, 6.0]);
}

#[test]
fn relu_and_sum_gradients() {
    let mut g = Graph::new();
    let x = g.add_parameter(tensor(&[-1.0, 2.0, 3.0, -4.0], &[2, 2]), true);
    let r = g.apply_op(ReluOp, &[x]);
    let s = g.apply_op(SumOp { dim: Some(0) }, &[r]);
    g.backward(s).unwrap();
    assert_eq!(values(g.get_gradient(x).unwrap()), vec![0.0, 1.0, 1.0, 0.0]);
}

#[test]
fn softmax_rows_sum_to_one_and_gradient_of_sum_vanishes() {
    let mut g = Graph::new();
    let x = g.add_parameter(tensor(&[1.0, 2.0, 3.0, 0.0, 0.0, 0.0], &[2, 3]), true);
    let y = g.apply_op(SoftmaxOp, &[x]);
    let v = g.forward(y).unwrap();
    let d = values(&v);
    assert!((d[0] + d[1] + d[2] - 1.0).abs() < 1e-6);
    assert!((d[3] - 1.0 / 3.0).abs() < 1e-6);
    g.backward(y).unwrap();
    for gv in values(g.get_gradient(x).unwrap()) {
        assert!(gv.abs() < 1e-6);
    }
}

#[test]
fn forward_out_of_range_is_index_error() {
    let g: Graph<F> = Graph::new();
    assert!(matches!(g.forward(0), Err(ComputeError::IndexError { .. })));
    assert!(matches!(g.topological_sort(0), Err(ComputeError::IndexError { .. })));
}

#[test]
fn backward_out_of_range_is_index_error() {
    let mut g: Graph<F> = Graph::new();
    assert!(matches!(g.backward(3), Err(ComputeError::IndexError { .. })));
}

#[test]
fn topological_order_lists_operands_first() {
    let mut g = Graph::new();
    let a = g.add_input(tensor(&[1.0], &[1]));
    let b = g.add_input(tensor(&[2.0], &[1]));
    let c = g.apply_op(AddOp, &[a, b]);
    let _unused = g.add_input(tensor(&[9.0], &[1]));
    let d = g.apply_op(MultiplyOp, &[c, a]);
    let order = g.topological_sort(d).unwrap();
    assert_eq!(order, vec![a, b, c, d]);
}

#[test]
fn parameter_access_rules() {
    let mut g = Graph::new();
    let x = g.add_input(tensor(&[1.0], &[1]));
    let frozen = g.add_parameter(tensor(&[2.0], &[1]), false);
    let p = g.add_parameter(tensor(&[3.0], &[1]), true);
    assert!(matches!(g.get_parameter_mut(x), Err(ComputeError::InvalidOperation { .. })));
    assert!(matches!(g.get_parameter_mut(frozen), Err(ComputeError::InvalidOperation { .. })));
    assert!(matches!(g.get_parameter_mut(7), Err(ComputeError::InvalidOperation { .. })));
    g.get_parameter_mut(p).unwrap().set(0, F(4.0));
    assert_eq!(values(&g.get_tensor(p).unwrap()), vec![4.0]);
}

#[test]
fn op_backward_checks_operand_count() {
    let t = tensor(&[1.0], &[1]);
    let r = AddOp.backward(&[t.clone()], &t);
    assert!(matches!(r, Err(ComputeError::InputCountError { expected: 2, got: 1 })));
}
