use neuroncore::layers::{Layer, Linear};
use neuroncore::losses::{CrossEntropyLoss, MSELoss};
use neuroncore::ops::ReluOp;
use neuroncore::optim::{Optimizer, SGD};
use neuroncore::prng::XorShift32;
use neuroncore::{Graph, Scalar, Tensor};

#[derive(Clone, Copy, Debug, PartialEq)]
struct F(f32);

impl Scalar for F {
    fn spec_zero() -> Self {
        <F as Scalar>::zero()
    }
    fn spec_one() -> Self {
        <F as Scalar>::one()
    }
    fn spec_nan() -> Self {
        <F as Scalar>::nan()
    }
    fn spec_from_count(n: usize) -> Self {
        <F as Scalar>::from_count(n)
    }
    fn spec_add(self, other: Self) -> Self {
        Scalar::add(self, other)
    }
    fn spec_sub(self, other: Self) -> Self {
        Scalar::sub(self, other)
    }
    fn spec_mul(self, other: Self) -> Self {
        Scalar::mul(self, other)
    }
    fn spec_div(self, other: Self) -> Self {
        Scalar::div(self, other)
    }
    fn spec_neg(self) -> Self {
        Scalar::neg(self)
    }
    fn spec_ln(self) -> Self {
        Scalar::ln(self)
    }
    fn spec_exp(self) -> Self {
        Scalar::exp(self)
    }
    fn spec_sqrt(self) -> Self {
        Scalar::sqrt(self)
    }
    fn spec_is_zero(self) -> bool {
        Scalar::is_zero(self)
    }
    fn spec_is_positive(self) -> bool {
        Scalar::is_positive(self)
    }
    fn spec_max(self, other: Self) -> Self {
        Scalar::max(self, other)
    }
    fn zero() -> Self {
        F(0.0)
    }
    fn one() -> Self {
        F(1.0)
    }
    fn nan() -> Self {
        F(f32::NAN)
    }
    fn from_count(n: usize) -> Self {
        F(n as f32)
    }
    fn add(self, other: Self) -> Self {
        F(self.0 + other.0)
    }
    fn sub(self, other: Self) -> Self {
        F(self.0 - other.0)
    }
    fn mul(self, other: Self) -> Self {
        F(self.0 * other.0)
    }
    fn div(self, other: Self) -> Self {
        F(self.0 / other.0)
    }
    fn neg(self) -> Self {
        F(-self.0)
    }
    fn ln(self) -> Self {
        F(self.0.ln())
    }
    fn exp(self) -> Self {
        F(self.0.exp())
    }
    fn sqrt(self) -> Self {
        F(self.0.sqrt())
    }
    fn is_zero(self) -> bool {
        self.0 == 0.0
    }
    fn is_positive(self) -> bool {
        self.0 > 0.0
    }
    fn max(self, other: Self) -> Self {
        F(self.0.max(other.0))
    }
}

fn tensor(data: &[f32], shape: &[usize]) -> Tensor<F> {
    Tensor::new(data.iter().map(|&v| F(v)).collect(), shape.to_vec()).unwrap()
}

fn values(t: &Tensor<F>) -> Vec<f32> {
    t.data().iter().map(|v| v.0).collect()
}

#[test]
fn two_layer_regression_smoke() {
    let mut graph = Graph::new();

    // x: 1x2, y: 1x1
    let x_idx = graph.add_input(tensor(&[0.5, -0.5], &[1, 2]));
    let y_idx = graph.add_input(tensor(&[0.75], &[1, 1]));

    // Two-layer network: 2 -> 3 -> 1
    let layer1 = Linear::new(&mut graph, 2, 3, 123).unwrap();
    let layer2 = Linear::new(&mut graph, 3, 1, 456).unwrap();

    let mut params = Vec::new();
    params.extend(layer1.parameters());
    params.extend(layer2.parameters());

    let mut opt = SGD::new(params, F(0.05), Some(F(0.9)));

    let mut initial_loss = None;
    let mut final_loss = None;
    for _epoch in 0..50 {
        let h = layer1.forward(&mut graph, x_idx).unwrap();
        let h_relu = graph.apply_op(ReluOp, &[h]);
        let out = layer2.forward(&mut graph, h_relu).unwrap();
        let loss_idx = MSELoss::compute(&mut graph, out, y_idx).unwrap();
        let loss = graph.forward(loss_idx).unwrap();

        opt.zero_grad(&mut graph);
        graph.backward(loss_idx).unwrap();
        opt.step(&mut graph).unwrap();

        let loss_value = loss.data()[0].0;
        assert!(loss_value.is_finite());
        if initial_loss.is_none() {
            initial_loss = Some(loss_value);
        }
        final_loss = Some(loss_value);
    }

    if let (Some(start), Some(end)) = (initial_loss, final_loss) {
        assert!(end <= start * 2.5);
    }
}

#[test]
fn plain_sgd_moves_against_gradient() {
    let mut graph = Graph::new();
    let p = graph.add_parameter(tensor(&[1.0, 2.0], &[2]), true);
    let s = graph.apply_op(neuroncore::SumOp { dim: None }, &[p]);
    graph.backward(s).unwrap();
    let mut opt = SGD::new(vec![p], F(0.5), None);
    opt.step(&mut graph).unwrap();
    assert_eq!(values(&graph.forward(p).unwrap()), vec![0.5, 1.5]);
}

#[test]
fn momentum_sgd_accumulates_velocity() {
    let mut graph = Graph::new();
    let p = graph.add_parameter(tensor(&[0.0], &[1]), true);
    let s = graph.apply_op(neuroncore::SumOp { dim: None }, &[p]);
    let mut opt = SGD::new(vec![p], F(1.0), Some(F(0.5)));
    graph.backward(s).unwrap();
    opt.step(&mut graph).unwrap();
    // v = -1, p = -1
    assert_eq!(values(&graph.forward(p).unwrap()), vec![-1.0]);
    opt.step(&mut graph).unwrap();
    // v = 0.5 * -1 - 1 = -1.5, p = -2.5
    assert_eq!(values(&graph.forward(p).unwrap()), vec![-2.5]);
}

#[test]
fn mse_loss_value() {
    let mut graph = Graph::new();
    let p = graph.add_input(tensor(&[1.0, 2.0, 3.0], &[3]));
    let t = graph.add_input(tensor(&[1.0, 0.0, 0.0], &[3]));
    let l = MSELoss::compute(&mut graph, p, t).unwrap();
    let v = graph.forward(l).unwrap();
    assert!((v.data()[0].0 - 13.0 / 3.0).abs() < 1e-6);
}

#[test]
fn cross_entropy_loss_value() {
    let mut graph = Graph::new();
    let logits = graph.add_input(tensor(&[0.0, 0.0], &[2]));
    let target = graph.add_input(tensor(&[1.0, 0.0], &[2]));
    let l = CrossEntropyLoss::compute(&mut graph, logits, target).unwrap();
    let v = graph.forward(l).unwrap();
    assert!((v.data()[0].0 - 2.0f32.ln()).abs() < 1e-6);
}

#[test]
fn xorshift_sequence() {
    let mut rng = XorShift32::new(1);
    assert_eq!(rng.next_u32(), 270369);
    assert_eq!(rng.next_u32(), 67634689);
    let mut zero = XorShift32::new(0);
    let mut dflt = XorShift32::new(0x6d2b_79f5);
    assert_eq!(zero.next_u32(), dflt.next_u32());
}

#[test]
fn unit_draws_lie_in_range() {
    let mut rng = XorShift32::new(99);
    for _ in 0..100 {
        let v: F = rng.gen_range_f32(F(-2.0), F(3.0));
        assert!(v.0 >= -2.0 && v.0 < 3.0);
    }
}
