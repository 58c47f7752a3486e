use vstd::prelude::*;

use crate::error::ComputeError;
use crate::graph::{Graph, Node};
use crate::ops::{AddOp, MatMulOp, OpKind};
use crate::prng::XorShift32;
use crate::tensor::{lemma_shape2, Scalar, Tensor};

verus! {

/// A building block of a network: trainable parameters in a graph, and a forward pass that
/// appends nodes to it.
pub trait Layer<T: Scalar> {
    /// Every parameter node of the layer lies below index `n`.
    spec fn params_below(&self, n: nat) -> bool;

    /// What `forward` appends to a graph whose nodes were `before`, and returns.
    spec fn forward_outcome(
        &self,
        before: Seq<Node<T>>,
        input_idx: usize,
        after: Seq<Node<T>>,
        r: Result<usize, ComputeError>,
    ) -> bool;

    /// The indices of the layer's parameter nodes.
    fn parameters(&self) -> (r: Vec<usize>)
        ensures
            forall|n: nat| self.params_below(n) ==> forall|i: int| 0 <= i < r@.len() ==> #[trigger] r@[i] < n,
    ;

    /// Appends the layer's computation on node `input_idx`; returns the output node.
    fn forward(&self, graph: &mut Graph<T>, input_idx: usize) -> (r: Result<usize, ComputeError>)
        requires
            old(graph).wf(),
            input_idx < old(graph).spec_nodes().len(),
            self.params_below(old(graph).spec_nodes().len()),
            old(graph).spec_nodes().len() + 2 < usize::MAX,
        ensures
            final(graph).wf(),
            final(graph).spec_nodes().len() >= old(graph).spec_nodes().len(),
            final(graph).spec_nodes().subrange(0, old(graph).spec_nodes().len() as int) == old(
                graph,
            ).spec_nodes(),
            r matches Ok(i) ==> i < final(graph).spec_nodes().len(),
            self.forward_outcome(old(graph).spec_nodes(), input_idx, final(graph).spec_nodes(), r),
    ;
}

/// Fully connected layer: `x · W + b`, with `W` of shape `[input_size, output_size]` and `b`
/// of shape `[1, output_size]`.
pub struct Linear {
    weight_idx: usize,
    bias_idx: usize,
    pub input_size: usize,
    pub output_size: usize,
}

impl Linear {
    /// The weight's parameter node.
    pub closed spec fn spec_weight_idx(&self) -> usize {
        self.weight_idx
    }

    /// The bias's parameter node.
    pub closed spec fn spec_bias_idx(&self) -> usize {
        self.bias_idx
    }

    /// The input and output sizes.
    pub closed spec fn spec_sizes(&self) -> (usize, usize) {
        (self.input_size, self.output_size)
    }

    /// The weight and bias parameter nodes.
    pub fn parameters(&self) -> (r: Vec<usize>)
        ensures
            r@ == seq![self.spec_weight_idx(), self.spec_bias_idx()],
    {
        vec![self.weight_idx, self.bias_idx]
    }

    /// Adds the layer's parameters to `graph`: weights drawn uniformly from `[-k, k)` with
    /// `k = 1/sqrt(input_size)` by a generator seeded with `seed`, and a zero bias.
    pub fn new<T: Scalar>(graph: &mut Graph<T>, input_size: usize, output_size: usize, seed: u32) -> (r:
        Result<Self, ComputeError>)
        requires
            old(graph).wf(),
            old(graph).spec_nodes().len() + 2 < usize::MAX,
        ensures
            final(graph).wf(),
            final(graph).spec_nodes().len() >= old(graph).spec_nodes().len(),
            final(graph).spec_nodes().subrange(0, old(graph).spec_nodes().len() as int) == old(
                graph,
            ).spec_nodes(),
            input_size * output_size <= usize::MAX ==> r is Ok,
            r is Err ==> final(graph).spec_nodes() == old(graph).spec_nodes(),
            r matches Ok(l) ==> ({
                let n = old(graph).spec_nodes().len();
                let after = final(graph).spec_nodes();
                &&& l.spec_weight_idx() == n && l.spec_bias_idx() == n + 1
                &&& l.spec_sizes() == (input_size, output_size)
                &&& after.len() == n + 2
                &&& after[n as int] matches Node::Parameter(w, flag) && flag && w.spec_shape()
                    == seq![input_size, output_size]
                &&& after[(n + 1) as int] matches Node::Parameter(b, flag) && flag && b.spec_shape() == seq![
                    1usize,
                    output_size,
                ] && b.spec_data() == Seq::new(output_size as nat, |i: int| T::spec_zero())
            }),
    {
        let k = T::one().div(T::from_count(input_size).sqrt());
        let mut rng = XorShift32::new(seed);
        let n = match input_size.checked_mul(output_size) {
            Some(n) => n,
            None => {
                return Err(
                    ComputeError::DimensionError {
                        message: String::from_str("weight matrix is too large"),
                    },
                );
            },
        };
        let mut weight_data: Vec<T> = Vec::new();
        let mut i: usize = 0;
        while i < n
            invariant
                0 <= i <= n,
                weight_data@.len() == i,
            decreases n - i,
        {
            weight_data.push(rng.gen_range_f32(k.neg(), k));
            i += 1;
        }
        proof {
            lemma_shape2(input_size, output_size);
            lemma_shape2(1, output_size);
        }
        let weight = Tensor::new(weight_data, vec![input_size, output_size])?;
        let bias = Tensor::zeros(vec![1, output_size])?;
        let ghost g0 = graph.spec_nodes();
        let weight_idx = graph.add_parameter(weight, true);
        let bias_idx = graph.add_parameter(bias, true);
        assert(graph.spec_nodes().subrange(0, g0.len() as int) =~= g0);
        Ok(Linear { weight_idx, bias_idx, input_size, output_size })
    }
}

impl<T: Scalar> Layer<T> for Linear {
    open spec fn params_below(&self, n: nat) -> bool {
        self.spec_weight_idx() < n && self.spec_bias_idx() < n
    }

    /// A matrix product with the weight, then a sum with the bias: two operation nodes, the
    /// second of which is returned.
    open spec fn forward_outcome(
        &self,
        before: Seq<Node<T>>,
        input_idx: usize,
        after: Seq<Node<T>>,
        r: Result<usize, ComputeError>,
    ) -> bool {
        let n = before.len();
        &&& r == Ok::<usize, ComputeError>((n + 1) as usize)
        &&& after.len() == n + 2
        &&& after[n as int] matches Node::Operation(k, ins) && k == OpKind::MatMul && ins@ == seq![
            input_idx,
            self.spec_weight_idx(),
        ]
        &&& after[(n + 1) as int] matches Node::Operation(k, ins) && k == OpKind::Add && ins@ == seq![
            n as usize,
            self.spec_bias_idx(),
        ]
    }

    fn parameters(&self) -> (r: Vec<usize>) {
        Linear::parameters(self)
    }

    fn forward(&self, graph: &mut Graph<T>, input_idx: usize) -> (r: Result<usize, ComputeError>) {
        let ghost g0 = graph.spec_nodes();
        let mm = graph.apply_op(MatMulOp, &[input_idx, self.weight_idx]);
        let out = graph.apply_op(AddOp, &[mm, self.bias_idx]);
        assert(graph.spec_nodes().subrange(0, g0.len() as int) =~= g0);
        Ok(out)
    }
}

} // verus!
