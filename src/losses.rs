use vstd::prelude::*;

use crate::error::ComputeError;
use crate::graph::{node_fails, node_value, Graph, Node};
use crate::ops::{DivideOp, LogOp, MultiplyOp, OpKind, SoftmaxOp, SubtractOp, SumOp};
use crate::tensor::{lemma_shape1, Scalar, Tensor};

verus! {

/// Mean squared error: `sum((predictions - targets)²) / n`, with `n` the number of predicted
/// elements. The count `n` is read from the value of `predictions` when the loss is built.
pub struct MSELoss;

impl MSELoss {
    /// Appends the loss of node `predictions` against node `targets`; returns the loss node.
    pub fn compute<T: Scalar>(graph: &mut Graph<T>, predictions: usize, targets: usize) -> (r:
        Result<usize, ComputeError>)
        requires
            old(graph).wf(),
            predictions < old(graph).spec_nodes().len(),
            targets < old(graph).spec_nodes().len(),
            old(graph).spec_nodes().len() + 5 < usize::MAX,
        ensures
            final(graph).wf(),
            final(graph).spec_nodes().len() >= old(graph).spec_nodes().len(),
            final(graph).spec_nodes().subrange(0, old(graph).spec_nodes().len() as int) == old(
                graph,
            ).spec_nodes(),
            r matches Ok(i) ==> i < final(graph).spec_nodes().len(),
            r is Err ==> final(graph).spec_nodes().len() == old(graph).spec_nodes().len() + 3
                && node_fails(final(graph).spec_nodes(), predictions as int),
            r is Ok ==> ({
                let n = old(graph).spec_nodes().len() as int;
                let after = final(graph).spec_nodes();
                &&& r == Ok::<usize, ComputeError>((n + 4) as usize)
                &&& after.len() == n + 5
                &&& after[n] matches Node::Operation(k, ins) && k == OpKind::Subtract && ins@
                    == seq![predictions, targets]
                &&& after[n + 1] matches Node::Operation(k, ins) && k == OpKind::Multiply && ins@
                    == seq![n as usize, n as usize]
                &&& after[n + 2] matches Node::Operation(k, ins) && k == OpKind::Sum(None) && ins@
                    == seq![(n + 1) as usize]
                &&& after[n + 3] matches Node::Input(s) && s.spec_shape() == seq![1usize] && exists|
                    v: Tensor<T>,
                |
                    #[trigger] node_value(after.subrange(0, n + 3), predictions as int, v) && s.spec_data() == seq![
                        T::spec_from_count(v.spec_data().len() as usize),
                    ]
                &&& after[n + 4] matches Node::Operation(k, ins) && k == OpKind::Divide && ins@
                    == seq![(n + 2) as usize, (n + 3) as usize]
            }),
    {
        let ghost g0 = graph.spec_nodes();
        let diff_idx = graph.apply_op(SubtractOp, &[predictions, targets]);
        let ghost s1 = graph.spec_nodes();
        let squared_idx = graph.apply_op(MultiplyOp, &[diff_idx, diff_idx]);
        let ghost s2 = graph.spec_nodes();
        let sum_idx = graph.apply_op(SumOp { dim: None }, &[squared_idx]);
        let ghost s3 = graph.spec_nodes();
        proof {
            assert(graph.spec_nodes().subrange(0, g0.len() as int) =~= g0);
        }
        let pred_tensor = graph.forward(predictions)?;
        let size = T::from_count(pred_tensor.data().len());
        proof {
            lemma_shape1();
        }
        let data = vec![size];
        let shape = vec![1];
        assert(data@ =~= seq![size]);
        assert(shape@ =~= seq![1usize]);
        let size_tensor = match Tensor::new(data, shape) {
            Ok(t) => t,
            Err(e) => {
                assert(false);
                return Err(e);
            },
        };
        let size_idx = graph.add_input(size_tensor);
        let ghost s4 = graph.spec_nodes();
        let loss_idx = graph.apply_op(DivideOp, &[sum_idx, size_idx]);
        let ghost s5 = graph.spec_nodes();
        proof {
            let n = g0.len() as int;
            assert(s5.subrange(0, g0.len() as int) =~= g0);
            assert(s5.subrange(0, s3.len() as int) =~= s3);
            assert(s5[n] == s4[n] && s4[n] == s3[n] && s3[n] == s2[n] && s2[n] == s1[n]);
            assert(s5[n + 1] == s4[n + 1] && s4[n + 1] == s3[n + 1] && s3[n + 1] == s2[n + 1]);
            assert(s5[n + 2] == s4[n + 2] && s4[n + 2] == s3[n + 2]);
            assert(s5[n + 3] == s4[n + 3]);
            assert(s5.subrange(0, n + 3) == s3);
            assert(node_value(s5.subrange(0, n + 3), predictions as int, pred_tensor));
        }
        Ok(loss_idx)
    }
}

/// Cross entropy against one-hot targets: `-sum(targets ⊙ log(softmax(logits)))`.
pub struct CrossEntropyLoss;

impl CrossEntropyLoss {
    /// Appends the loss of node `logits` against node `targets`, which has the shape of the
    /// logits; returns the loss node.
    pub fn compute<T: Scalar>(graph: &mut Graph<T>, logits: usize, targets: usize) -> (r: Result<
        usize,
        ComputeError,
    >)
        requires
            old(graph).wf(),
            logits < old(graph).spec_nodes().len(),
            targets < old(graph).spec_nodes().len(),
            old(graph).spec_nodes().len() + 6 < usize::MAX,
        ensures
            final(graph).wf(),
            final(graph).spec_nodes().len() >= old(graph).spec_nodes().len(),
            final(graph).spec_nodes().subrange(0, old(graph).spec_nodes().len() as int) == old(
                graph,
            ).spec_nodes(),
            r matches Ok(i) ==> i < final(graph).spec_nodes().len(),
            ({
                let n = old(graph).spec_nodes().len() as int;
                let after = final(graph).spec_nodes();
                &&& r == Ok::<usize, ComputeError>((n + 5) as usize)
                &&& after.len() == n + 6
                &&& after[n] matches Node::Operation(k, ins) && k == OpKind::Softmax && ins@ == seq![
                    logits,
                ]
                &&& after[n + 1] matches Node::Operation(k, ins) && k == OpKind::Log && ins@ == seq![
                    n as usize,
                ]
                &&& after[n + 2] matches Node::Operation(k, ins) && k == OpKind::Multiply && ins@
                    == seq![(n + 1) as usize, targets]
                &&& after[n + 3] matches Node::Operation(k, ins) && k == OpKind::Sum(None) && ins@
                    == seq![(n + 2) as usize]
                &&& after[n + 4] matches Node::Input(s) && s.spec_shape() == seq![1usize]
                    && s.spec_data() == seq![T::spec_one().spec_neg()]
                &&& after[n + 5] matches Node::Operation(k, ins) && k == OpKind::Multiply && ins@
                    == seq![(n + 3) as usize, (n + 4) as usize]
            }),
    {
        let ghost g0 = graph.spec_nodes();
        let softmax_idx = graph.apply_op(SoftmaxOp, &[logits]);
        let ghost s1 = graph.spec_nodes();
        let log_softmax_idx = graph.apply_op(LogOp, &[softmax_idx]);
        let ghost s2 = graph.spec_nodes();
        let selected_idx = graph.apply_op(MultiplyOp, &[log_softmax_idx, targets]);
        let ghost s3 = graph.spec_nodes();
        let sum_idx = graph.apply_op(SumOp { dim: None }, &[selected_idx]);
        let ghost s4 = graph.spec_nodes();
        proof {
            lemma_shape1();
        }
        let data = vec![T::one().neg()];
        let shape = vec![1];
        assert(data@ =~= seq![T::spec_one().spec_neg()]);
        assert(shape@ =~= seq![1usize]);
        let neg_one = match Tensor::new(data, shape) {
            Ok(t) => t,
            Err(e) => {
                assert(false);
                return Err(e);
            },
        };
        let neg_one_idx = graph.add_input(neg_one);
        let ghost s5 = graph.spec_nodes();
        let loss_idx = graph.apply_op(MultiplyOp, &[sum_idx, neg_one_idx]);
        let ghost s6 = graph.spec_nodes();
        proof {
            let n = g0.len() as int;
            assert(s6.subrange(0, g0.len() as int) =~= g0);
            assert(s6[n] == s5[n] && s5[n] == s4[n] && s4[n] == s3[n] && s3[n] == s2[n] && s2[n] == s1[n]);
            assert(s6[n + 1] == s5[n + 1] && s5[n + 1] == s4[n + 1] && s4[n + 1] == s3[n + 1] && s3[n + 1] == s2[n + 1]);
            assert(s6[n + 2] == s5[n + 2] && s5[n + 2] == s4[n + 2] && s4[n + 2] == s3[n + 2]);
            assert(s6[n + 3] == s5[n + 3] && s5[n + 3] == s4[n + 3]);
            assert(s6[n + 4] == s5[n + 4]);
        }
        Ok(loss_idx)
    }
}

} // verus!
