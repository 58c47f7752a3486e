use std::collections::HashMap;

use vstd::prelude::*;

use crate::error::ComputeError;
use crate::graph::{node_wf, requires_grad, Graph, Node};
use crate::tensor::{Scalar, Tensor};

verus! {

broadcast use vstd::std_specs::hash::group_hash_axioms;

/// Updates the parameters of a graph from the gradients that its backward pass left.
pub trait Optimizer<T: Scalar>: Sized {
    /// What a successful `step` does to each node, given the nodes and gradients before it.
    spec fn step_outcome(
        &self,
        before: Seq<Node<T>>,
        grads: Seq<Option<Tensor<T>>>,
        after: Seq<Node<T>>,
    ) -> bool;

    /// `step` may fail on these nodes and gradients.
    spec fn step_can_fail(&self, before: Seq<Node<T>>, grads: Seq<Option<Tensor<T>>>) -> bool;

    /// What a successful `step` leaves of the optimizer's own state, as `after`.
    spec fn state_after(&self, after: Self, before: Seq<Node<T>>, grads: Seq<Option<Tensor<T>>>) -> bool;

    /// Applies one update to every managed parameter that has a gradient.
    fn step(&mut self, graph: &mut Graph<T>) -> (r: Result<(), ComputeError>)
        requires
            old(graph).wf(),
        ensures
            final(graph).wf(),
            final(graph).spec_nodes().len() == old(graph).spec_nodes().len(),
            final(graph).spec_gradients() == old(graph).spec_gradients(),
            r is Ok ==> old(self).step_outcome(
                old(graph).spec_nodes(),
                old(graph).spec_gradients(),
                final(graph).spec_nodes(),
            ),
            r is Ok ==> old(self).state_after(
                *final(self),
                old(graph).spec_nodes(),
                old(graph).spec_gradients(),
            ),
            r is Err ==> old(self).step_can_fail(old(graph).spec_nodes(), old(graph).spec_gradients()),
    ;

    /// Clears the graph's gradients.
    fn zero_grad(&mut self, graph: &mut Graph<T>)
        requires
            old(graph).wf(),
        ensures
            final(graph).wf(),
            final(graph).spec_nodes() == old(graph).spec_nodes(),
            forall|k: int|
                0 <= k < final(graph).spec_gradients().len() ==> #[trigger] final(graph).spec_gradients()[k] is None,
    ;
}

/// Stochastic gradient descent, with optional momentum: with momentum `mu` each parameter
/// keeps a velocity `v ← mu·v − lr·grad` (zero at first) and moves by `v`; without, it moves
/// by `−lr·grad`.
pub struct SGD<T> {
    pub param_indices: Vec<usize>,
    pub learning_rate: T,
    pub momentum: Option<T>,
    velocity: HashMap<usize, Tensor<T>>,
}

/// `p − lr·g`, element for element.
pub open spec fn plain_step<T: Scalar>(p: Seq<T>, g: Seq<T>, lr: T) -> Seq<T> {
    Seq::new(p.len(), |i: int| p[i].spec_sub(lr.spec_mul(g[i])))
}

/// `mu·v − lr·g`, element for element.
pub open spec fn velocity_step<T: Scalar>(v: Seq<T>, g: Seq<T>, mu: T, lr: T) -> Seq<T> {
    Seq::new(g.len(), |i: int| mu.spec_mul(v[i]).spec_sub(lr.spec_mul(g[i])))
}

/// `p + v`, element for element.
pub open spec fn moved<T: Scalar>(p: Seq<T>, v: Seq<T>) -> Seq<T> {
    Seq::new(p.len(), |i: int| p[i].spec_add(v[i]))
}

impl<T: Scalar> SGD<T> {
    /// The managed parameter nodes, the learning rate and the momentum.
    pub closed spec fn spec_settings(&self) -> (Seq<usize>, T, Option<T>) {
        (self.param_indices@, self.learning_rate, self.momentum)
    }

    /// The velocity kept for node `k`, zeros of length `n` if there is none yet.
    pub closed spec fn spec_velocity(&self, k: usize, n: nat) -> Seq<T> {
        if self.velocity@.contains_key(k) {
            self.velocity@[k].spec_data()
        } else {
            Seq::new(n, |i: int| T::spec_zero())
        }
    }

    /// Node `k` after one step: a managed trainable parameter with a gradient of its size
    /// moves as the update rule says (keeping its shape); every other node is left alone.
    pub open spec fn node_after(
        &self,
        k: usize,
        before: Node<T>,
        grad: Option<Tensor<T>>,
        after: Node<T>,
    ) -> bool {
        if self.spec_settings().0.contains(k) && before is Parameter && before->Parameter_1
            && grad is Some && grad->Some_0.spec_data().len() == before->Parameter_0.spec_data().len() {
            let t = before->Parameter_0;
            let g = grad->Some_0;
            let n = t.spec_data().len();
            &&& after is Parameter
            &&& after->Parameter_1
            &&& after->Parameter_0.wf()
            &&& after->Parameter_0.spec_shape() == t.spec_shape()
            &&& after->Parameter_0.spec_data() == match self.spec_settings().2 {
                None => plain_step(t.spec_data(), g.spec_data(), self.spec_settings().1),
                Some(mu) => moved(
                    t.spec_data(),
                    velocity_step(
                        self.spec_velocity(k, n),
                        g.spec_data(),
                        mu,
                        self.spec_settings().1,
                    ),
                ),
            }
        } else {
            after == before
        }
    }

    /// Node `k` is a managed trainable parameter with a gradient of its size: the nodes that a
    /// step moves.
    pub open spec fn moves(&self, k: usize, before: Node<T>, grad: Option<Tensor<T>>) -> bool {
        &&& self.spec_settings().0.contains(k)
        &&& before is Parameter
        &&& before->Parameter_1
        &&& grad is Some
        &&& grad->Some_0.spec_data().len() == before->Parameter_0.spec_data().len()
    }

    /// The velocity of node `k` after one step: with momentum, `mu·v − lr·g` for a node that
    /// moves; otherwise what it was.
    pub open spec fn velocity_after(&self, k: usize, m: nat, before: Node<T>, grad: Option<Tensor<T>>) -> Seq<T> {
        if self.spec_settings().2 is Some && self.moves(k, before, grad) {
            velocity_step(
                self.spec_velocity(k, before->Parameter_0.spec_data().len()),
                grad->Some_0.spec_data(),
                self.spec_settings().2->Some_0,
                self.spec_settings().1,
            )
        } else {
            self.spec_velocity(k, m)
        }
    }

    /// A managed node `k` that takes gradients and has one, but is not a parameter, or whose
    /// gradient or stored velocity differs from it in size.
    pub open spec fn fails_at(&self, k: usize, before: Node<T>, grad: Option<Tensor<T>>) -> bool {
        &&& self.spec_settings().0.contains(k)
        &&& requires_grad(before)
        &&& grad is Some
        &&& {
            ||| !(before is Parameter)
            ||| grad->Some_0.spec_data().len() != before->Parameter_0.spec_data().len()
            ||| (self.spec_settings().2 is Some && self.spec_velocity(
                k,
                before->Parameter_0.spec_data().len(),
            ).len() != before->Parameter_0.spec_data().len())
        }
    }

    /// An optimizer for the parameter nodes `param_indices`, with no velocity yet.
    pub fn new(param_indices: Vec<usize>, learning_rate: T, momentum: Option<T>) -> (r: Self)
        ensures
            r.spec_settings() == (param_indices@, learning_rate, momentum),
            forall|k: usize, n: nat| #[trigger] r.spec_velocity(k, n) == Seq::new(n, |i: int| T::spec_zero()),
    {
        SGD { param_indices, learning_rate, momentum, velocity: HashMap::new() }
    }
}

/// Replacing a parameter's tensor by a well-formed one keeps a graph well formed.
proof fn lemma_param_update<T: Scalar>(before: Graph<T>, after: Graph<T>, idx: int, t: Tensor<T>)
    requires
        before.wf(),
        0 <= idx < before.spec_nodes().len(),
        before.spec_nodes()[idx] is Parameter,
        t.wf(),
        after.spec_nodes() == before.spec_nodes().update(idx, Node::Parameter(t, true)),
        after.spec_gradients() == before.spec_gradients(),
    ensures
        after.wf(),
{
    assert forall|k: int| 0 <= k < after.spec_nodes().len() implies node_wf(
        #[trigger] after.spec_nodes()[k],
        k,
    ) by {
        if k != idx {
            assert(after.spec_nodes()[k] == before.spec_nodes()[k]);
        }
    }
}

impl<T: Scalar> Optimizer<T> for SGD<T> {
    /// With distinct managed indices, every node ends as `node_after` says.
    /// With distinct managed indices, only a node for which `fails_at` holds stops a step.
    open spec fn step_can_fail(&self, before: Seq<Node<T>>, grads: Seq<Option<Tensor<T>>>) -> bool {
        self.spec_settings().0.no_duplicates() ==> exists|k: usize|
            (k as int) < before.len() && #[trigger] self.fails_at(k, before[k as int], grads[k as int])
    }

    /// The settings stay; with distinct managed indices, each node's velocity becomes what
    /// `velocity_after` says.
    open spec fn state_after(&self, after: Self, before: Seq<Node<T>>, grads: Seq<Option<Tensor<T>>>) -> bool {
        &&& after.spec_settings() == self.spec_settings()
        &&& (self.spec_settings().0.no_duplicates() ==> forall|k: usize, m: nat|
            (k as int) < before.len() ==> #[trigger] after.spec_velocity(k, m) == self.velocity_after(
                k,
                m,
                before[k as int],
                grads[k as int],
            ))
    }

    open spec fn step_outcome(
        &self,
        before: Seq<Node<T>>,
        grads: Seq<Option<Tensor<T>>>,
        after: Seq<Node<T>>,
    ) -> bool {
        self.spec_settings().0.no_duplicates() ==> forall|k: usize|
            (k as int) < before.len() ==> #[trigger] self.node_after(
                k,
                before[k as int],
                grads[k as int],
                after[k as int],
            )
    }

    fn step(&mut self, graph: &mut Graph<T>) -> (r: Result<(), ComputeError>) {
        let lr = self.learning_rate;
        let ghost s0 = *self;
        let ghost nodes0 = graph.spec_nodes();
        let ghost grads0 = graph.spec_gradients();
        let mut q: usize = 0;
        while q < self.param_indices.len()
            invariant
                graph.wf(),
                graph.spec_nodes().len() == nodes0.len(),
                graph.spec_gradients() == grads0,
                nodes0 == old(graph).spec_nodes(),
                grads0 == old(graph).spec_gradients(),
                s0 == *old(self),
                self.spec_settings() == s0.spec_settings(),
                lr == s0.spec_settings().1,
                0 <= q <= self.param_indices@.len(),
                forall|k: usize, n: nat|
                    !self.param_indices@.subrange(0, q as int).contains(k) ==> #[trigger] self.spec_velocity(k, n)
                        == s0.spec_velocity(k, n),
                s0.spec_settings().0.no_duplicates() ==> forall|k: usize, m: nat|
                    self.param_indices@.subrange(0, q as int).contains(k) && (k as int) < nodes0.len()
                        ==> #[trigger] self.spec_velocity(k, m) == s0.velocity_after(
                        k,
                        m,
                        nodes0[k as int],
                        grads0[k as int],
                    ),
                s0.spec_settings().0.no_duplicates() ==> forall|k: usize|
                    (k as int) < nodes0.len() ==> (if self.param_indices@.subrange(0, q as int).contains(k) {
                        s0.node_after(k, nodes0[k as int], grads0[k as int], graph.spec_nodes()[k as int])
                    } else {
                        graph.spec_nodes()[k as int] == nodes0[k as int]
                    }),
            decreases self.param_indices@.len() - q,
        {
            let p_idx = self.param_indices[q];
            let ghost self_start = *self;
            let ghost pre = self.param_indices@.subrange(0, q as int);
            let ghost post = self.param_indices@.subrange(0, q + 1);
            proof {
                assert(post =~= pre.push(p_idx));
                assert forall|k: usize| #[trigger] post.contains(k) <==> pre.contains(k) || k == p_idx by {
                    if post.contains(k) {
                        let j = choose|j: int| 0 <= j < post.len() && post[j] == k;
                        if j < pre.len() {
                            assert(pre[j] == k);
                        }
                    }
                    if pre.contains(k) {
                        let j = choose|j: int| 0 <= j < pre.len() && pre[j] == k;
                        assert(post[j] == k);
                    }
                    if k == p_idx {
                        assert(post[q as int] == k);
                    }
                }
                if s0.spec_settings().0.no_duplicates() {
                    assert(!pre.contains(p_idx)) by {
                        if pre.contains(p_idx) {
                            let j = choose|j: int| 0 <= j < pre.len() && pre[j] == p_idx;
                            assert(self.param_indices@[j] == self.param_indices@[q as int]);
                        }
                    }
                }
                assert(s0.spec_settings().0.contains(p_idx)) by {
                    assert(s0.spec_settings().0[q as int] == p_idx);
                }
            }
            q += 1;
            if !graph.node_requires_grad(p_idx) {
                proof {
                    if s0.spec_settings().0.no_duplicates() {
                        assert forall|k: usize, m: nat|
                            post.contains(k) && (k as int) < nodes0.len() implies #[trigger] self.spec_velocity(k, m)
                            == s0.velocity_after(k, m, nodes0[k as int], grads0[k as int]) by {
                            if k == p_idx {
                                assert(!pre.contains(k));
                                assert(graph.spec_nodes()[k as int] == nodes0[k as int]);
                                assert(!s0.moves(k, nodes0[k as int], grads0[k as int]));
                            } else {
                                assert(pre.contains(k));
                            }
                        }
                    }
                }
                continue ;
            }
            let grad = match graph.get_gradient(p_idx) {
                Some(g) => g.duplicate(),
                None => {
                    proof {
                        if s0.spec_settings().0.no_duplicates() {
                            assert forall|k: usize, m: nat|
                                post.contains(k) && (k as int) < nodes0.len() implies #[trigger] self.spec_velocity(k, m)
                                == s0.velocity_after(k, m, nodes0[k as int], grads0[k as int]) by {
                                if k == p_idx {
                                        assert(!pre.contains(k));
                                        assert(graph.spec_nodes()[k as int] == nodes0[k as int]);
                                        assert(!s0.moves(k, nodes0[k as int], grads0[k as int]));
                                } else {
                                        assert(pre.contains(k));
                                }
                            }
                        }
                    }
                    continue ;
                },
            };
            let ghost before = *graph;
            proof {
                if s0.spec_settings().0.no_duplicates() {
                    assert((p_idx as int) < nodes0.len());
                    assert(!pre.contains(p_idx));
                    assert(graph.spec_nodes()[p_idx as int] == nodes0[p_idx as int]);
                }
            }
            let param = match graph.get_parameter_mut(p_idx) {
                Ok(t) => t,
                Err(e) => {
                    proof {
                        if s0.spec_settings().0.no_duplicates() {
                            assert(s0.fails_at(p_idx, nodes0[p_idx as int], grads0[p_idx as int]));
                        }
                    }
                    return Err(e);
                },
            };
            proof {
                assert(node_wf(before.spec_nodes()[p_idx as int], p_idx as int));
                param.lemma_wf();
            }
            let ghost p0 = *param;
            let n = param.data().len();
            if grad.data().len() != n {
                proof {
                    if s0.spec_settings().0.no_duplicates() {
                        assert(s0.fails_at(p_idx, nodes0[p_idx as int], grads0[p_idx as int]));
                    }
                }
                return Err(
                    ComputeError::InvalidOperation {
                        message: String::from_str("gradient and parameter sizes differ"),
                    },
                );
            }
            match self.momentum {
                Some(mu) => {
                    let mut v_old: Vec<T> = Vec::new();
                    match self.velocity.get(&p_idx) {
                        Some(v) => {
                            if v.data().len() != n {
                                proof {
                                    if s0.spec_settings().0.no_duplicates() {
                                        assert(self.spec_velocity(p_idx, n as nat) == v.spec_data());
                                        assert(s0.fails_at(p_idx, nodes0[p_idx as int], grads0[p_idx as int]));
                                    }
                                }
                                return Err(
                                    ComputeError::InvalidOperation {
                                        message: String::from_str(
                                            "velocity and parameter sizes differ",
                                        ),
                                    },
                                );
                            }
                            let mut i: usize = 0;
                            while i < n
                                invariant
                                    v.spec_data().len() == n,
                                    0 <= i <= n,
                                    v_old@ == v.spec_data().subrange(0, i as int),
                                decreases n - i,
                            {
                                v_old.push(v.get(i));
                                i += 1;
                                assert(v_old@ =~= v.spec_data().subrange(0, i as int));
                            }
                            assert(v_old@ =~= v.spec_data());
                        },
                        None => {
                            let mut i: usize = 0;
                            while i < n
                                invariant
                                    0 <= i <= n,
                                    v_old@ == Seq::new(i as nat, |j: int| T::spec_zero()),
                                decreases n - i,
                            {
                                v_old.push(T::zero());
                                i += 1;
                                assert(v_old@ =~= Seq::new(i as nat, |j: int| T::spec_zero()));
                            }
                        },
                    }
                    assert(v_old@ == self.spec_velocity(p_idx, n as nat));
                    let mut fresh: Vec<T> = Vec::new();
                    let mut i: usize = 0;
                    while i < n
                        invariant
                            v_old@.len() == n,
                            grad.spec_data().len() == n,
                            0 <= i <= n,
                            fresh@ == velocity_step(v_old@, grad.spec_data(), mu, lr).subrange(0, i as int),
                        decreases n - i,
                    {
                        fresh.push(mu.mul(v_old[i]).sub(lr.mul(grad.get(i))));
                        i += 1;
                        assert(fresh@ =~= velocity_step(v_old@, grad.spec_data(), mu, lr).subrange(0, i as int));
                    }
                    assert(fresh@ =~= velocity_step(v_old@, grad.spec_data(), mu, lr));
                    let mut i: usize = 0;
                    while i < n
                        invariant
                            param.wf(),
                            param.spec_shape() == p0.spec_shape(),
                            p0.spec_data().len() == n,
                            param.spec_data().len() == n,
                            fresh@.len() == n,
                            0 <= i <= n,
                            forall|j: int| 0 <= j < i ==> #[trigger] param.spec_data()[j] == moved(p0.spec_data(), fresh@)[j],
                            forall|j: int| i <= j < n ==> #[trigger] param.spec_data()[j] == p0.spec_data()[j],
                        decreases n - i,
                    {
                        let v = param.get(i).add(fresh[i]);
                        param.set(i, v);
                        i += 1;
                    }
                    assert(param.spec_data() =~= moved(p0.spec_data(), fresh@));
                    let shape = param.shape_vec();
                    proof {
                        param.lemma_wf();
                    }
                    let ghost vel_before = self.velocity@;
                    let ghost fresh_v = fresh@;
                    let ghost v_old_v = v_old@;
                    match Tensor::new(fresh, shape) {
                        Ok(t) => {
                            self.velocity.insert(p_idx, t);
                            proof {
                                if s0.spec_settings().0.no_duplicates() {
                                    assert(s0.moves(p_idx, nodes0[p_idx as int], grads0[p_idx as int]));
                                    assert forall|k: usize, m: nat|
                                        post.contains(k) && (k as int) < nodes0.len() implies #[trigger] self.spec_velocity(k, m)
                                        == s0.velocity_after(k, m, nodes0[k as int], grads0[k as int]) by {
                                        if k == p_idx {
                                            assert(self.velocity@[k] == t);
                                            assert(t.spec_data() == fresh_v);
                                            assert(self_start.spec_velocity(k, n as nat) == s0.spec_velocity(k, n as nat));
                                            assert(v_old_v == s0.spec_velocity(k, n as nat));
                                            assert(grad.spec_data() == grads0[k as int]->Some_0.spec_data());
                                            assert(nodes0[k as int]->Parameter_0.spec_data().len() == n);
                                            assert(fresh_v == velocity_step(v_old_v, grad.spec_data(), mu, lr));
                                            assert(s0.spec_settings().2 == Some(mu));
                                            assert(self.velocity@.contains_key(k));
                                            assert(self.spec_velocity(k, m) == fresh_v);
                                            assert(s0.velocity_after(k, m, nodes0[k as int], grads0[k as int]) == velocity_step(
                                                s0.spec_velocity(k, n as nat),
                                                grads0[k as int]->Some_0.spec_data(),
                                                mu,
                                                lr,
                                            ));
                                        } else {
                                            assert(pre.contains(k));
                                            assert(self_start.spec_velocity(k, m) == s0.velocity_after(k, m, nodes0[k as int], grads0[k as int]));
                                            assert(self.velocity@.contains_key(k) == vel_before.contains_key(k));
                                            if vel_before.contains_key(k) {
                                                assert(self.velocity@[k] == vel_before[k]);
                                            }
                                            assert(self_start.velocity@ == vel_before);
                                        }
                                    }
                                }
                                assert forall|k: usize, m: nat| !post.contains(k) implies #[trigger] self.spec_velocity(k, m)
                                    == s0.spec_velocity(k, m) by {
                                    assert(k != p_idx);
                                    assert(!pre.contains(k));
                                    assert(self_start.velocity@ == vel_before);
                                    assert(self_start.spec_velocity(k, m) == s0.spec_velocity(k, m));
                                    assert(self.velocity@.contains_key(k) == vel_before.contains_key(k));
                                    if vel_before.contains_key(k) {
                                        assert(self.velocity@[k] == vel_before[k]);
                                    }
                                }
                            }
                        },
                        Err(_) => {
                            proof {
                                param.lemma_wf();
                            }
                            assert(false);
                        },
                    }
                },
                None => {
                    let mut i: usize = 0;
                    while i < n
                        invariant
                            param.wf(),
                            param.spec_shape() == p0.spec_shape(),
                            p0.spec_data().len() == n,
                            param.spec_data().len() == n,
                            grad.spec_data().len() == n,
                            0 <= i <= n,
                            forall|j: int| 0 <= j < i ==> #[trigger] param.spec_data()[j] == plain_step(p0.spec_data(), grad.spec_data(), lr)[j],
                            forall|j: int| i <= j < n ==> #[trigger] param.spec_data()[j] == p0.spec_data()[j],
                        decreases n - i,
                    {
                        let v = param.get(i).sub(lr.mul(grad.get(i)));
                        param.set(i, v);
                        i += 1;
                    }
                    assert(param.spec_data() =~= plain_step(p0.spec_data(), grad.spec_data(), lr));
                    proof {
                        if s0.spec_settings().0.no_duplicates() {
                            assert forall|k: usize, m: nat|
                                post.contains(k) && (k as int) < nodes0.len() implies #[trigger] self.spec_velocity(k, m)
                                == s0.velocity_after(k, m, nodes0[k as int], grads0[k as int]) by {
                                if k == p_idx {
                                    assert(!pre.contains(k));
                                } else {
                                    assert(pre.contains(k));
                                }
                            }
                        }
                    }
                },
            }
            proof {
                lemma_param_update(before, *graph, p_idx as int, *param);
            }
        }
        assert(self.param_indices@.subrange(0, self.param_indices@.len() as int) =~= self.param_indices@);
        proof {
            if s0.spec_settings().0.no_duplicates() {
                assert forall|k: usize, m: nat| (k as int) < nodes0.len() implies #[trigger] self.spec_velocity(k, m)
                    == s0.velocity_after(k, m, nodes0[k as int], grads0[k as int]) by {
                    if !self.param_indices@.contains(k) {
                        assert(!s0.moves(k, nodes0[k as int], grads0[k as int]));
                    }
                }
            }
        }
        Ok(())
    }

    fn zero_grad(&mut self, graph: &mut Graph<T>) {
        graph.zero_grad();
    }
}

} // verus!
