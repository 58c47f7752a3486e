use vstd::prelude::*;

use crate::error::ComputeError;
use crate::ops::{all_wf, broadcast_ok, same_tensor, Op, OpKind};
use crate::tensor::{
    broadcast_shape, copy_vec, lemma_broadcast_self, operand_coord, source_offset, zip_result, zipped,
    Scalar, Tensor,
};
use crate::tensor_index::{lemma_unravel_ravel, shape_size, unravel};

verus! {

/// A node of the computational graph.
#[derive(Debug)]
pub enum Node<T> {
    /// A fixed value, which never receives a gradient.
    Input(Tensor<T>),
    /// A trainable value, and whether it receives a gradient.
    Parameter(Tensor<T>, bool),
    /// An operation applied to the values of earlier nodes, by index.
    Operation(OpKind, Vec<usize>),
}

/// The operand indices of a node: those of an operation, none for a value.
pub open spec fn node_inputs<T>(n: Node<T>) -> Seq<usize> {
    match n {
        Node::Operation(_, ins) => ins@,
        _ => Seq::empty(),
    }
}

/// Whether gradients flow into a node: never for an input, always for an operation, and as
/// flagged for a parameter.
pub open spec fn requires_grad<T>(n: Node<T>) -> bool {
    match n {
        Node::Input(_) => false,
        Node::Parameter(_, flag) => flag,
        Node::Operation(_, _) => true,
    }
}

/// A node is well formed at position `k`: its tensor is well formed, or its operands all
/// come before it.
pub open spec fn node_wf<T: Copy>(n: Node<T>, k: int) -> bool {
    match n {
        Node::Input(t) => t.wf(),
        Node::Parameter(t, _) => t.wf(),
        Node::Operation(_, ins) => forall|j: int| 0 <= j < ins@.len() ==> #[trigger] ins@[j] < k,
    }
}

/// `order` lists distinct nodes, each operation after all of its operands.
pub open spec fn topo_ordered<T>(nodes: Seq<Node<T>>, order: Seq<usize>) -> bool {
    &&& forall|p: int| 0 <= p < order.len() ==> #[trigger] order[p] < nodes.len()
    &&& order.no_duplicates()
    &&& forall|p: int, j: int|
        #![trigger node_inputs(nodes[order[p] as int])[j]]
        0 <= p < order.len() && 0 <= j < node_inputs(nodes[order[p] as int]).len()
            ==> order.subrange(0, p).contains(node_inputs(nodes[order[p] as int])[j])
}

/// `path` walks from a node through operands: each entry after the first is an operand of
/// the entry before it.
pub open spec fn operand_path<T>(nodes: Seq<Node<T>>, path: Seq<usize>) -> bool {
    &&& path.len() >= 1
    &&& forall|i: int|
        0 <= i < path.len() - 1 ==> node_inputs(nodes[path[i] as int]).contains(
            #[trigger] path[i + 1],
        )
}

/// Node `to` is reachable from node `from` through operands (every node reaches itself).
pub open spec fn reaches<T>(nodes: Seq<Node<T>>, from: usize, to: usize) -> bool {
    exists|path: Seq<usize>| operand_path(nodes, path) && path[0] == from && path.last() == to
}

/// Stepping to an operand and walking on from there is a walk.
proof fn lemma_reaches_step<T>(nodes: Seq<Node<T>>, from: usize, mid: usize, to: usize)
    requires
        node_inputs(nodes[from as int]).contains(mid),
        reaches(nodes, mid, to),
    ensures
        reaches(nodes, from, to),
{
    let p = choose|p: Seq<usize>| operand_path(nodes, p) && p[0] == mid && p.last() == to;
    let q = seq![from] + p;
    assert forall|i: int| 0 <= i < q.len() - 1 implies node_inputs(nodes[q[i] as int]).contains(
        #[trigger] q[i + 1],
    ) by {
        if i > 0 {
            assert(q[i] == p[i - 1] && q[i + 1] == p[i]);
            assert(node_inputs(nodes[p[i - 1] as int]).contains(p[(i - 1) + 1]));
        } else {
            assert(q[1] == mid);
        }
    }
    assert(operand_path(nodes, q) && q[0] == from && q.last() == to);
}

/// Walking to a node and then stepping to one of its operands is a walk.
proof fn lemma_reaches_append<T>(nodes: Seq<Node<T>>, from: usize, mid: usize, to: usize)
    requires
        reaches(nodes, from, mid),
        node_inputs(nodes[mid as int]).contains(to),
    ensures
        reaches(nodes, from, to),
{
    let p = choose|p: Seq<usize>| operand_path(nodes, p) && p[0] == from && p.last() == mid;
    let q = p.push(to);
    assert forall|i: int| 0 <= i < q.len() - 1 implies node_inputs(nodes[q[i] as int]).contains(
        #[trigger] q[i + 1],
    ) by {
        if i < p.len() - 1 {
            assert(q[i] == p[i] && q[i + 1] == p[i + 1]);
        } else {
            assert(q[i] == mid && q[i + 1] == to);
        }
    }
    assert(operand_path(nodes, q) && q[0] == from && q.last() == to);
}

/// A node reaches itself.
proof fn lemma_reaches_self<T>(nodes: Seq<Node<T>>, x: usize)
    ensures
        reaches(nodes, x, x),
{
    let p = seq![x];
    assert(operand_path(nodes, p) && p[0] == x && p.last() == x);
}

/// A topological order that lists `start` lists every node that `start` reaches.
pub proof fn lemma_order_complete<T>(nodes: Seq<Node<T>>, order: Seq<usize>, start: usize, to: usize)
    requires
        topo_ordered(nodes, order),
        order.contains(start),
        reaches(nodes, start, to),
    ensures
        order.contains(to),
{
    let p = choose|p: Seq<usize>| operand_path(nodes, p) && p[0] == start && p.last() == to;
    lemma_path_listed(nodes, order, p, p.len() - 1);
}

proof fn lemma_path_listed<T>(nodes: Seq<Node<T>>, order: Seq<usize>, p: Seq<usize>, k: int)
    requires
        topo_ordered(nodes, order),
        operand_path(nodes, p),
        order.contains(p[0]),
        0 <= k < p.len(),
    ensures
        order.contains(p[k]),
    decreases k,
{
    if k > 0 {
        lemma_path_listed(nodes, order, p, k - 1);
        let x = p[k - 1];
        let ins = node_inputs(nodes[x as int]);
        assert(ins.contains(p[(k - 1) + 1]));
        let j = choose|j: int| 0 <= j < ins.len() && ins[j] == p[k];
        let pos = choose|q: int| 0 <= q < order.len() && order[q] == x;
        assert(order.subrange(0, pos).contains(node_inputs(nodes[order[pos] as int])[j]));
        let w = choose|w: int| 0 <= w < pos && order.subrange(0, pos)[w] == p[k];
        assert(order[w] == p[k]);
    }
}

/// `v` is a value of node `i`: the tensor of an input or parameter, or the successful result
/// of the node's operation on values of its operands.
pub open spec fn node_value<T: Scalar>(nodes: Seq<Node<T>>, i: int, v: Tensor<T>) -> bool
    decreases i,
{
    if 0 <= i < nodes.len() {
        match nodes[i] {
            Node::Input(t) => same_tensor(v, t),
            Node::Parameter(t, _) => same_tensor(v, t),
            Node::Operation(op, ins) => exists|vals: Seq<Tensor<T>>|
                #![trigger Op::<T>::forward_outcome(&op, vals, Ok(v))]
                {
                    &&& vals.len() == ins@.len()
                    &&& forall|j: int|
                        0 <= j < ins@.len() ==> ins@[j] < i && node_value(
                            nodes,
                            ins@[j] as int,
                            #[trigger] vals[j],
                        )
                    &&& Op::<T>::forward_outcome(&op, vals, Ok(v))
                },
        }
    } else {
        false
    }
}

/// `vals` are values of the operands `ins` of node `i`, one for each, all earlier nodes.
pub open spec fn operand_values<T: Scalar>(
    nodes: Seq<Node<T>>,
    i: int,
    ins: Seq<usize>,
    vals: Seq<Tensor<T>>,
) -> bool {
    &&& vals.len() == ins.len()
    &&& forall|j: int|
        0 <= j < ins.len() ==> ins[j] < i && node_value(nodes, ins[j] as int, #[trigger] vals[j])
}

/// Evaluating node `i` can fail: it is out of range, or it is an operation whose operand count
/// is not its arity, one of whose operands can fail, or which fails on some values of its
/// operands.
pub open spec fn node_fails<T: Scalar>(nodes: Seq<Node<T>>, i: int) -> bool
    decreases i + 1, 0int,
{
    if 0 <= i < nodes.len() {
        match nodes[i] {
            Node::Operation(op, ins) => {
                ||| ins@.len() != Op::<T>::arity(&op)
                ||| some_operand_fails(nodes, i, ins@, ins@.len() as int)
                ||| exists|vals: Seq<Tensor<T>>, r: Result<Tensor<T>, ComputeError>|
                    #![trigger Op::<T>::forward_outcome(&op, vals, r)]
                    operand_values(nodes, i, ins@, vals) && r is Err && Op::<T>::forward_outcome(
                        &op,
                        vals,
                        r,
                    )
            },
            _ => false,
        }
    } else {
        true
    }
}

/// One of the first `k` operands `ins` of node `i` is an earlier node that can fail.
pub open spec fn some_operand_fails<T: Scalar>(nodes: Seq<Node<T>>, i: int, ins: Seq<usize>, k: int) -> bool
    decreases i, k,
{
    if k <= 0 || k > ins.len() {
        false
    } else {
        some_operand_fails(nodes, i, ins, k - 1) || (ins[k - 1] < i && node_fails(
            nodes,
            ins[k - 1] as int,
        ))
    }
}

/// A failing earlier operand at position `j < k` makes the first `k` operands contain one.
pub proof fn lemma_operand_fails<T: Scalar>(nodes: Seq<Node<T>>, i: int, ins: Seq<usize>, j: int, k: int)
    requires
        0 <= j < k <= ins.len(),
        ins[j] < i,
        node_fails(nodes, ins[j] as int),
    ensures
        some_operand_fails(nodes, i, ins, k),
    decreases k,
{
    if j < k - 1 {
        lemma_operand_fails(nodes, i, ins, j, k - 1);
    }
}

/// `r` is the broadcasting elementwise sum of `a` and `b`.
pub open spec fn sum_result<T: Scalar>(a: Tensor<T>, b: Tensor<T>, r: Result<Tensor<T>, ComputeError>) -> bool {
    zip_result(a, b, r, |x: T, y: T| x.spec_add(y))
}

/// Gradients `g2` are `g` after node `k` receives the share `s`: unchanged if `k` takes no
/// gradients, `s` stored fresh if `k` has none yet, else the stored one plus `s`.
pub open spec fn share_step<T: Scalar>(
    nodes: Seq<Node<T>>,
    g: Seq<Option<Tensor<T>>>,
    k: usize,
    s: Tensor<T>,
    g2: Seq<Option<Tensor<T>>>,
) -> bool {
    if !requires_grad(nodes[k as int]) {
        g2 == g
    } else if g[k as int] is None {
        exists|t: Tensor<T>| #[trigger] same_tensor(t, s) && t.wf() && g2 == g.update(k as int, Some(t))
    } else {
        exists|t: Tensor<T>|
            #[trigger] sum_result(g[k as int]->Some_0, s, Ok(t)) && g2 == g.update(k as int, Some(t))
    }
}

/// Giving node `k` the share `s` fails: it takes gradients and its stored gradient does not
/// add to `s`.
pub open spec fn share_fails<T: Scalar>(nodes: Seq<Node<T>>, g: Seq<Option<Tensor<T>>>, k: usize, s: Tensor<T>) -> bool {
    &&& requires_grad(nodes[k as int])
    &&& g[k as int] is Some
    &&& !broadcast_ok(g[k as int]->Some_0.spec_shape(), s.spec_shape())
}

/// `tr` lists the gradients before and after each of the first `n` shares `gs` goes to its
/// operand in `ins`.
pub open spec fn share_trace<T: Scalar>(
    nodes: Seq<Node<T>>,
    ins: Seq<usize>,
    gs: Seq<Tensor<T>>,
    tr: Seq<Seq<Option<Tensor<T>>>>,
    n: int,
) -> bool {
    &&& 0 <= n <= ins.len()
    &&& tr.len() == n + 1
    &&& forall|j: int| 0 <= j < n ==> #[trigger] share_step(nodes, tr[j], ins[j], gs[j], tr[j + 1])
}

/// Handing all shares `gs` to the operands `ins`, in order, takes gradients `g` to `g_out`.
pub open spec fn shares_ok<T: Scalar>(
    nodes: Seq<Node<T>>,
    g: Seq<Option<Tensor<T>>>,
    ins: Seq<usize>,
    gs: Seq<Tensor<T>>,
    g_out: Seq<Option<Tensor<T>>>,
) -> bool {
    exists|tr: Seq<Seq<Option<Tensor<T>>>>|
        #[trigger] share_trace(nodes, ins, gs, tr, ins.len() as int) && tr[0] == g && tr[ins.len() as int]
            == g_out
}

/// Handing the shares `gs` to the operands `ins`, in order, fails at some share.
pub open spec fn shares_fail<T: Scalar>(
    nodes: Seq<Node<T>>,
    g: Seq<Option<Tensor<T>>>,
    ins: Seq<usize>,
    gs: Seq<Tensor<T>>,
) -> bool {
    exists|tr: Seq<Seq<Option<Tensor<T>>>>, n: int|
        #[trigger] share_trace(nodes, ins, gs, tr, n) && n < ins.len() && tr[0] == g && share_fails(
            nodes,
            tr[n],
            ins[n],
            gs[n],
        )
}

/// One step of the reverse pass at node `x`: nothing happens unless `x` is an operation with
/// a gradient; then its backward rule, applied to values of its operands and that gradient,
/// gives one share per operand, handed out in order.
pub open spec fn pass_step<T: Scalar>(
    nodes: Seq<Node<T>>,
    g: Seq<Option<Tensor<T>>>,
    x: usize,
    g2: Seq<Option<Tensor<T>>>,
) -> bool {
    if g[x as int] is None || !(nodes[x as int] is Operation) {
        g2 == g
    } else {
        let op = nodes[x as int]->Operation_0;
        let ins = nodes[x as int]->Operation_1@;
        exists|vals: Seq<Tensor<T>>, gs: Vec<Tensor<T>>|
            #![trigger Op::<T>::backward_outcome(&op, vals, g[x as int]->Some_0, Ok(gs))]
            {
                &&& operand_values(nodes, x as int, ins, vals)
                &&& ins.len() == Op::<T>::arity(&op)
                &&& Op::<T>::backward_outcome(&op, vals, g[x as int]->Some_0, Ok(gs))
                &&& gs@.len() == ins.len()
                &&& shares_ok(nodes, g, ins, gs@, g2)
            }
    }
}

/// The step of the reverse pass at node `x` fails: an operand can fail, the operand count is
/// not the arity, the backward rule fails, or a share does not add.
pub open spec fn step_fails<T: Scalar>(nodes: Seq<Node<T>>, g: Seq<Option<Tensor<T>>>, x: usize) -> bool {
    let op = nodes[x as int]->Operation_0;
    let ins = nodes[x as int]->Operation_1@;
    &&& g[x as int] is Some
    &&& nodes[x as int] is Operation
    &&& {
        ||| ins.len() != Op::<T>::arity(&op)
        ||| some_operand_fails(nodes, x as int, ins, ins.len() as int)
        ||| exists|vals: Seq<Tensor<T>>, r: Result<Vec<Tensor<T>>, ComputeError>|
            #![trigger Op::<T>::backward_outcome(&op, vals, g[x as int]->Some_0, r)]
            operand_values(nodes, x as int, ins, vals) && r is Err && Op::<T>::backward_outcome(
                &op,
                vals,
                g[x as int]->Some_0,
                r,
            )
        ||| exists|vals: Seq<Tensor<T>>, gs: Vec<Tensor<T>>|
            #![trigger Op::<T>::backward_outcome(&op, vals, g[x as int]->Some_0, Ok(gs))]
            operand_values(nodes, x as int, ins, vals) && Op::<T>::backward_outcome(
                &op,
                vals,
                g[x as int]->Some_0,
                Ok(gs),
            ) && gs@.len() == ins.len() && shares_fail(nodes, g, ins, gs@)
    }
}

/// `tr` lists the gradients before and after each of the first `n` steps of the reverse pass
/// over `order`, which visits `order` from its end.
pub open spec fn pass_trace<T: Scalar>(
    nodes: Seq<Node<T>>,
    order: Seq<usize>,
    tr: Seq<Seq<Option<Tensor<T>>>>,
    n: int,
) -> bool {
    &&& 0 <= n <= order.len()
    &&& tr.len() == n + 1
    &&& forall|t: int|
        0 <= t < n ==> #[trigger] pass_step(nodes, tr[t], order[order.len() - 1 - t], tr[t + 1])
}

/// The reverse pass over `order` takes gradients `g` to `g_out`.
pub open spec fn pass_ok<T: Scalar>(
    nodes: Seq<Node<T>>,
    g: Seq<Option<Tensor<T>>>,
    order: Seq<usize>,
    g_out: Seq<Option<Tensor<T>>>,
) -> bool {
    exists|tr: Seq<Seq<Option<Tensor<T>>>>|
        #[trigger] pass_trace(nodes, order, tr, order.len() as int) && tr[0] == g && tr[order.len() as int]
            == g_out
}

/// The reverse pass over `order`, from gradients `g`, fails at some step.
pub open spec fn pass_fails<T: Scalar>(nodes: Seq<Node<T>>, g: Seq<Option<Tensor<T>>>, order: Seq<usize>) -> bool {
    exists|tr: Seq<Seq<Option<Tensor<T>>>>, n: int|
        #[trigger] pass_trace(nodes, order, tr, n) && n < order.len() && tr[0] == g && step_fails(
            nodes,
            tr[n],
            order[order.len() - 1 - n],
        )
}

/// `order` lists exactly the nodes reachable from `start`, each once and after its operands,
/// with `start` last.
pub open spec fn valid_order<T>(nodes: Seq<Node<T>>, start: usize, order: Seq<usize>) -> bool {
    &&& topo_ordered(nodes, order)
    &&& order.len() > 0
    &&& order.last() == start
    &&& forall|p: int| 0 <= p < order.len() ==> reaches(nodes, start, #[trigger] order[p])
    &&& forall|x: usize| reaches(nodes, start, x) ==> #[trigger] order.contains(x)
}

/// `s` is the seed for an output of value `v`: ones in `v`'s shape.
pub open spec fn seed_of<T: Scalar>(s: Tensor<T>, v: Tensor<T>) -> bool {
    &&& s.wf()
    &&& s.spec_shape() == v.spec_shape()
    &&& s.spec_data() == Seq::new(s.spec_data().len(), |i: int| T::spec_one())
}

/// Extending a reverse-pass trace by one step.
proof fn lemma_pass_extend<T: Scalar>(
    nodes: Seq<Node<T>>,
    order: Seq<usize>,
    tr: Seq<Seq<Option<Tensor<T>>>>,
    n: int,
    g2: Seq<Option<Tensor<T>>>,
)
    requires
        pass_trace(nodes, order, tr, n),
        n < order.len(),
        pass_step(nodes, tr[n], order[order.len() - 1 - n], g2),
    ensures
        pass_trace(nodes, order, tr.push(g2), n + 1),
        tr.push(g2)[0] == tr[0],
{
    let tr2 = tr.push(g2);
    assert forall|t: int| 0 <= t < n + 1 implies #[trigger] pass_step(
        nodes,
        tr2[t],
        order[order.len() - 1 - t],
        tr2[t + 1],
    ) by {
        if t < n {
            assert(tr2[t] == tr[t] && tr2[t + 1] == tr[t + 1]);
            assert(pass_step(nodes, tr[t], order[order.len() - 1 - t], tr[t + 1]));
        }
    }
}

/// Extending a share trace by one share.
proof fn lemma_share_extend<T: Scalar>(
    nodes: Seq<Node<T>>,
    ins: Seq<usize>,
    gs: Seq<Tensor<T>>,
    tr: Seq<Seq<Option<Tensor<T>>>>,
    n: int,
    g2: Seq<Option<Tensor<T>>>,
)
    requires
        share_trace(nodes, ins, gs, tr, n),
        n < ins.len(),
        share_step(nodes, tr[n], ins[n], gs[n], g2),
    ensures
        share_trace(nodes, ins, gs, tr.push(g2), n + 1),
        tr.push(g2)[0] == tr[0],
{
    let tr2 = tr.push(g2);
    assert forall|j: int| 0 <= j < n + 1 implies #[trigger] share_step(
        nodes,
        tr2[j],
        ins[j],
        gs[j],
        tr2[j + 1],
    ) by {
        if j < n {
            assert(tr2[j] == tr[j] && tr2[j + 1] == tr[j + 1]);
            assert(share_step(nodes, tr[j], ins[j], gs[j], tr[j + 1]));
        }
    }
}

/// Step `t` of a reverse-pass trace.
proof fn lemma_pass_trace_at<T: Scalar>(
    nodes: Seq<Node<T>>,
    order: Seq<usize>,
    tr: Seq<Seq<Option<Tensor<T>>>>,
    n: int,
    t: int,
)
    requires
        pass_trace(nodes, order, tr, n),
        0 <= t < n,
    ensures
        pass_step(nodes, tr[t], order[order.len() - 1 - t], tr[t + 1]),
{
}

/// Share `j` of a share trace.
proof fn lemma_share_trace_at<T: Scalar>(
    nodes: Seq<Node<T>>,
    ins: Seq<usize>,
    gs: Seq<Tensor<T>>,
    tr: Seq<Seq<Option<Tensor<T>>>>,
    n: int,
    j: int,
)
    requires
        share_trace(nodes, ins, gs, tr, n),
        0 <= j < n,
    ensures
        share_step(nodes, tr[j], ins[j], gs[j], tr[j + 1]),
{
}

/// A node of rank at least one is its own broadcast partner: each offset reads itself.
proof fn lemma_source_self(sh: Seq<usize>, i: nat)
    requires
        i < shape_size(sh),
    ensures
        source_offset(sh, sh, i) == i,
{
    lemma_unravel_ravel(i, sh);
    let c = unravel(i, sh);
    assert(operand_coord(c, sh) =~= c) by {
        assert forall|j: int| 0 <= j < sh.len() implies #[trigger] operand_coord(c, sh)[j] == c[j] by {
            if sh[j] == 1 {
                assert(c[j] < 1);
            }
        }
    }
}

/// A value of the sum node of `[p, p + p]` has `p`'s shape.
proof fn lemma_shared_sum_shape<T: Scalar>(nodes: Seq<Node<T>>, t: Tensor<T>, ins: Vec<usize>, v: Tensor<T>)
    requires
        t.wf(),
        ins@ == seq![0usize, 0usize],
        nodes == seq![Node::Parameter(t, true), Node::Operation(OpKind::Add, ins)],
        node_value(nodes, 1, v),
    ensures
        v.spec_shape() == t.spec_shape(),
{
    let op = OpKind::Add;
    let vals = choose|vals: Seq<Tensor<T>>|
        #![trigger Op::<T>::forward_outcome(&op, vals, Ok(v))]
        {
            &&& vals.len() == ins@.len()
            &&& forall|j: int|
                0 <= j < ins@.len() ==> ins@[j] < 1 && node_value(nodes, ins@[j] as int, #[trigger] vals[j])
            &&& Op::<T>::forward_outcome(&op, vals, Ok(v))
        };
    assert(node_value(nodes, 0, vals[0]) && node_value(nodes, 0, vals[1]));
    t.lemma_wf();
    lemma_broadcast_self(t.spec_shape());
}

/// Gradient accumulation: in the graph `[p, p + p]` with `p` a trainable parameter that has no
/// gradient yet, any successful reverse pass from the sum, seeded with ones in the shape of
/// the sum's value (what `backward` states on success), leaves `p` with the sum of both
/// shares: `1 + 1` at every element, in `p`'s shape.
pub proof fn shared_operand_gets_both_shares<T: Scalar>(
    nodes: Seq<Node<T>>,
    t: Tensor<T>,
    ins: Vec<usize>,
    v: Tensor<T>,
    s: Tensor<T>,
    order: Seq<usize>,
    g_out: Seq<Option<Tensor<T>>>,
)
    requires
        t.wf(),
        ins@ == seq![0usize, 0usize],
        nodes == seq![Node::Parameter(t, true), Node::Operation(OpKind::Add, ins)],
        node_value(nodes, 1, v),
        seed_of(s, v),
        valid_order(nodes, 1, order),
        pass_ok(nodes, seq![None, Some(s)], order, g_out),
    ensures
        g_out[0] is Some,
        g_out[0]->Some_0.spec_shape() == t.spec_shape(),
        forall|i: int|
            0 <= i < g_out[0]->Some_0.spec_data().len() ==> #[trigger] g_out[0]->Some_0.spec_data()[i]
                == T::spec_one().spec_add(T::spec_one()),
{
    lemma_shared_sum_shape(nodes, t, ins, v);
    assert(seed_of(s, t));
    let g0: Seq<Option<Tensor<T>>> = seq![None, Some(s)];
    // The order is [0, 1].
    assert(reaches(nodes, 1, 0)) by {
        let p = seq![1usize, 0usize];
        assert(node_inputs(nodes[1]) == ins@);
        assert(node_inputs(nodes[1]).contains(0usize)) by {
            assert(node_inputs(nodes[1])[0] == 0usize);
        }
        assert(operand_path(nodes, p) && p[0] == 1 && p.last() == 0);
    }
    assert(order.contains(0usize));
    assert(order.len() == 2) by {
        assert forall|p: int| 0 <= p < order.len() implies #[trigger] order[p] < 2 by {}
        if order.len() > 2 {
            assert(order[0] != order[1] && order[0] != order[2] && order[1] != order[2]);
        }
        if order.len() == 1 {
            assert(order[0] == 1);
        }
    }
    assert(order[1] == 1);
    assert(order[0] == 0) by {
        assert(order[0] != order[1]);
    }
    let tr = choose|tr: Seq<Seq<Option<Tensor<T>>>>|
        #[trigger] pass_trace(nodes, order, tr, order.len() as int) && tr[0] == g0 && tr[order.len() as int]
            == g_out;
    // First step, at the sum node.
    lemma_pass_trace_at(nodes, order, tr, 2, 0);
    assert(pass_step(nodes, tr[0], order[1], tr[1]));
    let op = OpKind::Add;
    let (vals, gs) = choose|vals: Seq<Tensor<T>>, gs: Vec<Tensor<T>>|
        #![trigger Op::<T>::backward_outcome(&op, vals, g0[1]->Some_0, Ok(gs))]
        {
            &&& operand_values(nodes, 1, ins@, vals)
            &&& ins@.len() == Op::<T>::arity(&op)
            &&& Op::<T>::backward_outcome(&op, vals, g0[1]->Some_0, Ok(gs))
            &&& gs@.len() == ins@.len()
            &&& shares_ok(nodes, g0, ins@, gs@, tr[1])
        };
    assert(same_tensor(gs@[0], s) && same_tensor(gs@[1], s));
    let str = choose|str: Seq<Seq<Option<Tensor<T>>>>|
        #[trigger] share_trace(nodes, ins@, gs@, str, ins@.len() as int) && str[0] == g0 && str[ins@.len() as int]
            == tr[1];
    lemma_share_trace_at(nodes, ins@, gs@, str, 2, 0);
    lemma_share_trace_at(nodes, ins@, gs@, str, 2, 1);
    assert(share_step(nodes, str[0], ins@[0], gs@[0], str[1]));
    assert(share_step(nodes, str[1], ins@[1], gs@[1], str[2]));
    assert(requires_grad(nodes[0]));
    let t1 = choose|t1: Tensor<T>| #[trigger] same_tensor(t1, gs@[0]) && t1.wf() && str[1] == g0.update(0, Some(t1));
    assert(str[1][0] == Some(t1));
    let t2 = choose|t2: Tensor<T>|
        #[trigger] sum_result(str[1][0]->Some_0, gs@[1], Ok(t2)) && str[2] == str[1].update(0, Some(t2));
    // Second step, at the parameter: nothing changes.
    lemma_pass_trace_at(nodes, order, tr, 2, 1);
    assert(pass_step(nodes, tr[1], order[0], tr[2]));
    assert(tr[1] == str[2]);
    assert(tr[2] == tr[1]);
    assert(g_out[0] == Some(t2));
    let sh = t.spec_shape();
    t.lemma_wf();
    lemma_broadcast_self(sh);
    assert(t1.spec_shape() == sh && gs@[1].spec_shape() == sh);
    assert(t2.spec_shape() == sh);
    t2.lemma_wf();
    s.lemma_wf();
    assert forall|i: int| 0 <= i < t2.spec_data().len() implies #[trigger] t2.spec_data()[i]
        == T::spec_one().spec_add(T::spec_one()) by {
        lemma_source_self(sh, i as nat);
        assert(t1.spec_data()[i] == s.spec_data()[i]);
        assert(gs@[1].spec_data()[i] == s.spec_data()[i]);
    }
}

/// In the graph `[p, p + p]` with `p` a trainable parameter that has no gradient yet, neither
/// evaluating the sum nor any reverse pass from it, seeded with ones, can fail; so `backward`
/// on the sum succeeds.
pub proof fn shared_operand_pass_succeeds<T: Scalar>(
    nodes: Seq<Node<T>>,
    t: Tensor<T>,
    ins: Vec<usize>,
    v: Tensor<T>,
    s: Tensor<T>,
    order: Seq<usize>,
)
    requires
        t.wf(),
        ins@ == seq![0usize, 0usize],
        nodes == seq![Node::Parameter(t, true), Node::Operation(OpKind::Add, ins)],
        node_value(nodes, 1, v),
        seed_of(s, v),
        valid_order(nodes, 1, order),
    ensures
        !node_fails(nodes, 1),
        !pass_fails(nodes, seq![None, Some(s)], order),
{
    lemma_shared_sum_shape(nodes, t, ins, v);
    assert(seed_of(s, t));
    let g0: Seq<Option<Tensor<T>>> = seq![None, Some(s)];
    let sh = t.spec_shape();
    t.lemma_wf();
    lemma_broadcast_self(sh);
    let op = OpKind::Add;
    assert(!node_fails(nodes, 0));
    assert(!some_operand_fails(nodes, 1, ins@, 2)) by {
        assert(!some_operand_fails(nodes, 1, ins@, 1)) by {
            assert(!some_operand_fails(nodes, 1, ins@, 0));
        }
    }
    assert(!node_fails(nodes, 1)) by {
        if exists|vals: Seq<Tensor<T>>, r: Result<Tensor<T>, ComputeError>|
            #![trigger Op::<T>::forward_outcome(&op, vals, r)]
            operand_values(nodes, 1, ins@, vals) && r is Err && Op::<T>::forward_outcome(&op, vals, r) {
            let (vals, r) = choose|vals: Seq<Tensor<T>>, r: Result<Tensor<T>, ComputeError>|
                #![trigger Op::<T>::forward_outcome(&op, vals, r)]
                operand_values(nodes, 1, ins@, vals) && r is Err && Op::<T>::forward_outcome(&op, vals, r);
            assert(node_value(nodes, 0, vals[0]) && node_value(nodes, 0, vals[1]));
            assert(vals[0].spec_shape() == sh && vals[1].spec_shape() == sh);
        }
    }
    // The order is [0, 1].
    assert(reaches(nodes, 1, 0)) by {
        let p = seq![1usize, 0usize];
        assert(node_inputs(nodes[1]).contains(0usize)) by {
            assert(node_inputs(nodes[1])[0] == 0usize);
        }
        assert(operand_path(nodes, p) && p[0] == 1 && p.last() == 0);
    }
    assert(order.contains(0usize));
    assert(order.len() == 2) by {
        assert forall|p: int| 0 <= p < order.len() implies #[trigger] order[p] < 2 by {}
        if order.len() > 2 {
            assert(order[0] != order[1] && order[0] != order[2] && order[1] != order[2]);
        }
        if order.len() == 1 {
            assert(order[0] == 1);
        }
    }
    assert(order[1] == 1);
    assert(order[0] == 0) by {
        assert(order[0] != order[1]);
    }
    if pass_fails(nodes, g0, order) {
        let (tr, n) = choose|tr: Seq<Seq<Option<Tensor<T>>>>, n: int|
            #[trigger] pass_trace(nodes, order, tr, n) && n < order.len() && tr[0] == g0 && step_fails(
                nodes,
                tr[n],
                order[order.len() - 1 - n],
            );
        if n == 1 {
            assert(order[order.len() - 1 - n] == 0);
            assert(!(nodes[0] is Operation));
        } else {
            assert(n == 0);
            assert(order[order.len() - 1 - n] == 1);
            assert(tr[0] == g0);
            // The backward rule of a sum never fails.
            assert(!exists|vals: Seq<Tensor<T>>, r: Result<Vec<Tensor<T>>, ComputeError>|
                #![trigger Op::<T>::backward_outcome(&op, vals, g0[1]->Some_0, r)]
                operand_values(nodes, 1, ins@, vals) && r is Err && Op::<T>::backward_outcome(
                    &op,
                    vals,
                    g0[1]->Some_0,
                    r,
                ));
            let (vals, gs) = choose|vals: Seq<Tensor<T>>, gs: Vec<Tensor<T>>|
                #![trigger Op::<T>::backward_outcome(&op, vals, g0[1]->Some_0, Ok(gs))]
                operand_values(nodes, 1, ins@, vals) && Op::<T>::backward_outcome(
                    &op,
                    vals,
                    g0[1]->Some_0,
                    Ok(gs),
                ) && gs@.len() == ins@.len() && shares_fail(nodes, g0, ins@, gs@);
            assert(same_tensor(gs@[0], s) && same_tensor(gs@[1], s));
            let (str, m) = choose|str: Seq<Seq<Option<Tensor<T>>>>, m: int|
                #[trigger] share_trace(nodes, ins@, gs@, str, m) && m < ins@.len() && str[0] == g0
                    && share_fails(nodes, str[m], ins@[m], gs@[m]);
            if m == 1 {
                lemma_share_trace_at(nodes, ins@, gs@, str, 1, 0);
                assert(requires_grad(nodes[0]));
                let t1 = choose|t1: Tensor<T>|
                    #[trigger] same_tensor(t1, gs@[0]) && t1.wf() && str[1] == g0.update(0, Some(t1));
                assert(str[1][0] == Some(t1));
                assert(broadcast_ok(sh, sh));
            }
        }
    }
}

/// `visited` marks exactly the nodes that `order` lists.
pub open spec fn marks(visited: Seq<bool>, order: Seq<usize>) -> bool {
    forall|k: usize| (k as int) < visited.len() ==> (#[trigger] visited[k as int] <==> order.contains(k))
}

/// Appending a node whose operands are all listed keeps an order topological.
pub proof fn lemma_topo_extend<T>(nodes: Seq<Node<T>>, order: Seq<usize>, x: usize)
    requires
        topo_ordered(nodes, order),
        x < nodes.len(),
        !order.contains(x),
        forall|j: int| 0 <= j < node_inputs(nodes[x as int]).len() ==> order.contains(
            #[trigger] node_inputs(nodes[x as int])[j],
        ),
    ensures
        topo_ordered(nodes, order.push(x)),
{
    let o2 = order.push(x);
    assert forall|p: int, j: int|
        #![trigger node_inputs(nodes[o2[p] as int])[j]]
        0 <= p < o2.len() && 0 <= j < node_inputs(nodes[o2[p] as int]).len() implies o2.subrange(
        0,
        p,
    ).contains(node_inputs(nodes[o2[p] as int])[j]) by {
        if p < order.len() {
            assert(o2[p] == order[p]);
            assert(o2.subrange(0, p) =~= order.subrange(0, p));
        } else {
            assert(o2[p] == x);
            assert(o2.subrange(0, p) =~= order);
        }
    }
    assert forall|p: int| 0 <= p < o2.len() implies #[trigger] o2[p] < nodes.len() by {
        if p < order.len() {
            assert(o2[p] == order[p]);
        }
    }
    assert forall|a: int, b: int| 0 <= a < o2.len() && 0 <= b < o2.len() && a != b implies o2[a] != o2[b] by {
        if a < order.len() && b < order.len() {
        } else if a < order.len() {
            assert(order.contains(o2[a]));
        } else {
            assert(order.contains(o2[b]));
        }
    }
    assert(o2.no_duplicates());
    assert(forall|p: int| 0 <= p < o2.len() ==> #[trigger] o2[p] < nodes.len());

}

/// An append-only arena of nodes, with the gradient that each node received in the most
/// recent backward passes.
#[derive(Debug)]
pub struct Graph<T> {
    nodes: Vec<Node<T>>,
    gradients: Vec<Option<Tensor<T>>>,
}

impl<T: Scalar> Graph<T> {
    /// The nodes, by index.
    pub closed spec fn spec_nodes(&self) -> Seq<Node<T>> {
        self.nodes@
    }

    /// The accumulated gradient of each node, by index.
    pub closed spec fn spec_gradients(&self) -> Seq<Option<Tensor<T>>> {
        self.gradients@
    }

    /// Every node is well formed at its position, every stored gradient is a well-formed
    /// tensor, and there is one gradient slot per node.
    pub open spec fn wf(&self) -> bool {
        &&& self.spec_gradients().len() == self.spec_nodes().len()
        &&& forall|k: int| 0 <= k < self.spec_nodes().len() ==> node_wf(#[trigger] self.spec_nodes()[k], k)
        &&& forall|k: int|
            0 <= k < self.spec_gradients().len() && #[trigger] self.spec_gradients()[k] is Some
                ==> self.spec_gradients()[k]->Some_0.wf()
    }

    /// An empty graph.
    pub fn new() -> (r: Self)
        ensures
            r.wf(),
            r.spec_nodes().len() == 0,
    {
        Graph { nodes: Vec::new(), gradients: Vec::new() }
    }

    fn push_node(&mut self, node: Node<T>) -> (idx: usize)
        requires
            old(self).wf(),
            node_wf(node, old(self).spec_nodes().len() as int),
            old(self).spec_nodes().len() < usize::MAX,
        ensures
            final(self).wf(),
            idx == old(self).spec_nodes().len(),
            final(self).spec_nodes() == old(self).spec_nodes().push(node),
            final(self).spec_gradients() == old(self).spec_gradients().push(None),
    {
        let idx = self.nodes.len();
        self.nodes.push(node);
        self.gradients.push(None);
        proof {
            assert forall|k: int| 0 <= k < self.nodes@.len() implies node_wf(
                #[trigger] self.nodes@[k],
                k,
            ) by {
                if k < idx {
                    assert(self.nodes@[k] == old(self).nodes@[k]);
                }
            }
            assert forall|k: int|
                0 <= k < self.gradients@.len() && #[trigger] self.gradients@[k] is Some implies self.gradients@[k]->Some_0.wf() by {
                if k < idx {
                    assert(self.gradients@[k] == old(self).gradients@[k]);
                }
            }
        }
        idx
    }

    /// Appends an input node holding `tensor`; returns its index.
    pub fn add_input(&mut self, tensor: Tensor<T>) -> (idx: usize)
        requires
            old(self).wf(),
            tensor.wf(),
            old(self).spec_nodes().len() < usize::MAX,
        ensures
            final(self).wf(),
            idx == old(self).spec_nodes().len(),
            final(self).spec_nodes() == old(self).spec_nodes().push(Node::Input(tensor)),
            final(self).spec_gradients() == old(self).spec_gradients().push(None),
    {
        self.push_node(Node::Input(tensor))
    }

    /// Appends a parameter node holding `tensor`; returns its index.
    pub fn add_parameter(&mut self, tensor: Tensor<T>, requires_grad: bool) -> (idx: usize)
        requires
            old(self).wf(),
            tensor.wf(),
            old(self).spec_nodes().len() < usize::MAX,
        ensures
            final(self).wf(),
            idx == old(self).spec_nodes().len(),
            final(self).spec_nodes() == old(self).spec_nodes().push(
                Node::Parameter(tensor, requires_grad),
            ),
            final(self).spec_gradients() == old(self).spec_gradients().push(None),
    {
        self.push_node(Node::Parameter(tensor, requires_grad))
    }

    /// Appends an operation node applying `op` to the values of the nodes `inputs`, which
    /// must already be in the graph; returns its index. The graph records the catalog entry
    /// that `op.kind()` names and runs that entry's forward and backward rules, so an `Op`
    /// implementation outside the catalog takes part only through its kind.
    pub fn apply_op<O: Op<T>>(&mut self, op: O, inputs: &[usize]) -> (idx: usize)
        requires
            old(self).wf(),
            forall|j: int| 0 <= j < inputs@.len() ==> #[trigger] inputs@[j] < old(self).spec_nodes().len(),
            old(self).spec_nodes().len() < usize::MAX,
        ensures
            final(self).wf(),
            idx == old(self).spec_nodes().len(),
            final(self).spec_nodes().len() == old(self).spec_nodes().len() + 1,
            final(self).spec_nodes().subrange(0, idx as int) == old(self).spec_nodes(),
            final(self).spec_nodes()[idx as int] matches Node::Operation(k, ins) && k
                == op.spec_kind() && ins@ == inputs@,
            final(self).spec_gradients() == old(self).spec_gradients().push(None),
    {
        let mut ins: Vec<usize> = Vec::new();
        let mut j: usize = 0;
        while j < inputs.len()
            invariant
                0 <= j <= inputs@.len(),
                ins@ == inputs@.subrange(0, j as int),
            decreases inputs@.len() - j,
        {
            ins.push(inputs[j]);
            j += 1;
            assert(ins@ =~= inputs@.subrange(0, j as int));
        }
        assert(ins@ =~= inputs@);
        let kind = op.kind();
        let idx = self.push_node(Node::Operation(kind, ins));
        assert(self.spec_nodes().subrange(0, idx as int) =~= old(self).spec_nodes());
        idx
    }

    /// The number of nodes.
    pub fn len(&self) -> (r: usize)
        ensures
            r == self.spec_nodes().len(),
    {
        self.nodes.len()
    }

    /// Evaluates node `node_idx`: a copy of the tensor of an input or parameter, or the
    /// operation applied to its operands' values, evaluated recursively without memoization.
    /// It fails only where `node_fails` holds, so evaluation is owed wherever it cannot fail.
    pub fn forward(&self, node_idx: usize) -> (r: Result<Tensor<T>, ComputeError>)
        requires
            self.wf(),
        ensures
            node_idx >= self.spec_nodes().len() ==> r matches Err(ComputeError::IndexError { .. }),
            node_idx < self.spec_nodes().len() ==> match self.spec_nodes()[node_idx as int] {
                Node::Input(t) => r matches Ok(v) && same_tensor(v, t),
                Node::Parameter(t, _) => r matches Ok(v) && same_tensor(v, t),
                Node::Operation(op, ins) => ins@.len() != Op::<T>::arity(&op) ==> r is Err,
            },
            r matches Ok(v) ==> v.wf() && node_value(self.spec_nodes(), node_idx as int, v),
            r is Err ==> node_fails(self.spec_nodes(), node_idx as int),
        decreases node_idx,
    {
        if node_idx >= self.nodes.len() {
            return Err(
                ComputeError::IndexError {
                    message: String::from_str("node index out of bounds"),
                },
            );
        }
        assert(node_wf(self.nodes@[node_idx as int], node_idx as int));
        match &self.nodes[node_idx] {
            Node::Input(t) => Ok(t.duplicate()),
            Node::Parameter(t, _) => Ok(t.duplicate()),
            Node::Operation(op, input_indices) => {
                let mut inputs: Vec<Tensor<T>> = Vec::new();
                let mut j: usize = 0;
                while j < input_indices.len()
                    invariant
                        self.wf(),
                        node_idx < self.spec_nodes().len(),
                        self.spec_nodes()[node_idx as int] matches Node::Operation(k, ins) && k == *op
                            && ins@ == input_indices@,
                        forall|q: int| 0 <= q < input_indices@.len() ==> #[trigger] input_indices@[q] < node_idx,
                        0 <= j <= input_indices@.len(),
                        inputs@.len() == j,
                        all_wf(inputs@),
                        forall|q: int|
                            0 <= q < j ==> node_value(
                                self.spec_nodes(),
                                input_indices@[q] as int,
                                #[trigger] inputs@[q],
                            ),
                    decreases input_indices@.len() - j,
                {
                    let v = match self.forward(input_indices[j]) {
                        Ok(v) => v,
                        Err(e) => {
                            proof {
                                lemma_operand_fails(
                                    self.spec_nodes(),
                                    node_idx as int,
                                    input_indices@,
                                    j as int,
                                    input_indices@.len() as int,
                                );
                            }
                            assert(node_fails(self.spec_nodes(), node_idx as int));
                            return Err(e);
                        },
                    };
                    inputs.push(v);
                    j += 1;
                }
                let r = op.forward(inputs.as_slice());
                proof {
                    if r is Err {
                        assert(operand_values(self.spec_nodes(), node_idx as int, input_indices@, inputs@));
                        if input_indices@.len() == Op::<T>::arity(op) {
                            assert(Op::<T>::forward_outcome(op, inputs@, r));
                        }
                        assert(node_fails(self.spec_nodes(), node_idx as int));
                    }
                    if r is Ok {
                        let v = r->Ok_0;
                        assert(Op::<T>::forward_outcome(op, inputs@, Ok(v)));
                        assert(forall|q: int|
                            0 <= q < input_indices@.len() ==> input_indices@[q] < node_idx
                                && node_value(
                                self.spec_nodes(),
                                input_indices@[q] as int,
                                #[trigger] inputs@[q],
                            ));
                        assert(node_value(self.spec_nodes(), node_idx as int, v));
                    }
                }
                r
            },
        }
    }

    /// Depth-first visit from `node_idx`: lists each unvisited node after its operands.
    fn dfs(&self, node_idx: usize, visited: &mut Vec<bool>, order: &mut Vec<usize>)
        requires
            self.wf(),
            node_idx < self.spec_nodes().len(),
            old(visited)@.len() == self.spec_nodes().len(),
            marks(old(visited)@, old(order)@),
            topo_ordered(self.spec_nodes(), old(order)@),
        ensures
            final(visited)@.len() == self.spec_nodes().len(),
            marks(final(visited)@, final(order)@),
            topo_ordered(self.spec_nodes(), final(order)@),
            final(order)@.len() >= old(order)@.len(),
            final(order)@.subrange(0, old(order)@.len() as int) == old(order)@,
            final(order)@.contains(node_idx),
            forall|k: int|
                old(order)@.len() <= k < final(order)@.len() ==> #[trigger] final(order)@[k]
                    <= node_idx,
            !old(visited)@[node_idx as int] ==> final(order)@.last() == node_idx,
            forall|k: int|
                old(order)@.len() <= k < final(order)@.len() ==> reaches(
                    self.spec_nodes(),
                    node_idx,
                    #[trigger] final(order)@[k],
                ),
        decreases node_idx,
    {
        if visited[node_idx] {
            assert(order@.subrange(0, order@.len() as int) =~= order@);
            return;
        }
        let ghost start = order@;
        assert(node_wf(self.nodes@[node_idx as int], node_idx as int));
        match &self.nodes[node_idx] {
            Node::Operation(_, input_indices) => {
                let mut j: usize = 0;
                while j < input_indices.len()
                    invariant
                        self.wf(),
                        node_idx < self.spec_nodes().len(),
                        self.spec_nodes()[node_idx as int] matches Node::Operation(_, ins) && ins@
                            == input_indices@,
                        forall|q: int| 0 <= q < input_indices@.len() ==> #[trigger] input_indices@[q] < node_idx,
                        0 <= j <= input_indices@.len(),
                        visited@.len() == self.spec_nodes().len(),
                        marks(visited@, order@),
                        topo_ordered(self.spec_nodes(), order@),
                        order@.len() >= start.len(),
                        order@.subrange(0, start.len() as int) == start,
                        forall|k: int| start.len() <= k < order@.len() ==> #[trigger] order@[k] < node_idx,
                        forall|k: int|
                            start.len() <= k < order@.len() ==> reaches(
                                self.spec_nodes(),
                                node_idx,
                                #[trigger] order@[k],
                            ),
                        forall|q: int| 0 <= q < j ==> order@.contains(#[trigger] input_indices@[q]),
                    decreases input_indices@.len() - j,
                {
                    let ghost before = order@;
                    self.dfs(input_indices[j], visited, order);
                    proof {
                        assert forall|q: int| 0 <= q < j + 1 implies order@.contains(
                            #[trigger] input_indices@[q],
                        ) by {
                            if q < j {
                                let i = choose|i: int| 0 <= i < before.len() && before[i] == input_indices@[q];
                                assert(order@.subrange(0, before.len() as int)[i] == before[i]);
                            }
                        }
                        assert forall|k: int| start.len() <= k < order@.len() implies #[trigger] order@[k] < node_idx by {
                            if k < before.len() {
                                assert(order@.subrange(0, before.len() as int)[k] == before[k]);
                            }
                        }
                        assert(node_inputs(self.spec_nodes()[node_idx as int]).contains(
                            input_indices@[j as int],
                        )) by {
                            assert(node_inputs(self.spec_nodes()[node_idx as int])[j as int]
                                == input_indices@[j as int]);
                        }
                        assert forall|k: int|
                            start.len() <= k < order@.len() implies reaches(
                            self.spec_nodes(),
                            node_idx,
                            #[trigger] order@[k],
                        ) by {
                            if k < before.len() {
                                assert(order@.subrange(0, before.len() as int)[k] == before[k]);
                            } else {
                                lemma_reaches_step(
                                    self.spec_nodes(),
                                    node_idx,
                                    input_indices@[j as int],
                                    order@[k],
                                );
                            }
                        }
                        assert(order@.subrange(0, start.len() as int) =~= before.subrange(0, start.len() as int));
                    }
                    j += 1;
                }
            },
            _ => {},
        }
        proof {
            if order@.contains(node_idx) {
                let i = choose|i: int| 0 <= i < order@.len() && order@[i] == node_idx;
                if i < start.len() {
                    assert(order@.subrange(0, start.len() as int)[i] == start[i]);
                    assert(start.contains(node_idx));
                }
            }
            assert forall|j: int| 0 <= j < node_inputs(self.spec_nodes()[node_idx as int]).len() implies order@.contains(
                #[trigger] node_inputs(self.spec_nodes()[node_idx as int])[j],
            ) by {
            }
            lemma_topo_extend(self.spec_nodes(), order@, node_idx);
        }
        let ghost mid = order@;
        order.push(node_idx);
        visited.set(node_idx, true);
        proof {
            assert(order@.last() == node_idx);
            assert(order@[mid.len() as int] == node_idx);
            lemma_reaches_self(self.spec_nodes(), node_idx);
            assert forall|k: int|
                start.len() <= k < order@.len() implies reaches(
                self.spec_nodes(),
                node_idx,
                #[trigger] order@[k],
            ) by {
                if k < mid.len() {
                    assert(order@[k] == mid[k]);
                }
            }
            assert(order@.subrange(0, start.len() as int) =~= mid.subrange(0, start.len() as int));
            assert forall|k: usize| (k as int) < visited@.len() implies (#[trigger] visited@[k as int] <==> order@.contains(k)) by {
                if k == node_idx {
                    assert(order@[mid.len() as int] == node_idx);
                } else {
                    if order@.contains(k) {
                        let i = choose|i: int| 0 <= i < order@.len() && order@[i] == k;
                        if i == mid.len() {
                            assert(order@[i] == node_idx);
                        }
                        assert(i < mid.len());
                        assert(mid[i] == order@[i]);
                    }
                    if mid.contains(k) {
                        let i = choose|i: int| 0 <= i < mid.len() && mid[i] == k;
                        assert(order@[i] == mid[i]);
                    }
                }
            }
        }
    }

    /// All nodes reachable from `start_idx`, each listed once and after all of its operands;
    /// `start_idx` comes last.
    pub fn topological_sort(&self, start_idx: usize) -> (r: Result<Vec<usize>, ComputeError>)
        requires
            self.wf(),
        ensures
            start_idx >= self.spec_nodes().len() ==> r matches Err(ComputeError::IndexError { .. }),
            start_idx < self.spec_nodes().len() ==> (r matches Ok(order) && topo_ordered(
                self.spec_nodes(),
                order@,
            ) && order@.len() > 0 && order@.last() == start_idx && (forall|p: int|
                0 <= p < order@.len() ==> #[trigger] order@[p] <= start_idx && reaches(
                    self.spec_nodes(),
                    start_idx,
                    order@[p],
                )) && (forall|x: usize|
                reaches(self.spec_nodes(), start_idx, x) ==> #[trigger] order@.contains(x))),
    {
        if start_idx >= self.nodes.len() {
            return Err(
                ComputeError::IndexError {
                    message: String::from_str("node index out of bounds"),
                },
            );
        }
        let n = self.nodes.len();
        let mut visited: Vec<bool> = Vec::new();
        let mut k: usize = 0;
        while k < n
            invariant
                0 <= k <= n,
                visited@.len() == k,
                forall|q: int| 0 <= q < k ==> !(#[trigger] visited@[q]),
            decreases n - k,
        {
            visited.push(false);
            k += 1;
        }
        let mut order: Vec<usize> = Vec::new();
        proof {
            assert forall|q: usize| (q as int) < visited@.len() implies (#[trigger] visited@[q as int] <==> order@.contains(q)) by {
                assert(!visited@[q as int]);
            }
        }
        self.dfs(start_idx, &mut visited, &mut order);
        proof {
            assert(order@[order@.len() - 1] == start_idx);
            assert(order@.contains(start_idx));
            assert forall|x: usize| reaches(self.spec_nodes(), start_idx, x) implies #[trigger] order@.contains(
                x,
            ) by {
                lemma_order_complete(self.spec_nodes(), order@, start_idx, x);
            }
        }
        Ok(order)
    }

    /// Adds the contribution `g` to the gradient of node `idx`: stored as it is when the node
    /// has none yet, added elementwise to the stored one otherwise.
    fn accumulate(&mut self, idx: usize, g: &Tensor<T>) -> (r: Result<(), ComputeError>)
        requires
            requires_grad(old(self).spec_nodes()[idx as int]),
            old(self).wf(),
            idx < old(self).spec_nodes().len(),
            g.wf(),
        ensures
            final(self).wf(),
            final(self).spec_nodes() == old(self).spec_nodes(),
            final(self).spec_gradients().len() == old(self).spec_gradients().len(),
            forall|k: int|
                0 <= k < old(self).spec_gradients().len() && k != idx ==> #[trigger] final(self).spec_gradients()[k] == old(self).spec_gradients()[k],
            old(self).spec_gradients()[idx as int] is None ==> r is Ok && final(self).spec_gradients()[idx as int] is Some
                && same_tensor(final(self).spec_gradients()[idx as int]->Some_0, *g),
            old(self).spec_gradients()[idx as int] is Some ==> (r is Ok <==> broadcast_ok(
                old(self).spec_gradients()[idx as int]->Some_0.spec_shape(),
                g.spec_shape(),
            )),
            old(self).spec_gradients()[idx as int] is Some && r is Ok ==> final(self).spec_gradients()[idx as int] is Some
                && final(self).spec_gradients()[idx as int]->Some_0.spec_shape() == broadcast_shape(
                old(self).spec_gradients()[idx as int]->Some_0.spec_shape(),
                g.spec_shape(),
            ) && zipped(
                old(self).spec_gradients()[idx as int]->Some_0,
                *g,
                final(self).spec_gradients()[idx as int]->Some_0,
                |x: T, y: T| x.spec_add(y),
            ),
            r is Err ==> r matches Err(ComputeError::InvalidOperation { .. }),
            r is Ok ==> share_step(
                old(self).spec_nodes(),
                old(self).spec_gradients(),
                idx,
                *g,
                final(self).spec_gradients(),
            ),
            r is Err ==> share_fails(old(self).spec_nodes(), old(self).spec_gradients(), idx, *g),
    {
        let new_grad = match &self.gradients[idx] {
            Some(e) => match e.add(g) {
                Ok(sum) => sum,
                Err(_) => {
                    return Err(
                        ComputeError::InvalidOperation {
                            message: String::from_str("gradient shapes do not add"),
                        },
                    );
                },
            },
            None => g.duplicate(),
        };
        let ghost ng = new_grad;
        proof {
            if old(self).gradients@[idx as int] is Some {
                assert(sum_result(old(self).gradients@[idx as int]->Some_0, *g, Ok(ng)));
            } else {
                assert(same_tensor(ng, *g));
            }
        }
        self.gradients.set(idx, Some(new_grad));
        proof {
            assert(self.gradients@ == old(self).gradients@.update(idx as int, Some(ng)));
            assert forall|k: int|
                0 <= k < self.gradients@.len() && #[trigger] self.gradients@[k] is Some implies self.gradients@[k]->Some_0.wf() by {
                if k != idx {
                    assert(self.gradients@[k] == old(self).gradients@[k]);
                }
            }
        }
        Ok(())
    }

    /// Reverse-mode gradients of node `output_idx`. Its gradient is set to ones in its shape;
    /// then, over the nodes reachable from it in reverse topological order, each operation
    /// node that has a gradient passes it to its operands through the operation's backward
    /// rule, and each operand that takes gradients accumulates its share. Gradients stored
    /// earlier are added to, not replaced. A share that does not add to the gradient already
    /// stored (a malformed graph) stops the pass with an invalid-operation error. On success
    /// the gradients are those of `pass_ok` over a valid order from the seeded gradients; a
    /// failure comes only from an output that can fail to evaluate or a step that can fail
    /// (`pass_fails`), so when neither is possible the pass succeeds.
    pub fn backward(&mut self, output_idx: usize) -> (r: Result<(), ComputeError>)
        requires
            old(self).wf(),
        ensures
            final(self).wf(),
            final(self).spec_nodes() == old(self).spec_nodes(),
            output_idx >= old(self).spec_nodes().len() ==> (r matches Err(
                ComputeError::IndexError { .. },
            ) && final(self).spec_gradients() == old(self).spec_gradients()),
            r is Ok ==> final(self).spec_gradients()[output_idx as int] is Some,
            r is Ok ==> ({
                let s = final(self).spec_gradients()[output_idx as int]->Some_0;
                &&& s.spec_data() == Seq::new(s.spec_data().len(), |i: int| T::spec_one())
                &&& exists|v: Tensor<T>|
                    #[trigger] node_value(old(self).spec_nodes(), output_idx as int, v)
                        && s.spec_shape() == v.spec_shape()
            }),
            forall|k: int|
                0 <= k < old(self).spec_nodes().len() && k != output_idx && !requires_grad(
                    #[trigger] old(self).spec_nodes()[k],
                ) ==> final(self).spec_gradients()[k] == old(self).spec_gradients()[k],
            forall|k: usize|
                k < old(self).spec_nodes().len() && !reaches(old(self).spec_nodes(), output_idx, k)
                    ==> #[trigger] final(self).spec_gradients()[k as int] == old(
                    self,
                ).spec_gradients()[k as int],
            r is Ok ==> exists|order: Seq<usize>, v: Tensor<T>, s: Tensor<T>|
                #![trigger valid_order(old(self).spec_nodes(), output_idx, order), node_value(old(self).spec_nodes(), output_idx as int, v), seed_of(s, v)]
                {
                    &&& valid_order(old(self).spec_nodes(), output_idx, order)
                    &&& node_value(old(self).spec_nodes(), output_idx as int, v)
                    &&& seed_of(s, v)
                    &&& pass_ok(
                        old(self).spec_nodes(),
                        old(self).spec_gradients().update(output_idx as int, Some(s)),
                        order,
                        final(self).spec_gradients(),
                    )
                },
            r is Err ==> node_fails(old(self).spec_nodes(), output_idx as int) || exists|
                order: Seq<usize>,
                v: Tensor<T>,
                s: Tensor<T>,
            |
                #![trigger valid_order(old(self).spec_nodes(), output_idx, order), node_value(old(self).spec_nodes(), output_idx as int, v), seed_of(s, v)]
                {
                    &&& valid_order(old(self).spec_nodes(), output_idx, order)
                    &&& node_value(old(self).spec_nodes(), output_idx as int, v)
                    &&& seed_of(s, v)
                    &&& pass_fails(
                        old(self).spec_nodes(),
                        old(self).spec_gradients().update(output_idx as int, Some(s)),
                        order,
                    )
                },
    {
        let output = self.forward(output_idx)?;
        let seed = Tensor::ones_like(&output);
        let ghost seed_g = seed;
        let ghost out_g = output;
        proof {
            output.lemma_wf();
            seed.lemma_wf();
            assert(seed_g.spec_data() =~= Seq::new(seed_g.spec_data().len(), |i: int| T::spec_one()));
        }
        let ghost g0 = self.gradients@;
        self.gradients.set(output_idx, Some(seed));
        proof {
            assert forall|k: int|
                0 <= k < self.gradients@.len() && #[trigger] self.gradients@[k] is Some implies self.gradients@[k]->Some_0.wf() by {
                if k != output_idx {
                    assert(self.gradients@[k] == old(self).gradients@[k]);
                }
            }
        }
        proof {
            lemma_reaches_self(self.spec_nodes(), output_idx);
        }
        let ghost seeded = self.gradients@;
        let ghost nodes0 = self.nodes@;
        let order = match self.topological_sort(output_idx) {
            Ok(o) => o,
            Err(e) => {
                assert(false);
                return Err(e);
            },
        };
        proof {
            assert(seeded == old(self).spec_gradients().update(output_idx as int, Some(seed_g)));
            assert(seed_of(seed_g, out_g));
            assert(valid_order(nodes0, output_idx, order@));
        }
        let ghost mut ptr: Seq<Seq<Option<Tensor<T>>>> = seq![seeded];
        let mut pos: usize = order.len();
        while pos > 0
            invariant
                nodes0 == old(self).spec_nodes(),
                seeded == old(self).spec_gradients().update(output_idx as int, Some(seed_g)),
                seed_of(seed_g, out_g),
                valid_order(nodes0, output_idx, order@),
                pass_trace(nodes0, order@, ptr, order@.len() - pos),
                ptr[0] == seeded,
                ptr[order@.len() - pos] == self.spec_gradients(),
                self.wf(),
                forall|p: int| 0 <= p < order@.len() ==> reaches(self.spec_nodes(), output_idx, #[trigger] order@[p]),
                forall|k: usize|
                    k < old(self).spec_nodes().len() && !reaches(old(self).spec_nodes(), output_idx, k)
                        ==> #[trigger] self.spec_gradients()[k as int] == old(self).spec_gradients()[k as int],
                self.spec_nodes() == old(self).spec_nodes(),
                output_idx < self.spec_nodes().len(),
                self.spec_gradients()[output_idx as int] == Some(seed_g),
                seed_g.spec_data() == Seq::new(seed_g.spec_data().len(), |i: int| T::spec_one()),
                node_value(old(self).spec_nodes(), output_idx as int, out_g),
                seed_g.spec_shape() == out_g.spec_shape(),
                topo_ordered(self.spec_nodes(), order@),
                forall|p: int| 0 <= p < order@.len() ==> #[trigger] order@[p] <= output_idx,
                0 <= pos <= order@.len(),
                forall|k: int|
                    0 <= k < old(self).spec_nodes().len() && k != output_idx && !requires_grad(
                        #[trigger] old(self).spec_nodes()[k],
                    ) ==> self.spec_gradients()[k] == old(self).spec_gradients()[k],
            decreases pos,
        {
            pos -= 1;
            let node_idx = order[pos];
            let ghost t = order@.len() - 1 - pos;
            let ghost cur = self.spec_gradients();
            proof {
                assert(order@[order@.len() - 1 - t] == node_idx);
            }
            let has_grad = match &self.gradients[node_idx] {
                Some(_) => true,
                None => false,
            };
            assert(node_wf(self.nodes@[node_idx as int], node_idx as int));
            let is_op = match &self.nodes[node_idx] {
                Node::Operation(_, _) => true,
                _ => false,
            };
            if !has_grad || !is_op {
                proof {
                    assert(pass_step(nodes0, cur, node_idx, cur));
                    lemma_pass_extend(nodes0, order@, ptr, t, cur);
                    ptr = ptr.push(cur);
                }
                continue ;
            }
            let (op, ins) = match &self.nodes[node_idx] {
                Node::Operation(op, ins) => (*op, copy_vec(ins)),
                _ => {
                    assert(false);
                    continue ;
                },
            };
            let mut inputs: Vec<Tensor<T>> = Vec::new();
            let mut j: usize = 0;
            while j < ins.len()
                invariant
                    nodes0 == old(self).spec_nodes(),
                    seeded == old(self).spec_gradients().update(output_idx as int, Some(seed_g)),
                    seed_of(seed_g, out_g),
                    valid_order(nodes0, output_idx, order@),
                    pass_trace(nodes0, order@, ptr, t),
                    ptr[0] == seeded,
                    ptr[t] == cur,
                    0 <= t < order@.len(),
                    order@[order@.len() - 1 - t] == node_idx,
                    cur[node_idx as int] is Some,
                    self.wf(),
                    self.spec_nodes() == old(self).spec_nodes(),
                    output_idx < self.spec_nodes().len(),
                    self.spec_gradients()[output_idx as int] == Some(seed_g),
                    seed_g.spec_data() == Seq::new(seed_g.spec_data().len(), |i: int| T::spec_one()),
                    node_value(old(self).spec_nodes(), output_idx as int, out_g),
                    seed_g.spec_shape() == out_g.spec_shape(),
                    forall|k: int|
                        0 <= k < old(self).spec_nodes().len() && k != output_idx && !requires_grad(
                            #[trigger] old(self).spec_nodes()[k],
                        ) ==> self.spec_gradients()[k] == old(self).spec_gradients()[k],
                    forall|k: usize|
                        k < old(self).spec_nodes().len() && !reaches(old(self).spec_nodes(), output_idx, k)
                            ==> #[trigger] self.spec_gradients()[k as int] == old(self).spec_gradients()[k as int],
                    self.spec_gradients() == cur,
                    nodes0[node_idx as int] matches Node::Operation(k, nins) && k == op && nins@ == ins@,
                    forall|q: int| 0 <= q < ins@.len() ==> #[trigger] ins@[q] < node_idx,
                    node_idx < self.spec_nodes().len(),
                    0 <= j <= ins@.len(),
                    inputs@.len() == j,
                    all_wf(inputs@),
                    forall|q: int|
                        0 <= q < j ==> node_value(nodes0, ins@[q] as int, #[trigger] inputs@[q]),
                decreases ins@.len() - j,
            {
                let v = match self.forward(ins[j]) {
                    Ok(v) => v,
                    Err(e) => {
                        proof {
                            lemma_operand_fails(nodes0, node_idx as int, ins@, j as int, ins@.len() as int);
                            assert(step_fails(nodes0, cur, node_idx));
                            assert(pass_fails(nodes0, seeded, order@));
                        }
                        return Err(e);
                    },
                };
                inputs.push(v);
                j += 1;
            }
            proof {
                assert(operand_values(nodes0, node_idx as int, ins@, inputs@));
            }
            let bw = match &self.gradients[node_idx] {
                Some(g) => op.backward(inputs.as_slice(), g),
                None => {
                    assert(false);
                    continue ;
                },
            };
            let input_grads = match bw {
                Ok(gs) => gs,
                Err(e) => {
                    proof {
                        if ins@.len() == Op::<T>::arity(&op) {
                            assert(Op::<T>::backward_outcome(&op, inputs@, cur[node_idx as int]->Some_0, bw));
                        }
                        assert(step_fails(nodes0, cur, node_idx));
                        assert(pass_fails(nodes0, seeded, order@));
                    }
                    return Err(e);
                },
            };
            proof {
                if ins@.len() != Op::<T>::arity(&op) {
                    assert(false);
                }
                assert(Op::<T>::backward_outcome(&op, inputs@, cur[node_idx as int]->Some_0, Ok(input_grads)));
            }
            if input_grads.len() != ins.len() {
                assert(false);
                return Err(
                    ComputeError::InvalidOperation {
                        message: String::from_str("backward returned the wrong number of gradients"),
                    },
                );
            }
            let ghost mut str: Seq<Seq<Option<Tensor<T>>>> = seq![cur];
            let mut j: usize = 0;
            while j < ins.len()
                invariant
                    nodes0 == old(self).spec_nodes(),
                    seeded == old(self).spec_gradients().update(output_idx as int, Some(seed_g)),
                    seed_of(seed_g, out_g),
                    valid_order(nodes0, output_idx, order@),
                    pass_trace(nodes0, order@, ptr, t),
                    ptr[0] == seeded,
                    ptr[t] == cur,
                    0 <= t < order@.len(),
                    order@[order@.len() - 1 - t] == node_idx,
                    cur[node_idx as int] is Some,
                    self.wf(),
                    self.spec_nodes() == old(self).spec_nodes(),
                    output_idx < self.spec_nodes().len(),
                    self.spec_gradients()[output_idx as int] == Some(seed_g),
                    seed_g.spec_data() == Seq::new(seed_g.spec_data().len(), |i: int| T::spec_one()),
                    node_value(old(self).spec_nodes(), output_idx as int, out_g),
                    seed_g.spec_shape() == out_g.spec_shape(),
                    forall|k: int|
                        0 <= k < old(self).spec_nodes().len() && k != output_idx && !requires_grad(
                            #[trigger] old(self).spec_nodes()[k],
                        ) ==> self.spec_gradients()[k] == old(self).spec_gradients()[k],
                    forall|k: usize|
                        k < old(self).spec_nodes().len() && !reaches(old(self).spec_nodes(), output_idx, k)
                            ==> #[trigger] self.spec_gradients()[k as int] == old(self).spec_gradients()[k as int],
                    operand_values(nodes0, node_idx as int, ins@, inputs@),
                    ins@.len() == Op::<T>::arity(&op),
                    Op::<T>::backward_outcome(&op, inputs@, cur[node_idx as int]->Some_0, Ok(input_grads)),
                    cur[node_idx as int] is Some,
                    nodes0[node_idx as int] matches Node::Operation(k, nins) && k == op && nins@ == ins@,
                    share_trace(nodes0, ins@, input_grads@, str, j as int),
                    str[0] == cur,
                    str[j as int] == self.spec_gradients(),
                    forall|q: int| 0 <= q < ins@.len() ==> #[trigger] ins@[q] < node_idx,
                    node_idx < self.spec_nodes().len(),
                    input_grads@.len() == ins@.len(),
                    node_idx <= output_idx,
                    all_wf(input_grads@),
                    0 <= j <= ins@.len(),
                    reaches(self.spec_nodes(), output_idx, node_idx),
                decreases ins@.len() - j,
            {
                let input_idx = ins[j];
                let ghost before = self.spec_gradients();
                proof {
                    assert(node_inputs(self.spec_nodes()[node_idx as int])[j as int] == input_idx);
                    lemma_reaches_append(self.spec_nodes(), output_idx, node_idx, input_idx);
                }
                if self.node_requires_grad(input_idx) {
                    match self.accumulate(input_idx, &input_grads[j]) {
                        Ok(()) => {},
                        Err(e) => {
                            proof {
                                assert(share_fails(nodes0, str[j as int], ins@[j as int], input_grads@[j as int]));
                                assert(shares_fail(nodes0, cur, ins@, input_grads@));
                                assert(step_fails(nodes0, cur, node_idx));
                                assert(pass_fails(nodes0, seeded, order@));
                            }
                            return Err(e);
                        },
                    }
                }
                proof {
                    assert(share_step(nodes0, before, ins@[j as int], input_grads@[j as int], self.spec_gradients()));
                    lemma_share_extend(nodes0, ins@, input_grads@, str, j as int, self.spec_gradients());
                    str = str.push(self.spec_gradients());
                }
                j += 1;
            }
            proof {
                assert(shares_ok(nodes0, cur, ins@, input_grads@, self.spec_gradients()));
                assert(pass_step(nodes0, cur, node_idx, self.spec_gradients()));
                lemma_pass_extend(nodes0, order@, ptr, t, self.spec_gradients());
                ptr = ptr.push(self.spec_gradients());
            }
        }
        proof {
            assert(pass_ok(nodes0, seeded, order@, self.spec_gradients()));
        }
        Ok(())
    }

    /// Mutable access to the tensor of parameter node `node_idx`, for an optimizer to update
    /// in place; only a parameter that takes gradients may be changed.
    pub fn get_parameter_mut(&mut self, node_idx: usize) -> (r: Result<&mut Tensor<T>, ComputeError>)
        ensures
            (node_idx < old(self).spec_nodes().len() && old(self).spec_nodes()[node_idx as int] matches Node::Parameter(_, true))
                <==> r is Ok,
            r is Err ==> r matches Err(ComputeError::InvalidOperation { .. }),
            r is Err ==> *final(self) == *old(self),
            r matches Ok(t) ==> (old(self).spec_nodes()[node_idx as int] matches Node::Parameter(
                v,
                _,
            ) && *t == v),
            r matches Ok(t) ==> final(self).spec_nodes() == old(self).spec_nodes().update(
                node_idx as int,
                Node::Parameter(*final(t), true),
            ),
            r is Ok ==> final(self).spec_gradients() == old(self).spec_gradients(),
    {
        if node_idx >= self.nodes.len() {
            return Err(
                ComputeError::InvalidOperation { message: String::from_str("parameter expected") },
            );
        }
        match &self.nodes[node_idx] {
            Node::Parameter(_, true) => {},
            Node::Parameter(_, false) => {
                return Err(
                    ComputeError::InvalidOperation {
                        message: String::from_str("parameter does not require grad"),
                    },
                );
            },
            _ => {
                return Err(
                    ComputeError::InvalidOperation {
                        message: String::from_str("parameter expected"),
                    },
                );
            },
        }
        match &mut self.nodes[node_idx] {
            Node::Parameter(t, _) => Ok(t),
            _ => {
                assert(false);
                Err(
                    ComputeError::InvalidOperation {
                        message: String::from_str("parameter expected"),
                    },
                )
            },
        }
    }

    /// The value of node `node_idx`, as `forward` computes it.
    pub fn get_tensor(&self, node_idx: usize) -> (r: Result<Tensor<T>, ComputeError>)
        requires
            self.wf(),
        ensures
            node_idx >= self.spec_nodes().len() ==> r matches Err(ComputeError::IndexError { .. }),
            node_idx < self.spec_nodes().len() ==> match self.spec_nodes()[node_idx as int] {
                Node::Input(t) => r matches Ok(v) && same_tensor(v, t),
                Node::Parameter(t, _) => r matches Ok(v) && same_tensor(v, t),
                Node::Operation(op, ins) => ins@.len() != Op::<T>::arity(&op) ==> r is Err,
            },
            r matches Ok(v) ==> v.wf() && node_value(self.spec_nodes(), node_idx as int, v),
            r is Err ==> node_fails(self.spec_nodes(), node_idx as int),
    {
        self.forward(node_idx)
    }

    /// Whether gradients flow into node `node_idx`; false for an index out of range.
    pub fn node_requires_grad(&self, node_idx: usize) -> (r: bool)
        ensures
            r == (node_idx < self.spec_nodes().len() && requires_grad(
                self.spec_nodes()[node_idx as int],
            )),
    {
        if node_idx >= self.nodes.len() {
            return false;
        }
        match &self.nodes[node_idx] {
            Node::Parameter(_, flag) => *flag,
            Node::Operation(_, _) => true,
            Node::Input(_) => false,
        }
    }

    /// The gradient accumulated for node `node_idx`, if it received one.
    pub fn get_gradient(&self, node_idx: usize) -> (r: Option<&Tensor<T>>)
        ensures
            node_idx >= self.spec_gradients().len() ==> r is None,
            node_idx < self.spec_gradients().len() ==> match self.spec_gradients()[node_idx as int] {
                Some(g) => r matches Some(v) && *v == g,
                None => r is None,
            },
    {
        if node_idx >= self.gradients.len() {
            return None;
        }
        match &self.gradients[node_idx] {
            Some(g) => Some(g),
            None => None,
        }
    }

    /// Clears every gradient.
    pub fn zero_grad(&mut self)
        requires
            old(self).wf(),
        ensures
            final(self).wf(),
            final(self).spec_nodes() == old(self).spec_nodes(),
            final(self).spec_gradients().len() == old(self).spec_gradients().len(),
            forall|k: int| 0 <= k < final(self).spec_gradients().len() ==> #[trigger] final(self).spec_gradients()[k] is None,
    {
        let n = self.gradients.len();
        let mut fresh: Vec<Option<Tensor<T>>> = Vec::new();
        let mut k: usize = 0;
        while k < n
            invariant
                0 <= k <= n,
                fresh@.len() == k,
                forall|q: int| 0 <= q < k ==> #[trigger] fresh@[q] is None,
            decreases n - k,
        {
            fresh.push(None);
            k += 1;
        }
        self.gradients = fresh;
    }
}

impl<T: Scalar> Default for Graph<T> {
    fn default() -> (r: Self)
        ensures
            r.wf(),
            r.spec_nodes().len() == 0,
    {
        Self::new()
    }
}

} // verus!
