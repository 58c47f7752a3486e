use vstd::prelude::*;

use crate::error::ComputeError;
use crate::prng::{in_range, unit_of, xorshift_iter, XorShift32, DEFAULT_SEED};
use crate::tensor_index::{
    checked_strides, lemma_ravel_bound, lemma_unravel_ravel, ravel, ravel_index, shape_numel, shape_size, stride,
    strides_fit, unravel, unravel_index, valid_coord,
};

verus! {

/// The arithmetic a tensor element offers. The engine is generic over it; an implementation
/// for 32-bit floats gives the usual numeric behaviour. Each operation is a function of its
/// arguments, named by the matching `spec_` function, so that contracts can say what every
/// element of a result is.
pub trait Scalar: Copy + Sized {
    spec fn spec_zero() -> Self;

    spec fn spec_one() -> Self;

    spec fn spec_nan() -> Self;

    spec fn spec_from_count(n: usize) -> Self;

    spec fn spec_add(self, other: Self) -> Self;

    spec fn spec_sub(self, other: Self) -> Self;

    spec fn spec_mul(self, other: Self) -> Self;

    spec fn spec_div(self, other: Self) -> Self;

    spec fn spec_neg(self) -> Self;

    spec fn spec_ln(self) -> Self;

    spec fn spec_exp(self) -> Self;

    spec fn spec_sqrt(self) -> Self;

    spec fn spec_is_zero(self) -> bool;

    spec fn spec_is_positive(self) -> bool;

    spec fn spec_max(self, other: Self) -> Self;

    fn zero() -> (r: Self)
        ensures
            r == Self::spec_zero(),
    ;

    fn one() -> (r: Self)
        ensures
            r == Self::spec_one(),
    ;

    /// The not-a-number value that division by zero yields.
    fn nan() -> (r: Self)
        ensures
            r == Self::spec_nan(),
    ;

    /// The element closest to the integer `n`.
    fn from_count(n: usize) -> (r: Self)
        ensures
            r == Self::spec_from_count(n),
    ;

    fn add(self, other: Self) -> (r: Self)
        ensures
            r == self.spec_add(other),
    ;

    fn sub(self, other: Self) -> (r: Self)
        ensures
            r == self.spec_sub(other),
    ;

    fn mul(self, other: Self) -> (r: Self)
        ensures
            r == self.spec_mul(other),
    ;

    fn div(self, other: Self) -> (r: Self)
        ensures
            r == self.spec_div(other),
    ;

    fn neg(self) -> (r: Self)
        ensures
            r == self.spec_neg(),
    ;

    /// Natural logarithm.
    fn ln(self) -> (r: Self)
        ensures
            r == self.spec_ln(),
    ;

    /// Natural exponential.
    fn exp(self) -> (r: Self)
        ensures
            r == self.spec_exp(),
    ;

    /// Square root.
    fn sqrt(self) -> (r: Self)
        ensures
            r == self.spec_sqrt(),
    ;

    fn is_zero(self) -> (r: bool)
        ensures
            r == self.spec_is_zero(),
    ;

    /// Whether the element is strictly greater than zero.
    fn is_positive(self) -> (r: bool)
        ensures
            r == self.spec_is_positive(),
    ;

    /// The larger of two elements, ignoring a not-a-number operand.
    fn max(self, other: Self) -> (r: Self)
        ensures
            r == self.spec_max(other),
    ;
}

/// A dense row-major tensor: a flat buffer, a shape of rank at least one, and the shape's
/// strides.
#[derive(Clone, Debug, PartialEq)]
pub struct Tensor<T> {
    data: Vec<T>,
    shape: Vec<usize>,
    strides: Vec<usize>,
}

/// A shape that a tensor can have: rank at least one, with strides that fit in a `usize`.
pub open spec fn valid_shape(shape: Seq<usize>) -> bool {
    shape.len() >= 1 && strides_fit(shape)
}


/// The rank of the broadcast of two shapes: the larger of their ranks.
pub open spec fn max_rank(a: Seq<usize>, b: Seq<usize>) -> int {
    if a.len() >= b.len() {
        a.len() as int
    } else {
        b.len() as int
    }
}

/// Dimension `i` of `shape` right-aligned against rank `n`; 1 where the shape has no dimension.
pub open spec fn aligned_dim(shape: Seq<usize>, n: int, i: int) -> usize {
    if i >= n - shape.len() {
        shape[i - (n - shape.len())]
    } else {
        1
    }
}

/// Two dimension sizes broadcast when they are equal or one of them is 1.
pub open spec fn dims_agree(x: usize, y: usize) -> bool {
    x == y || x == 1 || y == 1
}

/// The size of a broadcast dimension: the size other than 1 where there is one.
pub open spec fn merged_dim(x: usize, y: usize) -> usize {
    if x == y {
        x
    } else if x == 1 {
        y
    } else {
        x
    }
}

/// Right-aligned (NumPy-style) broadcast compatibility.
pub open spec fn broadcast_compatible(a: Seq<usize>, b: Seq<usize>) -> bool {
    forall|i: int|
        0 <= i < max_rank(a, b) ==> #[trigger] dims_agree(
            aligned_dim(a, max_rank(a, b), i),
            aligned_dim(b, max_rank(a, b), i),
        )
}

/// `dim` is the first output dimension at which the two shapes do not broadcast.
pub open spec fn broadcast_conflict(a: Seq<usize>, b: Seq<usize>, dim: int) -> bool {
    let n = max_rank(a, b);
    &&& 0 <= dim < n
    &&& !dims_agree(aligned_dim(a, n, dim), aligned_dim(b, n, dim))
    &&& forall|j: int| 0 <= j < dim ==> #[trigger] dims_agree(aligned_dim(a, n, j), aligned_dim(b, n, j))
}

/// The broadcast of two compatible shapes.
pub open spec fn broadcast_shape(a: Seq<usize>, b: Seq<usize>) -> Seq<usize> {
    Seq::new(
        max_rank(a, b) as nat,
        |i: int| merged_dim(aligned_dim(a, max_rank(a, b), i), aligned_dim(b, max_rank(a, b), i)),
    )
}

/// An operand of shape `t` broadcasts to shape `out`: it has no higher rank, and each of its
/// dimensions is 1 or the size of the output dimension it is aligned with.
pub open spec fn broadcasts_to(t: Seq<usize>, out: Seq<usize>) -> bool {
    &&& t.len() <= out.len()
    &&& forall|j: int|
        0 <= j < t.len() ==> #[trigger] t[j] == 1 || t[j] == out[j + (out.len() - t.len())]
}

/// The coordinate that an operand of shape `t` supplies for output coordinate `c`: aligned on
/// the right, with index 0 along each dimension of size 1.
pub open spec fn operand_coord(c: Seq<usize>, t: Seq<usize>) -> Seq<usize> {
    Seq::new(
        t.len(),
        |j: int|
            if t[j] == 1 {
                0
            } else {
                c[j + (c.len() - t.len())]
            },
    )
}

/// The flat offset that an operand of shape `t` supplies for flat output offset `i` of a
/// tensor of shape `out`.
pub open spec fn source_offset(t: Seq<usize>, out: Seq<usize>, i: nat) -> nat {
    ravel(operand_coord(unravel(i, out), t), t)
}

/// What a broadcasting elementwise operation on shapes `a` and `b` returns, apart from the
/// elements: a broadcast error at the first conflicting dimension, a dimension error when the
/// result would not fit in memory, or a well-formed tensor of the broadcast shape.
pub open spec fn broadcast_outcome<T: Copy>(
    a: Seq<usize>,
    b: Seq<usize>,
    r: Result<Tensor<T>, ComputeError>,
) -> bool {
    &&& (!broadcast_compatible(a, b) ==> (r matches Err(
        ComputeError::BroadcastError { dim, shape1, shape2 },
    ) && broadcast_conflict(a, b, dim as int) && shape1 == aligned_dim(a, max_rank(a, b), dim as int)
        && shape2 == aligned_dim(b, max_rank(a, b), dim as int)))
    &&& (broadcast_compatible(a, b) && !strides_fit(broadcast_shape(a, b)) ==> r matches Err(
        ComputeError::DimensionError { .. },
    ))
    &&& (broadcast_compatible(a, b) && strides_fit(broadcast_shape(a, b)) ==> (r matches Ok(t)
        && t.wf() && t.spec_shape() == broadcast_shape(a, b)))
}

/// Each operand broadcasts to the broadcast shape of two compatible shapes.
pub proof fn lemma_broadcasts_to(a: Seq<usize>, b: Seq<usize>)
    requires
        broadcast_compatible(a, b),
    ensures
        broadcasts_to(a, broadcast_shape(a, b)),
        broadcasts_to(b, broadcast_shape(a, b)),
{
    let n = max_rank(a, b);
    let out = broadcast_shape(a, b);
    assert forall|j: int| 0 <= j < a.len() implies #[trigger] a[j] == 1 || a[j] == out[j + (
    out.len() - a.len())] by {
        let i = j + (n - a.len());
        assert(dims_agree(aligned_dim(a, n, i), aligned_dim(b, n, i)));
    }
    assert forall|j: int| 0 <= j < b.len() implies #[trigger] b[j] == 1 || b[j] == out[j + (
    out.len() - b.len())] by {
        let i = j + (n - b.len());
        assert(dims_agree(aligned_dim(a, n, i), aligned_dim(b, n, i)));
    }
}

/// The operand coordinate of a valid output coordinate is valid for the operand.
pub proof fn lemma_operand_coord_valid(c: Seq<usize>, t: Seq<usize>, out: Seq<usize>)
    requires
        broadcasts_to(t, out),
        valid_coord(c, out),
    ensures
        valid_coord(operand_coord(c, t), t),
{
    let oc = operand_coord(c, t);
    assert forall|j: int| 0 <= j < t.len() implies #[trigger] oc[j] < t[j] by {
        if t[j] != 1 {
            assert(c[j + (out.len() - t.len())] < out[j + (out.len() - t.len())]);
        }
    }
}

/// Broadcasting a rank-one tensor of `n` elements against a single-element tensor: the result
/// has shape `[n]`, element `i` of the first operand and the single element of the second
/// combine into element `i` of the result.
pub proof fn broadcast_against_single(n: usize, i: nat)
    requires
        i < n,
    ensures
        broadcast_compatible(seq![n], seq![1usize]),
        broadcast_shape(seq![n], seq![1usize]) == seq![n],
        source_offset(seq![n], seq![n], i) == i,
        source_offset(seq![1usize], seq![n], i) == 0,
{
    let a = seq![n];
    let b = seq![1usize];
    assert(dims_agree(aligned_dim(a, 1, 0), aligned_dim(b, 1, 0)));
    assert(broadcast_shape(a, b) =~= seq![n]);
    assert(seq![n].drop_last() =~= Seq::<usize>::empty());
    assert(shape_size(Seq::<usize>::empty()) == 1);
    assert(shape_size(seq![n]) == 1 * (n as nat));
    lemma_unravel_ravel(i, seq![n]);
    let c = unravel(i, seq![n]);
    assert(c.len() == 1);
    assert(c.drop_last() =~= Seq::<usize>::empty());
    assert(ravel(Seq::<usize>::empty(), Seq::<usize>::empty()) == 0);
    assert(ravel(c, seq![n]) == ravel(Seq::<usize>::empty(), Seq::<usize>::empty()) * (n as nat) + c[0]);
    assert(c[0] == i);
    if n == 1 {
        assert(operand_coord(c, a) =~= seq![0usize]);
    } else {
        assert(operand_coord(c, a) =~= c);
    }
    assert(operand_coord(c, b) =~= seq![0usize]);
    assert(seq![0usize].drop_last() =~= Seq::<usize>::empty());
    assert(seq![1usize].drop_last() =~= Seq::<usize>::empty());
    assert(ravel(Seq::<usize>::empty(), Seq::<usize>::empty()) == 0);
    assert(ravel(seq![0usize], seq![1usize]) == 0);
}

/// The broadcast of two shapes, or a broadcast error naming the first output dimension at
/// which they conflict and both sizes there.
pub fn broadcast_shapes(a: &[usize], b: &[usize]) -> (r: Result<Vec<usize>, ComputeError>)
    ensures
        broadcast_compatible(a@, b@) ==> (r matches Ok(v) && v@ == broadcast_shape(a@, b@)),
        !broadcast_compatible(a@, b@) ==> (r matches Err(
            ComputeError::BroadcastError { dim, shape1, shape2 },
        ) && broadcast_conflict(a@, b@, dim as int) && shape1 == aligned_dim(
            a@,
            max_rank(a@, b@),
            dim as int,
        ) && shape2 == aligned_dim(b@, max_rank(a@, b@), dim as int)),
{
    let n = if a.len() >= b.len() {
        a.len()
    } else {
        b.len()
    };
    let mut out: Vec<usize> = Vec::new();
    let mut i: usize = 0;
    while i < n
        invariant
            n == max_rank(a@, b@),
            n >= a@.len(),
            n >= b@.len(),
            0 <= i <= n,
            out@.len() == i,
            forall|j: int| 0 <= j < i ==> #[trigger] dims_agree(aligned_dim(a@, max_rank(a@, b@), j), aligned_dim(b@, max_rank(a@, b@), j)),
            forall|j: int| 0 <= j < i ==> #[trigger] out@[j] == broadcast_shape(a@, b@)[j],
        decreases n - i,
    {
        let a_i = if i >= n - a.len() {
            a[i - (n - a.len())]
        } else {
            1
        };
        let b_i = if i >= n - b.len() {
            b[i - (n - b.len())]
        } else {
            1
        };
        let d = if a_i == b_i {
            a_i
        } else if a_i == 1 {
            b_i
        } else if b_i == 1 {
            a_i
        } else {
            assert(a_i == aligned_dim(a@, max_rank(a@, b@), i as int));
            assert(b_i == aligned_dim(b@, max_rank(a@, b@), i as int));
            assert(!dims_agree(
                aligned_dim(a@, max_rank(a@, b@), i as int),
                aligned_dim(b@, max_rank(a@, b@), i as int),
            ));
            return Err(ComputeError::BroadcastError { dim: i, shape1: a_i, shape2: b_i });
        };
        out.push(d);
        i += 1;
    }
    assert(out@ =~= broadcast_shape(a@, b@));
    Ok(out)
}

/// Size and stride bounds of a rank-two shape.
pub proof fn lemma_shape2(a: usize, b: usize)
    ensures
        shape_size(seq![a, b]) == a * b,
        a * b <= usize::MAX ==> valid_shape(seq![a, b]),
{
    let s = seq![a, b];
    assert(s.drop_last() =~= seq![a]);
    assert(seq![a].drop_last() =~= Seq::<usize>::empty());
    assert(shape_size(Seq::<usize>::empty()) == 1);
    assert(shape_size(seq![a]) == 1 * (a as nat));
    assert(shape_size(s) == (a as nat) * (b as nat));
    if a * b <= usize::MAX {
        assert forall|i: int| 0 <= i <= s.len() implies #[trigger] shape_size(
            s.subrange(i, s.len() as int),
        ) <= usize::MAX by {
            if i == 0 {
                assert(s.subrange(0, 2) =~= s);
            } else if i == 1 {
                assert(s.subrange(1, 2) =~= seq![b]);
                assert(seq![b].drop_last() =~= Seq::<usize>::empty());
                assert(shape_size(seq![b]) == 1 * (b as nat));
            } else {
                assert(s.subrange(2, 2) =~= Seq::<usize>::empty());
            }
        }
    }
}

/// The one-element shape `[1]` is valid and has size 1.
pub proof fn lemma_shape1()
    ensures
        shape_size(seq![1usize]) == 1,
        valid_shape(seq![1usize]),
{
    let s = seq![1usize];
    assert(s.drop_last() =~= Seq::<usize>::empty());
    assert(shape_size(Seq::<usize>::empty()) == 1);
    assert(shape_size(s) == 1);
    assert forall|i: int| 0 <= i <= s.len() implies #[trigger] shape_size(
        s.subrange(i, s.len() as int),
    ) <= usize::MAX by {
        if i == 0 {
            assert(s.subrange(0, 1) =~= s);
        } else {
            assert(s.subrange(1, 1) =~= Seq::<usize>::empty());
        }
    }
}

/// Row-major offsets of a rank-two coordinate stay inside the matrix.
pub proof fn lemma_offset2(i: int, j: int, rows: int, cols: int)
    requires
        0 <= i < rows,
        0 <= j < cols,
    ensures
        0 <= i * cols + j < rows * cols,
{
    assert(0 <= i * cols + j < rows * cols) by (nonlinear_arith)
        requires
            0 <= i < rows,
            0 <= j < cols,
    ;
}

/// `r` is what a broadcasting elementwise operation with element function `f` gives on `a`
/// and `b`: the outcome that `broadcast_outcome` states, with every element as `zipped` says.
pub open spec fn zip_result<T: Copy>(
    a: Tensor<T>,
    b: Tensor<T>,
    r: Result<Tensor<T>, ComputeError>,
    f: spec_fn(T, T) -> T,
) -> bool {
    &&& broadcast_outcome(a.spec_shape(), b.spec_shape(), r)
    &&& (r matches Ok(t) ==> zipped(a, b, t, f))
}

/// `t` is the transpose of the rank-two tensor `x`.
pub open spec fn transpose_of<T: Copy>(x: Tensor<T>, t: Tensor<T>) -> bool {
    &&& x.spec_shape().len() == 2
    &&& t.wf()
    &&& t.spec_shape() == seq![x.spec_shape()[1], x.spec_shape()[0]]
    &&& forall|i: int, j: int|
        0 <= i < x.spec_shape()[0] && 0 <= j < x.spec_shape()[1] ==> t.spec_data()[j
            * x.spec_shape()[0] + i] == #[trigger] x.spec_data()[i * x.spec_shape()[1] + j]
}

/// What the matrix product of `a` and `b` gives: a dimension error unless both have rank
/// two, an invalid-operation error when the inner dimensions differ, a dimension error when
/// the result would not fit, and otherwise the `m × n` product, each entry accumulated left to
/// right from zero.
pub open spec fn matmul_outcome<T: Scalar>(a: Tensor<T>, b: Tensor<T>, r: Result<Tensor<T>, ComputeError>) -> bool {
    let sa = a.spec_shape();
    let sb = b.spec_shape();
    &&& (sa.len() != 2 || sb.len() != 2 ==> r matches Err(ComputeError::DimensionError { .. }))
    &&& (sa.len() == 2 && sb.len() == 2 && sa[1] != sb[0] ==> r matches Err(
        ComputeError::InvalidOperation { .. },
    ))
    &&& (sa.len() == 2 && sb.len() == 2 && sa[1] == sb[0] && sa[0] * sb[1] > usize::MAX ==> r matches Err(
        ComputeError::DimensionError { .. },
    ))
    &&& (sa.len() == 2 && sb.len() == 2 && sa[1] == sb[0] && sa[0] * sb[1] <= usize::MAX ==> (r matches Ok(t)
        && t.wf() && t.spec_shape() == seq![sa[0], sb[1]] && forall|i: int, j: int|
        0 <= i < sa[0] && 0 <= j < sb[1] ==> t.spec_data()[i * sb[1] + j] == #[trigger] matmul_entry(
            a.spec_data(),
            b.spec_data(),
            i,
            j,
            sa[1] as int,
            sb[1] as int,
            sa[1] as int,
        )))
}

/// What summing `x` gives: for `None`, the left-to-right total in a tensor of shape `[1]`; for
/// an axis out of range, a dimension error; otherwise a dimension error if the reduced shape
/// would not fit, else the reduced tensor, each cell the left-to-right sum along the axis.
pub open spec fn sum_outcome<T: Scalar>(x: Tensor<T>, dim: Option<usize>, r: Result<Tensor<T>, ComputeError>) -> bool {
    &&& (dim is None ==> (r matches Ok(t) && t.wf() && t.spec_shape() == seq![1usize]
        && t.spec_data() == seq![sum_prefix(x.spec_data(), x.spec_data().len() as int)]))
    &&& (dim is Some && dim->Some_0 >= x.spec_shape().len() ==> r matches Err(
        ComputeError::DimensionError { .. },
    ))
    &&& (dim is Some && dim->Some_0 < x.spec_shape().len() ==> ({
        let axis = dim->Some_0 as int;
        let out = x.spec_shape().update(axis, 1);
        &&& (!valid_shape(out) ==> r matches Err(ComputeError::DimensionError { .. }))
        &&& (valid_shape(out) ==> (r matches Ok(t) && t.wf() && t.spec_shape() == out && forall|o: int|
            0 <= o < t.spec_data().len() ==> #[trigger] t.spec_data()[o] == axis_sum(
                x.spec_data(),
                x.spec_shape(),
                unravel(o as nat, out),
                axis,
                x.spec_shape()[axis] as int,
            )))
    }))
}

/// A valid shape broadcasts with itself to itself.
pub proof fn lemma_broadcast_self(s: Seq<usize>)
    requires
        valid_shape(s),
    ensures
        broadcast_compatible(s, s),
        broadcast_shape(s, s) == s,
        strides_fit(broadcast_shape(s, s)),
{
    assert forall|i: int| 0 <= i < max_rank(s, s) implies #[trigger] dims_agree(
        aligned_dim(s, max_rank(s, s), i),
        aligned_dim(s, max_rank(s, s), i),
    ) by {}
    assert(broadcast_shape(s, s) =~= s);
}

/// Adding a single-element tensor to a rank-one tensor of `n` elements: element `i` of the sum
/// is element `i` of the first operand plus the single element of the second.
pub proof fn add_against_single<T: Scalar>(a: Tensor<T>, b: Tensor<T>, t: Tensor<T>)
    requires
        a.wf(),
        b.wf(),
        a.spec_shape().len() == 1,
        b.spec_shape() == seq![1usize],
        zip_result(a, b, Ok(t), |x: T, y: T| x.spec_add(y)),
    ensures
        t.spec_shape() == a.spec_shape(),
        t.spec_data().len() == a.spec_data().len(),
        forall|i: int|
            0 <= i < t.spec_data().len() ==> #[trigger] t.spec_data()[i] == a.spec_data()[i].spec_add(
                b.spec_data()[0],
            ),
{
    let n = a.spec_shape()[0];
    assert(a.spec_shape() =~= seq![n]);
    a.lemma_wf();
    t.lemma_wf();
    assert(seq![n].drop_last() =~= Seq::<usize>::empty());
    assert(shape_size(Seq::<usize>::empty()) == 1);
    assert(shape_size(seq![n]) == 1 * (n as nat));
    assert(dims_agree(aligned_dim(seq![n], 1, 0), aligned_dim(seq![1usize], 1, 0)));
    assert(broadcast_compatible(seq![n], seq![1usize]));
    assert(broadcast_shape(seq![n], seq![1usize]) =~= seq![n]);
    assert forall|i: int| 0 <= i < t.spec_data().len() implies #[trigger] t.spec_data()[i]
        == a.spec_data()[i].spec_add(b.spec_data()[0]) by {
        broadcast_against_single(n, i as nat);
    }
}

/// Element `i` of `t` is `f` applied to the elements that `a` and `b` supply for offset `i`
/// of `t`'s shape.
pub open spec fn zipped<T: Copy>(a: Tensor<T>, b: Tensor<T>, t: Tensor<T>, f: spec_fn(T, T) -> T) -> bool {
    forall|i: int|
        0 <= i < t.spec_data().len() ==> #[trigger] t.spec_data()[i] == f(
            a.spec_data()[source_offset(a.spec_shape(), t.spec_shape(), i as nat) as int],
            b.spec_data()[source_offset(b.spec_shape(), t.spec_shape(), i as nat) as int],
        )
}

/// `t` has `a`'s shape, and each of its elements is `f` of the element of `a` at the same
/// offset.
pub open spec fn mapped<T: Copy>(a: Tensor<T>, t: Tensor<T>, f: spec_fn(T) -> T) -> bool {
    &&& t.spec_shape() == a.spec_shape()
    &&& t.spec_data().len() == a.spec_data().len()
    &&& forall|i: int| 0 <= i < t.spec_data().len() ==> #[trigger] t.spec_data()[i] == f(a.spec_data()[i])
}

/// `x / y`, not-a-number where `y` is zero.
pub open spec fn quotient<T: Scalar>(x: T, y: T) -> T {
    if y.spec_is_zero() {
        T::spec_nan()
    } else {
        x.spec_div(y)
    }
}

/// `x / y`, not-a-number where `y` is zero.
pub fn divide_elem<T: Scalar>(x: T, y: T) -> (z: T)
    ensures
        z == quotient(x, y),
{
    if y.is_zero() {
        T::nan()
    } else {
        x.div(y)
    }
}

/// `max(x, 0)`.
pub fn relu_elem<T: Scalar>(x: T) -> (z: T)
    ensures
        z == relu_of(x),
{
    if x.is_positive() {
        x
    } else {
        T::zero()
    }
}

/// `max(x, 0)`.
pub open spec fn relu_of<T: Scalar>(x: T) -> T {
    if x.spec_is_positive() {
        x
    } else {
        T::spec_zero()
    }
}

/// Left-to-right sum of the first `n` elements of `s`, from zero.
pub open spec fn sum_prefix<T: Scalar>(s: Seq<T>, n: int) -> T
    decreases n,
{
    if n <= 0 {
        T::spec_zero()
    } else {
        sum_prefix(s, n - 1).spec_add(s[n - 1])
    }
}

/// Left-to-right sum, from zero, of the elements of `x` (of shape `shape`) at coordinate `c`
/// with index `0 .. n` along `axis`.
pub open spec fn axis_sum<T: Scalar>(x: Seq<T>, shape: Seq<usize>, c: Seq<usize>, axis: int, n: int) -> T
    decreases n,
{
    if n <= 0 {
        T::spec_zero()
    } else {
        axis_sum(x, shape, c, axis, n - 1).spec_add(
            x[ravel(c.update(axis, (n - 1) as usize), shape) as int],
        )
    }
}

/// Entry `(i, j)` of the product of a row-major `? × k` matrix `a` and `k × n` matrix `b`,
/// accumulated left to right from zero over the first `p` terms.
pub open spec fn matmul_entry<T: Scalar>(a: Seq<T>, b: Seq<T>, i: int, j: int, k: int, n: int, p: int) -> T
    decreases p,
{
    if p <= 0 {
        T::spec_zero()
    } else {
        matmul_entry(a, b, i, j, k, n, p - 1).spec_add(
            a[i * k + p - 1].spec_mul(b[(p - 1) * n + j]),
        )
    }
}

impl<T: Copy> Tensor<T> {
    /// The elements, in row-major order.
    pub closed spec fn spec_data(&self) -> Seq<T> {
        self.data@
    }

    /// The shape.
    pub closed spec fn spec_shape(&self) -> Seq<usize> {
        self.shape@
    }

    /// The buffer holds one element per coordinate of a valid shape, and the strides are the
    /// shape's row-major strides.
    pub closed spec fn wf(&self) -> bool {
        &&& valid_shape(self.shape@)
        &&& self.data@.len() == shape_size(self.shape@)
        &&& self.strides@.len() == self.shape@.len()
        &&& forall|i: int|
            0 <= i < self.shape@.len() ==> #[trigger] self.strides@[i] == stride(self.shape@, i)
    }

    pub proof fn lemma_wf(&self)
        requires
            self.wf(),
        ensures
            valid_shape(self.spec_shape()),
            self.spec_data().len() == shape_size(self.spec_shape()),
            self.spec_data().len() <= usize::MAX,
    {
        assert(self.shape@.subrange(0, self.shape@.len() as int) =~= self.shape@);
    }

    /// A tensor of the given shape over `data`, which lists its elements in row-major order.
    pub fn new(data: Vec<T>, shape: Vec<usize>) -> (r: Result<Self, ComputeError>)
        ensures
            shape@.len() == 0 ==> r matches Err(ComputeError::DimensionError { .. }),
            shape@.len() >= 1 && !strides_fit(shape@) ==> r matches Err(
                ComputeError::DimensionError { .. },
            ),
            valid_shape(shape@) && data@.len() != shape_size(shape@) ==> (r matches Err(
                ComputeError::ShapeMismatch { expected, got },
            ) && expected == shape_size(shape@) && got == data@.len()),
            valid_shape(shape@) && data@.len() == shape_size(shape@) ==> (r matches Ok(t) && t.wf()
                && t.spec_shape() == shape@ && t.spec_data() == data@),
    {
        if shape.len() == 0 {
            return Err(
                ComputeError::DimensionError {
                    message: String::from_str("shape must have at least one dimension"),
                },
            );
        }
        let strides = match checked_strides(shape.as_slice()) {
            Some(s) => s,
            None => {
                return Err(
                    ComputeError::DimensionError {
                        message: String::from_str("shape is too large"),
                    },
                );
            },
        };
        proof {
            assert(shape@.subrange(0, shape@.len() as int) =~= shape@);
        }
        let expected = shape_numel(shape.as_slice());
        if data.len() != expected {
            return Err(ComputeError::ShapeMismatch { expected, got: data.len() });
        }
        Ok(Tensor { data, shape, strides })
    }

    /// A tensor of the given shape with every element equal to `value`.
    pub fn full(shape: Vec<usize>, value: T) -> (r: Result<Self, ComputeError>)
        ensures
            !valid_shape(shape@) ==> r matches Err(ComputeError::DimensionError { .. }),
            valid_shape(shape@) ==> (r matches Ok(t) && t.wf() && t.spec_shape() == shape@
                && t.spec_data() == Seq::new(shape_size(shape@), |i: int| value)),
    {
        if shape.len() == 0 {
            return Err(
                ComputeError::DimensionError {
                    message: String::from_str("shape must have at least one dimension"),
                },
            );
        }
        let strides = match checked_strides(shape.as_slice()) {
            Some(s) => s,
            None => {
                return Err(
                    ComputeError::DimensionError {
                        message: String::from_str("shape is too large"),
                    },
                );
            },
        };
        proof {
            assert(shape@.subrange(0, shape@.len() as int) =~= shape@);
        }
        let n = shape_numel(shape.as_slice());
        let mut data: Vec<T> = Vec::new();
        let mut i: usize = 0;
        while i < n
            invariant
                0 <= i <= n,
                data@ == Seq::new(i as nat, |k: int| value),
            decreases n - i,
        {
            data.push(value);
            i += 1;
            assert(data@ =~= Seq::new(i as nat, |k: int| value));
        }
        Ok(Tensor { data, shape, strides })
    }

    /// The shape.
    pub fn shape(&self) -> (r: &[usize])
        ensures
            r@ == self.spec_shape(),
    {
        self.shape.as_slice()
    }

    /// A copy of the shape.
    pub fn shape_vec(&self) -> (r: Vec<usize>)
        ensures
            r@ == self.spec_shape(),
    {
        copy_vec(&self.shape)
    }

    /// The elements, in row-major order.
    pub fn data(&self) -> (r: &[T])
        ensures
            r@ == self.spec_data(),
    {
        self.data.as_slice()
    }

    /// The elements, in row-major order, for changing in place.
    pub fn data_mut(&mut self) -> (r: &mut [T])
        ensures
            r@ == old(self).spec_data(),
            final(self).spec_data() == final(r)@,
            final(self).spec_shape() == old(self).spec_shape(),
    {
        self.data.as_mut_slice()
    }

    /// The element at flat offset `i`.
    pub fn get(&self, i: usize) -> (r: T)
        requires
            i < self.spec_data().len(),
        ensures
            r == self.spec_data()[i as int],
    {
        self.data[i]
    }

    /// Replaces the element at flat offset `i`.
    pub fn set(&mut self, i: usize, value: T)
        requires
            i < old(self).spec_data().len(),
        ensures
            final(self).spec_data() == old(self).spec_data().update(i as int, value),
            final(self).spec_shape() == old(self).spec_shape(),
            old(self).wf() ==> final(self).wf(),
    {
        self.data.set(i, value);
    }

    /// The flat offset that this tensor supplies for output coordinate `out_indices` of a
    /// broadcast result of shape `out_shape`.
    fn broadcasted_flat_index(&self, out_indices: &[usize], out_shape: &[usize]) -> (r: usize)
        requires
            self.wf(),
            broadcasts_to(self.spec_shape(), out_shape@),
            valid_coord(out_indices@, out_shape@),
        ensures
            r == ravel(operand_coord(out_indices@, self.spec_shape()), self.spec_shape()),
            r < self.spec_data().len(),
    {
        proof {
            self.lemma_wf();
            lemma_operand_coord_valid(out_indices@, self.shape@, out_shape@);
            lemma_ravel_bound(operand_coord(out_indices@, self.shape@), self.shape@);
        }
        let m = out_shape.len();
        let offset = m - self.shape.len();
        let mut coord: Vec<usize> = Vec::new();
        let mut j: usize = 0;
        while j < self.shape.len()
            invariant
                self.wf(),
                m == out_shape@.len(),
                offset == out_shape@.len() - self.shape@.len(),
                broadcasts_to(self.shape@, out_shape@),
                valid_coord(out_indices@, out_shape@),
                0 <= j <= self.shape@.len(),
                coord@ == operand_coord(out_indices@, self.shape@).subrange(0, j as int),
            decreases self.shape@.len() - j,
        {
            let c = if self.shape[j] == 1 {
                0
            } else {
                assert(j < self.shape@.len());
                assert(offset + j < m);
                let p: usize = offset + j;
                out_indices[p]
            };
            coord.push(c);
            j += 1;
            assert(coord@ =~= operand_coord(out_indices@, self.shape@).subrange(0, j as int));
        }
        assert(coord@ =~= operand_coord(out_indices@, self.shape@));
        match ravel_index(coord.as_slice(), self.shape.as_slice()) {
            Ok(flat) => flat,
            Err(_) => {
                assert(false);
                0
            },
        }
    }

    /// Broadcasting elementwise combination: element `i` of the result is `f` applied to the
    /// elements that the two operands supply for output offset `i`.
    #[verifier::rlimit(60)]
    pub fn zip_with<F: Fn(T, T) -> T>(&self, other: &Tensor<T>, f: F) -> (r: Result<
        Tensor<T>,
        ComputeError,
    >)
        requires
            self.wf(),
            other.wf(),
            forall|x: T, y: T| #[trigger] f.requires((x, y)),
        ensures
            broadcast_outcome(self.spec_shape(), other.spec_shape(), r),
            r matches Ok(t) ==> forall|i: int|
                0 <= i < t.spec_data().len() ==> f.ensures(
                    (
                        self.spec_data()[source_offset(
                            self.spec_shape(),
                            t.spec_shape(),
                            i as nat,
                        ) as int],
                        other.spec_data()[source_offset(
                            other.spec_shape(),
                            t.spec_shape(),
                            i as nat,
                        ) as int],
                    ),
                    #[trigger] t.spec_data()[i],
                ),
    {
        let out_shape = match broadcast_shapes(self.shape.as_slice(), other.shape.as_slice()) {
            Ok(v) => v,
            Err(e) => {
                return Err(e);
            },
        };
        let ghost a = self.shape@;
        let ghost b = other.shape@;
        proof {
            lemma_broadcasts_to(a, b);
        }
        let strides = match checked_strides(out_shape.as_slice()) {
            Some(s) => s,
            None => {
                return Err(
                    ComputeError::DimensionError {
                        message: String::from_str("broadcast result is too large"),
                    },
                );
            },
        };
        proof {
            assert(out_shape@.subrange(0, out_shape@.len() as int) =~= out_shape@);
        }
        let n = shape_numel(out_shape.as_slice());
        let mut data: Vec<T> = Vec::new();
        let mut i: usize = 0;
        while i < n
            invariant
                self.wf(),
                other.wf(),
                forall|x: T, y: T| #[trigger] f.requires((x, y)),
                out_shape@ == broadcast_shape(a, b),
                a == self.shape@,
                b == other.shape@,
                broadcasts_to(a, out_shape@),
                broadcasts_to(b, out_shape@),
                n == shape_size(out_shape@),
                0 <= i <= n,
                data@.len() == i,
                forall|k: int|
                    0 <= k < i ==> f.ensures(
                        (
                            self.data@[source_offset(a, out_shape@, k as nat) as int],
                            other.data@[source_offset(b, out_shape@, k as nat) as int],
                        ),
                        #[trigger] data@[k],
                    ),
            decreases n - i,
        {
            proof {
                lemma_unravel_ravel(i as nat, out_shape@);
            }
            let coord = match unravel_index(i, out_shape.as_slice()) {
                Ok(c) => c,
                Err(_) => {
                    assert(false);
                    return Err(
                        ComputeError::IndexError { message: String::from_str("unreachable") },
                    );
                },
            };
            let a_flat = self.broadcasted_flat_index(coord.as_slice(), out_shape.as_slice());
            let b_flat = other.broadcasted_flat_index(coord.as_slice(), out_shape.as_slice());
            let v = f(self.data[a_flat], other.data[b_flat]);
            data.push(v);
            i += 1;
        }
        Ok(Tensor { data, shape: out_shape, strides })
    }

    /// Elementwise image under `f`, in the same shape.
    pub fn map<F: Fn(T) -> T>(&self, f: F) -> (r: Tensor<T>)
        requires
            self.wf(),
            forall|x: T| #[trigger] f.requires((x,)),
        ensures
            r.wf(),
            r.spec_shape() == self.spec_shape(),
            r.spec_data().len() == self.spec_data().len(),
            forall|i: int|
                0 <= i < r.spec_data().len() ==> f.ensures(
                    (self.spec_data()[i],),
                    #[trigger] r.spec_data()[i],
                ),
    {
        let mut data: Vec<T> = Vec::new();
        let mut i: usize = 0;
        while i < self.data.len()
            invariant
                forall|x: T| #[trigger] f.requires((x,)),
                0 <= i <= self.data@.len(),
                data@.len() == i,
                forall|k: int| 0 <= k < i ==> f.ensures((self.data@[k],), #[trigger] data@[k]),
            decreases self.data@.len() - i,
        {
            data.push(f(self.data[i]));
            i += 1;
        }
        Tensor { data, shape: copy_vec(&self.shape), strides: copy_vec(&self.strides) }
    }

    /// Swaps the two axes of a rank-two tensor, rearranging the data.
    pub fn transpose_2d(&self) -> (r: Result<Tensor<T>, ComputeError>)
        requires
            self.wf(),
        ensures
            self.spec_shape().len() != 2 ==> r matches Err(ComputeError::DimensionError { .. }),
            self.spec_shape().len() == 2 ==> (r matches Ok(t) && transpose_of(*self, t)),
    {
        if self.shape.len() != 2 {
            return Err(
                ComputeError::DimensionError {
                    message: String::from_str("transpose_2d requires a rank-two tensor"),
                },
            );
        }
        let rows = self.shape[0];
        let cols = self.shape[1];
        proof {
            lemma_shape2(rows, cols);
            lemma_shape2(cols, rows);
            assert(self.shape@ =~= seq![rows, cols]);
            assert(rows * cols == cols * rows) by (nonlinear_arith);
        }
        let n = self.data.len();
        let mut out: Vec<T> = Vec::new();
        let mut k: usize = 0;
        while k < n
            invariant
                self.wf(),
                self.shape@ == seq![rows, cols],
                n == rows * cols,
                n == self.data@.len(),
                0 <= k <= n,
                out@.len() == k,
                rows > 0 ==> forall|q: int|
                    0 <= q < k ==> #[trigger] out@[q] == self.data@[(q % rows as int) * cols + q
                        / rows as int],
            decreases n - k,
        {
            assert(rows > 0) by {
                if rows == 0 {
                    assert(rows * cols == 0);
                }
            }
            let c = k / rows;
            let r = k % rows;
            proof {
                assert(c < cols) by {
                    if c >= cols {
                        assert(k as int >= rows * cols) by (nonlinear_arith)
                            requires
                                c >= cols,
                                c == k / rows,
                                rows > 0,
                        ;
                    }
                }
                lemma_offset2(r as int, c as int, rows as int, cols as int);
            }
            out.push(self.data[r * cols + c]);
            k += 1;
        }
        let t = Tensor { data: out, shape: vec![cols, rows], strides: vec![rows, 1] };
        proof {
            assert(t.shape@ =~= seq![cols, rows]);
            assert(t.shape@.subrange(1, 2) =~= seq![rows]);
            assert(seq![rows].drop_last() =~= Seq::<usize>::empty());
            assert(shape_size(Seq::<usize>::empty()) == 1);
            assert(shape_size(seq![rows]) == 1 * (rows as nat));
            assert(t.shape@.subrange(2, 2) =~= Seq::<usize>::empty());
            assert forall|i: int, j: int|
                0 <= i < rows && 0 <= j < cols implies t.data@[j * rows + i]
                == #[trigger] self.data@[i * cols + j] by {
                lemma_offset2(j, i, cols as int, rows as int);
                vstd::arithmetic::div_mod::lemma_fundamental_div_mod_converse(
                    j * rows + i,
                    rows as int,
                    j,
                    i,
                );
            }
        }
        Ok(t)
    }

    /// A copy of the tensor, element for element.
    pub fn duplicate(&self) -> (r: Self)
        ensures
            r.spec_data() == self.spec_data(),
            r.spec_shape() == self.spec_shape(),
            self.wf() ==> r.wf(),
    {
        Tensor { data: copy_vec(&self.data), shape: copy_vec(&self.shape), strides: copy_vec(&self.strides) }
    }
}

/// An element-for-element copy of a vector.
pub fn copy_vec<T: Copy>(v: &Vec<T>) -> (r: Vec<T>)
    ensures
        r@ == v@,
{
    let mut r: Vec<T> = Vec::new();
    let mut i: usize = 0;
    while i < v.len()
        invariant
            0 <= i <= v@.len(),
            r@ == v@.subrange(0, i as int),
        decreases v@.len() - i,
    {
        r.push(v[i]);
        i += 1;
        assert(r@ =~= v@.subrange(0, i as int));
    }
    assert(v@.subrange(0, v@.len() as int) =~= v@);
    r
}

impl<T: Scalar> Tensor<T> {
    /// A tensor of the given shape filled with zeros.
    pub fn zeros(shape: Vec<usize>) -> (r: Result<Self, ComputeError>)
        ensures
            !valid_shape(shape@) ==> r matches Err(ComputeError::DimensionError { .. }),
            valid_shape(shape@) ==> (r matches Ok(t) && t.wf() && t.spec_shape() == shape@
                && t.spec_data() == Seq::new(shape_size(shape@), |i: int| T::spec_zero())),
    {
        Self::full(shape, T::zero())
    }

    /// A tensor of the given shape filled with ones.
    pub fn ones(shape: Vec<usize>) -> (r: Result<Self, ComputeError>)
        ensures
            !valid_shape(shape@) ==> r matches Err(ComputeError::DimensionError { .. }),
            valid_shape(shape@) ==> (r matches Ok(t) && t.wf() && t.spec_shape() == shape@
                && t.spec_data() == Seq::new(shape_size(shape@), |i: int| T::spec_one())),
    {
        Self::full(shape, T::one())
    }

    /// Zeros in the shape of `other`.
    pub fn zeros_like(other: &Tensor<T>) -> (r: Self)
        requires
            other.wf(),
        ensures
            r.wf(),
            r.spec_shape() == other.spec_shape(),
            r.spec_data() == Seq::new(other.spec_data().len(), |i: int| T::spec_zero()),
    {
        proof {
            other.lemma_wf();
        }
        let shape = copy_vec(&other.shape);
        match Self::full(shape, T::zero()) {
            Ok(t) => t,
            Err(_) => {
                assert(false);
                other.duplicate()
            },
        }
    }

    /// Broadcasting elementwise sum.
    pub fn add(&self, other: &Tensor<T>) -> (r: Result<Tensor<T>, ComputeError>)
        requires
            self.wf(),
            other.wf(),
        ensures
            broadcast_outcome(self.spec_shape(), other.spec_shape(), r),
            r matches Ok(t) ==> zipped(*self, *other, t, |x: T, y: T| x.spec_add(y)),
    {
        self.zip_with(other, |x: T, y: T| -> (z: T) ensures z == x.spec_add(y) { x.add(y) })
    }

    /// Broadcasting elementwise difference.
    pub fn subtract(&self, other: &Tensor<T>) -> (r: Result<Tensor<T>, ComputeError>)
        requires
            self.wf(),
            other.wf(),
        ensures
            broadcast_outcome(self.spec_shape(), other.spec_shape(), r),
            r matches Ok(t) ==> zipped(*self, *other, t, |x: T, y: T| x.spec_sub(y)),
    {
        self.zip_with(other, |x: T, y: T| -> (z: T) ensures z == x.spec_sub(y) { x.sub(y) })
    }

    /// Broadcasting elementwise product.
    pub fn multiply(&self, other: &Tensor<T>) -> (r: Result<Tensor<T>, ComputeError>)
        requires
            self.wf(),
            other.wf(),
        ensures
            broadcast_outcome(self.spec_shape(), other.spec_shape(), r),
            r matches Ok(t) ==> zipped(*self, *other, t, |x: T, y: T| x.spec_mul(y)),
    {
        self.zip_with(other, |x: T, y: T| -> (z: T) ensures z == x.spec_mul(y) { x.mul(y) })
    }

    /// Broadcasting elementwise quotient; a zero divisor gives not-a-number.
    pub fn divide(&self, other: &Tensor<T>) -> (r: Result<Tensor<T>, ComputeError>)
        requires
            self.wf(),
            other.wf(),
        ensures
            broadcast_outcome(self.spec_shape(), other.spec_shape(), r),
            r matches Ok(t) ==> zipped(*self, *other, t, |x: T, y: T| quotient(x, y)),
    {
        self.zip_with(other, |x: T, y: T| -> (z: T) ensures z == quotient(x, y) { divide_elem(x, y) })
    }

    /// Elementwise negation.
    pub fn negate(&self) -> (r: Tensor<T>)
        requires
            self.wf(),
        ensures
            r.wf(),
            mapped(*self, r, |x: T| x.spec_neg()),
    {
        self.map(|x: T| -> (z: T) ensures z == x.spec_neg() { x.neg() })
    }

    /// Elementwise `max(x, 0)`.
    pub fn relu(&self) -> (r: Result<Tensor<T>, ComputeError>)
        requires
            self.wf(),
        ensures
            r matches Ok(t) && t.wf() && mapped(*self, t, |x: T| relu_of(x)),
    {
        Ok(self.map(|x: T| -> (z: T) ensures z == relu_of(x) { relu_elem(x) }))
    }

    /// Matrix product of two rank-two tensors.
    pub fn matmul(&self, other: &Tensor<T>) -> (r: Result<Tensor<T>, ComputeError>)
        requires
            self.wf(),
            other.wf(),
        ensures
            matmul_outcome(*self, *other, r),
    {
        if self.shape.len() != 2 || other.shape.len() != 2 {
            return Err(
                ComputeError::DimensionError {
                    message: String::from_str("matmul requires rank-two tensors"),
                },
            );
        }
        let m = self.shape[0];
        let k = self.shape[1];
        let k_other = other.shape[0];
        let n = other.shape[1];
        if k != k_other {
            return Err(
                ComputeError::InvalidOperation {
                    message: String::from_str("matmul inner dimensions differ"),
                },
            );
        }
        let size = match m.checked_mul(n) {
            Some(v) => v,
            None => {
                return Err(
                    ComputeError::DimensionError {
                        message: String::from_str("matmul result is too large"),
                    },
                );
            },
        };
        proof {
            lemma_shape2(m, k);
            lemma_shape2(k, n);
            lemma_shape2(m, n);
            assert(self.shape@ =~= seq![m, k]);
            assert(other.shape@ =~= seq![k, n]);
        }
        let alen = self.data.len();
        let blen = other.data.len();
        let mut out: Vec<T> = Vec::new();
        let mut i: usize = 0;
        while i < m
            invariant
                alen == m * k,
                blen == k * n,
                self.wf(),
                other.wf(),
                self.data@.len() == m * k,
                other.data@.len() == k * n,
                m * n <= usize::MAX,
                0 <= i <= m,
                out@.len() == i * n,
                forall|ii: int, jj: int|
                    0 <= ii < i && 0 <= jj < n ==> out@[ii * n + jj] == #[trigger] matmul_entry(self.data@, other.data@, ii, jj, k as int, n as int, k as int),
            decreases m - i,
        {
            let mut j: usize = 0;
            while j < n
                invariant
                    alen == m * k,
                    blen == k * n,
                    self.data@.len() == m * k,
                    other.data@.len() == k * n,
                    m * n <= usize::MAX,
                    0 <= i < m,
                    0 <= j <= n,
                    out@.len() == i * n + j,
                    forall|ii: int, jj: int|
                        (0 <= ii < i && 0 <= jj < n) || (ii == i && 0 <= jj < j) ==> out@[ii * n + jj]
                            == #[trigger] matmul_entry(self.data@, other.data@, ii, jj, k as int, n as int, k as int),
                decreases n - j,
            {
                let mut acc = T::zero();
                let mut p: usize = 0;
                while p < k
                    invariant
                        alen == m * k,
                        blen == k * n,
                        self.data@.len() == m * k,
                        other.data@.len() == k * n,
                        0 <= i < m,
                        0 <= j < n,
                        0 <= p <= k,
                        acc == matmul_entry(self.data@, other.data@, i as int, j as int, k as int, n as int, p as int),
                    decreases k - p,
                {
                    proof {
                        lemma_offset2(i as int, p as int, m as int, k as int);
                        lemma_offset2(p as int, j as int, k as int, n as int);
                    }
                    acc = acc.add(self.data[i * k + p].mul(other.data[p * n + j]));
                    p += 1;
                }
                let ghost before = out@;
                out.push(acc);
                proof {
                    assert forall|ii: int, jj: int|
                        (0 <= ii < i && 0 <= jj < n) || (ii == i && 0 <= jj < j + 1) implies out@[ii * n
                        + jj] == #[trigger] matmul_entry(self.data@, other.data@, ii, jj, k as int, n as int, k as int) by {
                        if ii < i {
                            assert(ii * n + jj < i * n) by (nonlinear_arith)
                                requires
                                    0 <= ii < i,
                                    0 <= jj < n,
                            ;
                            assert(out@[ii * n + jj] == before[ii * n + jj]);
                        } else if jj < j {
                            assert(out@[ii * n + jj] == before[ii * n + jj]);
                        }
                    }
                }
                j += 1;
            }
            assert((i + 1) * n == i * n + n) by (nonlinear_arith);
            i += 1;
        }
        let t = Tensor { data: out, shape: vec![m, n], strides: vec![n, 1] };
        proof {
            assert(t.shape@ =~= seq![m, n]);
            assert(t.shape@.subrange(1, 2) =~= seq![n]);
            assert(seq![n].drop_last() =~= Seq::<usize>::empty());
            assert(shape_size(Seq::<usize>::empty()) == 1);
            assert(shape_size(seq![n]) == 1 * (n as nat));
            assert(t.shape@.subrange(2, 2) =~= Seq::<usize>::empty());
        }
        Ok(t)
    }

    /// Sum of all elements (`dim` is `None`: a one-element tensor of shape `[1]` holding the
    /// left-to-right total), or along one axis, which the result keeps with size 1: each cell
    /// adds up, in order, the elements along that axis at its coordinate.
    pub fn sum(&self, dim: Option<usize>) -> (r: Result<Tensor<T>, ComputeError>)
        requires
            self.wf(),
        ensures
            sum_outcome(*self, dim, r),
    {
        proof {
            self.lemma_wf();
        }
        match dim {
            None => {
                let mut total = T::zero();
                let mut i: usize = 0;
                while i < self.data.len()
                    invariant
                        0 <= i <= self.data@.len(),
                        total == sum_prefix(self.data@, i as int),
                    decreases self.data@.len() - i,
                {
                    total = total.add(self.data[i]);
                    i += 1;
                }
                let t = Tensor { data: vec![total], shape: vec![1], strides: vec![1] };
                proof {
                    lemma_shape1();
                    assert(t.shape@ =~= seq![1usize]);
                    assert(t.data@ =~= seq![total]);
                }
                Ok(t)
            },
            Some(axis) => {
                if axis >= self.shape.len() {
                    return Err(
                        ComputeError::DimensionError {
                            message: String::from_str("sum axis out of range"),
                        },
                    );
                }
                let mut out_shape = copy_vec(&self.shape);
                out_shape.set(axis, 1);
                let strides = match checked_strides(out_shape.as_slice()) {
                    Some(s) => s,
                    None => {
                        return Err(
                            ComputeError::DimensionError {
                                message: String::from_str("sum result is too large"),
                            },
                        );
                    },
                };
                proof {
                    assert(out_shape@.subrange(0, out_shape@.len() as int) =~= out_shape@);
                }
                let n_out = shape_numel(out_shape.as_slice());
                let len_axis = self.shape[axis];
                let mut data: Vec<T> = Vec::new();
                let mut o: usize = 0;
                while o < n_out
                    invariant
                        self.wf(),
                        shape_size(self.shape@) <= usize::MAX,
                        shape_size(out_shape@) <= usize::MAX,
                        axis < self.shape@.len(),
                        out_shape@ == self.shape@.update(axis as int, 1),
                        n_out == shape_size(out_shape@),
                        len_axis == self.shape@[axis as int],
                        0 <= o <= n_out,
                        data@.len() == o,
                        forall|q: int|
                            0 <= q < o ==> #[trigger] data@[q] == axis_sum(
                                self.data@,
                                self.shape@,
                                unravel(q as nat, out_shape@),
                                axis as int,
                                len_axis as int,
                            ),
                    decreases n_out - o,
                {
                    proof {
                        lemma_unravel_ravel(o as nat, out_shape@);
                    }
                    let c = match unravel_index(o, out_shape.as_slice()) {
                        Ok(c) => c,
                        Err(_) => {
                            assert(false);
                            return Err(
                                ComputeError::IndexError { message: String::from_str("unreachable") },
                            );
                        },
                    };
                    let mut acc = T::zero();
                    let mut kk: usize = 0;
                    while kk < len_axis
                        invariant
                            self.wf(),
                            shape_size(self.shape@) <= usize::MAX,
                            axis < self.shape@.len(),
                            out_shape@ == self.shape@.update(axis as int, 1),
                            len_axis == self.shape@[axis as int],
                            valid_coord(c@, out_shape@),
                            0 <= kk <= len_axis,
                            acc == axis_sum(self.data@, self.shape@, c@, axis as int, kk as int),
                        decreases len_axis - kk,
                    {
                        let mut c2 = copy_vec(&c);
                        c2.set(axis, kk);
                        assert(valid_coord(c2@, self.shape@)) by {
                            assert forall|j: int| 0 <= j < self.shape@.len() implies #[trigger] c2@[j]
                                < self.shape@[j] by {
                                if j != axis {
                                    assert(c2@[j] == c@[j]);
                                    assert(out_shape@[j] == self.shape@[j]);
                                }
                            }
                        }
                        assert(c2@ == c@.update(axis as int, kk));
                        let f = match ravel_index(c2.as_slice(), self.shape.as_slice()) {
                            Ok(v) => v,
                            Err(_) => {
                                assert(false);
                                0
                            },
                        };
                        proof {
                            lemma_ravel_bound(c2@, self.shape@);
                            self.lemma_wf();
                        }
                        acc = acc.add(self.data[f]);
                        kk += 1;
                    }
                    data.push(acc);
                    o += 1;
                }
                let t = Tensor { data, shape: out_shape, strides };
                Ok(t)
            },
        }
    }

    /// A tensor of the given shape with elements drawn uniformly from `[-1, 1)` by an
    /// `XorShift32` generator seeded with `seed`.
    pub fn random(shape: Vec<usize>, seed: u32) -> (r: Result<Self, ComputeError>)
        ensures
            !valid_shape(shape@) ==> r matches Err(ComputeError::DimensionError { .. }),
            valid_shape(shape@) ==> (r matches Ok(t) && t.wf() && t.spec_shape() == shape@
                && forall|i: int|
                0 <= i < t.spec_data().len() ==> #[trigger] t.spec_data()[i] == in_range(
                    T::spec_one().spec_neg(),
                    T::spec_one(),
                    unit_of::<T>(
                        xorshift_iter(
                            if seed == 0 {
                                DEFAULT_SEED
                            } else {
                                seed
                            },
                            (i + 1) as nat,
                        ),
                    ),
                )),
    {
        if shape.len() == 0 {
            return Err(
                ComputeError::DimensionError {
                    message: String::from_str("shape must have at least one dimension"),
                },
            );
        }
        let strides = match checked_strides(shape.as_slice()) {
            Some(s) => s,
            None => {
                return Err(
                    ComputeError::DimensionError {
                        message: String::from_str("shape is too large"),
                    },
                );
            },
        };
        proof {
            assert(shape@.subrange(0, shape@.len() as int) =~= shape@);
        }
        let n = shape_numel(shape.as_slice());
        let mut rng = XorShift32::new(seed);
        let ghost s0 = rng.spec_state();
        let low = T::one().neg();
        let high = T::one();
        let mut data: Vec<T> = Vec::new();
        let mut i: usize = 0;
        while i < n
            invariant
                0 <= i <= n,
                data@.len() == i,
                low == T::spec_one().spec_neg(),
                high == T::spec_one(),
                rng.spec_state() == xorshift_iter(s0, i as nat),
                forall|q: int|
                    0 <= q < i ==> #[trigger] data@[q] == in_range(
                        low,
                        high,
                        unit_of::<T>(xorshift_iter(s0, (q + 1) as nat)),
                    ),
            decreases n - i,
        {
            data.push(rng.gen_range_f32(low, high));
            i += 1;
        }
        Ok(Tensor { data, shape, strides })
    }

    /// Ones in the shape of `other`.
    pub fn ones_like(other: &Tensor<T>) -> (r: Self)
        requires
            other.wf(),
        ensures
            r.wf(),
            r.spec_shape() == other.spec_shape(),
            r.spec_data() == Seq::new(other.spec_data().len(), |i: int| T::spec_one()),
    {
        proof {
            other.lemma_wf();
        }
        let shape = copy_vec(&other.shape);
        match Self::full(shape, T::one()) {
            Ok(t) => t,
            Err(_) => {
                assert(false);
                other.duplicate()
            },
        }
    }
}

} // verus!
