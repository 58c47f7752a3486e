use vstd::arithmetic::div_mod::*;
use vstd::arithmetic::mul::*;
use vstd::prelude::*;

use crate::error::ComputeError;

verus! {

/// Number of elements of a tensor of the given shape: the product of its dimensions.
pub open spec fn shape_size(shape: Seq<usize>) -> nat
    decreases shape.len(),
{
    if shape.len() == 0 {
        1
    } else {
        shape_size(shape.drop_last()) * (shape.last() as nat)
    }
}

/// Row-major stride of dimension `i`: the number of elements spanned by one step along it.
pub open spec fn stride(shape: Seq<usize>, i: int) -> nat {
    shape_size(shape.subrange(i + 1, shape.len() as int))
}

/// Every trailing product of the shape fits in a `usize`, so that its strides can be computed.
pub open spec fn strides_fit(shape: Seq<usize>) -> bool {
    forall|i: int|
        0 <= i <= shape.len() ==> #[trigger] shape_size(shape.subrange(i, shape.len() as int))
            <= usize::MAX
}

/// A coordinate has one entry per dimension, each below that dimension's size.
pub open spec fn valid_coord(idx: Seq<usize>, shape: Seq<usize>) -> bool {
    &&& idx.len() == shape.len()
    &&& forall|i: int| 0 <= i < shape.len() ==> #[trigger] idx[i] < shape[i]
}

/// Row-major flat offset of a coordinate: the last dimension varies fastest.
pub open spec fn ravel(idx: Seq<usize>, shape: Seq<usize>) -> nat
    decreases shape.len(),
{
    if shape.len() == 0 || idx.len() == 0 {
        0
    } else {
        ravel(idx.drop_last(), shape.drop_last()) * (shape.last() as nat) + (idx.last() as nat)
    }
}

/// Coordinate of a row-major flat offset.
pub open spec fn unravel(flat: nat, shape: Seq<usize>) -> Seq<usize>
    decreases shape.len(),
{
    if shape.len() == 0 {
        Seq::empty()
    } else {
        let d = shape.last() as nat;
        unravel(flat / d, shape.drop_last()).push((flat % d) as usize)
    }
}

pub proof fn lemma_size_concat(a: Seq<usize>, b: Seq<usize>)
    ensures
        shape_size(a + b) == shape_size(a) * shape_size(b),
    decreases b.len(),
{
    if b.len() == 0 {
        assert(a + b =~= a);
        assert(b =~= Seq::<usize>::empty());
        assert(shape_size(b) == 1);
        assert(shape_size(a) * 1 == shape_size(a));
    } else {
        lemma_size_concat(a, b.drop_last());
        assert((a + b).drop_last() =~= a + b.drop_last());
        assert((a + b).last() == b.last());
        let x = shape_size(a);
        let y = shape_size(b.drop_last());
        let z = b.last() as nat;
        assert(shape_size(a + b) == shape_size(a + b.drop_last()) * z);
        assert(shape_size(b) == y * z);
        assert(x * y * z == x * (y * z)) by (nonlinear_arith);
    }
}

pub proof fn lemma_size_zero(shape: Seq<usize>, i: int)
    requires
        0 <= i < shape.len(),
        shape[i] == 0,
    ensures
        shape_size(shape) == 0,
    decreases shape.len(),
{
    let x = shape_size(shape.drop_last());
    let y = shape.last() as nat;
    if i < shape.len() - 1 {
        lemma_size_zero(shape.drop_last(), i);
        assert(x == 0 ==> x * y == 0) by (nonlinear_arith);
    } else {
        assert(y == 0 ==> x * y == 0) by (nonlinear_arith);
    }
}

pub proof fn lemma_size_positive(shape: Seq<usize>)
    requires
        forall|i: int| 0 <= i < shape.len() ==> #[trigger] shape[i] >= 1,
    ensures
        shape_size(shape) >= 1,
    decreases shape.len(),
{
    if shape.len() > 0 {
        lemma_size_positive(shape.drop_last());
        let x = shape_size(shape.drop_last());
        let y = shape.last() as nat;
        assert(x >= 1 && y >= 1 ==> x * y >= 1) by (nonlinear_arith);
    }
}

/// With no empty dimension, the size of a leading part of a shape is at most the whole size.
pub proof fn lemma_prefix_size_le(shape: Seq<usize>, k: int)
    requires
        0 <= k <= shape.len(),
        forall|i: int| 0 <= i < shape.len() ==> #[trigger] shape[i] >= 1,
    ensures
        shape_size(shape.subrange(0, k)) <= shape_size(shape),
{
    let pre = shape.subrange(0, k);
    let suf = shape.subrange(k, shape.len() as int);
    assert(pre + suf =~= shape);
    lemma_size_concat(pre, suf);
    assert forall|i: int| 0 <= i < suf.len() implies #[trigger] suf[i] >= 1 by {
        assert(suf[i] == shape[k + i]);
    }
    lemma_size_positive(suf);
    let x = shape_size(pre);
    let y = shape_size(suf);
    assert(y >= 1 ==> x <= x * y) by (nonlinear_arith);
}

/// The offset of a valid coordinate lies below the shape's size.
pub proof fn lemma_ravel_bound(idx: Seq<usize>, shape: Seq<usize>)
    requires
        valid_coord(idx, shape),
    ensures
        ravel(idx, shape) < shape_size(shape),
    decreases shape.len(),
{
    if shape.len() > 0 {
        let ii = idx.drop_last();
        let ss = shape.drop_last();
        assert forall|i: int| 0 <= i < ss.len() implies #[trigger] ii[i] < ss[i] by {
            assert(ii[i] == idx[i] && ss[i] == shape[i]);
        }
        lemma_ravel_bound(ii, ss);
        let r = ravel(ii, ss);
        let n = shape_size(ss);
        let d = shape.last() as nat;
        let l = idx.last() as nat;
        assert(r < n && l < d ==> r * d + l < n * d) by (nonlinear_arith);
    }
}

/// Unravelling an in-range offset gives a valid coordinate that ravels back to it.
pub proof fn lemma_unravel_ravel(flat: nat, shape: Seq<usize>)
    requires
        flat < shape_size(shape),
    ensures
        valid_coord(unravel(flat, shape), shape),
        ravel(unravel(flat, shape), shape) == flat,
    decreases shape.len(),
{
    if shape.len() > 0 {
        let ss = shape.drop_last();
        let d = shape.last() as nat;
        let n = shape_size(ss);
        assert(d > 0) by {
            assert(n * d > 0);
            if d == 0 {
                assert(n * d == 0) by (nonlinear_arith)
                    requires d == 0;
            }
        }
        lemma_fundamental_div_mod(flat as int, d as int);
        let q = flat / d;
        assert(q < n) by {
            if q >= n {
                assert(q * d >= n * d) by (nonlinear_arith)
                    requires q >= n;
            }
        }
        lemma_unravel_ravel(q, ss);
        let u = unravel(flat, shape);
        assert(u.drop_last() =~= unravel(q, ss));
        assert(u.last() == (flat % d) as usize);
        assert(ravel(u, shape) == ravel(unravel(q, ss), ss) * d + (flat % d));
        assert(q * d + flat % d == flat);
        assert forall|i: int| 0 <= i < shape.len() implies #[trigger] u[i] < shape[i] by {
            if i < shape.len() - 1 {
                assert(u[i] == unravel(q, ss)[i]);
            }
        }
    }
}

/// Ravelling a valid coordinate and unravelling the offset gives the coordinate back.
pub proof fn lemma_ravel_unravel(idx: Seq<usize>, shape: Seq<usize>)
    requires
        valid_coord(idx, shape),
    ensures
        unravel(ravel(idx, shape), shape) == idx,
    decreases shape.len(),
{
    if shape.len() == 0 {
        assert(idx =~= Seq::<usize>::empty());
    } else {
        let ii = idx.drop_last();
        let ss = shape.drop_last();
        assert forall|i: int| 0 <= i < ss.len() implies #[trigger] ii[i] < ss[i] by {
            assert(ii[i] == idx[i] && ss[i] == shape[i]);
        }
        lemma_ravel_unravel(ii, ss);
        let r = ravel(ii, ss);
        let d = shape.last() as nat;
        let l = idx.last() as nat;
        lemma_fundamental_div_mod_converse(
            (r * d + l) as int,
            d as int,
            r as int,
            l as int,
        );
        assert(unravel(ravel(idx, shape), shape) =~= idx);
    }
}

/// Index round trip: for every offset below a shape's size, ravelling its coordinate gives the
/// offset back, and for every valid coordinate, unravelling its offset gives the coordinate back.
pub proof fn index_round_trip(flat: nat, idx: Seq<usize>, shape: Seq<usize>)
    ensures
        flat < shape_size(shape) ==> valid_coord(unravel(flat, shape), shape) && ravel(
            unravel(flat, shape),
            shape,
        ) == flat,
        valid_coord(idx, shape) ==> ravel(idx, shape) < shape_size(shape) && unravel(
            ravel(idx, shape),
            shape,
        ) == idx,
{
    if flat < shape_size(shape) {
        lemma_unravel_ravel(flat, shape);
    }
    if valid_coord(idx, shape) {
        lemma_ravel_bound(idx, shape);
        lemma_ravel_unravel(idx, shape);
    }
}

/// Number of elements of a shape, computed without overflow where the size fits.
pub fn shape_numel(shape: &[usize]) -> (n: usize)
    requires
        shape_size(shape@) <= usize::MAX,
    ensures
        n == shape_size(shape@),
{
    let len = shape.len();
    let mut k: usize = 0;
    while k < len
        invariant
            0 <= k <= len == shape@.len(),
            forall|i: int| 0 <= i < k ==> #[trigger] shape@[i] >= 1,
        decreases len - k,
    {
        if shape[k] == 0 {
            proof {
                lemma_size_zero(shape@, k as int);
            }
            return 0;
        }
        k += 1;
    }
    let mut n: usize = 1;
    let mut i: usize = 0;
    while i < len
        invariant
            0 <= i <= len == shape@.len(),
            forall|j: int| 0 <= j < len ==> #[trigger] shape@[j] >= 1,
            shape_size(shape@) <= usize::MAX,
            n == shape_size(shape@.subrange(0, i as int)),
        decreases len - i,
    {
        proof {
            assert(shape@.subrange(0, i + 1).drop_last() =~= shape@.subrange(0, i as int));
            lemma_prefix_size_le(shape@, i + 1);
        }
        n = n * shape[i];
        i += 1;
    }
    proof {
        assert(shape@.subrange(0, len as int) =~= shape@);
    }
    n
}

/// Row-major strides of a shape: each is the product of the dimensions after it, the last is 1.
pub fn compute_strides(shape: &[usize]) -> (strides: Vec<usize>)
    requires
        strides_fit(shape@),
    ensures
        strides@.len() == shape@.len(),
        forall|i: int| 0 <= i < shape@.len() ==> #[trigger] strides@[i] == stride(shape@, i),
{
    let len = shape.len();
    let mut rev: Vec<usize> = Vec::new();
    let mut s: usize = 1;
    let mut k: usize = len;
    proof {
        assert(shape@.subrange(len as int, len as int) =~= Seq::<usize>::empty());
    }
    // `rev` holds the strides of the dimensions k.. in reverse order.
    while k > 0
        invariant
            0 <= k <= len == shape@.len(),
            strides_fit(shape@),
            rev@.len() == len - k,
            s == shape_size(shape@.subrange(k as int, len as int)),
            forall|j: int| 0 <= j < rev@.len() ==> #[trigger] rev@[j] == stride(shape@, len - 1 - j),
        decreases k,
    {
        rev.push(s);
        proof {
            let tail = shape@.subrange(k as int, len as int);
            let t2 = shape@.subrange(k - 1, len as int);
            assert(t2 =~= seq![shape@[k - 1]] + tail);
            let x = shape@[k - 1];
            lemma_size_concat(seq![x], tail);
            assert(seq![x].drop_last() =~= Seq::<usize>::empty());
            assert(shape_size(Seq::<usize>::empty()) == 1);
            assert(shape_size(seq![x]) == 1 * (x as nat));
            assert(shape_size(t2) <= usize::MAX);
            assert(shape_size(t2) == (x as nat) * shape_size(tail));
        }
        s = shape[k - 1] * s;
        k -= 1;
    }
    let mut strides: Vec<usize> = Vec::new();
    let mut i: usize = 0;
    while i < len
        invariant
            0 <= i <= len == shape@.len(),
            rev@.len() == len,
            strides@.len() == i,
            forall|j: int| 0 <= j < rev@.len() ==> #[trigger] rev@[j] == stride(shape@, len - 1 - j),
            forall|j: int| 0 <= j < i ==> #[trigger] strides@[j] == stride(shape@, j),
        decreases len - i,
    {
        strides.push(rev[len - 1 - i]);
        i += 1;
    }
    strides
}

/// Flat row-major offset of coordinate `idx` in `shape`.
pub fn ravel_index(idx: &[usize], shape: &[usize]) -> (r: Result<usize, ComputeError>)
    requires
        shape_size(shape@) <= usize::MAX,
    ensures
        idx@.len() != shape@.len() ==> r matches Err(ComputeError::DimensionError { .. }),
        idx@.len() == shape@.len() && !valid_coord(idx@, shape@) ==> r matches Err(
            ComputeError::IndexError { .. },
        ),
        valid_coord(idx@, shape@) ==> r == Ok::<usize, ComputeError>(
            ravel(idx@, shape@) as usize,
        ),
{
    if idx.len() != shape.len() {
        return Err(
            ComputeError::DimensionError {
                message: String::from_str("coordinate rank differs from shape rank"),
            },
        );
    }
    let len = shape.len();
    let mut i: usize = 0;
    while i < len
        invariant
            0 <= i <= len == shape@.len() == idx@.len(),
            forall|j: int| 0 <= j < i ==> #[trigger] idx@[j] < shape@[j],
        decreases len - i,
    {
        if idx[i] >= shape[i] {
            return Err(
                ComputeError::IndexError {
                    message: String::from_str("coordinate out of bounds for its dimension"),
                },
            );
        }
        i += 1;
    }
    let mut flat: usize = 0;
    let mut i: usize = 0;
    while i < len
        invariant
            0 <= i <= len == shape@.len() == idx@.len(),
            valid_coord(idx@, shape@),
            shape_size(shape@) <= usize::MAX,
            flat == ravel(idx@.subrange(0, i as int), shape@.subrange(0, i as int)),
        decreases len - i,
    {
        proof {
            let ip = idx@.subrange(0, i + 1);
            let sp = shape@.subrange(0, i + 1);
            assert(ip.drop_last() =~= idx@.subrange(0, i as int));
            assert(sp.drop_last() =~= shape@.subrange(0, i as int));
            assert forall|j: int| 0 <= j < sp.len() implies #[trigger] ip[j] < sp[j] by {
                assert(ip[j] == idx@[j] && sp[j] == shape@[j]);
            }
            lemma_ravel_bound(ip, sp);
            assert forall|j: int| 0 <= j < len implies #[trigger] shape@[j] >= 1 by {
                assert(idx@[j] < shape@[j]);
            }
            lemma_prefix_size_le(shape@, i + 1);
        }
        flat = flat * shape[i] + idx[i];
        i += 1;
    }
    proof {
        assert(idx@.subrange(0, len as int) =~= idx@);
        assert(shape@.subrange(0, len as int) =~= shape@);
    }
    Ok(flat)
}

/// Coordinate in `shape` of the flat row-major offset `flat`.
pub fn unravel_index(flat: usize, shape: &[usize]) -> (r: Result<Vec<usize>, ComputeError>)
    requires
        shape_size(shape@) <= usize::MAX,
    ensures
        flat >= shape_size(shape@) ==> r matches Err(ComputeError::IndexError { .. }),
        flat < shape_size(shape@) ==> (r matches Ok(v) && v@ == unravel(flat as nat, shape@)),
{
    let numel = shape_numel(shape);
    if flat >= numel {
        return Err(
            ComputeError::IndexError {
                message: String::from_str("flat index out of bounds"),
            },
        );
    }
    let len = shape.len();
    let mut out: Vec<usize> = Vec::new();
    let mut k: usize = 0;
    while k < len
        invariant
            0 <= k <= len,
            out@.len() == k,
            forall|j: int| 0 <= j < k ==> #[trigger] out@[j] == 0,
        decreases len - k,
    {
        out.push(0);
        k += 1;
    }
    let mut rem: usize = flat;
    let mut i: usize = len;
    proof {
        assert(out@.subrange(len as int, len as int) =~= Seq::<usize>::empty());
        assert(shape@.subrange(0, len as int) =~= shape@);
        assert(unravel(flat as nat, shape@) =~= unravel(flat as nat, shape@) + Seq::<usize>::empty());
    }
    while i > 0
        invariant
            0 <= i <= len == shape@.len() == out@.len(),
            unravel(flat as nat, shape@) == unravel(rem as nat, shape@.subrange(0, i as int))
                + out@.subrange(i as int, len as int),
        decreases i,
    {
        let d = shape[i - 1];
        proof {
            let sp = shape@.subrange(0, i as int);
            assert(sp.drop_last() =~= shape@.subrange(0, i - 1));
            assert(sp.last() == d);
        }
        if d == 0 {
            proof {
                lemma_size_zero(shape@, i - 1);
            }
            return Err(
                ComputeError::IndexError {
                    message: String::from_str("flat index out of bounds"),
                },
            );
        }
        let ghost old_out = out@;
        out.set(i - 1, rem % d);
        proof {
            let head = unravel((rem / d) as nat, shape@.subrange(0, i - 1));
            assert(out@.subrange(i - 1, len as int) =~= seq![(rem % d) as usize]
                + old_out.subrange(i as int, len as int));
            assert(head.push((rem % d) as usize) + old_out.subrange(i as int, len as int)
                =~= head + out@.subrange(i - 1, len as int));
        }
        rem = rem / d;
        i -= 1;
    }
    proof {
        assert(out@.subrange(0, len as int) =~= out@);
        assert(Seq::<usize>::empty() + out@ =~= out@);
    }
    Ok(out)
}

/// Row-major strides of a shape, or `None` when some trailing product of the shape does not
/// fit in a `usize`.
pub fn checked_strides(shape: &[usize]) -> (r: Option<Vec<usize>>)
    ensures
        r is None <==> !strides_fit(shape@),
        r matches Some(strides) ==> strides@.len() == shape@.len() && forall|i: int|
            0 <= i < shape@.len() ==> #[trigger] strides@[i] == stride(shape@, i),
{
    let len = shape.len();
    let mut rev: Vec<usize> = Vec::new();
    let mut s: usize = 1;
    let mut k: usize = len;
    proof {
        assert(shape@.subrange(len as int, len as int) =~= Seq::<usize>::empty());
    }
    while k > 0
        invariant
            0 <= k <= len == shape@.len(),
            rev@.len() == len - k,
            s == shape_size(shape@.subrange(k as int, len as int)),
            forall|i: int|
                k <= i <= len ==> #[trigger] shape_size(shape@.subrange(i, len as int))
                    <= usize::MAX,
            forall|j: int| 0 <= j < rev@.len() ==> #[trigger] rev@[j] == stride(shape@, len - 1 - j),
        decreases k,
    {
        rev.push(s);
        let x = shape[k - 1];
        proof {
            let tail = shape@.subrange(k as int, len as int);
            let t2 = shape@.subrange(k - 1, len as int);
            assert(t2 =~= seq![x] + tail);
            lemma_size_concat(seq![x], tail);
            assert(seq![x].drop_last() =~= Seq::<usize>::empty());
            assert(shape_size(Seq::<usize>::empty()) == 1);
            assert(shape_size(seq![x]) == 1 * (x as nat));
            assert(shape_size(t2) == (x as nat) * shape_size(tail));
        }
        match x.checked_mul(s) {
            Some(p) => {
                s = p;
            },
            None => {
                return None;
            },
        }
        k -= 1;
    }
    let mut strides: Vec<usize> = Vec::new();
    let mut i: usize = 0;
    while i < len
        invariant
            0 <= i <= len == shape@.len(),
            rev@.len() == len,
            strides@.len() == i,
            forall|j: int| 0 <= j < rev@.len() ==> #[trigger] rev@[j] == stride(shape@, len - 1 - j),
            forall|j: int| 0 <= j < i ==> #[trigger] strides@[j] == stride(shape@, j),
        decreases len - i,
    {
        strides.push(rev[len - 1 - i]);
        i += 1;
    }
    Some(strides)
}

} // verus!
