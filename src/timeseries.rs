use vstd::prelude::*;

use crate::error::ComputeError;
use crate::tensor::copy_vec;

verus! {

/// `n` windows of `window` items, `stride` apart, fit in `len` items and a further one does
/// not.
pub open spec fn window_count_ok(n: nat, len: nat, window: nat, stride: nat) -> bool {
    if len < window {
        n == 0
    } else {
        &&& n >= 1
        &&& (n - 1) * stride + window <= len
        &&& n * stride + window > len
    }
}

/// Consecutive windows of `window` items of `x`, starting every `stride` items from the
/// first, as long as a whole window fits.
pub fn windows_1d<T: Copy>(x: &[T], window: usize, stride: usize) -> (r: Result<
    Vec<Vec<T>>,
    ComputeError,
>)
    ensures
        window == 0 || stride == 0 ==> r matches Err(ComputeError::InvalidOperation { .. }),
        window > 0 && stride > 0 ==> (r matches Ok(w) && window_count_ok(
            w@.len(),
            x@.len(),
            window as nat,
            stride as nat,
        ) && forall|j: int|
            0 <= j < w@.len() ==> (#[trigger] w@[j])@ == x@.subrange(
                j * stride,
                j * stride + window,
            )),
{
    if window == 0 || stride == 0 {
        return Err(
            ComputeError::InvalidOperation {
                message: String::from_str("window and stride must be at least 1"),
            },
        );
    }
    let len = x.len();
    let mut out: Vec<Vec<T>> = Vec::new();
    if len < window {
        return Ok(out);
    }
    let last = len - window;
    let mut start: usize = 0;
    assert(out@.len() * stride == 0) by (nonlinear_arith)
        requires
            out@.len() == 0,
    ;
    loop
        invariant
            len == x@.len(),
            window > 0,
            window <= len,
            last == len - window,
            stride > 0,
            start <= last,
            start == out@.len() * stride,
            forall|j: int|
                0 <= j < out@.len() ==> (#[trigger] out@[j])@ == x@.subrange(
                    j * stride,
                    j * stride + window,
                ),
        decreases last - start,
    {
        let mut item: Vec<T> = Vec::new();
        let mut i: usize = 0;
        while i < window
            invariant
                len == x@.len(),
                start + window <= x@.len(),
                0 <= i <= window,
                item@ == x@.subrange(start as int, start + i),
            decreases window - i,
        {
            item.push(x[start + i]);
            i += 1;
            assert(item@ =~= x@.subrange(start as int, start + i));
        }
        out.push(item);
        proof {
            assert(out@.len() * stride == start + stride) by (nonlinear_arith)
                requires
                    start == (out@.len() - 1) * stride,
            ;
        }
        if stride > last - start {
            return Ok(out);
        }
        start = start + stride;
    }
}

/// Consecutive windows of `window` rows of `x`, starting every `stride` rows from the first,
/// as long as a whole window fits.
pub fn windows_2d<T: Copy>(x: &[Vec<T>], window: usize, stride: usize) -> (r: Result<
    Vec<Vec<Vec<T>>>,
    ComputeError,
>)
    ensures
        window == 0 || stride == 0 ==> r matches Err(ComputeError::InvalidOperation { .. }),
        window > 0 && stride > 0 ==> (r matches Ok(w) && window_count_ok(
            w@.len(),
            x@.len(),
            window as nat,
            stride as nat,
        ) && forall|j: int|
            0 <= j < w@.len() ==> (#[trigger] w@[j])@.len() == window && forall|i: int|
                0 <= i < window ==> (#[trigger] w@[j]@[i])@ == x@[j * stride + i]@),
{
    if window == 0 || stride == 0 {
        return Err(
            ComputeError::InvalidOperation {
                message: String::from_str("window and stride must be at least 1"),
            },
        );
    }
    let len = x.len();
    let mut out: Vec<Vec<Vec<T>>> = Vec::new();
    if len < window {
        return Ok(out);
    }
    let last = len - window;
    let mut start: usize = 0;
    assert(out@.len() * stride == 0) by (nonlinear_arith)
        requires
            out@.len() == 0,
    ;
    loop
        invariant
            len == x@.len(),
            window > 0,
            window <= len,
            last == len - window,
            stride > 0,
            start <= last,
            start == out@.len() * stride,
            forall|j: int|
                0 <= j < out@.len() ==> (#[trigger] out@[j])@.len() == window && forall|i: int|
                    0 <= i < window ==> (#[trigger] out@[j]@[i])@ == x@[j * stride + i]@,
        decreases last - start,
    {
        let mut item: Vec<Vec<T>> = Vec::new();
        let mut i: usize = 0;
        while i < window
            invariant
                len == x@.len(),
                start + window <= x@.len(),
                0 <= i <= window,
                item@.len() == i,
                forall|q: int| 0 <= q < i ==> (#[trigger] item@[q])@ == x@[start + q]@,
            decreases window - i,
        {
            item.push(copy_vec(&x[start + i]));
            i += 1;
        }
        out.push(item);
        proof {
            assert(out@.len() * stride == start + stride) by (nonlinear_arith)
                requires
                    start == (out@.len() - 1) * stride,
            ;
        }
        if stride > last - start {
            return Ok(out);
        }
        start = start + stride;
    }
}

} // verus!
