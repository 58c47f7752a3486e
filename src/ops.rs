use vstd::prelude::*;

use crate::error::ComputeError;
use crate::tensor::{
    broadcast_compatible, broadcast_outcome, broadcast_shape, lemma_broadcast_self, lemma_offset2,
    lemma_shape2, mapped, matmul_outcome, sum_outcome, quotient, relu_of, transpose_of, valid_shape, zip_result,
    Scalar, Tensor,
};
use crate::tensor_index::{
    lemma_ravel_bound, lemma_unravel_ravel, ravel, ravel_index, shape_size, strides_fit, unravel,
    unravel_index, valid_coord,
};

verus! {

/// Every tensor of a sequence is well formed.
pub open spec fn all_wf<T: Copy>(ts: Seq<Tensor<T>>) -> bool {
    forall|i: int| 0 <= i < ts.len() ==> (#[trigger] ts[i]).wf()
}

/// The operand-count error for an operation of the given arity called on `got` operands.
pub open spec fn input_count_error<A>(r: Result<A, ComputeError>, arity: nat, got: nat) -> bool {
    r matches Err(ComputeError::InputCountError { expected, got: g }) && expected == arity && g
        == got
}

/// `a` holds the same elements in the same shape as `b`.
pub open spec fn same_tensor<T: Copy>(a: Tensor<T>, b: Tensor<T>) -> bool {
    a.spec_shape() == b.spec_shape() && a.spec_data() == b.spec_data()
}

/// An operation: a forward value from its operands, and the gradient with respect to each
/// operand from the gradient with respect to its value.
pub trait Op<T: Scalar> {
    /// The number of operands.
    spec fn arity(&self) -> nat;

    /// What `forward` returns on operands of the right number.
    spec fn forward_outcome(&self, inputs: Seq<Tensor<T>>, r: Result<Tensor<T>, ComputeError>) -> bool;

    /// What `backward` returns on operands of the right number.
    spec fn backward_outcome(
        &self,
        inputs: Seq<Tensor<T>>,
        grad_output: Tensor<T>,
        r: Result<Vec<Tensor<T>>, ComputeError>,
    ) -> bool;

    /// The catalog entry of this operation.
    spec fn spec_kind(&self) -> OpKind;

    /// The catalog entry of this operation, as the graph records it.
    fn kind(&self) -> (k: OpKind)
        ensures
            k == self.spec_kind(),
    ;

    fn forward(&self, inputs: &[Tensor<T>]) -> (r: Result<Tensor<T>, ComputeError>)
        requires
            all_wf(inputs@),
        ensures
            inputs@.len() != self.arity() ==> input_count_error(r, self.arity(), inputs@.len()),
            inputs@.len() == self.arity() ==> self.forward_outcome(inputs@, r),
            r matches Ok(t) ==> t.wf(),
    ;

    fn backward(&self, inputs: &[Tensor<T>], grad_output: &Tensor<T>) -> (r: Result<
        Vec<Tensor<T>>,
        ComputeError,
    >)
        requires
            all_wf(inputs@),
            grad_output.wf(),
        ensures
            inputs@.len() != self.arity() ==> input_count_error(r, self.arity(), inputs@.len()),
            inputs@.len() == self.arity() ==> self.backward_outcome(inputs@, *grad_output, r),
            r matches Ok(g) ==> g@.len() == inputs@.len() && all_wf(g@),
    ;
}

/// The arguments of an inversion are well formed: one entry per operand, `solve_for` names an
/// operand, that entry is absent and every other entry is present.
pub open spec fn invert_args_ok<A>(known: Seq<Option<A>>, solve_for: int, arity: int) -> bool {
    &&& known.len() == arity
    &&& 0 <= solve_for < arity
    &&& known[solve_for] is None
    &&& forall|i: int| 0 <= i < arity && i != solve_for ==> #[trigger] known[i] is Some
}

/// The error that malformed inversion arguments give: the operand-count error with the
/// expected and actual counts, an index error for an out-of-range `solve_for`, or an
/// invalid-operation error for an entry present at `solve_for` or absent elsewhere.
pub open spec fn invert_args_error<A, B>(
    known: Seq<Option<A>>,
    solve_for: int,
    arity: int,
    r: Result<B, ComputeError>,
) -> bool {
    &&& (known.len() != arity ==> input_count_error(r, arity as nat, known.len()))
    &&& (known.len() == arity && solve_for >= arity ==> r matches Err(
        ComputeError::IndexError { .. },
    ))
    &&& (known.len() == arity && 0 <= solve_for < arity && !invert_args_ok(
        known,
        solve_for,
        arity,
    ) ==> r matches Err(ComputeError::InvalidOperation { .. }))
}

/// An operation whose forward value determines any one operand from the others.
pub trait InvertibleOp<T: Scalar>: Op<T> {
    /// What `invert` returns on well-formed arguments.
    spec fn invert_outcome(
        &self,
        output: Tensor<T>,
        known: Seq<Option<&Tensor<T>>>,
        solve_for: int,
        r: Result<Tensor<T>, ComputeError>,
    ) -> bool;

    /// Recovers operand `solve_for` from the forward value and the other operands, which
    /// `known` holds at their positions.
    fn invert(&self, output: &Tensor<T>, known: &[Option<&Tensor<T>>], solve_for: usize) -> (r:
        Result<Tensor<T>, ComputeError>)
        requires
            output.wf(),
            forall|i: int| 0 <= i < known@.len() && known@[i] is Some ==> (#[trigger] known@[i])->Some_0.wf(),
        ensures
            invert_args_error(known@, solve_for as int, self.arity() as int, r),
            invert_args_ok(known@, solve_for as int, self.arity() as int) ==> self.invert_outcome(
                *output,
                known@,
                solve_for as int,
                r,
            ),
            r matches Ok(t) ==> t.wf(),
    ;
}

/// Checks the arguments of an inversion: `known` has one entry per operand, `solve_for`
/// names an operand, its entry is absent and all the others are present.
pub fn validate_invert_args<A>(known: &[Option<A>], solve_for: usize, arity: usize) -> (r: Result<
    (),
    ComputeError,
>)
    ensures
        r is Ok <==> invert_args_ok(known@, solve_for as int, arity as int),
        known@.len() != arity ==> input_count_error(r, arity as nat, known@.len()),
        known@.len() == arity && solve_for >= arity ==> r matches Err(
            ComputeError::IndexError { .. },
        ),
        known@.len() == arity && solve_for < arity && !invert_args_ok(
            known@,
            solve_for as int,
            arity as int,
        ) ==> r matches Err(ComputeError::InvalidOperation { .. }),
{
    if known.len() != arity {
        return Err(ComputeError::InputCountError { expected: arity, got: known.len() });
    }
    if solve_for >= arity {
        return Err(
            ComputeError::IndexError {
                message: String::from_str("solve_for is out of bounds for the arity"),
            },
        );
    }
    if known[solve_for].is_some() {
        return Err(
            ComputeError::InvalidOperation {
                message: String::from_str("the entry at solve_for must be absent"),
            },
        );
    }
    let mut i: usize = 0;
    while i < known.len()
        invariant
            known@.len() == arity,
            solve_for < arity,
            0 <= i <= arity,
            forall|j: int| 0 <= j < i && j != solve_for ==> #[trigger] known@[j] is Some,
        decreases arity - i,
    {
        if i != solve_for && known[i].is_none() {
            return Err(
                ComputeError::InvalidOperation {
                    message: String::from_str("only the entry at solve_for may be absent"),
                },
            );
        }
        i += 1;
    }
    Ok(())
}

/// The catalog of operations that a graph node can apply.
#[derive(Clone, Copy, Debug, PartialEq, Eq, Structural)]
pub enum OpKind {
    Add,
    Subtract,
    Multiply,
    Divide,
    MatMul,
    Relu,
    Sum(Option<usize>),
    Log,
    Softmax,
}

/// `r` is the broadcasting quotient of `a` by `b`.
pub open spec fn quotient_result<T: Scalar>(a: Tensor<T>, b: Tensor<T>, r: Result<Tensor<T>, ComputeError>) -> bool {
    zip_result(a, b, r, |x: T, y: T| quotient(x, y))
}

/// Two shapes broadcast, and their broadcast fits in memory.
pub open spec fn broadcast_ok(a: Seq<usize>, b: Seq<usize>) -> bool {
    broadcast_compatible(a, b) && strides_fit(broadcast_shape(a, b))
}

/// The operand that `known` holds at the position other than `solve_for`, in a binary inversion.
pub open spec fn other_operand<T>(known: Seq<Option<&Tensor<T>>>, solve_for: int) -> Tensor<T> {
    *known[1 - solve_for]->Some_0
}

fn other_known<'a, T: Copy>(known: &[Option<&'a Tensor<T>>], solve_for: usize) -> (r: &'a Tensor<T>)
    requires
        invert_args_ok(known@, solve_for as int, 2),
    ensures
        *r == other_operand(known@, solve_for as int),
{
    match known[1 - solve_for] {
        Some(t) => t,
        None => {
            assert(known@[1 - solve_for] is Some);
            known[1 - solve_for].unwrap()
        },
    }
}

fn arity_error(expected: usize, got: usize) -> (r: ComputeError)
    ensures
        r == (ComputeError::InputCountError { expected, got }),
{
    ComputeError::InputCountError { expected, got }
}

/// Elementwise sum with broadcasting: `a + b`.
#[derive(Clone, Copy, Debug)]
pub struct AddOp;

impl<T: Scalar> Op<T> for AddOp {
    open spec fn spec_kind(&self) -> OpKind {
        OpKind::Add
    }

    open spec fn arity(&self) -> nat {
        2
    }

    open spec fn forward_outcome(&self, inputs: Seq<Tensor<T>>, r: Result<Tensor<T>, ComputeError>) -> bool {
        zip_result(inputs[0], inputs[1], r, |x: T, y: T| x.spec_add(y))
    }

    open spec fn backward_outcome(
        &self,
        inputs: Seq<Tensor<T>>,
        grad_output: Tensor<T>,
        r: Result<Vec<Tensor<T>>, ComputeError>,
    ) -> bool {
        r matches Ok(g) && same_tensor(g@[0], grad_output) && same_tensor(g@[1], grad_output)
    }

    fn kind(&self) -> (k: OpKind) {
        OpKind::Add
    }

    fn forward(&self, inputs: &[Tensor<T>]) -> (r: Result<Tensor<T>, ComputeError>) {
        if inputs.len() != 2 {
            return Err(arity_error(2, inputs.len()));
        }
        inputs[0].add(&inputs[1])
    }

    fn backward(&self, inputs: &[Tensor<T>], grad_output: &Tensor<T>) -> (r: Result<
        Vec<Tensor<T>>,
        ComputeError,
    >) {
        if inputs.len() != 2 {
            return Err(arity_error(2, inputs.len()));
        }
        Ok(vec![grad_output.duplicate(), grad_output.duplicate()])
    }
}

impl<T: Scalar> InvertibleOp<T> for AddOp {
    /// The missing operand as `out - other`.
    open spec fn invert_outcome(
        &self,
        output: Tensor<T>,
        known: Seq<Option<&Tensor<T>>>,
        solve_for: int,
        r: Result<Tensor<T>, ComputeError>,
    ) -> bool {
        zip_result(output, other_operand(known, solve_for), r, |x: T, y: T| x.spec_sub(y))
    }

    fn invert(&self, output: &Tensor<T>, known: &[Option<&Tensor<T>>], solve_for: usize) -> (r:
        Result<Tensor<T>, ComputeError>) {
        match validate_invert_args(known, solve_for, 2) {
            Ok(()) => {},
            Err(e) => {
                return Err(e);
            },
        }
        let other = other_known(known, solve_for);
        output.subtract(other)
    }
}

/// Elementwise difference with broadcasting: `a - b`.
#[derive(Clone, Copy, Debug)]
pub struct SubtractOp;

impl<T: Scalar> Op<T> for SubtractOp {
    open spec fn spec_kind(&self) -> OpKind {
        OpKind::Subtract
    }

    open spec fn arity(&self) -> nat {
        2
    }

    open spec fn forward_outcome(&self, inputs: Seq<Tensor<T>>, r: Result<Tensor<T>, ComputeError>) -> bool {
        zip_result(inputs[0], inputs[1], r, |x: T, y: T| x.spec_sub(y))
    }

    /// The first gradient is the output gradient, the second its negation.
    open spec fn backward_outcome(
        &self,
        inputs: Seq<Tensor<T>>,
        grad_output: Tensor<T>,
        r: Result<Vec<Tensor<T>>, ComputeError>,
    ) -> bool {
        r matches Ok(g) && same_tensor(g@[0], grad_output) && g@[1].wf() && mapped(
            grad_output,
            g@[1],
            |x: T| x.spec_neg(),
        )
    }

    fn kind(&self) -> (k: OpKind) {
        OpKind::Subtract
    }

    fn forward(&self, inputs: &[Tensor<T>]) -> (r: Result<Tensor<T>, ComputeError>) {
        if inputs.len() != 2 {
            return Err(arity_error(2, inputs.len()));
        }
        inputs[0].subtract(&inputs[1])
    }

    fn backward(&self, inputs: &[Tensor<T>], grad_output: &Tensor<T>) -> (r: Result<
        Vec<Tensor<T>>,
        ComputeError,
    >) {
        if inputs.len() != 2 {
            return Err(arity_error(2, inputs.len()));
        }
        Ok(vec![grad_output.duplicate(), grad_output.negate()])
    }
}

impl<T: Scalar> InvertibleOp<T> for SubtractOp {
    /// The missing operand: `a = out + b`, or `b = a - out`.
    open spec fn invert_outcome(
        &self,
        output: Tensor<T>,
        known: Seq<Option<&Tensor<T>>>,
        solve_for: int,
        r: Result<Tensor<T>, ComputeError>,
    ) -> bool {
        if solve_for == 0 {
            zip_result(output, other_operand(known, solve_for), r, |x: T, y: T| x.spec_add(y))
        } else {
            zip_result(other_operand(known, solve_for), output, r, |x: T, y: T| x.spec_sub(y))
        }
    }

    fn invert(&self, output: &Tensor<T>, known: &[Option<&Tensor<T>>], solve_for: usize) -> (r:
        Result<Tensor<T>, ComputeError>) {
        match validate_invert_args(known, solve_for, 2) {
            Ok(()) => {},
            Err(e) => {
                return Err(e);
            },
        }
        let other = other_known(known, solve_for);
        if solve_for == 0 {
            output.add(other)
        } else {
            other.subtract(output)
        }
    }
}

/// Elementwise product with broadcasting: `a * b`.
#[derive(Clone, Copy, Debug)]
pub struct MultiplyOp;

impl<T: Scalar> Op<T> for MultiplyOp {
    open spec fn spec_kind(&self) -> OpKind {
        OpKind::Multiply
    }

    open spec fn arity(&self) -> nat {
        2
    }

    open spec fn forward_outcome(&self, inputs: Seq<Tensor<T>>, r: Result<Tensor<T>, ComputeError>) -> bool {
        zip_result(inputs[0], inputs[1], r, |x: T, y: T| x.spec_mul(y))
    }

    /// `grad * b` and `grad * a`, in the broadcast shapes.
    open spec fn backward_outcome(
        &self,
        inputs: Seq<Tensor<T>>,
        grad_output: Tensor<T>,
        r: Result<Vec<Tensor<T>>, ComputeError>,
    ) -> bool {
        let g = grad_output.spec_shape();
        &&& (r is Ok <==> broadcast_ok(g, inputs[1].spec_shape()) && broadcast_ok(
            g,
            inputs[0].spec_shape(),
        ))
        &&& (r matches Ok(gs) ==> zip_result(grad_output, inputs[1], Ok(gs@[0]), |x: T, y: T| x.spec_mul(y))
            && zip_result(grad_output, inputs[0], Ok(gs@[1]), |x: T, y: T| x.spec_mul(y)))
    }

    fn kind(&self) -> (k: OpKind) {
        OpKind::Multiply
    }

    fn forward(&self, inputs: &[Tensor<T>]) -> (r: Result<Tensor<T>, ComputeError>) {
        if inputs.len() != 2 {
            return Err(arity_error(2, inputs.len()));
        }
        inputs[0].multiply(&inputs[1])
    }

    fn backward(&self, inputs: &[Tensor<T>], grad_output: &Tensor<T>) -> (r: Result<
        Vec<Tensor<T>>,
        ComputeError,
    >) {
        if inputs.len() != 2 {
            return Err(arity_error(2, inputs.len()));
        }
        let grad_a = grad_output.multiply(&inputs[1])?;
        let grad_b = grad_output.multiply(&inputs[0])?;
        Ok(vec![grad_a, grad_b])
    }
}

impl<T: Scalar> InvertibleOp<T> for MultiplyOp {
    /// The missing operand as `out / other`.
    open spec fn invert_outcome(
        &self,
        output: Tensor<T>,
        known: Seq<Option<&Tensor<T>>>,
        solve_for: int,
        r: Result<Tensor<T>, ComputeError>,
    ) -> bool {
        zip_result(output, other_operand(known, solve_for), r, |x: T, y: T| quotient(x, y))
    }

    fn invert(&self, output: &Tensor<T>, known: &[Option<&Tensor<T>>], solve_for: usize) -> (r:
        Result<Tensor<T>, ComputeError>) {
        match validate_invert_args(known, solve_for, 2) {
            Ok(()) => {},
            Err(e) => {
                return Err(e);
            },
        }
        let other = other_known(known, solve_for);
        output.divide(other)
    }
}

/// Elementwise quotient with broadcasting: `a / b`, not-a-number where `b` is zero.
#[derive(Clone, Copy, Debug)]
pub struct DivideOp;

impl<T: Scalar> Op<T> for DivideOp {
    open spec fn spec_kind(&self) -> OpKind {
        OpKind::Divide
    }

    open spec fn arity(&self) -> nat {
        2
    }

    open spec fn forward_outcome(&self, inputs: Seq<Tensor<T>>, r: Result<Tensor<T>, ComputeError>) -> bool {
        zip_result(inputs[0], inputs[1], r, |x: T, y: T| quotient(x, y))
    }

    /// `grad / b` and `-((grad * a) / (b * b))`, each with broadcasting; the pass succeeds
    /// exactly when those broadcasts succeed.
    open spec fn backward_outcome(
        &self,
        inputs: Seq<Tensor<T>>,
        grad_output: Tensor<T>,
        r: Result<Vec<Tensor<T>>, ComputeError>,
    ) -> bool {
        let g = grad_output.spec_shape();
        let a = inputs[0].spec_shape();
        let b = inputs[1].spec_shape();
        &&& (r is Ok <==> broadcast_ok(g, b) && broadcast_ok(g, a) && broadcast_ok(
            broadcast_shape(g, a),
            b,
        ))
        &&& (r matches Ok(gs) ==> zip_result(grad_output, inputs[1], Ok(gs@[0]), |x: T, y: T| quotient(x, y))
            && exists|num: Tensor<T>, b2: Tensor<T>, q: Tensor<T>|
            #![trigger quotient_result(num, b2, Ok(q))]
            zip_result(grad_output, inputs[0], Ok(num), |x: T, y: T| x.spec_mul(y)) && zip_result(
                inputs[1],
                inputs[1],
                Ok(b2),
                |x: T, y: T| x.spec_mul(y),
            ) && quotient_result(num, b2, Ok(q)) && gs@[1].wf() && mapped(
                q,
                gs@[1],
                |x: T| x.spec_neg(),
            ))
    }

    fn kind(&self) -> (k: OpKind) {
        OpKind::Divide
    }

    fn forward(&self, inputs: &[Tensor<T>]) -> (r: Result<Tensor<T>, ComputeError>) {
        if inputs.len() != 2 {
            return Err(arity_error(2, inputs.len()));
        }
        inputs[0].divide(&inputs[1])
    }

    fn backward(&self, inputs: &[Tensor<T>], grad_output: &Tensor<T>) -> (r: Result<
        Vec<Tensor<T>>,
        ComputeError,
    >) {
        if inputs.len() != 2 {
            return Err(arity_error(2, inputs.len()));
        }
        let a = &inputs[0];
        let b = &inputs[1];
        let grad_a = grad_output.divide(b)?;
        proof {
            b.lemma_wf();
            lemma_broadcast_self(b.spec_shape());
        }
        let b2 = b.multiply(b)?;
        let num = grad_output.multiply(a)?;
        let q = num.divide(&b2)?;
        let grad_b = q.negate();
        let r = vec![grad_a, grad_b];
        assert(quotient_result(num, b2, Ok(q)));
        Ok(r)
    }
}

impl<T: Scalar> InvertibleOp<T> for DivideOp {
    /// The missing operand: `a = out * b`, or `b = a / out`.
    open spec fn invert_outcome(
        &self,
        output: Tensor<T>,
        known: Seq<Option<&Tensor<T>>>,
        solve_for: int,
        r: Result<Tensor<T>, ComputeError>,
    ) -> bool {
        if solve_for == 0 {
            zip_result(output, other_operand(known, solve_for), r, |x: T, y: T| x.spec_mul(y))
        } else {
            zip_result(other_operand(known, solve_for), output, r, |x: T, y: T| quotient(x, y))
        }
    }

    fn invert(&self, output: &Tensor<T>, known: &[Option<&Tensor<T>>], solve_for: usize) -> (r:
        Result<Tensor<T>, ComputeError>) {
        match validate_invert_args(known, solve_for, 2) {
            Ok(()) => {},
            Err(e) => {
                return Err(e);
            },
        }
        let other = other_known(known, solve_for);
        if solve_for == 0 {
            output.multiply(other)
        } else {
            other.divide(output)
        }
    }
}

/// Matrix product of two rank-two tensors.
#[derive(Clone, Copy, Debug)]
pub struct MatMulOp;

impl<T: Scalar> Op<T> for MatMulOp {
    open spec fn spec_kind(&self) -> OpKind {
        OpKind::MatMul
    }

    open spec fn arity(&self) -> nat {
        2
    }

    open spec fn forward_outcome(&self, inputs: Seq<Tensor<T>>, r: Result<Tensor<T>, ComputeError>) -> bool {
        matmul_outcome(inputs[0], inputs[1], r)
    }

    /// `grad · bᵀ` and `aᵀ · grad`; owed whenever `a` is `m × k`, `b` is `k × n` and the
    /// output gradient is `m × n`.
    open spec fn backward_outcome(
        &self,
        inputs: Seq<Tensor<T>>,
        grad_output: Tensor<T>,
        r: Result<Vec<Tensor<T>>, ComputeError>,
    ) -> bool {
        let a = inputs[0].spec_shape();
        let b = inputs[1].spec_shape();
        let g = grad_output.spec_shape();
        &&& (a.len() == 2 && b.len() == 2 && a[1] == b[0] && g == seq![a[0], b[1]] ==> r is Ok)
        &&& (r matches Ok(gs) ==> exists|at: Tensor<T>, bt: Tensor<T>|
            #![trigger transpose_of(inputs[0], at), transpose_of(inputs[1], bt)]
            transpose_of(inputs[0], at) && transpose_of(inputs[1], bt) && matmul_outcome(
                grad_output,
                bt,
                Ok(gs@[0]),
            ) && matmul_outcome(at, grad_output, Ok(gs@[1])))
    }

    fn kind(&self) -> (k: OpKind) {
        OpKind::MatMul
    }

    fn forward(&self, inputs: &[Tensor<T>]) -> (r: Result<Tensor<T>, ComputeError>) {
        if inputs.len() != 2 {
            return Err(arity_error(2, inputs.len()));
        }
        inputs[0].matmul(&inputs[1])
    }

    fn backward(&self, inputs: &[Tensor<T>], grad_output: &Tensor<T>) -> (r: Result<
        Vec<Tensor<T>>,
        ComputeError,
    >) {
        if inputs.len() != 2 {
            return Err(arity_error(2, inputs.len()));
        }
        proof {
            inputs[0].lemma_wf();
            inputs[1].lemma_wf();
            grad_output.lemma_wf();
            let a = inputs@[0].spec_shape();
            let b = inputs@[1].spec_shape();
            if a.len() == 2 && b.len() == 2 {
                assert(a =~= seq![a[0], a[1]]);
                assert(b =~= seq![b[0], b[1]]);
                lemma_shape2(a[0], a[1]);
                lemma_shape2(b[0], b[1]);
                assert(a[0] * a[1] == a[1] * a[0]) by (nonlinear_arith);
            }
        }
        let b_t = inputs[1].transpose_2d()?;
        let a_t = inputs[0].transpose_2d()?;
        let grad_a = grad_output.matmul(&b_t)?;
        let grad_b = a_t.matmul(grad_output)?;
        assert(transpose_of(inputs@[0], a_t) && transpose_of(inputs@[1], b_t));
        Ok(vec![grad_a, grad_b])
    }
}

/// Elementwise `max(x, 0)`.
#[derive(Clone, Copy, Debug)]
pub struct ReluOp;

impl<T: Scalar> Op<T> for ReluOp {
    open spec fn spec_kind(&self) -> OpKind {
        OpKind::Relu
    }

    open spec fn arity(&self) -> nat {
        1
    }

    open spec fn forward_outcome(&self, inputs: Seq<Tensor<T>>, r: Result<Tensor<T>, ComputeError>) -> bool {
        r matches Ok(t) && mapped(inputs[0], t, |x: T| relu_of(x))
    }

    /// The output gradient where the operand is positive, zero elsewhere; the two must hold
    /// as many elements.
    open spec fn backward_outcome(
        &self,
        inputs: Seq<Tensor<T>>,
        grad_output: Tensor<T>,
        r: Result<Vec<Tensor<T>>, ComputeError>,
    ) -> bool {
        let n = inputs[0].spec_data().len();
        let m = grad_output.spec_data().len();
        &&& (n != m ==> (r matches Err(ComputeError::ShapeMismatch { expected, got })
            && expected == n && got == m))
        &&& (n == m ==> (r matches Ok(gs) && gs@[0].spec_shape() == inputs[0].spec_shape()
            && forall|i: int|
            0 <= i < n ==> #[trigger] gs@[0].spec_data()[i] == (if inputs[0].spec_data()[i].spec_is_positive() {
                grad_output.spec_data()[i]
            } else {
                T::spec_zero()
            })))
    }

    fn kind(&self) -> (k: OpKind) {
        OpKind::Relu
    }

    fn forward(&self, inputs: &[Tensor<T>]) -> (r: Result<Tensor<T>, ComputeError>) {
        if inputs.len() != 1 {
            return Err(arity_error(1, inputs.len()));
        }
        inputs[0].relu()
    }

    fn backward(&self, inputs: &[Tensor<T>], grad_output: &Tensor<T>) -> (r: Result<
        Vec<Tensor<T>>,
        ComputeError,
    >) {
        if inputs.len() != 1 {
            return Err(arity_error(1, inputs.len()));
        }
        let x = &inputs[0];
        let n = x.data().len();
        if n != grad_output.data().len() {
            return Err(ComputeError::ShapeMismatch { expected: n, got: grad_output.data().len() });
        }
        let mut grad = Tensor::zeros_like(x);
        let mut i: usize = 0;
        while i < n
            invariant
                n == x.spec_data().len() == grad_output.spec_data().len(),
                grad.wf(),
                grad.spec_shape() == x.spec_shape(),
                x.wf(),
                0 <= i <= n,
                grad.spec_data().len() == n,
                forall|q: int|
                    0 <= q < i ==> #[trigger] grad.spec_data()[q] == (if x.spec_data()[q].spec_is_positive() {
                        grad_output.spec_data()[q]
                    } else {
                        T::spec_zero()
                    }),
            decreases n - i,
        {
            proof {
                x.lemma_wf();
                grad.lemma_wf();
            }
            let v = if x.get(i).is_positive() {
                grad_output.get(i)
            } else {
                T::zero()
            };
            grad.set(i, v);
            i += 1;
        }
        Ok(vec![grad])
    }
}

/// The offset of the output gradient that element `i` of an operand of shape `x` takes
/// when a sum along `axis` is spread back: its coordinate with `axis` set to 0.
pub open spec fn spread_index(x: Seq<usize>, g: Seq<usize>, axis: int, i: int) -> nat {
    ravel(unravel(i as nat, x).update(axis, 0), g)
}

/// Sum of all elements, or along one axis.
#[derive(Clone, Copy, Debug)]
pub struct SumOp {
    pub dim: Option<usize>,
}

impl<T: Scalar> Op<T> for SumOp {
    open spec fn spec_kind(&self) -> OpKind {
        OpKind::Sum(self.dim)
    }

    open spec fn arity(&self) -> nat {
        1
    }

    open spec fn forward_outcome(&self, inputs: Seq<Tensor<T>>, r: Result<Tensor<T>, ComputeError>) -> bool {
        sum_outcome(inputs[0], self.dim, r)
    }

    /// The output gradient spread back over the summed elements, in the operand's shape.
    open spec fn backward_outcome(
        &self,
        inputs: Seq<Tensor<T>>,
        grad_output: Tensor<T>,
        r: Result<Vec<Tensor<T>>, ComputeError>,
    ) -> bool {
        let x = inputs[0].spec_shape();
        let g = grad_output.spec_data();
        &&& (self.dim is None ==> r is Ok)
        &&& (self.dim is None && g.len() > 0 && r is Ok ==> forall|i: int|
            0 <= i < r->Ok_0@[0].spec_data().len() ==> #[trigger] r->Ok_0@[0].spec_data()[i]
                == g[0])
        &&& (self.dim is None && g.len() == 0 && r is Ok ==> forall|i: int|
            0 <= i < r->Ok_0@[0].spec_data().len() ==> #[trigger] r->Ok_0@[0].spec_data()[i]
                == T::spec_zero())
        &&& (self.dim is Some && self.dim->Some_0 >= x.len() ==> r matches Err(
            ComputeError::DimensionError { .. },
        ))
        &&& (self.dim is Some && self.dim->Some_0 < x.len() && grad_output.spec_shape()
            == x.update(self.dim->Some_0 as int, 1) ==> r is Ok)
        &&& (self.dim is Some && r is Ok ==> forall|i: int|
            0 <= i < r->Ok_0@[0].spec_data().len() ==> #[trigger] r->Ok_0@[0].spec_data()[i]
                == g[spread_index(x, grad_output.spec_shape(), self.dim->Some_0 as int, i) as int])
        &&& (r matches Ok(gs) ==> gs@[0].spec_shape() == x)
    }

    fn kind(&self) -> (k: OpKind) {
        OpKind::Sum(self.dim)
    }

    fn forward(&self, inputs: &[Tensor<T>]) -> (r: Result<Tensor<T>, ComputeError>) {
        if inputs.len() != 1 {
            return Err(arity_error(1, inputs.len()));
        }
        inputs[0].sum(self.dim)
    }

    fn backward(&self, inputs: &[Tensor<T>], grad_output: &Tensor<T>) -> (r: Result<
        Vec<Tensor<T>>,
        ComputeError,
    >) {
        if inputs.len() != 1 {
            return Err(arity_error(1, inputs.len()));
        }
        let input = &inputs[0];
        proof {
            input.lemma_wf();
            grad_output.lemma_wf();
        }
        let mut grad_input = Tensor::zeros_like(input);
        match self.dim {
            None => {
                let g = if grad_output.data().len() > 0 {
                    grad_output.get(0)
                } else {
                    T::zero()
                };
                let n = input.data().len();
                let mut i: usize = 0;
                while i < n
                    invariant
                        grad_input.wf(),
                        grad_input.spec_shape() == input.spec_shape(),
                        input.wf(),
                        n == input.spec_data().len(),
                        0 <= i <= n,
                        grad_output.spec_data().len() > 0 ==> g == grad_output.spec_data()[0],
                        grad_output.spec_data().len() == 0 ==> g == T::spec_zero(),
                        forall|q: int| 0 <= q < i ==> #[trigger] grad_input.spec_data()[q] == g,
                    decreases n - i,
                {
                    proof {
                        input.lemma_wf();
                        grad_input.lemma_wf();
                    }
                    grad_input.set(i, g);
                    i += 1;
                }
                proof {
                    grad_input.lemma_wf();
                }
            },
            Some(axis) => {
                if axis >= input.shape().len() {
                    return Err(
                        ComputeError::DimensionError {
                            message: String::from_str("sum axis out of range"),
                        },
                    );
                }
                let n = input.data().len();
                proof {
                    if grad_output.spec_shape() == input.spec_shape().update(axis as int, 1) {
                        assert forall|q: usize| (q as int) < n implies valid_coord(
                            #[trigger] unravel(q as nat, input.spec_shape()).update(axis as int, 0),
                            grad_output.spec_shape(),
                        ) by {
                            lemma_unravel_ravel(q as nat, input.spec_shape());
                            let u = unravel(q as nat, input.spec_shape());
                            let v = u.update(axis as int, 0);
                            assert forall|j: int| 0 <= j < grad_output.spec_shape().len() implies #[trigger] v[j]
                                < grad_output.spec_shape()[j] by {
                                if j != axis {
                                    assert(v[j] == u[j]);
                                }
                            }
                        }
                    }
                }
                let mut flat: usize = 0;
                while flat < n
                    invariant
                        grad_input.wf(),
                        grad_input.spec_shape() == input.spec_shape(),
                        input.wf(),
                        grad_output.wf(),
                        n == input.spec_data().len() == shape_size(input.spec_shape()),
                        shape_size(input.spec_shape()) <= usize::MAX,
                        shape_size(grad_output.spec_shape()) <= usize::MAX,
                        grad_output.spec_data().len() == shape_size(grad_output.spec_shape()),
                        axis < input.spec_shape().len(),
                        inputs@.len() == 1,
                        self.dim == Some(axis),
                        inputs@[0] == *input,
                        0 <= flat <= n,
                        grad_output.spec_shape() == input.spec_shape().update(axis as int, 1)
                            ==> forall|q: usize| (q as int) < n ==> valid_coord(
                            #[trigger] unravel(q as nat, input.spec_shape()).update(axis as int, 0),
                            grad_output.spec_shape(),
                        ),
                        forall|q: int|
                            0 <= q < flat ==> #[trigger] grad_input.spec_data()[q]
                                == grad_output.spec_data()[spread_index(
                                input.spec_shape(),
                                grad_output.spec_shape(),
                                axis as int,
                                q,
                            ) as int],
                    decreases n - flat,
                {
                    proof {
                        grad_input.lemma_wf();
                        lemma_unravel_ravel(flat as nat, input.spec_shape());
                    }
                    let mut idx = unravel_index(flat, input.shape())?;
                    idx.set(axis, 0);
                    let g_flat = ravel_index(idx.as_slice(), grad_output.shape())?;
                    proof {
                        if valid_coord(idx@, grad_output.spec_shape()) {
                            lemma_ravel_bound(idx@, grad_output.spec_shape());
                        }
                    }
                    grad_input.set(flat, grad_output.get(g_flat));
                    flat += 1;
                }
                proof {
                    grad_input.lemma_wf();
                }
            },
        }
        Ok(vec![grad_input])
    }
}

/// Elementwise natural logarithm.
#[derive(Clone, Copy, Debug)]
pub struct LogOp;

impl<T: Scalar> Op<T> for LogOp {
    open spec fn spec_kind(&self) -> OpKind {
        OpKind::Log
    }

    open spec fn arity(&self) -> nat {
        1
    }

    open spec fn forward_outcome(&self, inputs: Seq<Tensor<T>>, r: Result<Tensor<T>, ComputeError>) -> bool {
        r matches Ok(t) && mapped(inputs[0], t, |x: T| x.spec_ln())
    }

    /// The output gradient divided by the operand; the two must hold as many elements.
    open spec fn backward_outcome(
        &self,
        inputs: Seq<Tensor<T>>,
        grad_output: Tensor<T>,
        r: Result<Vec<Tensor<T>>, ComputeError>,
    ) -> bool {
        let n = inputs[0].spec_data().len();
        let m = grad_output.spec_data().len();
        &&& (n != m ==> (r matches Err(ComputeError::ShapeMismatch { expected, got })
            && expected == n && got == m))
        &&& (n == m ==> (r matches Ok(gs) && gs@[0].spec_shape() == inputs[0].spec_shape()
            && forall|i: int|
            0 <= i < n ==> #[trigger] gs@[0].spec_data()[i] == grad_output.spec_data()[i].spec_div(
                inputs[0].spec_data()[i],
            )))
    }

    fn kind(&self) -> (k: OpKind) {
        OpKind::Log
    }

    fn forward(&self, inputs: &[Tensor<T>]) -> (r: Result<Tensor<T>, ComputeError>) {
        if inputs.len() != 1 {
            return Err(arity_error(1, inputs.len()));
        }
        Ok(inputs[0].map(|v: T| -> (z: T) ensures z == v.spec_ln() { v.ln() }))
    }

    fn backward(&self, inputs: &[Tensor<T>], grad_output: &Tensor<T>) -> (r: Result<
        Vec<Tensor<T>>,
        ComputeError,
    >) {
        if inputs.len() != 1 {
            return Err(arity_error(1, inputs.len()));
        }
        let x = &inputs[0];
        let n = x.data().len();
        if n != grad_output.data().len() {
            return Err(ComputeError::ShapeMismatch { expected: n, got: grad_output.data().len() });
        }
        let mut grad = Tensor::zeros_like(x);
        let mut i: usize = 0;
        while i < n
            invariant
                n == x.spec_data().len() == grad_output.spec_data().len(),
                grad.wf(),
                grad.spec_shape() == x.spec_shape(),
                x.wf(),
                0 <= i <= n,
                grad.spec_data().len() == n,
                forall|q: int|
                    0 <= q < i ==> #[trigger] grad.spec_data()[q] == grad_output.spec_data()[q].spec_div(
                        x.spec_data()[q],
                    ),
            decreases n - i,
        {
            proof {
                x.lemma_wf();
                grad.lemma_wf();
            }
            grad.set(i, grad_output.get(i).div(x.get(i)));
            i += 1;
        }
        Ok(vec![grad])
    }
}

impl<T: Scalar> InvertibleOp<T> for LogOp {
    /// `x = exp(out)`, element for element.
    open spec fn invert_outcome(
        &self,
        output: Tensor<T>,
        known: Seq<Option<&Tensor<T>>>,
        solve_for: int,
        r: Result<Tensor<T>, ComputeError>,
    ) -> bool {
        r matches Ok(t) && mapped(output, t, |x: T| x.spec_exp())
    }

    fn invert(&self, output: &Tensor<T>, known: &[Option<&Tensor<T>>], solve_for: usize) -> (r:
        Result<Tensor<T>, ComputeError>) {
        match validate_invert_args(known, solve_for, 1) {
            Ok(()) => {},
            Err(e) => {
                return Err(e);
            },
        }
        Ok(output.map(|v: T| -> (z: T) ensures z == v.spec_exp() { v.exp() }))
    }
}

/// Shape `[n]` holds `n` elements.
proof fn lemma_shape_single(n: usize)
    ensures
        shape_size(seq![n]) == n,
{
    assert(seq![n].drop_last() =~= Seq::<usize>::empty());
    assert(shape_size(Seq::<usize>::empty()) == 1);
    assert(shape_size(seq![n]) == 1 * (n as nat));
}

/// Number of rows that softmax works on: 1 for rank one, the first dimension for rank two.
pub open spec fn softmax_rows(s: Seq<usize>) -> int {
    if s.len() == 1 {
        1
    } else {
        s[0] as int
    }
}

/// Length of the rows that softmax works on: the only dimension for rank one, the second for
/// rank two.
pub open spec fn softmax_cols(s: Seq<usize>) -> int {
    if s.len() == 1 {
        s[0] as int
    } else {
        s[1] as int
    }
}

/// Running maximum of the first `c` elements of row `r` (rows of `cols` elements of `x`).
pub open spec fn row_max<T: Scalar>(x: Seq<T>, r: int, cols: int, c: int) -> T
    decreases c,
{
    if c <= 1 {
        x[r * cols]
    } else {
        row_max(x, r, cols, c - 1).spec_max(x[r * cols + c - 1])
    }
}

/// `exp(x[r][k] - m)`.
pub open spec fn shifted_exp<T: Scalar>(x: Seq<T>, r: int, cols: int, m: T, k: int) -> T {
    x[r * cols + k].spec_sub(m).spec_exp()
}

/// Left-to-right sum, from zero, of `exp(x[r][k] - m)` for `k < c`.
pub open spec fn exp_total<T: Scalar>(x: Seq<T>, r: int, cols: int, m: T, c: int) -> T
    decreases c,
{
    if c <= 0 {
        T::spec_zero()
    } else {
        exp_total(x, r, cols, m, c - 1).spec_add(shifted_exp(x, r, cols, m, c - 1))
    }
}

/// Softmax of element `k` of row `r`: its exponential, shifted by the row maximum, over the
/// sum of the row's shifted exponentials.
pub open spec fn softmax_at<T: Scalar>(x: Seq<T>, r: int, cols: int, k: int) -> T {
    let m = row_max(x, r, cols, cols);
    shifted_exp(x, r, cols, m, k).spec_div(exp_total(x, r, cols, m, cols))
}

/// Left-to-right sum, from zero, of `g[r][k] * softmax(x)[r][k]` for `k < c`.
pub open spec fn softmax_dot<T: Scalar>(g: Seq<T>, x: Seq<T>, r: int, cols: int, c: int) -> T
    decreases c,
{
    if c <= 0 {
        T::spec_zero()
    } else {
        softmax_dot(g, x, r, cols, c - 1).spec_add(
            g[r * cols + c - 1].spec_mul(softmax_at(x, r, cols, c - 1)),
        )
    }
}

/// Softmax gradient at element `k` of row `r`: `y[k] * (g[k] - Σ g⊙y)` with `y` the row's
/// softmax.
pub open spec fn softmax_grad_at<T: Scalar>(g: Seq<T>, x: Seq<T>, r: int, cols: int, k: int) -> T {
    softmax_at(x, r, cols, k).spec_mul(g[r * cols + k].spec_sub(softmax_dot(g, x, r, cols, cols)))
}

/// Appends the softmax of row `r` of `x`.
fn softmax_row<T: Scalar>(x: &Tensor<T>, r: usize, cols: usize, out: &mut Vec<T>)
    requires
        r * cols + cols <= x.spec_data().len(),
    ensures
        final(out)@ == old(out)@ + Seq::new(
            cols as nat,
            |c: int| softmax_at(x.spec_data(), r as int, cols as int, c),
        ),
{
    let ghost xd = x.spec_data();
    let ghost start = out@;
    if cols == 0 {
        assert(out@ =~= start + Seq::new(0, |c: int| softmax_at(xd, r as int, cols as int, c)));
        return;
    }
    let len = x.data().len();
    let base = r * cols;
    let mut max = x.get(base);
    let mut c: usize = 1;
    while c < cols
        invariant
            len == xd.len(),
            xd == x.spec_data(),
            base == r * cols,
            base + cols <= len,
            1 <= c <= cols,
            max == row_max(xd, r as int, cols as int, c as int),
        decreases cols - c,
    {
        max = max.max(x.get(base + c));
        c += 1;
    }
    let ghost m = max;
    let mut exps: Vec<T> = Vec::new();
    let mut sum = T::zero();
    let mut c: usize = 0;
    while c < cols
        invariant
            len == xd.len(),
            xd == x.spec_data(),
            base == r * cols,
            base + cols <= len,
            0 <= c <= cols,
            max == m,
            exps@.len() == c,
            forall|q: int| 0 <= q < c ==> #[trigger] exps@[q] == shifted_exp(xd, r as int, cols as int, m, q),
            sum == exp_total(xd, r as int, cols as int, m, c as int),
        decreases cols - c,
    {
        let e = x.get(base + c).sub(max).exp();
        exps.push(e);
        sum = sum.add(e);
        c += 1;
    }
    let mut c: usize = 0;
    while c < cols
        invariant
            exps@.len() == cols,
            forall|q: int| 0 <= q < cols ==> #[trigger] exps@[q] == shifted_exp(xd, r as int, cols as int, m, q),
            m == row_max(xd, r as int, cols as int, cols as int),
            sum == exp_total(xd, r as int, cols as int, m, cols as int),
            0 <= c <= cols,
            out@ == start + Seq::new(c as nat, |q: int| softmax_at(xd, r as int, cols as int, q)),
        decreases cols - c,
    {
        out.push(exps[c].div(sum));
        c += 1;
        assert(out@ =~= start + Seq::new(c as nat, |q: int| softmax_at(xd, r as int, cols as int, q)));
    }
}

/// Appends the softmax gradient of row `r`, given the softmax `y` of `x` and the output
/// gradient `g`.
fn softmax_grad_row<T: Scalar>(
    y: &Tensor<T>,
    g: &Tensor<T>,
    r: usize,
    cols: usize,
    out: &mut Vec<T>,
    Ghost(xd): Ghost<Seq<T>>,
)
    requires
        r * cols + cols <= y.spec_data().len(),
        r * cols + cols <= g.spec_data().len(),
        forall|c: int| 0 <= c < cols ==> y.spec_data()[r * cols + c] == #[trigger] softmax_at(xd, r as int, cols as int, c),
    ensures
        final(out)@ == old(out)@ + Seq::new(
            cols as nat,
            |c: int| softmax_grad_at(g.spec_data(), xd, r as int, cols as int, c),
        ),
{
    let ghost gd = g.spec_data();
    let ghost start = out@;
    let len = y.data().len();
    let base = r * cols;
    let mut dot = T::zero();
    let mut c: usize = 0;
    while c < cols
        invariant
            len == y.spec_data().len(),
            base == r * cols,
            base + cols <= y.spec_data().len(),
            base + cols <= g.spec_data().len(),
            gd == g.spec_data(),
            forall|c: int| 0 <= c < cols ==> y.spec_data()[r * cols + c] == #[trigger] softmax_at(xd, r as int, cols as int, c),
            0 <= c <= cols,
            dot == softmax_dot(gd, xd, r as int, cols as int, c as int),
        decreases cols - c,
    {
        assert(y.spec_data()[r * cols + c] == softmax_at(xd, r as int, cols as int, c as int));
        dot = dot.add(g.get(base + c).mul(y.get(base + c)));
        c += 1;
    }
    let mut c: usize = 0;
    while c < cols
        invariant
            len == y.spec_data().len(),
            base == r * cols,
            base + cols <= y.spec_data().len(),
            base + cols <= g.spec_data().len(),
            gd == g.spec_data(),
            forall|c: int| 0 <= c < cols ==> y.spec_data()[r * cols + c] == #[trigger] softmax_at(xd, r as int, cols as int, c),
            dot == softmax_dot(gd, xd, r as int, cols as int, cols as int),
            0 <= c <= cols,
            out@ == start + Seq::new(c as nat, |q: int| softmax_grad_at(gd, xd, r as int, cols as int, q)),
        decreases cols - c,
    {
        assert(y.spec_data()[r * cols + c] == softmax_at(xd, r as int, cols as int, c as int));
        out.push(y.get(base + c).mul(g.get(base + c).sub(dot)));
        c += 1;
        assert(out@ =~= start + Seq::new(c as nat, |q: int| softmax_grad_at(gd, xd, r as int, cols as int, q)));
    }
}

/// Row-wise softmax of `rows` rows of `cols` elements.
fn softmax_rows_of<T: Scalar>(x: &Tensor<T>, rows: usize, cols: usize) -> (out: Vec<T>)
    requires
        x.spec_data().len() == rows * cols,
    ensures
        out@.len() == rows * cols,
        forall|rr: int, c: int|
            0 <= rr < rows && 0 <= c < cols ==> out@[rr * cols + c] == #[trigger] softmax_at(
                x.spec_data(),
                rr,
                cols as int,
                c,
            ),
{
    let len = x.data().len();
    let mut out: Vec<T> = Vec::new();
    let mut r: usize = 0;
    while r < rows
        invariant
            len == x.spec_data().len(),
            x.spec_data().len() == rows * cols,
            0 <= r <= rows,
            out@.len() == r * cols,
            forall|rr: int, c: int|
                0 <= rr < r && 0 <= c < cols ==> out@[rr * cols + c] == #[trigger] softmax_at(
                    x.spec_data(),
                    rr,
                    cols as int,
                    c,
                ),
        decreases rows - r,
    {
        proof {
            assert(r * cols + cols <= rows * cols) by (nonlinear_arith)
                requires
                    r < rows,
            ;
            assert((r + 1) * cols == r * cols + cols) by (nonlinear_arith);
        }
        let ghost before = out@;
        softmax_row(x, r, cols, &mut out);
        proof {
            assert forall|rr: int, c: int|
                0 <= rr < r + 1 && 0 <= c < cols implies out@[rr * cols + c] == #[trigger] softmax_at(
                x.spec_data(),
                rr,
                cols as int,
                c,
            ) by {
                if rr < r {
                    assert(rr * cols + c < r * cols) by (nonlinear_arith)
                        requires
                            0 <= rr < r,
                            0 <= c < cols,
                    ;
                    assert(out@[rr * cols + c] == before[rr * cols + c]);
                } else {
                    assert(out@[rr * cols + c] == out@[before.len() + c]);
                }
            }
        }
        r += 1;
    }
    out
}

/// Row-wise softmax gradient.
fn softmax_grad_rows_of<T: Scalar>(y: &Tensor<T>, g: &Tensor<T>, rows: usize, cols: usize, Ghost(xd): Ghost<Seq<T>>) -> (out: Vec<T>)
    requires
        y.spec_data().len() == rows * cols,
        g.spec_data().len() == rows * cols,
        forall|rr: int, c: int|
            0 <= rr < rows && 0 <= c < cols ==> y.spec_data()[rr * cols + c] == #[trigger] softmax_at(xd, rr, cols as int, c),
    ensures
        out@.len() == rows * cols,
        forall|rr: int, c: int|
            0 <= rr < rows && 0 <= c < cols ==> out@[rr * cols + c] == #[trigger] softmax_grad_at(
                g.spec_data(),
                xd,
                rr,
                cols as int,
                c,
            ),
{
    let len = y.data().len();
    let mut out: Vec<T> = Vec::new();
    let mut r: usize = 0;
    while r < rows
        invariant
            len == y.spec_data().len(),
            y.spec_data().len() == rows * cols,
            g.spec_data().len() == rows * cols,
            forall|rr: int, c: int|
                0 <= rr < rows && 0 <= c < cols ==> y.spec_data()[rr * cols + c] == #[trigger] softmax_at(xd, rr, cols as int, c),
            0 <= r <= rows,
            out@.len() == r * cols,
            forall|rr: int, c: int|
                0 <= rr < r && 0 <= c < cols ==> out@[rr * cols + c] == #[trigger] softmax_grad_at(
                    g.spec_data(),
                    xd,
                    rr,
                    cols as int,
                    c,
                ),
        decreases rows - r,
    {
        proof {
            assert(r * cols + cols <= rows * cols) by (nonlinear_arith)
                requires
                    r < rows,
            ;
            assert((r + 1) * cols == r * cols + cols) by (nonlinear_arith);
            assert forall|c: int| 0 <= c < cols implies y.spec_data()[r * cols + c] == #[trigger] softmax_at(xd, r as int, cols as int, c) by {
                assert(y.spec_data()[r * cols + c] == softmax_at(xd, r as int, cols as int, c));
            }
        }
        let ghost before = out@;
        softmax_grad_row(y, g, r, cols, &mut out, Ghost(xd));
        proof {
            assert forall|rr: int, c: int|
                0 <= rr < r + 1 && 0 <= c < cols implies out@[rr * cols + c] == #[trigger] softmax_grad_at(
                g.spec_data(),
                xd,
                rr,
                cols as int,
                c,
            ) by {
                if rr < r {
                    assert(rr * cols + c < r * cols) by (nonlinear_arith)
                        requires
                            0 <= rr < r,
                            0 <= c < cols,
                    ;
                    assert(out@[rr * cols + c] == before[rr * cols + c]);
                } else {
                    assert(out@[rr * cols + c] == out@[before.len() + c]);
                }
            }
        }
        r += 1;
    }
    out
}

/// Rows and row length of a rank-one or rank-two tensor, with their product its size.
fn softmax_layout<T: Scalar>(x: &Tensor<T>) -> (rc: (usize, usize))
    requires
        x.wf(),
        x.spec_shape().len() == 1 || x.spec_shape().len() == 2,
    ensures
        rc.0 == softmax_rows(x.spec_shape()),
        rc.1 == softmax_cols(x.spec_shape()),
        x.spec_data().len() == rc.0 * rc.1,
{
    proof {
        x.lemma_wf();
    }
    if x.shape().len() == 1 {
        let n = x.shape()[0];
        proof {
            lemma_shape_single(n);
            assert(x.spec_shape() =~= seq![n]);
        }
        (1, n)
    } else {
        let rows = x.shape()[0];
        let cols = x.shape()[1];
        proof {
            lemma_shape2(rows, cols);
            assert(x.spec_shape() =~= seq![rows, cols]);
        }
        (rows, cols)
    }
}

/// Numerically stabilized softmax of a rank-one tensor, or of each row of a rank-two tensor.
#[derive(Clone, Copy, Debug)]
pub struct SoftmaxOp;

impl<T: Scalar> Op<T> for SoftmaxOp {
    open spec fn spec_kind(&self) -> OpKind {
        OpKind::Softmax
    }

    open spec fn arity(&self) -> nat {
        1
    }

    open spec fn forward_outcome(&self, inputs: Seq<Tensor<T>>, r: Result<Tensor<T>, ComputeError>) -> bool {
        let s = inputs[0].spec_shape();
        &&& (s.len() != 1 && s.len() != 2 ==> r matches Err(ComputeError::DimensionError { .. }))
        &&& (s.len() == 1 || s.len() == 2 ==> (r matches Ok(t) && t.wf() && t.spec_shape() == s
            && forall|rr: int, c: int|
            0 <= rr < softmax_rows(s) && 0 <= c < softmax_cols(s) ==> t.spec_data()[rr
                * softmax_cols(s) + c] == #[trigger] softmax_at(
                inputs[0].spec_data(),
                rr,
                softmax_cols(s),
                c,
            )))
    }

    /// `y ⊙ (grad − Σ grad⊙y)` per row, with `y` the softmax of the operand; the output
    /// gradient must have the operand's shape.
    open spec fn backward_outcome(
        &self,
        inputs: Seq<Tensor<T>>,
        grad_output: Tensor<T>,
        r: Result<Vec<Tensor<T>>, ComputeError>,
    ) -> bool {
        let s = inputs[0].spec_shape();
        &&& (s.len() != 1 && s.len() != 2 ==> r matches Err(ComputeError::DimensionError { .. }))
        &&& ((s.len() == 1 || s.len() == 2) && grad_output.spec_shape() != s ==> r matches Err(
            ComputeError::InvalidOperation { .. },
        ))
        &&& ((s.len() == 1 || s.len() == 2) && grad_output.spec_shape() == s ==> (r matches Ok(gs)
            && gs@[0].spec_shape() == s && forall|rr: int, c: int|
            0 <= rr < softmax_rows(s) && 0 <= c < softmax_cols(s) ==> gs@[0].spec_data()[rr
                * softmax_cols(s) + c] == #[trigger] softmax_grad_at(
                grad_output.spec_data(),
                inputs[0].spec_data(),
                rr,
                softmax_cols(s),
                c,
            )))
    }

    fn kind(&self) -> (k: OpKind) {
        OpKind::Softmax
    }

    fn forward(&self, inputs: &[Tensor<T>]) -> (r: Result<Tensor<T>, ComputeError>) {
        if inputs.len() != 1 {
            return Err(arity_error(1, inputs.len()));
        }
        let x = &inputs[0];
        if x.shape().len() != 1 && x.shape().len() != 2 {
            return Err(
                ComputeError::DimensionError {
                    message: String::from_str("softmax supports rank one or two"),
                },
            );
        }
        proof {
            x.lemma_wf();
        }
        let (rows, cols) = softmax_layout(x);
        let out = softmax_rows_of(x, rows, cols);
        match Tensor::new(out, x.shape_vec()) {
            Ok(t) => Ok(t),
            Err(_) => {
                assert(false);
                Err(arity_error(1, 1))
            },
        }
    }

    fn backward(&self, inputs: &[Tensor<T>], grad_output: &Tensor<T>) -> (r: Result<
        Vec<Tensor<T>>,
        ComputeError,
    >) {
        if inputs.len() != 1 {
            return Err(arity_error(1, inputs.len()));
        }
        let x = &inputs[0];
        let y = self.forward(inputs)?;
        proof {
            x.lemma_wf();
            y.lemma_wf();
            grad_output.lemma_wf();
        }
        if !same_dims(x.shape(), grad_output.shape()) {
            return Err(
                ComputeError::InvalidOperation {
                    message: String::from_str("output gradient shape differs from the operand"),
                },
            );
        }
        let (rows, cols) = softmax_layout(x);
        let grad = softmax_grad_rows_of(&y, grad_output, rows, cols, Ghost(x.spec_data()));
        match Tensor::new(grad, x.shape_vec()) {
            Ok(t) => Ok(vec![t]),
            Err(_) => {
                assert(false);
                Err(arity_error(1, 1))
            },
        }
    }
}

/// Whether two shapes are equal, dimension for dimension.
fn same_dims(a: &[usize], b: &[usize]) -> (r: bool)
    ensures
        r == (a@ == b@),
{
    if a.len() != b.len() {
        return false;
    }
    let mut i: usize = 0;
    while i < a.len()
        invariant
            0 <= i <= a@.len() == b@.len(),
            forall|j: int| 0 <= j < i ==> #[trigger] a@[j] == b@[j],
        decreases a@.len() - i,
    {
        if a[i] != b[i] {
            return false;
        }
        i += 1;
    }
    assert(a@ =~= b@);
    true
}

impl<T: Scalar> Op<T> for OpKind {
    open spec fn spec_kind(&self) -> OpKind {
        *self
    }

    open spec fn arity(&self) -> nat {
        match self {
            OpKind::Add | OpKind::Subtract | OpKind::Multiply | OpKind::Divide | OpKind::MatMul => 2,
            _ => 1,
        }
    }

    open spec fn forward_outcome(&self, inputs: Seq<Tensor<T>>, r: Result<Tensor<T>, ComputeError>) -> bool {
        match self {
            OpKind::Add => AddOp.forward_outcome(inputs, r),
            OpKind::Subtract => SubtractOp.forward_outcome(inputs, r),
            OpKind::Multiply => MultiplyOp.forward_outcome(inputs, r),
            OpKind::Divide => DivideOp.forward_outcome(inputs, r),
            OpKind::MatMul => MatMulOp.forward_outcome(inputs, r),
            OpKind::Relu => ReluOp.forward_outcome(inputs, r),
            OpKind::Sum(dim) => (SumOp { dim: *dim }).forward_outcome(inputs, r),
            OpKind::Log => LogOp.forward_outcome(inputs, r),
            OpKind::Softmax => SoftmaxOp.forward_outcome(inputs, r),
        }
    }

    open spec fn backward_outcome(
        &self,
        inputs: Seq<Tensor<T>>,
        grad_output: Tensor<T>,
        r: Result<Vec<Tensor<T>>, ComputeError>,
    ) -> bool {
        match self {
            OpKind::Add => AddOp.backward_outcome(inputs, grad_output, r),
            OpKind::Subtract => SubtractOp.backward_outcome(inputs, grad_output, r),
            OpKind::Multiply => MultiplyOp.backward_outcome(inputs, grad_output, r),
            OpKind::Divide => DivideOp.backward_outcome(inputs, grad_output, r),
            OpKind::MatMul => MatMulOp.backward_outcome(inputs, grad_output, r),
            OpKind::Relu => ReluOp.backward_outcome(inputs, grad_output, r),
            OpKind::Sum(dim) => (SumOp { dim: *dim }).backward_outcome(inputs, grad_output, r),
            OpKind::Log => LogOp.backward_outcome(inputs, grad_output, r),
            OpKind::Softmax => SoftmaxOp.backward_outcome(inputs, grad_output, r),
        }
    }

    fn kind(&self) -> (k: OpKind) {
        *self
    }

    fn forward(&self, inputs: &[Tensor<T>]) -> (r: Result<Tensor<T>, ComputeError>) {
        match self {
            OpKind::Add => AddOp.forward(inputs),
            OpKind::Subtract => SubtractOp.forward(inputs),
            OpKind::Multiply => MultiplyOp.forward(inputs),
            OpKind::Divide => DivideOp.forward(inputs),
            OpKind::MatMul => MatMulOp.forward(inputs),
            OpKind::Relu => ReluOp.forward(inputs),
            OpKind::Sum(dim) => (SumOp { dim: *dim }).forward(inputs),
            OpKind::Log => LogOp.forward(inputs),
            OpKind::Softmax => SoftmaxOp.forward(inputs),
        }
    }

    fn backward(&self, inputs: &[Tensor<T>], grad_output: &Tensor<T>) -> (r: Result<
        Vec<Tensor<T>>,
        ComputeError,
    >) {
        match self {
            OpKind::Add => AddOp.backward(inputs, grad_output),
            OpKind::Subtract => SubtractOp.backward(inputs, grad_output),
            OpKind::Multiply => MultiplyOp.backward(inputs, grad_output),
            OpKind::Divide => DivideOp.backward(inputs, grad_output),
            OpKind::MatMul => MatMulOp.backward(inputs, grad_output),
            OpKind::Relu => ReluOp.backward(inputs, grad_output),
            OpKind::Sum(dim) => (SumOp { dim: *dim }).backward(inputs, grad_output),
            OpKind::Log => LogOp.backward(inputs, grad_output),
            OpKind::Softmax => SoftmaxOp.backward(inputs, grad_output),
        }
    }
}

} // verus!
