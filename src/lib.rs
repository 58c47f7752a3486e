//! A small automatic-differentiation engine: dense row-major tensors with
//! broadcasting arithmetic, and an append-only computational graph with
//! reverse-mode gradients. The engine is generic over its element type through
//! the `Scalar` trait.
pub mod error;
pub mod graph;
pub mod industrial;
pub mod layers;
pub mod losses;
pub mod ops;
pub mod optim;
pub mod prng;
pub mod run_manifest;
pub mod tensor;
pub mod tensor_index;
pub mod timeseries;

pub use error::ComputeError;
pub use graph::{Graph, Node};
pub use ops::{
    AddOp, DivideOp, InvertibleOp, LogOp, MatMulOp, MultiplyOp, Op, OpKind, ReluOp, SoftmaxOp,
    SubtractOp, SumOp,
};
pub use tensor::{Scalar, Tensor};
