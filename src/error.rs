use vstd::prelude::*;

verus! {

/// The failures that tensor, operation and graph functions report.
#[derive(Debug, Clone)]
pub enum ComputeError {
    /// A buffer whose length is not the product of the shape.
    ShapeMismatch { expected: usize, got: usize },
    /// A rank or axis that the operation cannot take.
    DimensionError { message: String },
    /// An operation called with the wrong number of operands.
    InputCountError { expected: usize, got: usize },
    /// Two shapes that do not broadcast: the output dimension and both sizes.
    BroadcastError { dim: usize, shape1: usize, shape2: usize },
    /// A contract of an operation or of the graph that was not met.
    InvalidOperation { message: String },
    /// A node, coordinate or operand position out of range.
    IndexError { message: String },
}

impl ComputeError {
    /// A one-line description of the error.
    pub fn describe(&self) -> (r: String) {
        match self {
            ComputeError::ShapeMismatch { .. } => String::from_str("shape mismatch"),
            ComputeError::DimensionError { message } => {
                let mut s = String::from_str("dimension error: ");
                s.append(message.as_str());
                s
            },
            ComputeError::InputCountError { .. } => String::from_str("input count error"),
            ComputeError::BroadcastError { .. } => String::from_str("broadcast error"),
            ComputeError::InvalidOperation { message } => {
                let mut s = String::from_str("invalid operation: ");
                s.append(message.as_str());
                s
            },
            ComputeError::IndexError { message } => {
                let mut s = String::from_str("index error: ");
                s.append(message.as_str());
                s
            },
        }
    }
}

} // verus!
