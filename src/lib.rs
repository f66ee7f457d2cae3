//! A reverse-mode automatic-differentiation engine over an append-only
//! computation graph. Numeric kernels come from a pluggable [`Backend`];
//! the engine evaluates a graph with memoization and propagates gradients
//! back to every node that contributed to an output.
pub mod accumulate;
pub mod backend;
pub mod graph;
pub mod state;
pub mod tape;
pub mod tensor;

pub use accumulate::AccumulateTensors;
pub use backend::{Backend, Error, ImOp, Inputs, TensorData};
pub use graph::{Graph, Input, Internal, Op, OpTy};
pub use state::{generate_state, train};
pub use tape::{backward, forward, Tape};
pub use tensor::Tensor;
