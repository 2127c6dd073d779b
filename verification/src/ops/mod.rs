//! The operations of the array engine. Each is an accessor over its operands: it is evaluated
//! when a reader asks for its elements.

pub mod elementwise;
pub mod linalg;
pub mod reduce;
pub mod view;

pub use elementwise::{Cast, Cond, Dual, Linear, Scalar, Unary};
pub use linalg::{MatDiag, MatMul};
pub use reduce::Reduce;
pub use view::{Slice, SliceSpec, View, ViewSpec};
