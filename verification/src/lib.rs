//! An n-dimensional array engine: arrays carry a shape and an accessor, which is either a buffer
//! or an operation over other accessors that is evaluated when a reader asks for its data.

pub mod access;
pub mod algebra;
pub mod array;
pub mod axes;
pub mod buffer;
pub mod compose;
pub mod ctype;
pub mod device;
pub mod error;
pub mod index;
pub mod integers;
pub mod kernel;
pub mod laws;
pub mod ops;
pub mod permutation;
pub mod platform;
pub mod random;
pub mod range;
pub mod reduction;
pub mod shape;
pub mod transform;

pub use access::{Access, AccessBuf, AccessMut};
pub use array::Array;
pub use buffer::{Buffer, SliceConverter, StackVec, VEC_MIN_SIZE};
pub use ctype::CType;
pub use error::{Error, ErrorKind};
pub use platform::{Constant, Convert, Heap, Host, Platform, PlatformInstance, Stack};
pub use range::{AxisRange, Range};
pub use reduction::{NDArray, NDArrayReduceAll, NDArrayReduceBoolean};
pub use shape::{Axes, Shape, Strides};
pub use transform::Accessor;
