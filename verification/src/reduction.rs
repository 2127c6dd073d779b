//! The reductions of a whole array, and the traits of arrays.

use vstd::prelude::*;

use crate::access::Access;
use crate::array::Array;
use crate::ctype::{one, spec_one, spec_zero, zero, CType};
use crate::error::{outcome, Error, ErrorKind};
use crate::kernel::ZipOp;
use crate::ops::reduce::{fold, fold_spec};
use crate::platform::PlatformInstance;
use crate::shape::{product, shape_size};

verus! {

/// An n-dimensional array.
pub trait NDArray: Sized {
    /// The type of the elements of this array.
    type DType: CType;

    /// The type of the platform of this array.
    type Platform: PlatformInstance;

    /// The dimensions of this array.
    spec fn spec_shape(&self) -> Seq<usize>;

    /// Whether this array is well formed.
    spec fn spec_wf(&self) -> bool;

    /// What a read of all the elements of this array gives.
    spec fn spec_value(&self) -> Result<Seq<Self::DType>, ErrorKind>;

    /// The number of axes of this array.
    fn ndim(&self) -> (n: usize)
        ensures
            n == self.spec_shape().len(),
    ;

    /// The number of elements of this array.
    fn size(&self) -> (n: usize)
        requires
            self.spec_wf(),
        ensures
            n == product(self.spec_shape()),
    ;

    /// The dimensions of this array.
    fn shape(&self) -> (dims: &[usize])
        ensures
            dims@ == self.spec_shape(),
    ;
}

/// Whether no element is 0.
pub open spec fn all_nonzero<T: CType>(items: Seq<T>) -> bool {
    forall|i: int| 0 <= i < items.len() ==> (#[trigger] items[i]).as_int() != 0
}

/// Whether an element is not 0.
pub open spec fn any_nonzero<T: CType>(items: Seq<T>) -> bool {
    exists|i: int| 0 <= i < items.len() && (#[trigger] items[i]).as_int() != 0
}

/// What a reduction of a whole array gives: the fold of its elements, where they can be read.
pub open spec fn fold_all<T: CType>(
    op: ZipOp,
    start: T,
    value: Result<Seq<T>, ErrorKind>,
) -> Result<T, ErrorKind> {
    match value {
        Ok(items) => fold_spec(op, start, items),
        Err(kind) => Err(kind),
    }
}

/// The reductions of a whole array to a truth value.
pub trait NDArrayReduceBoolean: NDArray {
    /// Whether no element of this array is 0.
    fn all(self) -> (r: Result<bool, Error>)
        requires
            self.spec_wf(),
        ensures
            outcome(r) == (match self.spec_value() {
                Ok(items) => Ok(all_nonzero(items)),
                Err(kind) => Err(kind),
            }),
    ;

    /// Whether an element of this array is not 0.
    fn any(self) -> (r: Result<bool, Error>)
        requires
            self.spec_wf(),
        ensures
            outcome(r) == (match self.spec_value() {
                Ok(items) => Ok(any_nonzero(items)),
                Err(kind) => Err(kind),
            }),
    ;
}

/// The reductions of a whole array to one element.
pub trait NDArrayReduceAll: NDArray {
    /// The greatest element of this array.
    fn max_all(self) -> (r: Result<Self::DType, Error>)
        requires
            self.spec_wf(),
        ensures
            outcome(r) == fold_all(
                ZipOp::Max,
                Self::DType::from_int(Self::DType::min_int()),
                self.spec_value(),
            ),
    ;

    /// The least element of this array.
    fn min_all(self) -> (r: Result<Self::DType, Error>)
        requires
            self.spec_wf(),
        ensures
            outcome(r) == fold_all(
                ZipOp::Min,
                Self::DType::from_int(Self::DType::max_int()),
                self.spec_value(),
            ),
    ;

    /// The product of the elements of this array; a product that the element type cannot hold
    /// is an arithmetic error.
    fn product_all(self) -> (r: Result<Self::DType, Error>)
        requires
            self.spec_wf(),
        ensures
            outcome(r) == fold_all(ZipOp::Mul, spec_one::<Self::DType>(), self.spec_value()),
    ;

    /// The sum of the elements of this array; a sum that the element type cannot hold is an
    /// arithmetic error.
    fn sum_all(self) -> (r: Result<Self::DType, Error>)
        requires
            self.spec_wf(),
        ensures
            outcome(r) == fold_all(ZipOp::Add, spec_zero::<Self::DType>(), self.spec_value()),
    ;
}

impl<T: CType, A: Access<T>, P: PlatformInstance> NDArray for Array<T, A, P> {
    type DType = T;

    type Platform = P;

    open spec fn spec_shape(&self) -> Seq<usize> {
        self.dims()
    }

    open spec fn spec_wf(&self) -> bool {
        self.wf()
    }

    open spec fn spec_value(&self) -> Result<Seq<T>, ErrorKind> {
        self.value()
    }

    fn ndim(&self) -> (n: usize) {
        self.dims_slice().len()
    }

    fn size(&self) -> (n: usize) {
        match shape_size(self.dims_slice()) {
            Some(n) => n,
            None => 0,
        }
    }

    fn shape(&self) -> (dims: &[usize]) {
        self.dims_slice()
    }
}

impl<T: CType, A: Access<T>, P: PlatformInstance> Array<T, A, P> {
    /// The fold of all the elements of this array.
    fn reduce_all(self, op: ZipOp, start: T) -> (r: Result<T, Error>)
        requires
            self.wf(),
        ensures
            outcome(r) == fold_all(op, start, self.value()),
    {
        match self.buffer() {
            Ok(items) => fold(op, start, items.as_slice()),
            Err(error) => Err(error),
        }
    }
}

impl<T: CType, A: Access<T>, P: PlatformInstance> NDArrayReduceBoolean for Array<T, A, P> {
    fn all(self) -> (r: Result<bool, Error>) {
        let buffer = match self.buffer() {
            Ok(buffer) => buffer,
            Err(error) => {
                return Err(error);
            },
        };
        let items = buffer.as_slice();
        let mut i: usize = 0;
        while i < items.len()
            invariant
                i <= items.len(),
                self.value() == Ok::<Seq<T>, ErrorKind>(items@),
                forall|k: int| 0 <= k < i ==> (#[trigger] items@[k]).as_int() != 0,
            decreases items.len() - i,
        {
            if items[i].widen() == 0 {
                assert(items@[i as int].as_int() == 0);
                assert(!all_nonzero(items@));
                return Ok(false);
            }
            i = i + 1;
        }
        Ok(true)
    }

    fn any(self) -> (r: Result<bool, Error>) {
        let buffer = match self.buffer() {
            Ok(buffer) => buffer,
            Err(error) => {
                return Err(error);
            },
        };
        let items = buffer.as_slice();
        let mut i: usize = 0;
        while i < items.len()
            invariant
                i <= items.len(),
                self.value() == Ok::<Seq<T>, ErrorKind>(items@),
                forall|k: int| 0 <= k < i ==> (#[trigger] items@[k]).as_int() == 0,
            decreases items.len() - i,
        {
            if items[i].widen() != 0 {
                assert(items@[i as int].as_int() != 0);
                assert(any_nonzero(items@));
                return Ok(true);
            }
            i = i + 1;
        }
        Ok(false)
    }
}

impl<T: CType, A: Access<T>, P: PlatformInstance> NDArrayReduceAll for Array<T, A, P> {
    fn max_all(self) -> (r: Result<T, Error>) {
        self.reduce_all(ZipOp::Max, T::min_value())
    }

    fn min_all(self) -> (r: Result<T, Error>) {
        self.reduce_all(ZipOp::Min, T::max_value())
    }

    fn product_all(self) -> (r: Result<T, Error>) {
        self.reduce_all(ZipOp::Mul, one::<T>())
    }

    fn sum_all(self) -> (r: Result<T, Error>) {
        self.reduce_all(ZipOp::Add, zero::<T>())
    }
}

} // verus!
