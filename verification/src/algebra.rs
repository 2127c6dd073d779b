//! The elementwise operations of an array: arithmetic, logic, comparison, conversion and
//! selection.

use vstd::prelude::*;

use crate::access::Access;
use crate::array::Array;
use crate::ctype::CType;
use crate::error::{Error, ErrorKind};
use crate::kernel::{MapOp, ZipOp};
use crate::ops::{Cast, Cond, Dual, Scalar, Unary};
use crate::platform::PlatformInstance;
use crate::shape::same_shape;

verus! {

impl<T: CType, A: Access<T>, P: PlatformInstance> Array<T, A, P> {
    /// The elementwise operation `zip` on this array and `other`, which must have one shape.
    fn apply_dual<R: Access<T>, OT: CType>(
        self,
        other: Array<T, R, P>,
        op_name: &'static str,
        zip: ZipOp,
    ) -> (r: Result<Array<OT, Dual<A, R, T, OT>, P>, Error>)
        requires
            self.wf(),
            other.wf(),
        ensures
            r is Ok <==> self.dims() == other.dims(),
            r matches Ok(out) ==> out.wf() && out.dims() == self.dims() && out.spec_platform()
                == self.spec_platform() && out.accessor().left == self.accessor()
                && out.accessor().right == other.accessor() && out.accessor().zip == zip,
            r matches Err(error) ==> error.kind() == ErrorKind::Bounds,
    {
        match same_shape(op_name, self.dims_slice(), other.dims_slice()) {
            Ok(()) => {
                let (shape, left, platform) = self.into_parts();
                let (_, right, _) = other.into_parts();
                Ok(Array::from_parts(shape, Dual::new(left, right, zip), platform))
            },
            Err(error) => Err(error),
        }
    }

    /// The elementwise operation `op` on this array and `scalar`.
    fn apply_scalar<OT: CType>(self, scalar: T, op: ZipOp) -> (out: Array<
        OT,
        Scalar<A, T, OT>,
        P,
    >)
        requires
            self.wf(),
        ensures
            out.wf(),
            out.dims() == self.dims(),
            out.spec_platform() == self.spec_platform(),
            out.accessor().access == self.accessor(),
            out.accessor().scalar == scalar,
            out.accessor().op == op,
    {
        let (shape, access, platform) = self.into_parts();
        Array::from_parts(shape, Scalar::new(access, scalar, op), platform)
    }

    /// The elementwise operation `op` on this array.
    fn apply<OT: CType>(self, op: MapOp) -> (out: Array<OT, Unary<A, T, OT>, P>)
        requires
            self.wf(),
        ensures
            out.wf(),
            out.dims() == self.dims(),
            out.spec_platform() == self.spec_platform(),
            out.accessor().access == self.accessor(),
            out.accessor().op == op,
    {
        let (shape, access, platform) = self.into_parts();
        Array::from_parts(shape, Unary::new(access, op), platform)
    }

    /// The sums of the elements of this array and `rhs`. The arrays must have one shape: any other
    /// pair is a bounds error.
    pub fn add<R: Access<T>>(self, rhs: Array<T, R, P>) -> (r: Result<
        Array<T, Dual<A, R, T, T>, P>,
        Error,
    >)
        requires
            self.wf(),
            rhs.wf(),
        ensures
            r is Ok <==> self.dims() == rhs.dims(),
            r matches Ok(out) ==> out.wf() && out.dims() == self.dims() && out.spec_platform()
                == self.spec_platform() && out.accessor().left == self.accessor()
                && out.accessor().right == rhs.accessor() && out.accessor().zip
                == ZipOp::Add,
            r matches Err(error) ==> error.kind() == ErrorKind::Bounds,
    {
        self.apply_dual(rhs, "add", ZipOp::Add)
    }

    /// The quotients of the elements of this array by those of `rhs`, rounded toward zero. The
    /// arrays must have one shape: any other pair is a bounds error.
    pub fn div<R: Access<T>>(self, rhs: Array<T, R, P>) -> (r: Result<
        Array<T, Dual<A, R, T, T>, P>,
        Error,
    >)
        requires
            self.wf(),
            rhs.wf(),
        ensures
            r is Ok <==> self.dims() == rhs.dims(),
            r matches Ok(out) ==> out.wf() && out.dims() == self.dims() && out.spec_platform()
                == self.spec_platform() && out.accessor().left == self.accessor()
                && out.accessor().right == rhs.accessor() && out.accessor().zip
                == ZipOp::Div,
            r matches Err(error) ==> error.kind() == ErrorKind::Bounds,
    {
        self.apply_dual(rhs, "div", ZipOp::Div)
    }

    /// The products of the elements of this array and `rhs`. The arrays must have one shape: any
    /// other pair is a bounds error.
    pub fn mul<R: Access<T>>(self, rhs: Array<T, R, P>) -> (r: Result<
        Array<T, Dual<A, R, T, T>, P>,
        Error,
    >)
        requires
            self.wf(),
            rhs.wf(),
        ensures
            r is Ok <==> self.dims() == rhs.dims(),
            r matches Ok(out) ==> out.wf() && out.dims() == self.dims() && out.spec_platform()
                == self.spec_platform() && out.accessor().left == self.accessor()
                && out.accessor().right == rhs.accessor() && out.accessor().zip
                == ZipOp::Mul,
            r matches Err(error) ==> error.kind() == ErrorKind::Bounds,
    {
        self.apply_dual(rhs, "mul", ZipOp::Mul)
    }

    /// The elements of this array to the power of those of `exp`. The arrays must have one shape:
    /// any other pair is a bounds error.
    pub fn pow<R: Access<T>>(self, exp: Array<T, R, P>) -> (r: Result<
        Array<T, Dual<A, R, T, T>, P>,
        Error,
    >)
        requires
            self.wf(),
            exp.wf(),
        ensures
            r is Ok <==> self.dims() == exp.dims(),
            r matches Ok(out) ==> out.wf() && out.dims() == self.dims() && out.spec_platform()
                == self.spec_platform() && out.accessor().left == self.accessor()
                && out.accessor().right == exp.accessor() && out.accessor().zip
                == ZipOp::Pow,
            r matches Err(error) ==> error.kind() == ErrorKind::Bounds,
    {
        self.apply_dual(exp, "pow", ZipOp::Pow)
    }

    /// The differences of the elements of this array and `rhs`. The arrays must have one shape: any
    /// other pair is a bounds error.
    pub fn sub<R: Access<T>>(self, rhs: Array<T, R, P>) -> (r: Result<
        Array<T, Dual<A, R, T, T>, P>,
        Error,
    >)
        requires
            self.wf(),
            rhs.wf(),
        ensures
            r is Ok <==> self.dims() == rhs.dims(),
            r matches Ok(out) ==> out.wf() && out.dims() == self.dims() && out.spec_platform()
                == self.spec_platform() && out.accessor().left == self.accessor()
                && out.accessor().right == rhs.accessor() && out.accessor().zip
                == ZipOp::Sub,
            r matches Err(error) ==> error.kind() == ErrorKind::Bounds,
    {
        self.apply_dual(rhs, "sub", ZipOp::Sub)
    }

    /// The remainders of the elements of this array by those of `rhs`. The arrays must have one
    /// shape: any other pair is a bounds error.
    pub fn rem<R: Access<T>>(self, rhs: Array<T, R, P>) -> (r: Result<
        Array<T, Dual<A, R, T, T>, P>,
        Error,
    >)
        requires
            self.wf(),
            rhs.wf(),
        ensures
            r is Ok <==> self.dims() == rhs.dims(),
            r matches Ok(out) ==> out.wf() && out.dims() == self.dims() && out.spec_platform()
                == self.spec_platform() && out.accessor().left == self.accessor()
                && out.accessor().right == rhs.accessor() && out.accessor().zip
                == ZipOp::Rem,
            r matches Err(error) ==> error.kind() == ErrorKind::Bounds,
    {
        self.apply_dual(rhs, "rem", ZipOp::Rem)
    }

    /// 1 where the elements of this array and `other` are both not 0, else 0. The arrays must have
    /// one shape: any other pair is a bounds error.
    pub fn and<R: Access<T>>(self, other: Array<T, R, P>) -> (r: Result<
        Array<u8, Dual<A, R, T, u8>, P>,
        Error,
    >)
        requires
            self.wf(),
            other.wf(),
        ensures
            r is Ok <==> self.dims() == other.dims(),
            r matches Ok(out) ==> out.wf() && out.dims() == self.dims() && out.spec_platform()
                == self.spec_platform() && out.accessor().left == self.accessor()
                && out.accessor().right == other.accessor() && out.accessor().zip
                == ZipOp::And,
            r matches Err(error) ==> error.kind() == ErrorKind::Bounds,
    {
        self.apply_dual(other, "and", ZipOp::And)
    }

    /// 1 where an element of this array or of `other` is not 0, else 0. The arrays must have one
    /// shape: any other pair is a bounds error.
    pub fn or<R: Access<T>>(self, other: Array<T, R, P>) -> (r: Result<
        Array<u8, Dual<A, R, T, u8>, P>,
        Error,
    >)
        requires
            self.wf(),
            other.wf(),
        ensures
            r is Ok <==> self.dims() == other.dims(),
            r matches Ok(out) ==> out.wf() && out.dims() == self.dims() && out.spec_platform()
                == self.spec_platform() && out.accessor().left == self.accessor()
                && out.accessor().right == other.accessor() && out.accessor().zip
                == ZipOp::Or,
            r matches Err(error) ==> error.kind() == ErrorKind::Bounds,
    {
        self.apply_dual(other, "or", ZipOp::Or)
    }

    /// 1 where just one of the elements of this array and `other` is not 0, else 0. The arrays must
    /// have one shape: any other pair is a bounds error.
    pub fn xor<R: Access<T>>(self, other: Array<T, R, P>) -> (r: Result<
        Array<u8, Dual<A, R, T, u8>, P>,
        Error,
    >)
        requires
            self.wf(),
            other.wf(),
        ensures
            r is Ok <==> self.dims() == other.dims(),
            r matches Ok(out) ==> out.wf() && out.dims() == self.dims() && out.spec_platform()
                == self.spec_platform() && out.accessor().left == self.accessor()
                && out.accessor().right == other.accessor() && out.accessor().zip
                == ZipOp::Xor,
            r matches Err(error) ==> error.kind() == ErrorKind::Bounds,
    {
        self.apply_dual(other, "xor", ZipOp::Xor)
    }

    /// 1 where the elements of this array and `other` are equal, else 0. The arrays must have one
    /// shape: any other pair is a bounds error.
    pub fn eq<R: Access<T>>(self, other: Array<T, R, P>) -> (r: Result<
        Array<u8, Dual<A, R, T, u8>, P>,
        Error,
    >)
        requires
            self.wf(),
            other.wf(),
        ensures
            r is Ok <==> self.dims() == other.dims(),
            r matches Ok(out) ==> out.wf() && out.dims() == self.dims() && out.spec_platform()
                == self.spec_platform() && out.accessor().left == self.accessor()
                && out.accessor().right == other.accessor() && out.accessor().zip
                == ZipOp::Eq,
            r matches Err(error) ==> error.kind() == ErrorKind::Bounds,
    {
        self.apply_dual(other, "eq", ZipOp::Eq)
    }

    /// 1 where the element of this array is at least that of `other`, else 0. The arrays must have
    /// one shape: any other pair is a bounds error.
    pub fn ge<R: Access<T>>(self, other: Array<T, R, P>) -> (r: Result<
        Array<u8, Dual<A, R, T, u8>, P>,
        Error,
    >)
        requires
            self.wf(),
            other.wf(),
        ensures
            r is Ok <==> self.dims() == other.dims(),
            r matches Ok(out) ==> out.wf() && out.dims() == self.dims() && out.spec_platform()
                == self.spec_platform() && out.accessor().left == self.accessor()
                && out.accessor().right == other.accessor() && out.accessor().zip
                == ZipOp::Ge,
            r matches Err(error) ==> error.kind() == ErrorKind::Bounds,
    {
        self.apply_dual(other, "ge", ZipOp::Ge)
    }

    /// 1 where the element of this array is greater than that of `other`, else 0. The arrays must
    /// have one shape: any other pair is a bounds error.
    pub fn gt<R: Access<T>>(self, other: Array<T, R, P>) -> (r: Result<
        Array<u8, Dual<A, R, T, u8>, P>,
        Error,
    >)
        requires
            self.wf(),
            other.wf(),
        ensures
            r is Ok <==> self.dims() == other.dims(),
            r matches Ok(out) ==> out.wf() && out.dims() == self.dims() && out.spec_platform()
                == self.spec_platform() && out.accessor().left == self.accessor()
                && out.accessor().right == other.accessor() && out.accessor().zip
                == ZipOp::Gt,
            r matches Err(error) ==> error.kind() == ErrorKind::Bounds,
    {
        self.apply_dual(other, "gt", ZipOp::Gt)
    }

    /// 1 where the element of this array is at most that of `other`, else 0. The arrays must have
    /// one shape: any other pair is a bounds error.
    pub fn le<R: Access<T>>(self, other: Array<T, R, P>) -> (r: Result<
        Array<u8, Dual<A, R, T, u8>, P>,
        Error,
    >)
        requires
            self.wf(),
            other.wf(),
        ensures
            r is Ok <==> self.dims() == other.dims(),
            r matches Ok(out) ==> out.wf() && out.dims() == self.dims() && out.spec_platform()
                == self.spec_platform() && out.accessor().left == self.accessor()
                && out.accessor().right == other.accessor() && out.accessor().zip
                == ZipOp::Le,
            r matches Err(error) ==> error.kind() == ErrorKind::Bounds,
    {
        self.apply_dual(other, "le", ZipOp::Le)
    }

    /// 1 where the element of this array is less than that of `other`, else 0. The arrays must have
    /// one shape: any other pair is a bounds error.
    pub fn lt<R: Access<T>>(self, other: Array<T, R, P>) -> (r: Result<
        Array<u8, Dual<A, R, T, u8>, P>,
        Error,
    >)
        requires
            self.wf(),
            other.wf(),
        ensures
            r is Ok <==> self.dims() == other.dims(),
            r matches Ok(out) ==> out.wf() && out.dims() == self.dims() && out.spec_platform()
                == self.spec_platform() && out.accessor().left == self.accessor()
                && out.accessor().right == other.accessor() && out.accessor().zip
                == ZipOp::Lt,
            r matches Err(error) ==> error.kind() == ErrorKind::Bounds,
    {
        self.apply_dual(other, "lt", ZipOp::Lt)
    }

    /// 1 where the elements of this array and `other` differ, else 0. The arrays must have one
    /// shape: any other pair is a bounds error.
    pub fn ne<R: Access<T>>(self, other: Array<T, R, P>) -> (r: Result<
        Array<u8, Dual<A, R, T, u8>, P>,
        Error,
    >)
        requires
            self.wf(),
            other.wf(),
        ensures
            r is Ok <==> self.dims() == other.dims(),
            r matches Ok(out) ==> out.wf() && out.dims() == self.dims() && out.spec_platform()
                == self.spec_platform() && out.accessor().left == self.accessor()
                && out.accessor().right == other.accessor() && out.accessor().zip
                == ZipOp::Ne,
            r matches Err(error) ==> error.kind() == ErrorKind::Bounds,
    {
        self.apply_dual(other, "ne", ZipOp::Ne)
    }

    /// The sums of the elements of this array and `rhs`.
    pub fn add_scalar(self, rhs: T) -> (r: Result<Array<T, Scalar<A, T, T>, P>, Error>)
        requires
            self.wf(),
        ensures
            r matches Ok(out) && out.wf() && out.dims() == self.dims() && out.spec_platform()
                == self.spec_platform() && out.accessor().access == self.accessor()
                && out.accessor().scalar == rhs && out.accessor().op == ZipOp::Add,
    {
        Ok(self.apply_scalar(rhs, ZipOp::Add))
    }

    /// The products of the elements of this array and `rhs`.
    pub fn mul_scalar(self, rhs: T) -> (r: Result<Array<T, Scalar<A, T, T>, P>, Error>)
        requires
            self.wf(),
        ensures
            r matches Ok(out) && out.wf() && out.dims() == self.dims() && out.spec_platform()
                == self.spec_platform() && out.accessor().access == self.accessor()
                && out.accessor().scalar == rhs && out.accessor().op == ZipOp::Mul,
    {
        Ok(self.apply_scalar(rhs, ZipOp::Mul))
    }

    /// The elements of this array to the power of `exp`.
    pub fn pow_scalar(self, exp: T) -> (r: Result<Array<T, Scalar<A, T, T>, P>, Error>)
        requires
            self.wf(),
        ensures
            r matches Ok(out) && out.wf() && out.dims() == self.dims() && out.spec_platform()
                == self.spec_platform() && out.accessor().access == self.accessor()
                && out.accessor().scalar == exp && out.accessor().op == ZipOp::Pow,
    {
        Ok(self.apply_scalar(exp, ZipOp::Pow))
    }

    /// The remainders of the elements of this array by `rhs`.
    pub fn rem_scalar(self, rhs: T) -> (r: Result<Array<T, Scalar<A, T, T>, P>, Error>)
        requires
            self.wf(),
        ensures
            r matches Ok(out) && out.wf() && out.dims() == self.dims() && out.spec_platform()
                == self.spec_platform() && out.accessor().access == self.accessor()
                && out.accessor().scalar == rhs && out.accessor().op == ZipOp::Rem,
    {
        Ok(self.apply_scalar(rhs, ZipOp::Rem))
    }

    /// The differences of the elements of this array and `rhs`.
    pub fn sub_scalar(self, rhs: T) -> (r: Result<Array<T, Scalar<A, T, T>, P>, Error>)
        requires
            self.wf(),
        ensures
            r matches Ok(out) && out.wf() && out.dims() == self.dims() && out.spec_platform()
                == self.spec_platform() && out.accessor().access == self.accessor()
                && out.accessor().scalar == rhs && out.accessor().op == ZipOp::Sub,
    {
        Ok(self.apply_scalar(rhs, ZipOp::Sub))
    }

    /// 1 where the element of this array and `other` are both not 0, else 0.
    pub fn and_scalar(self, other: T) -> (r: Result<Array<u8, Scalar<A, T, u8>, P>, Error>)
        requires
            self.wf(),
        ensures
            r matches Ok(out) && out.wf() && out.dims() == self.dims() && out.spec_platform()
                == self.spec_platform() && out.accessor().access == self.accessor()
                && out.accessor().scalar == other && out.accessor().op == ZipOp::And,
    {
        Ok(self.apply_scalar(other, ZipOp::And))
    }

    /// 1 where the element of this array or `other` is not 0, else 0.
    pub fn or_scalar(self, other: T) -> (r: Result<Array<u8, Scalar<A, T, u8>, P>, Error>)
        requires
            self.wf(),
        ensures
            r matches Ok(out) && out.wf() && out.dims() == self.dims() && out.spec_platform()
                == self.spec_platform() && out.accessor().access == self.accessor()
                && out.accessor().scalar == other && out.accessor().op == ZipOp::Or,
    {
        Ok(self.apply_scalar(other, ZipOp::Or))
    }

    /// 1 where just one of the element of this array and `other` is not 0, else 0.
    pub fn xor_scalar(self, other: T) -> (r: Result<Array<u8, Scalar<A, T, u8>, P>, Error>)
        requires
            self.wf(),
        ensures
            r matches Ok(out) && out.wf() && out.dims() == self.dims() && out.spec_platform()
                == self.spec_platform() && out.accessor().access == self.accessor()
                && out.accessor().scalar == other && out.accessor().op == ZipOp::Xor,
    {
        Ok(self.apply_scalar(other, ZipOp::Xor))
    }

    /// 1 where the element of this array is `other`, else 0.
    pub fn eq_scalar(self, other: T) -> (r: Result<Array<u8, Scalar<A, T, u8>, P>, Error>)
        requires
            self.wf(),
        ensures
            r matches Ok(out) && out.wf() && out.dims() == self.dims() && out.spec_platform()
                == self.spec_platform() && out.accessor().access == self.accessor()
                && out.accessor().scalar == other && out.accessor().op == ZipOp::Eq,
    {
        Ok(self.apply_scalar(other, ZipOp::Eq))
    }

    /// 1 where the element of this array is greater than `other`, else 0.
    pub fn gt_scalar(self, other: T) -> (r: Result<Array<u8, Scalar<A, T, u8>, P>, Error>)
        requires
            self.wf(),
        ensures
            r matches Ok(out) && out.wf() && out.dims() == self.dims() && out.spec_platform()
                == self.spec_platform() && out.accessor().access == self.accessor()
                && out.accessor().scalar == other && out.accessor().op == ZipOp::Gt,
    {
        Ok(self.apply_scalar(other, ZipOp::Gt))
    }

    /// 1 where the element of this array is at least `other`, else 0.
    pub fn ge_scalar(self, other: T) -> (r: Result<Array<u8, Scalar<A, T, u8>, P>, Error>)
        requires
            self.wf(),
        ensures
            r matches Ok(out) && out.wf() && out.dims() == self.dims() && out.spec_platform()
                == self.spec_platform() && out.accessor().access == self.accessor()
                && out.accessor().scalar == other && out.accessor().op == ZipOp::Ge,
    {
        Ok(self.apply_scalar(other, ZipOp::Ge))
    }

    /// 1 where the element of this array is less than `other`, else 0.
    pub fn lt_scalar(self, other: T) -> (r: Result<Array<u8, Scalar<A, T, u8>, P>, Error>)
        requires
            self.wf(),
        ensures
            r matches Ok(out) && out.wf() && out.dims() == self.dims() && out.spec_platform()
                == self.spec_platform() && out.accessor().access == self.accessor()
                && out.accessor().scalar == other && out.accessor().op == ZipOp::Lt,
    {
        Ok(self.apply_scalar(other, ZipOp::Lt))
    }

    /// 1 where the element of this array is at most `other`, else 0.
    pub fn le_scalar(self, other: T) -> (r: Result<Array<u8, Scalar<A, T, u8>, P>, Error>)
        requires
            self.wf(),
        ensures
            r matches Ok(out) && out.wf() && out.dims() == self.dims() && out.spec_platform()
                == self.spec_platform() && out.accessor().access == self.accessor()
                && out.accessor().scalar == other && out.accessor().op == ZipOp::Le,
    {
        Ok(self.apply_scalar(other, ZipOp::Le))
    }

    /// 1 where the element of this array is not `other`, else 0.
    pub fn ne_scalar(self, other: T) -> (r: Result<Array<u8, Scalar<A, T, u8>, P>, Error>)
        requires
            self.wf(),
        ensures
            r matches Ok(out) && out.wf() && out.dims() == self.dims() && out.spec_platform()
                == self.spec_platform() && out.accessor().access == self.accessor()
                && out.accessor().scalar == other && out.accessor().op == ZipOp::Ne,
    {
        Ok(self.apply_scalar(other, ZipOp::Ne))
    }

    /// The quotients of the elements of this array by `rhs`, rounded toward zero. A division by
    /// 0 is not supported.
    pub fn div_scalar(self, rhs: T) -> (r: Result<Array<T, Scalar<A, T, T>, P>, Error>)
        requires
            self.wf(),
        ensures
            r is Ok <==> rhs.as_int() != 0,
            r matches Ok(out) ==> out.wf() && out.dims() == self.dims() && out.spec_platform()
                == self.spec_platform() && out.accessor().access == self.accessor()
                && out.accessor().scalar == rhs && out.accessor().op == ZipOp::Div,
            r matches Err(error) ==> error.kind() == ErrorKind::Unsupported,
    {
        if rhs.widen() != 0 {
            Ok(self.apply_scalar(rhs, ZipOp::Div))
        } else {
            Err(Error::unsupported("cannot divide an array by zero"))
        }
    }

    /// The absolute values of the elements of this array.
    pub fn abs(self) -> (r: Result<Array<T, Unary<A, T, T>, P>, Error>)
        requires
            self.wf(),
        ensures
            r matches Ok(out) && out.wf() && out.dims() == self.dims() && out.spec_platform()
                == self.spec_platform() && out.accessor().access == self.accessor()
                && out.accessor().op == MapOp::Abs,
    {
        Ok(self.apply(MapOp::Abs))
    }

    /// The elements of this array, rounded to the nearest integer.
    pub fn round(self) -> (r: Result<Array<T, Unary<A, T, T>, P>, Error>)
        requires
            self.wf(),
        ensures
            r matches Ok(out) && out.wf() && out.dims() == self.dims() && out.spec_platform()
                == self.spec_platform() && out.accessor().access == self.accessor()
                && out.accessor().op == MapOp::Round,
    {
        Ok(self.apply(MapOp::Round))
    }

    /// 1 where the element of this array is 0, else 0.
    pub fn not(self) -> (r: Result<Array<u8, Unary<A, T, u8>, P>, Error>)
        requires
            self.wf(),
        ensures
            r matches Ok(out) && out.wf() && out.dims() == self.dims() && out.spec_platform()
                == self.spec_platform() && out.accessor().access == self.accessor()
                && out.accessor().op == MapOp::Not,
    {
        Ok(self.apply(MapOp::Not))
    }

    /// The elements of this array as elements of `OT`: those that `OT` cannot hold become the
    /// nearest that it can.
    pub fn cast<OT: CType>(self) -> (r: Result<Array<OT, Cast<A, T, OT>, P>, Error>)
        requires
            self.wf(),
        ensures
            r matches Ok(out) && out.wf() && out.dims() == self.dims() && out.spec_platform()
                == self.spec_platform() && out.accessor().access == self.accessor(),
    {
        let (shape, access, platform) = self.into_parts();
        Ok(Array::from_parts(shape, Cast::new(access), platform))
    }
}

impl<A: Access<u8>, P: PlatformInstance> Array<u8, A, P> {
    /// The elements of `then_case` where the element of this array is not 0, and those of
    /// `or_else` where it is 0. The three arrays must have one shape: anything else is a bounds
    /// error.
    pub fn cond<T: CType, L: Access<T>, R: Access<T>>(
        self,
        then_case: Array<T, L, P>,
        or_else: Array<T, R, P>,
    ) -> (r: Result<Array<T, Cond<A, L, R, T>, P>, Error>)
        requires
            self.wf(),
            then_case.wf(),
            or_else.wf(),
        ensures
            r is Ok <==> self.dims() == then_case.dims() && self.dims() == or_else.dims(),
            r matches Ok(out) ==> out.wf() && out.dims() == self.dims() && out.spec_platform()
                == self.spec_platform() && out.accessor().cond == self.accessor()
                && out.accessor().then_case == then_case.accessor() && out.accessor().or_else
                == or_else.accessor(),
            r matches Err(error) ==> error.kind() == ErrorKind::Bounds,
    {
        match same_shape("cond", self.dims_slice(), then_case.dims_slice()) {
            Ok(()) => {},
            Err(error) => {
                return Err(error);
            },
        }
        match same_shape("cond", self.dims_slice(), or_else.dims_slice()) {
            Ok(()) => {},
            Err(error) => {
                return Err(error);
            },
        }
        let (shape, cond, platform) = self.into_parts();
        let (_, then_case, _) = then_case.into_parts();
        let (_, or_else, _) = or_else.into_parts();
        Ok(Array::from_parts(shape, Cond::new(cond, then_case, or_else), platform))
    }
}

} // verus!
