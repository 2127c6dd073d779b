//! Elementwise operations.

use std::marker::PhantomData;

use vstd::prelude::*;

use crate::access::{
    collect, fill, join_read, join_read3, lemma_collect_ok, lemma_collect_values, Access,
};
use crate::buffer::{SliceConverter, VEC_MIN_SIZE};
use crate::ctype::{cast, cast_spec, CType};
use crate::error::{outcome, Error, ErrorKind};
use crate::kernel::{apply_map, apply_zip, map_spec, zip_spec, MapOp, ZipOp};

verus! {

/// What `op` makes of two lists of elements, pair by pair: the results, or the first failure.
pub open spec fn zip_all<IT: CType, OT: CType>(op: ZipOp, left: Seq<IT>, right: Seq<IT>) -> Result<
    Seq<OT>,
    ErrorKind,
> {
    collect(Seq::new(left.len(), |i: int| zip_spec::<IT, OT>(op, left[i], right[i])))
}

/// An elementwise operation on two operands of one size.
pub struct Dual<L, R, IT, OT> {
    pub left: L,
    pub right: R,
    pub zip: ZipOp,
    pub dtype: PhantomData<(IT, OT)>,
}

impl<L, R, IT, OT> Dual<L, R, IT, OT> {
    /// The operation `zip` on `left` and `right`.
    pub fn new(left: L, right: R, zip: ZipOp) -> (op: Self)
        ensures
            op.left == left,
            op.right == right,
            op.zip == zip,
    {
        Dual { left, right, zip, dtype: PhantomData }
    }
}

impl<L: Access<IT>, R: Access<IT>, IT: CType, OT: CType> Access<OT> for Dual<L, R, IT, OT> {
    open spec fn inv(&self) -> bool {
        &&& self.left.inv()
        &&& self.right.inv()
        &&& self.left.len() == self.right.len()
    }

    open spec fn len(&self) -> nat {
        self.left.len()
    }

    open spec fn value(&self) -> Result<Seq<OT>, ErrorKind> {
        match self.left.value() {
            Err(kind) => Err(kind),
            Ok(left) => match self.right.value() {
                Err(kind) => Err(kind),
                Ok(right) => zip_all::<IT, OT>(self.zip, left, right),
            },
        }
    }

    open spec fn elem(&self, offset: int) -> Result<OT, ErrorKind> {
        match self.left.elem(offset) {
            Err(kind) => Err(kind),
            Ok(left) => match self.right.elem(offset) {
                Err(kind) => Err(kind),
                Ok(right) => zip_spec::<IT, OT>(self.zip, left, right),
            },
        }
    }

    open spec fn random_access(&self) -> bool {
        self.left.random_access() && self.right.random_access()
    }

    proof fn lemma_access(&self) {
        self.left.lemma_access();
        self.right.lemma_access();
        if let Ok(left) = self.left.value() {
            if let Ok(right) = self.right.value() {
                let results = Seq::new(
                    left.len(),
                    |i: int| zip_spec::<IT, OT>(self.zip, left[i], right[i]),
                );
                lemma_collect_ok(results);
                if let Ok(items) = self.value() {
                    if self.random_access() {
                        assert forall|i: int| 0 <= i < self.len() implies self.elem(i) == Ok::<
                            OT,
                            ErrorKind,
                        >(items[i]) by {
                            assert(self.left.elem(i) == Ok::<IT, ErrorKind>(left[i]));
                            assert(self.right.elem(i) == Ok::<IT, ErrorKind>(right[i]));
                            assert(results[i] == Ok::<OT, ErrorKind>(items[i]));
                        }
                    }
                }
            }
        }
    }

    fn size(&self) -> (n: usize) {
        self.left.size()
    }

    fn read<'a>(&'a self) -> (r: Result<SliceConverter<'a, OT>, Error>)
        ensures
            r matches Ok(buffer) ==> !(buffer is Slice) && (buffer is Stack <==> self.len()
                < VEC_MIN_SIZE),
    {
        proof {
            self.left.lemma_access();
            self.right.lemma_access();
        }
        let (left, right) = if self.left.size() < VEC_MIN_SIZE {
            (self.left.read(), self.right.read())
        } else {
            join_read(&self.left, &self.right)
        };
        let left = match left {
            Ok(left) => left,
            Err(error) => {
                return Err(error);
            },
        };
        let right = match right {
            Ok(right) => right,
            Err(error) => {
                return Err(error);
            },
        };
        let l = left.as_slice();
        let r = right.as_slice();
        let n: usize = l.len();
        let op = self.zip;
        let ghost g = |i: int| zip_spec::<IT, OT>(op, l@[i], r@[i]);
        let f = |i: usize| -> (out: Result<OT, Error>)
            requires
                i < n,
            ensures
                outcome(out) == zip_spec::<IT, OT>(op, l@[i as int], r@[i as int]),
            { apply_zip::<IT, OT>(op, l[i], r[i]) };
        let out = fill(n, f, Ghost(g));
        assert(Seq::new(n as nat, g) =~= Seq::new(
            l@.len(),
            |i: int| zip_spec::<IT, OT>(op, l@[i], r@[i]),
        ));
        out
    }

    fn read_value(&self, offset: usize) -> (r: Result<OT, Error>) {
        let left = match self.left.read_value(offset) {
            Ok(left) => left,
            Err(error) => {
                return Err(error);
            },
        };
        let right = match self.right.read_value(offset) {
            Ok(right) => right,
            Err(error) => {
                return Err(error);
            },
        };
        apply_zip::<IT, OT>(self.zip, left, right)
    }
}

impl<L, R, T: CType> Dual<L, R, T, T> {
    /// The sums of the elements of `left` and `right`.
    pub fn add(left: L, right: R) -> (op: Self)
        ensures
            op.left == left,
            op.right == right,
            op.zip == ZipOp::Add,
    {
        Dual { left, right, zip: ZipOp::Add, dtype: PhantomData }
    }

    /// The quotients of the elements of `left` by those of `right`, rounded toward zero.
    pub fn div(left: L, right: R) -> (op: Self)
        ensures
            op.left == left,
            op.right == right,
            op.zip == ZipOp::Div,
    {
        Dual { left, right, zip: ZipOp::Div, dtype: PhantomData }
    }

    /// The products of the elements of `left` and `right`.
    pub fn mul(left: L, right: R) -> (op: Self)
        ensures
            op.left == left,
            op.right == right,
            op.zip == ZipOp::Mul,
    {
        Dual { left, right, zip: ZipOp::Mul, dtype: PhantomData }
    }

    /// The elements of `left` to the power of those of `right`.
    pub fn pow(left: L, right: R) -> (op: Self)
        ensures
            op.left == left,
            op.right == right,
            op.zip == ZipOp::Pow,
    {
        Dual { left, right, zip: ZipOp::Pow, dtype: PhantomData }
    }

    /// The remainders of the elements of `left` by those of `right`.
    pub fn rem(left: L, right: R) -> (op: Self)
        ensures
            op.left == left,
            op.right == right,
            op.zip == ZipOp::Rem,
    {
        Dual { left, right, zip: ZipOp::Rem, dtype: PhantomData }
    }

    /// The differences of the elements of `left` and `right`.
    pub fn sub(left: L, right: R) -> (op: Self)
        ensures
            op.left == left,
            op.right == right,
            op.zip == ZipOp::Sub,
    {
        Dual { left, right, zip: ZipOp::Sub, dtype: PhantomData }
    }
}

impl<L, R, T: CType> Dual<L, R, T, u8> {
    /// 1 where the elements of `left` and `right` are both not 0, else 0.
    pub fn and(left: L, right: R) -> (op: Self)
        ensures
            op.left == left,
            op.right == right,
            op.zip == ZipOp::And,
    {
        Dual { left, right, zip: ZipOp::And, dtype: PhantomData }
    }

    /// 1 where an element of `left` or `right` is not 0, else 0.
    pub fn or(left: L, right: R) -> (op: Self)
        ensures
            op.left == left,
            op.right == right,
            op.zip == ZipOp::Or,
    {
        Dual { left, right, zip: ZipOp::Or, dtype: PhantomData }
    }

    /// 1 where just one of the elements of `left` and `right` is not 0, else 0.
    pub fn xor(left: L, right: R) -> (op: Self)
        ensures
            op.left == left,
            op.right == right,
            op.zip == ZipOp::Xor,
    {
        Dual { left, right, zip: ZipOp::Xor, dtype: PhantomData }
    }

    /// 1 where the elements of `left` and `right` are equal, else 0.
    pub fn eq(left: L, right: R) -> (op: Self)
        ensures
            op.left == left,
            op.right == right,
            op.zip == ZipOp::Eq,
    {
        Dual { left, right, zip: ZipOp::Eq, dtype: PhantomData }
    }

    /// 1 where the element of `left` is at least that of `right`, else 0.
    pub fn ge(left: L, right: R) -> (op: Self)
        ensures
            op.left == left,
            op.right == right,
            op.zip == ZipOp::Ge,
    {
        Dual { left, right, zip: ZipOp::Ge, dtype: PhantomData }
    }

    /// 1 where the element of `left` is greater than that of `right`, else 0.
    pub fn gt(left: L, right: R) -> (op: Self)
        ensures
            op.left == left,
            op.right == right,
            op.zip == ZipOp::Gt,
    {
        Dual { left, right, zip: ZipOp::Gt, dtype: PhantomData }
    }

    /// 1 where the element of `left` is at most that of `right`, else 0.
    pub fn le(left: L, right: R) -> (op: Self)
        ensures
            op.left == left,
            op.right == right,
            op.zip == ZipOp::Le,
    {
        Dual { left, right, zip: ZipOp::Le, dtype: PhantomData }
    }

    /// 1 where the element of `left` is less than that of `right`, else 0.
    pub fn lt(left: L, right: R) -> (op: Self)
        ensures
            op.left == left,
            op.right == right,
            op.zip == ZipOp::Lt,
    {
        Dual { left, right, zip: ZipOp::Lt, dtype: PhantomData }
    }

    /// 1 where the elements of `left` and `right` differ, else 0.
    pub fn ne(left: L, right: R) -> (op: Self)
        ensures
            op.left == left,
            op.right == right,
            op.zip == ZipOp::Ne,
    {
        Dual { left, right, zip: ZipOp::Ne, dtype: PhantomData }
    }
}

/// An elementwise operation on an operand and a scalar.
pub struct Scalar<A, IT, OT> {
    pub access: A,
    pub scalar: IT,
    pub op: ZipOp,
    pub dtype: PhantomData<OT>,
}

impl<A, IT, OT> Scalar<A, IT, OT> {
    /// The operation `op` on the elements of `access` and `scalar`.
    pub fn new(access: A, scalar: IT, op: ZipOp) -> (this: Self)
        ensures
            this.access == access,
            this.scalar == scalar,
            this.op == op,
    {
        Scalar { access, scalar, op, dtype: PhantomData }
    }
}

impl<A, T: CType> Scalar<A, T, T> {
    /// The sums of the elements and the scalar.
    pub fn add(access: A, scalar: T) -> (op: Self)
        ensures
            op.access == access,
            op.scalar == scalar,
            op.op == ZipOp::Add,
    {
        Scalar { access, scalar, op: ZipOp::Add, dtype: PhantomData }
    }

    /// The quotients of the elements by the scalar, rounded toward zero.
    pub fn div(access: A, scalar: T) -> (op: Self)
        ensures
            op.access == access,
            op.scalar == scalar,
            op.op == ZipOp::Div,
    {
        Scalar { access, scalar, op: ZipOp::Div, dtype: PhantomData }
    }

    /// The products of the elements and the scalar.
    pub fn mul(access: A, scalar: T) -> (op: Self)
        ensures
            op.access == access,
            op.scalar == scalar,
            op.op == ZipOp::Mul,
    {
        Scalar { access, scalar, op: ZipOp::Mul, dtype: PhantomData }
    }

    /// The elements of `left` to the power of the scalar.
    pub fn pow(access: A, scalar: T) -> (op: Self)
        ensures
            op.access == access,
            op.scalar == scalar,
            op.op == ZipOp::Pow,
    {
        Scalar { access, scalar, op: ZipOp::Pow, dtype: PhantomData }
    }

    /// The remainders of the elements by the scalar.
    pub fn rem(access: A, scalar: T) -> (op: Self)
        ensures
            op.access == access,
            op.scalar == scalar,
            op.op == ZipOp::Rem,
    {
        Scalar { access, scalar, op: ZipOp::Rem, dtype: PhantomData }
    }

    /// The differences of the elements and the scalar.
    pub fn sub(access: A, scalar: T) -> (op: Self)
        ensures
            op.access == access,
            op.scalar == scalar,
            op.op == ZipOp::Sub,
    {
        Scalar { access, scalar, op: ZipOp::Sub, dtype: PhantomData }
    }
}

impl<A, T: CType> Scalar<A, T, u8> {
    /// 1 where the elements and the scalar are both not 0, else 0.
    pub fn and(access: A, scalar: T) -> (op: Self)
        ensures
            op.access == access,
            op.scalar == scalar,
            op.op == ZipOp::And,
    {
        Scalar { access, scalar, op: ZipOp::And, dtype: PhantomData }
    }

    /// 1 where the element or the scalar is not 0, else 0.
    pub fn or(access: A, scalar: T) -> (op: Self)
        ensures
            op.access == access,
            op.scalar == scalar,
            op.op == ZipOp::Or,
    {
        Scalar { access, scalar, op: ZipOp::Or, dtype: PhantomData }
    }

    /// 1 where just one of the elements and the scalar is not 0, else 0.
    pub fn xor(access: A, scalar: T) -> (op: Self)
        ensures
            op.access == access,
            op.scalar == scalar,
            op.op == ZipOp::Xor,
    {
        Scalar { access, scalar, op: ZipOp::Xor, dtype: PhantomData }
    }

    /// 1 where the elements and the scalar are equal, else 0.
    pub fn eq(access: A, scalar: T) -> (op: Self)
        ensures
            op.access == access,
            op.scalar == scalar,
            op.op == ZipOp::Eq,
    {
        Scalar { access, scalar, op: ZipOp::Eq, dtype: PhantomData }
    }

    /// 1 where the element is at least the scalar, else 0.
    pub fn ge(access: A, scalar: T) -> (op: Self)
        ensures
            op.access == access,
            op.scalar == scalar,
            op.op == ZipOp::Ge,
    {
        Scalar { access, scalar, op: ZipOp::Ge, dtype: PhantomData }
    }

    /// 1 where the element is greater than the scalar, else 0.
    pub fn gt(access: A, scalar: T) -> (op: Self)
        ensures
            op.access == access,
            op.scalar == scalar,
            op.op == ZipOp::Gt,
    {
        Scalar { access, scalar, op: ZipOp::Gt, dtype: PhantomData }
    }

    /// 1 where the element is at most the scalar, else 0.
    pub fn le(access: A, scalar: T) -> (op: Self)
        ensures
            op.access == access,
            op.scalar == scalar,
            op.op == ZipOp::Le,
    {
        Scalar { access, scalar, op: ZipOp::Le, dtype: PhantomData }
    }

    /// 1 where the element is less than the scalar, else 0.
    pub fn lt(access: A, scalar: T) -> (op: Self)
        ensures
            op.access == access,
            op.scalar == scalar,
            op.op == ZipOp::Lt,
    {
        Scalar { access, scalar, op: ZipOp::Lt, dtype: PhantomData }
    }

    /// 1 where the elements and the scalar differ, else 0.
    pub fn ne(access: A, scalar: T) -> (op: Self)
        ensures
            op.access == access,
            op.scalar == scalar,
            op.op == ZipOp::Ne,
    {
        Scalar { access, scalar, op: ZipOp::Ne, dtype: PhantomData }
    }
}

impl<A: Access<IT>, IT: CType, OT: CType> Access<OT> for Scalar<A, IT, OT> {
    open spec fn inv(&self) -> bool {
        self.access.inv()
    }

    open spec fn len(&self) -> nat {
        self.access.len()
    }

    open spec fn value(&self) -> Result<Seq<OT>, ErrorKind> {
        match self.access.value() {
            Err(kind) => Err(kind),
            Ok(items) => collect(
                Seq::new(items.len(), |i: int| zip_spec::<IT, OT>(self.op, items[i], self.scalar)),
            ),
        }
    }

    open spec fn elem(&self, offset: int) -> Result<OT, ErrorKind> {
        match self.access.elem(offset) {
            Err(kind) => Err(kind),
            Ok(item) => zip_spec::<IT, OT>(self.op, item, self.scalar),
        }
    }

    open spec fn random_access(&self) -> bool {
        self.access.random_access()
    }

    proof fn lemma_access(&self) {
        self.access.lemma_access();
        if let Ok(source) = self.access.value() {
            let results = Seq::new(
                source.len(),
                |i: int| zip_spec::<IT, OT>(self.op, source[i], self.scalar),
            );
            lemma_collect_ok(results);
            if let Ok(items) = self.value() {
                if self.random_access() {
                    assert forall|i: int| 0 <= i < self.len() implies self.elem(i) == Ok::<
                        OT,
                        ErrorKind,
                    >(items[i]) by {
                        assert(self.access.elem(i) == Ok::<IT, ErrorKind>(source[i]));
                        assert(results[i] == Ok::<OT, ErrorKind>(items[i]));
                    }
                }
            }
        }
    }

    fn size(&self) -> (n: usize) {
        self.access.size()
    }

    fn read<'a>(&'a self) -> (r: Result<SliceConverter<'a, OT>, Error>)
        ensures
            r matches Ok(buffer) ==> !(buffer is Slice) && (buffer is Stack <==> self.len()
                < VEC_MIN_SIZE),
    {
        proof {
            self.access.lemma_access();
        }
        let source = match self.access.read() {
            Ok(source) => source,
            Err(error) => {
                return Err(error);
            },
        };
        let items = source.as_slice();
        let n: usize = items.len();
        let op = self.op;
        let scalar = self.scalar;
        let ghost g = |i: int| zip_spec::<IT, OT>(op, items@[i], scalar);
        let f = |i: usize| -> (out: Result<OT, Error>)
            requires
                i < n,
            ensures
                outcome(out) == zip_spec::<IT, OT>(op, items@[i as int], scalar),
            { apply_zip::<IT, OT>(op, items[i], scalar) };
        let out = fill(n, f, Ghost(g));
        assert(Seq::new(n as nat, g) =~= Seq::new(
            items@.len(),
            |i: int| zip_spec::<IT, OT>(op, items@[i], scalar),
        ));
        out
    }

    fn read_value(&self, offset: usize) -> (r: Result<OT, Error>) {
        match self.access.read_value(offset) {
            Ok(item) => apply_zip::<IT, OT>(self.op, item, self.scalar),
            Err(error) => Err(error),
        }
    }
}

/// An elementwise operation on one operand.
pub struct Unary<A, IT, OT> {
    pub access: A,
    pub op: MapOp,
    pub dtype: PhantomData<(IT, OT)>,
}

impl<A, IT, OT> Unary<A, IT, OT> {
    /// The operation `op` on the elements of `access`.
    pub fn new(access: A, op: MapOp) -> (this: Self)
        ensures
            this.access == access,
            this.op == op,
    {
        Unary { access, op, dtype: PhantomData }
    }
}

impl<A: Access<T>, T: CType> Unary<A, T, T> {
    /// The absolute values of the elements.
    pub fn abs(access: A) -> (op: Self)
        ensures
            op.access == access,
            op.op == MapOp::Abs,
    {
        Unary { access, op: MapOp::Abs, dtype: PhantomData }
    }

    /// The elements rounded to the nearest integer.
    pub fn round(access: A) -> (op: Self)
        ensures
            op.access == access,
            op.op == MapOp::Round,
    {
        Unary { access, op: MapOp::Round, dtype: PhantomData }
    }
}

impl<A: Access<T>, T: CType> Unary<A, T, u8> {
    /// 1 where the element is 0, else 0.
    pub fn not(access: A) -> (op: Self)
        ensures
            op.access == access,
            op.op == MapOp::Not,
    {
        Unary { access, op: MapOp::Not, dtype: PhantomData }
    }
}

impl<A: Access<IT>, IT: CType, OT: CType> Access<OT> for Unary<A, IT, OT> {
    open spec fn inv(&self) -> bool {
        self.access.inv()
    }

    open spec fn len(&self) -> nat {
        self.access.len()
    }

    open spec fn value(&self) -> Result<Seq<OT>, ErrorKind> {
        match self.access.value() {
            Err(kind) => Err(kind),
            Ok(items) => collect(
                Seq::new(items.len(), |i: int| map_spec::<IT, OT>(self.op, items[i])),
            ),
        }
    }

    open spec fn elem(&self, offset: int) -> Result<OT, ErrorKind> {
        match self.access.elem(offset) {
            Err(kind) => Err(kind),
            Ok(item) => map_spec::<IT, OT>(self.op, item),
        }
    }

    open spec fn random_access(&self) -> bool {
        self.access.random_access()
    }

    proof fn lemma_access(&self) {
        self.access.lemma_access();
        if let Ok(source) = self.access.value() {
            let results = Seq::new(source.len(), |i: int| map_spec::<IT, OT>(self.op, source[i]));
            lemma_collect_ok(results);
            if let Ok(items) = self.value() {
                if self.random_access() {
                    assert forall|i: int| 0 <= i < self.len() implies self.elem(i) == Ok::<
                        OT,
                        ErrorKind,
                    >(items[i]) by {
                        assert(self.access.elem(i) == Ok::<IT, ErrorKind>(source[i]));
                        assert(results[i] == Ok::<OT, ErrorKind>(items[i]));
                    }
                }
            }
        }
    }

    fn size(&self) -> (n: usize) {
        self.access.size()
    }

    fn read<'a>(&'a self) -> (r: Result<SliceConverter<'a, OT>, Error>)
        ensures
            r matches Ok(buffer) ==> !(buffer is Slice) && (buffer is Stack <==> self.len()
                < VEC_MIN_SIZE),
    {
        proof {
            self.access.lemma_access();
        }
        let source = match self.access.read() {
            Ok(source) => source,
            Err(error) => {
                return Err(error);
            },
        };
        let items = source.as_slice();
        let n: usize = items.len();
        let op = self.op;
        let ghost g = |i: int| map_spec::<IT, OT>(op, items@[i]);
        let f = |i: usize| -> (out: Result<OT, Error>)
            requires
                i < n,
            ensures
                outcome(out) == map_spec::<IT, OT>(op, items@[i as int]),
            { apply_map::<IT, OT>(op, items[i]) };
        let out = fill(n, f, Ghost(g));
        assert(Seq::new(n as nat, g) =~= Seq::new(
            items@.len(),
            |i: int| map_spec::<IT, OT>(op, items@[i]),
        ));
        out
    }

    fn read_value(&self, offset: usize) -> (r: Result<OT, Error>) {
        match self.access.read_value(offset) {
            Ok(item) => apply_map::<IT, OT>(self.op, item),
            Err(error) => Err(error),
        }
    }
}

/// The conversion of the elements of an operand to another element type.
pub struct Cast<A, IT, OT> {
    pub access: A,
    pub dtype: PhantomData<(IT, OT)>,
}

impl<A, IT, OT> Cast<A, IT, OT> {
    /// The conversion of the elements of `access`.
    pub fn new(access: A) -> (op: Self)
        ensures
            op.access == access,
    {
        Cast { access, dtype: PhantomData }
    }
}

impl<A: Access<IT>, IT: CType, OT: CType> Access<OT> for Cast<A, IT, OT> {
    open spec fn inv(&self) -> bool {
        self.access.inv()
    }

    open spec fn len(&self) -> nat {
        self.access.len()
    }

    open spec fn value(&self) -> Result<Seq<OT>, ErrorKind> {
        match self.access.value() {
            Err(kind) => Err(kind),
            Ok(items) => Ok(Seq::new(items.len(), |i: int| cast_spec::<IT, OT>(items[i]))),
        }
    }

    open spec fn elem(&self, offset: int) -> Result<OT, ErrorKind> {
        match self.access.elem(offset) {
            Err(kind) => Err(kind),
            Ok(item) => Ok(cast_spec::<IT, OT>(item)),
        }
    }

    open spec fn random_access(&self) -> bool {
        self.access.random_access()
    }

    proof fn lemma_access(&self) {
        self.access.lemma_access();
    }

    fn size(&self) -> (n: usize) {
        self.access.size()
    }

    fn read<'a>(&'a self) -> (r: Result<SliceConverter<'a, OT>, Error>)
        ensures
            r matches Ok(buffer) ==> !(buffer is Slice) && (buffer is Stack <==> self.len()
                < VEC_MIN_SIZE),
    {
        proof {
            self.access.lemma_access();
        }
        let source = match self.access.read() {
            Ok(source) => source,
            Err(error) => {
                return Err(error);
            },
        };
        let items = source.as_slice();
        let n: usize = items.len();
        let ghost g = |i: int| Ok::<OT, ErrorKind>(cast_spec::<IT, OT>(items@[i]));
        let f = |i: usize| -> (out: Result<OT, Error>)
            requires
                i < n,
            ensures
                out == Ok::<OT, Error>(cast_spec::<IT, OT>(items@[i as int])),
            { Ok(cast::<IT, OT>(items[i])) };
        let out = fill(n, f, Ghost(g));
        proof {
            lemma_collect_values(
                Seq::new(n as nat, g),
                Seq::new(items@.len(), |i: int| cast_spec::<IT, OT>(items@[i])),
            );
        }
        out
    }

    fn read_value(&self, offset: usize) -> (r: Result<OT, Error>) {
        match self.access.read_value(offset) {
            Ok(item) => Ok(cast::<IT, OT>(item)),
            Err(error) => Err(error),
        }
    }
}

/// The element that a condition selects: the first where the condition is not 0, else the second.
pub open spec fn select<T>(cond: u8, then_case: T, or_else: T) -> T {
    if cond != 0 {
        then_case
    } else {
        or_else
    }
}

/// A selection between two operands, element by element, by a third.
pub struct Cond<A, L, R, T> {
    pub cond: A,
    pub then_case: L,
    pub or_else: R,
    pub dtype: PhantomData<T>,
}

impl<A, L, R, T> Cond<A, L, R, T> {
    /// The selection by `cond` between `then_case` and `or_else`.
    pub fn new(cond: A, then_case: L, or_else: R) -> (op: Self)
        ensures
            op.cond == cond,
            op.then_case == then_case,
            op.or_else == or_else,
    {
        Cond { cond, then_case, or_else, dtype: PhantomData }
    }
}

impl<A: Access<u8>, L: Access<T>, R: Access<T>, T: CType> Access<T> for Cond<A, L, R, T> {
    open spec fn inv(&self) -> bool {
        &&& self.cond.inv()
        &&& self.then_case.inv()
        &&& self.or_else.inv()
        &&& self.cond.len() == self.then_case.len()
        &&& self.cond.len() == self.or_else.len()
    }

    open spec fn len(&self) -> nat {
        self.cond.len()
    }

    open spec fn value(&self) -> Result<Seq<T>, ErrorKind> {
        match self.cond.value() {
            Err(kind) => Err(kind),
            Ok(cond) => match self.then_case.value() {
                Err(kind) => Err(kind),
                Ok(then_case) => match self.or_else.value() {
                    Err(kind) => Err(kind),
                    Ok(or_else) => Ok(
                        Seq::new(cond.len(), |i: int| select(cond[i], then_case[i], or_else[i])),
                    ),
                },
            },
        }
    }

    open spec fn elem(&self, offset: int) -> Result<T, ErrorKind> {
        match self.cond.elem(offset) {
            Err(kind) => Err(kind),
            Ok(cond) => match self.then_case.elem(offset) {
                Err(kind) => Err(kind),
                Ok(then_case) => match self.or_else.elem(offset) {
                    Err(kind) => Err(kind),
                    Ok(or_else) => Ok(select(cond, then_case, or_else)),
                },
            },
        }
    }

    open spec fn random_access(&self) -> bool {
        self.cond.random_access() && self.then_case.random_access() && self.or_else.random_access()
    }

    proof fn lemma_access(&self) {
        self.cond.lemma_access();
        self.then_case.lemma_access();
        self.or_else.lemma_access();
    }

    fn size(&self) -> (n: usize) {
        self.cond.size()
    }

    fn read<'a>(&'a self) -> (r: Result<SliceConverter<'a, T>, Error>)
        ensures
            r matches Ok(buffer) ==> !(buffer is Slice) && (buffer is Stack <==> self.len()
                < VEC_MIN_SIZE),
    {
        proof {
            self.cond.lemma_access();
            self.then_case.lemma_access();
            self.or_else.lemma_access();
        }
        let (cond, (then_case, or_else)) = if self.cond.size() < VEC_MIN_SIZE {
            (self.cond.read(), (self.then_case.read(), self.or_else.read()))
        } else {
            join_read3(&self.cond, &self.then_case, &self.or_else)
        };
        let cond = match cond {
            Ok(cond) => cond,
            Err(error) => {
                return Err(error);
            },
        };
        let then_case = match then_case {
            Ok(then_case) => then_case,
            Err(error) => {
                return Err(error);
            },
        };
        let or_else = match or_else {
            Ok(or_else) => or_else,
            Err(error) => {
                return Err(error);
            },
        };
        let c = cond.as_slice();
        let t = then_case.as_slice();
        let e = or_else.as_slice();
        let n: usize = c.len();
        let ghost g = |i: int| Ok::<T, ErrorKind>(select(c@[i], t@[i], e@[i]));
        let f = |i: usize| -> (out: Result<T, Error>)
            requires
                i < n,
            ensures
                out == Ok::<T, Error>(select(c@[i as int], t@[i as int], e@[i as int])),
            {
                if c[i] != 0 {
                    Ok(t[i])
                } else {
                    Ok(e[i])
                }
            };
        let out = fill(n, f, Ghost(g));
        proof {
            lemma_collect_values(
                Seq::new(n as nat, g),
                Seq::new(c@.len(), |i: int| select(c@[i], t@[i], e@[i])),
            );
        }
        out
    }

    fn read_value(&self, offset: usize) -> (r: Result<T, Error>) {
        let cond = match self.cond.read_value(offset) {
            Ok(cond) => cond,
            Err(error) => {
                return Err(error);
            },
        };
        let then_case = match self.then_case.read_value(offset) {
            Ok(then_case) => then_case,
            Err(error) => {
                return Err(error);
            },
        };
        let or_else = match self.or_else.read_value(offset) {
            Ok(or_else) => or_else,
            Err(error) => {
                return Err(error);
            },
        };
        if cond != 0 {
            Ok(then_case)
        } else {
            Ok(or_else)
        }
    }
}

/// The element at `offset` of `size` evenly spaced elements that start at `start` and stay below
/// `stop`: the start plus the offset times the step, which is `stop - start` over `size`,
/// rounded toward zero.
pub open spec fn linear_at<T: CType>(start: T, stop: T, size: nat, offset: int) -> T {
    T::from_int(start.as_int() + (offset * (stop.as_int() - start.as_int())) / size as int)
}

/// Evenly spaced elements from a start up to a stop.
pub struct Linear<T> {
    pub start: T,
    pub stop: T,
    pub size: usize,
}

impl<T: CType> Linear<T> {
    /// `size` evenly spaced elements that start at `start` and stay below `stop`.
    pub fn new(start: T, stop: T, size: usize) -> (op: Self)
        ensures
            op.start == start,
            op.stop == stop,
            op.size == size,
    {
        Linear { start, stop, size }
    }

    /// The element at `offset`.
    pub fn value_at(&self, offset: usize) -> (item: T)
        requires
            self.inv(),
            offset < self.size,
        ensures
            item == linear_at(self.start, self.stop, self.size as nat, offset as int),
            self.start.as_int() <= item.as_int() <= self.stop.as_int(),
    {
        let start: i128 = self.start.widen();
        let stop: i128 = self.stop.widen();
        proof {
            T::lemma_limits();
        }
        let span: u128 = (stop - start) as u128;
        let steps: u128 = offset as u128;
        let count: u128 = self.size as u128;
        assert(steps * span <= 0xffff_ffff_ffff_ffff * 0xffff_ffff_ffff_ffff) by (nonlinear_arith)
            requires
                steps <= 0xffff_ffff_ffff_ffff,
                span <= 0xffff_ffff_ffff_ffff,
        ;
        assert((steps * span) / (count as int) <= span) by (nonlinear_arith)
            requires
                steps < count,
                0 <= span,
        ;
        let shift: u128 = (steps * span) / count;
        let wide: i128 = start + shift as i128;
        proof {
            T::lemma_from_int(wide as int);
        }
        match T::narrow(wide) {
            Some(item) => item,
            None => self.start,
        }
    }
}

impl<T: CType> Access<T> for Linear<T> {
    open spec fn inv(&self) -> bool {
        self.start.as_int() <= self.stop.as_int()
    }

    open spec fn len(&self) -> nat {
        self.size as nat
    }

    open spec fn value(&self) -> Result<Seq<T>, ErrorKind> {
        Ok(
            Seq::new(
                self.size as nat,
                |i: int| linear_at(self.start, self.stop, self.size as nat, i),
            ),
        )
    }

    open spec fn elem(&self, offset: int) -> Result<T, ErrorKind> {
        if 0 <= offset < self.size {
            Ok(linear_at(self.start, self.stop, self.size as nat, offset))
        } else {
            Err(ErrorKind::Bounds)
        }
    }

    open spec fn random_access(&self) -> bool {
        true
    }

    proof fn lemma_access(&self) {
    }

    fn size(&self) -> (n: usize) {
        self.size
    }

    fn read<'a>(&'a self) -> (r: Result<SliceConverter<'a, T>, Error>)
        ensures
            r matches Ok(buffer) ==> !(buffer is Slice) && (buffer is Stack <==> self.len()
                < VEC_MIN_SIZE),
    {
        let n: usize = self.size;
        let ghost g = |i: int|
            Ok::<T, ErrorKind>(linear_at(self.start, self.stop, self.size as nat, i));
        let f = |i: usize| -> (out: Result<T, Error>)
            requires
                i < n,
            ensures
                out == Ok::<T, Error>(
                    linear_at(self.start, self.stop, self.size as nat, i as int),
                ),
            { Ok(self.value_at(i)) };
        let out = fill(n, f, Ghost(g));
        proof {
            lemma_collect_values(
                Seq::new(n as nat, g),
                Seq::new(
                    self.size as nat,
                    |i: int| linear_at(self.start, self.stop, self.size as nat, i),
                ),
            );
        }
        out
    }

    fn read_value(&self, offset: usize) -> (r: Result<T, Error>) {
        if offset < self.size {
            Ok(self.value_at(offset))
        } else {
            Err(Error::bounds("invalid offset for a range of size", &[offset, self.size]))
        }
    }
}

} // verus!
