//! Reductions of runs of elements.

use vstd::prelude::*;
use vstd::slice::slice_subrange;

use crate::access::{collect, fill, fill_stack, lemma_collect_ok, Access};
use crate::buffer::{SliceConverter, VEC_MIN_SIZE};
use crate::ctype::{one, spec_one, spec_zero, zero, CType};
use crate::error::{outcome, Error, ErrorKind};
use crate::kernel::{apply_zip, zip_spec, ZipOp};

verus! {

/// What `op` makes of a start value and a list of elements, taken from the left: the result, or
/// the first failure.
pub open spec fn fold_spec<T: CType>(op: ZipOp, start: T, items: Seq<T>) -> Result<T, ErrorKind>
    decreases items.len(),
{
    if items.len() == 0 {
        Ok(start)
    } else {
        match fold_spec(op, start, items.drop_last()) {
            Err(kind) => Err(kind),
            Ok(acc) => zip_spec::<T, T>(op, acc, items.last()),
        }
    }
}

/// A failure in a prefix of a list is the failure of the fold of the list.
pub proof fn lemma_fold_prefix<T: CType>(op: ZipOp, start: T, items: Seq<T>, k: int)
    requires
        0 <= k <= items.len(),
        fold_spec(op, start, items.take(k)) is Err,
    ensures
        fold_spec(op, start, items) == fold_spec(op, start, items.take(k)),
    decreases items.len() - k,
{
    if k < items.len() {
        assert(items.take(k + 1).drop_last() =~= items.take(k));
        lemma_fold_prefix(op, start, items, k + 1);
    } else {
        assert(items.take(k) =~= items);
    }
}

/// Applies `op` to a start value and the elements of `items`, from the left.
pub fn fold<T: CType>(op: ZipOp, start: T, items: &[T]) -> (r: Result<T, Error>)
    ensures
        outcome(r) == fold_spec(op, start, items@),
{
    let mut acc: T = start;
    let mut i: usize = 0;
    assert(items@.take(0) =~= Seq::<T>::empty());
    while i < items.len()
        invariant
            i <= items.len(),
            fold_spec(op, start, items@.take(i as int)) == Ok::<T, ErrorKind>(acc),
        decreases items.len() - i,
    {
        proof {
            assert(items@.take(i + 1).drop_last() =~= items@.take(i as int));
            assert(items@.take(i + 1).last() == items@[i as int]);
        }
        match apply_zip::<T, T>(op, acc, items[i]) {
            Ok(next) => {
                acc = next;
            },
            Err(error) => {
                proof {
                    lemma_fold_prefix(op, start, items@, i + 1);
                }
                return Err(error);
            },
        }
        i = i + 1;
    }
    assert(items@.take(items.len() as int) =~= items@);
    Ok(acc)
}

/// The run of `stride` elements that the element at `offset` of a reduction folds.
pub open spec fn run<T>(items: Seq<T>, stride: nat, offset: int) -> Seq<T> {
    items.subrange(offset * stride, (offset + 1) * stride)
}

/// The runs of `stride` elements lie in a list whose length is a multiple of `stride`.
pub proof fn lemma_run_bounds(len: nat, stride: nat, offset: int)
    requires
        stride >= 1,
        len % stride == 0,
        0 <= offset < len / stride,
    ensures
        0 <= offset * stride,
        (offset + 1) * stride <= len,
        (offset + 1) * stride == offset * stride + stride,
{
    vstd::arithmetic::div_mod::lemma_fundamental_div_mod(len as int, stride as int);
    assert(0 <= offset * stride && (offset + 1) * stride <= len && (offset + 1) * stride == offset
        * stride + stride) by (nonlinear_arith)
        requires
            stride >= 1,
            len == stride * (len / stride) + len % stride,
            len % stride == 0,
            0 <= offset < len / stride,
    ;
}

/// A reduction of runs of `stride` elements of an operand: of the whole operand where `stride`
/// is its size, of its last axes where they make up runs of `stride`.
pub struct Reduce<A, T> {
    pub access: A,
    pub stride: usize,
    pub reduce: ZipOp,
    pub id: T,
}

impl<A, T: CType> Reduce<A, T> {
    /// The greatest element of each run.
    pub fn max(access: A, stride: usize) -> (op: Self)
        ensures
            op.access == access,
            op.stride == stride,
            op.reduce == ZipOp::Max,
            op.id == T::from_int(T::min_int()),
    {
        Reduce { access, stride, reduce: ZipOp::Max, id: T::min_value() }
    }

    /// The least element of each run.
    pub fn min(access: A, stride: usize) -> (op: Self)
        ensures
            op.access == access,
            op.stride == stride,
            op.reduce == ZipOp::Min,
            op.id == T::from_int(T::max_int()),
    {
        Reduce { access, stride, reduce: ZipOp::Min, id: T::max_value() }
    }

    /// The product of the elements of each run.
    pub fn product(access: A, stride: usize) -> (op: Self)
        ensures
            op.access == access,
            op.stride == stride,
            op.reduce == ZipOp::Mul,
            op.id == spec_one::<T>(),
    {
        Reduce { access, stride, reduce: ZipOp::Mul, id: one::<T>() }
    }

    /// The sum of the elements of each run.
    pub fn sum(access: A, stride: usize) -> (op: Self)
        ensures
            op.access == access,
            op.stride == stride,
            op.reduce == ZipOp::Add,
            op.id == spec_zero::<T>(),
    {
        Reduce { access, stride, reduce: ZipOp::Add, id: zero::<T>() }
    }
}

impl<A: Access<T>, T: CType> Access<T> for Reduce<A, T> {
    open spec fn inv(&self) -> bool {
        &&& self.access.inv()
        &&& self.stride >= 1
        &&& self.access.len() % (self.stride as nat) == 0
    }

    open spec fn len(&self) -> nat {
        self.access.len() / (self.stride as nat)
    }

    open spec fn value(&self) -> Result<Seq<T>, ErrorKind> {
        match self.access.value() {
            Err(kind) => Err(kind),
            Ok(items) => collect(
                Seq::new(
                    self.len(),
                    |i: int| fold_spec(self.reduce, self.id, run(items, self.stride as nat, i)),
                ),
            ),
        }
    }

    open spec fn elem(&self, offset: int) -> Result<T, ErrorKind> {
        if 0 <= offset < self.len() {
            match collect(
                Seq::new(
                    self.stride as nat,
                    |k: int| self.access.elem(offset * self.stride + k),
                ),
            ) {
                Err(kind) => Err(kind),
                Ok(items) => fold_spec(self.reduce, self.id, items),
            }
        } else {
            Err(ErrorKind::Bounds)
        }
    }

    open spec fn random_access(&self) -> bool {
        self.access.random_access()
    }

    proof fn lemma_access(&self) {
        self.access.lemma_access();
        let stride = self.stride as nat;
        assert(self.len() <= self.access.len()) by (nonlinear_arith)
            requires
                self.len() == self.access.len() / stride,
                stride >= 1,
        ;
        if let Ok(source) = self.access.value() {
            let results = Seq::new(
                self.len(),
                |i: int| fold_spec(self.reduce, self.id, run(source, stride, i)),
            );
            lemma_collect_ok(results);
            if let Ok(items) = self.value() {
                if self.random_access() {
                    assert forall|i: int| 0 <= i < self.len() implies self.elem(i) == Ok::<
                        T,
                        ErrorKind,
                    >(items[i]) by {
                        lemma_run_bounds(self.access.len(), stride, i);
                        let reads = Seq::new(stride, |k: int| self.access.elem(i * stride + k));
                        let chunk = run(source, stride, i);
                        assert forall|k: int| 0 <= k < stride implies reads[k] == Ok::<
                            T,
                            ErrorKind,
                        >(chunk[k]) by {
                            assert(self.access.elem(i * stride + k) == Ok::<T, ErrorKind>(
                                source[i * stride + k],
                            ));
                        }
                        crate::access::lemma_collect_values(reads, chunk);
                        assert(results[i] == Ok::<T, ErrorKind>(items[i]));
                    }
                }
            }
        }
    }

    fn size(&self) -> (n: usize) {
        self.access.size() / self.stride
    }

    fn read<'a>(&'a self) -> (r: Result<SliceConverter<'a, T>, Error>)
        ensures
            r matches Ok(buffer) ==> !(buffer is Slice) && (buffer is Stack <==> self.len()
                < VEC_MIN_SIZE),
    {
        proof {
            self.access.lemma_access();
        }
        let source = match self.access.read() {
            Ok(source) => source,
            Err(error) => {
                return Err(error);
            },
        };
        let items = source.as_slice();
        let stride: usize = self.stride;
        let n: usize = items.len() / stride;
        let op = self.reduce;
        let id = self.id;
        let ghost g = |i: int| fold_spec(op, id, run(items@, stride as nat, i));
        let f = |i: usize| -> (out: Result<T, Error>)
            requires
                i < n,
            ensures
                outcome(out) == fold_spec(op, id, run(items@, stride as nat, i as int)),
            {
                proof {
                    lemma_run_bounds(items@.len(), stride as nat, i as int);
                }
                fold(op, id, slice_subrange(items, i * stride, i * stride + stride))
            };
        let out = fill(n, f, Ghost(g));
        assert(Seq::new(n as nat, g) =~= Seq::new(
            self.len(),
            |i: int| fold_spec(self.reduce, self.id, run(items@, self.stride as nat, i)),
        ));
        out
    }

    fn read_value(&self, offset: usize) -> (r: Result<T, Error>) {
        proof {
            self.access.lemma_access();
        }
        let stride: usize = self.stride;
        let n: usize = self.access.size() / stride;
        if offset >= n {
            return Err(Error::bounds("invalid offset for a reduction of size", &[offset, n]));
        }
        proof {
            lemma_run_bounds(self.access.len(), stride as nat, offset as int);
        }
        let base: usize = offset * stride;
        let access = &self.access;
        let ghost g = |k: int| access.elem(base + k);
        let f = |k: usize| -> (out: Result<T, Error>)
            requires
                k < stride,
            ensures
                outcome(out) == access.elem(base + k),
            { access.read_value(base + k) };
        let items = match fill_stack(stride, f, Ghost(g)) {
            Ok(items) => items,
            Err(error) => {
                assert(Seq::new(stride as nat, g) =~= Seq::new(
                    self.stride as nat,
                    |k: int| self.access.elem(offset * self.stride + k),
                ));
                return Err(error);
            },
        };
        assert(Seq::new(stride as nat, g) =~= Seq::new(
            self.stride as nat,
            |k: int| self.access.elem(offset * self.stride + k),
        ));
        fold(self.reduce, self.id, items.as_slice())
    }
}

} // verus!
