//! Matrix products and diagonals.

use std::marker::PhantomData;

use vstd::prelude::*;
use vstd::slice::slice_subrange;

use crate::access::{
    collect, fill, fill_heap, fill_stack, join_read, lemma_collect_ok, lemma_collect_values,
    Access,
};
use crate::buffer::{repeat, SliceConverter, VEC_MIN_SIZE};
use crate::ctype::{spec_zero, zero, CType};
use crate::error::{outcome, Error, ErrorKind};
use crate::kernel::{apply_zip, zip_spec, ZipOp};

verus! {

/// The offset, in a batch of square matrices of dimension `dim`, of the element of the
/// diagonals at `offset`.
pub open spec fn diag_offset(dim: int, offset: int) -> int {
    (offset / dim) * dim * dim + (offset % dim) * dim + offset % dim
}

/// The element of the diagonals at an offset is an element of the batch.
pub proof fn lemma_diag_offset(batch: int, dim: int, offset: int)
    requires
        dim >= 1,
        0 <= offset < batch * dim,
    ensures
        0 <= diag_offset(dim, offset) < batch * dim * dim,
        0 <= offset / dim < batch,
        0 <= offset % dim < dim,
        0 <= (offset / dim) * dim <= (offset / dim) * dim * dim,
        0 <= (offset % dim) * dim,
{
    let q = offset / dim;
    let r = offset % dim;
    vstd::arithmetic::div_mod::lemma_fundamental_div_mod(offset, dim);
    assert(0 <= r < dim) by (nonlinear_arith)
        requires
            r == offset % dim,
            dim >= 1,
    ;
    assert(0 <= q < batch) by (nonlinear_arith)
        requires
            offset == dim * q + r,
            0 <= r < dim,
            0 <= offset < batch * dim,
    ;
    assert(0 <= q * dim * dim + r * dim + r < batch * dim * dim && 0 <= q * dim <= q * dim * dim
        && 0 <= r * dim) by (nonlinear_arith)
        requires
            0 <= q < batch,
            0 <= r < dim,
    ;
}

/// The diagonals of a batch of square matrices.
pub struct MatDiag<A, T> {
    pub access: A,
    pub dim: usize,
    pub batch_size: usize,
    pub dtype: PhantomData<T>,
}

impl<A, T> MatDiag<A, T> {
    /// The diagonals of `access`, a batch of `batch_size` square matrices of dimension `dim`.
    pub fn new(access: A, batch_size: usize, dim: usize) -> (op: Self)
        ensures
            op.access == access,
            op.batch_size == batch_size,
            op.dim == dim,
    {
        MatDiag { access, dim, batch_size, dtype: PhantomData }
    }
}

impl<A: Access<T>, T: CType> Access<T> for MatDiag<A, T> {
    open spec fn inv(&self) -> bool {
        &&& self.access.inv()
        &&& self.dim >= 1
        &&& self.access.len() == self.batch_size * self.dim * self.dim
    }

    open spec fn len(&self) -> nat {
        (self.batch_size * self.dim) as nat
    }

    open spec fn value(&self) -> Result<Seq<T>, ErrorKind> {
        match self.access.value() {
            Err(kind) => Err(kind),
            Ok(items) => Ok(
                Seq::new(self.len(), |i: int| items[diag_offset(self.dim as int, i)]),
            ),
        }
    }

    open spec fn elem(&self, offset: int) -> Result<T, ErrorKind> {
        if 0 <= offset < self.len() {
            self.access.elem(diag_offset(self.dim as int, offset))
        } else {
            Err(ErrorKind::Bounds)
        }
    }

    open spec fn random_access(&self) -> bool {
        self.access.random_access()
    }

    proof fn lemma_access(&self) {
        self.access.lemma_access();
        let batch = self.batch_size as int;
        let dim = self.dim as int;
        assert(0 <= batch * dim <= batch * dim * dim) by (nonlinear_arith)
            requires
                batch >= 0,
                dim >= 1,
        ;
        if let Ok(items) = self.access.value() {
            if self.random_access() {
                assert forall|i: int| 0 <= i < self.len() implies self.elem(i) == Ok::<
                    T,
                    ErrorKind,
                >(self.value()->Ok_0[i]) by {
                    lemma_diag_offset(batch, dim, i);
                }
            }
        }
    }

    fn size(&self) -> (n: usize) {
        proof {
            self.lemma_access();
        }
        self.batch_size * self.dim
    }

    fn read<'a>(&'a self) -> (r: Result<SliceConverter<'a, T>, Error>)
        ensures
            r matches Ok(buffer) ==> !(buffer is Slice) && (buffer is Stack <==> self.len()
                < VEC_MIN_SIZE),
    {
        proof {
            self.access.lemma_access();
            self.lemma_access();
        }
        let source = match self.access.read() {
            Ok(source) => source,
            Err(error) => {
                return Err(error);
            },
        };
        let items = source.as_slice();
        let dim: usize = self.dim;
        let batch: usize = self.batch_size;
        let n: usize = batch * dim;
        let ghost g = |i: int| Ok::<T, ErrorKind>(items@[diag_offset(dim as int, i)]);
        let f = |i: usize| -> (out: Result<T, Error>)
            requires
                i < n,
            ensures
                out == Ok::<T, Error>(items@[diag_offset(dim as int, i as int)]),
            {
                proof {
                    lemma_diag_offset(batch as int, dim as int, i as int);
                }
                Ok(items[(i / dim) * dim * dim + (i % dim) * dim + i % dim])
            };
        let out = fill(n, f, Ghost(g));
        proof {
            lemma_collect_values(
                Seq::new(n as nat, g),
                Seq::new(self.len(), |i: int| items@[diag_offset(self.dim as int, i)]),
            );
        }
        out
    }

    fn read_value(&self, offset: usize) -> (r: Result<T, Error>) {
        proof {
            self.lemma_access();
            self.access.lemma_access();
        }
        let dim: usize = self.dim;
        let n: usize = self.batch_size * dim;
        if offset < n {
            proof {
                lemma_diag_offset(self.batch_size as int, dim as int, offset as int);
            }
            self.access.read_value((offset / dim) * dim * dim + (offset % dim) * dim + offset % dim)
        } else {
            Err(Error::bounds("invalid offset for diagonals of size", &[offset, n]))
        }
    }
}

/// The sum of the products of two lists of one length, pair by pair from the left: the result,
/// or the first failure.
pub open spec fn dot_seq<T: CType>(left: Seq<T>, right: Seq<T>) -> Result<T, ErrorKind>
    decreases left.len(),
{
    if left.len() == 0 {
        Ok(spec_zero::<T>())
    } else {
        match dot_seq(left.drop_last(), right.drop_last()) {
            Err(kind) => Err(kind),
            Ok(acc) => match zip_spec::<T, T>(ZipOp::Mul, left.last(), right.last()) {
                Err(kind) => Err(kind),
                Ok(term) => zip_spec::<T, T>(ZipOp::Add, acc, term),
            },
        }
    }
}

/// A failure in a prefix of two lists is the failure of the whole.
pub proof fn lemma_dot_seq_prefix<T: CType>(left: Seq<T>, right: Seq<T>, k: int)
    requires
        left.len() == right.len(),
        0 <= k <= left.len(),
        dot_seq(left.take(k), right.take(k)) is Err,
    ensures
        dot_seq(left, right) == dot_seq(left.take(k), right.take(k)),
    decreases left.len() - k,
{
    if k < left.len() {
        assert(left.take(k + 1).drop_last() =~= left.take(k));
        assert(right.take(k + 1).drop_last() =~= right.take(k));
        lemma_dot_seq_prefix(left, right, k + 1);
    } else {
        assert(left.take(k) =~= left);
        assert(right.take(k) =~= right);
    }
}

/// The row `x` of the matrix `n` of a batch of matrices of `rows` rows and `cols` columns.
pub open spec fn row<T>(items: Seq<T>, n: int, rows: int, cols: int, x: int) -> Seq<T> {
    items.subrange((n * rows + x) * cols, (n * rows + x) * cols + cols)
}

/// The column `z` of the matrix `n` of a batch of matrices of `rows` rows and `cols` columns.
pub open spec fn column<T>(items: Seq<T>, n: int, rows: int, cols: int, z: int) -> Seq<T> {
    Seq::new(rows as nat, |y: int| items[(n * rows + y) * cols + z])
}

/// The element at `offset` of the products of a batch of matrices of `a` rows and `b` columns
/// with a batch of matrices of `b` rows and `c` columns: in the matrix `offset / (a * c)`, the
/// sum of the products of the row `(offset / c) % a` of the left matrix and the column
/// `offset % c` of the right one.
pub open spec fn matmul_at<T: CType>(
    left: Seq<T>,
    right: Seq<T>,
    a: int,
    b: int,
    c: int,
    offset: int,
) -> Result<T, ErrorKind> {
    let n = offset / (a * c);
    let x = (offset / c) % a;
    let z = offset % c;
    dot_seq(row(left, n, a, b, x), column(right, n, b, c, z))
}

/// An element of a matrix of a batch lies in the batch.
pub proof fn lemma_cell(batch: int, rows: int, cols: int, n: int, x: int, z: int)
    requires
        0 <= n < batch,
        0 <= x < rows,
        0 <= z < cols,
    ensures
        0 <= n * rows <= n * rows + x < batch * rows,
        0 <= (n * rows + x) * cols,
        (n * rows + x) * cols + z < batch * rows * cols,
        (n * rows + x) * cols + cols <= batch * rows * cols,
        (n * rows + x) * cols + z == n * (rows * cols) + (z + x * cols),
        0 <= n * (rows * cols),
        n * (rows * cols) + rows * cols <= batch * rows * cols,
        0 <= x * cols,
        z + x * cols < rows * cols,
{
    assert(0 <= n * rows <= n * rows + x < batch * rows && 0 <= (n * rows + x) * cols && (n * rows
        + x) * cols + z < batch * rows * cols && (n * rows + x) * cols + cols <= batch * rows
        * cols && (n * rows + x) * cols + z == n * (rows * cols) + (z + x * cols) && 0 <= n * (rows
        * cols) && n * (rows * cols) + rows * cols <= batch * rows * cols && 0 <= x * cols && z + x
        * cols < rows * cols) by (nonlinear_arith)
        requires
            0 <= n < batch,
            0 <= x < rows,
            0 <= z < cols,
    ;
}

/// The matrix, row and column of an element of a batch of products.
pub proof fn lemma_unflatten(batch: int, a: int, c: int, offset: int)
    requires
        a >= 1,
        c >= 1,
        0 <= offset < batch * a * c,
    ensures
        a * c >= 1,
        0 <= offset / (a * c) < batch,
        0 <= (offset / c) % a < a,
        0 <= offset % c < c,
{
    assert(a * c >= 1) by (nonlinear_arith)
        requires
            a >= 1,
            c >= 1,
    ;
    let m = a * c;
    vstd::arithmetic::div_mod::lemma_fundamental_div_mod(offset, m);
    assert(0 <= offset % m < m) by (nonlinear_arith)
        requires
            m >= 1,
    ;
    assert(0 <= offset / m < batch) by (nonlinear_arith)
        requires
            offset == m * (offset / m) + offset % m,
            0 <= offset % m < m,
            0 <= offset < batch * a * c,
            m == a * c,
    ;
    assert(0 <= (offset / c) % a < a) by (nonlinear_arith)
        requires
            a >= 1,
    ;
    assert(0 <= offset % c < c) by (nonlinear_arith)
        requires
            c >= 1,
    ;
}

/// A column of a matrix is made of the elements that start at its first and lie a row apart.
pub proof fn lemma_column_strided<T>(items: Seq<T>, n: int, rows: int, cols: int, z: int)
    requires
        rows >= 0,
    ensures
        column(items, n, rows, cols, z) =~= Seq::new(
            rows as nat,
            |y: int| items[(n * rows * cols + z) + y * cols],
        ),
{
    let strided = Seq::new(rows as nat, |y: int| items[(n * rows * cols + z) + y * cols]);
    assert forall|y: int| 0 <= y < rows implies #[trigger] strided[y] == column(
        items,
        n,
        rows,
        cols,
        z,
    )[y] by {
        assert((n * rows * cols + z) + y * cols == (n * rows + y) * cols + z) by (nonlinear_arith);
    }
}

/// `transpose::transpose`: writes to `output` the transposition of `input`, a row-major
/// matrix of `height` rows and `width` columns. The lengths of `input` and `output` are both
/// `width * height`.
#[verifier::external_body]
fn transpose_into<T: Copy>(input: &[T], output: &mut Vec<T>, width: usize, height: usize)
    requires
        width * height == input@.len(),
        old(output)@.len() == input@.len(),
    ensures
        final(output)@.len() == old(output)@.len(),
        forall|x: int, y: int|
            0 <= x < width && 0 <= y < height ==> #[trigger] final(output)@[y + x * height]
                == input@[x + y * width],
{
    transpose::transpose(input, output.as_mut_slice(), width, height)
}

/// The sum of the products of the elements of two rows of one length, pair by pair.
pub fn dot_rows<T: CType>(left: &[T], right: &[T]) -> (r: Result<T, Error>)
    requires
        left@.len() == right@.len(),
    ensures
        outcome(r) == dot_seq(left@, right@),
{
    let mut acc: T = zero::<T>();
    let mut y: usize = 0;
    assert(left@.take(0) =~= Seq::<T>::empty());
    while y < left.len()
        invariant
            y <= left.len(),
            left@.len() == right@.len(),
            dot_seq(left@.take(y as int), right@.take(y as int)) == Ok::<T, ErrorKind>(acc),
        decreases left.len() - y,
    {
        proof {
            assert(left@.take(y + 1).drop_last() =~= left@.take(y as int));
            assert(right@.take(y + 1).drop_last() =~= right@.take(y as int));
        }
        let term = match apply_zip::<T, T>(ZipOp::Mul, left[y], right[y]) {
            Ok(term) => term,
            Err(error) => {
                proof {
                    lemma_dot_seq_prefix(left@, right@, y + 1);
                }
                return Err(error);
            },
        };
        match apply_zip::<T, T>(ZipOp::Add, acc, term) {
            Ok(next) => {
                acc = next;
            },
            Err(error) => {
                proof {
                    lemma_dot_seq_prefix(left@, right@, y + 1);
                }
                return Err(error);
            },
        }
        y = y + 1;
    }
    proof {
        assert(left@.take(left.len() as int) =~= left@);
        assert(right@.take(left.len() as int) =~= right@);
    }
    Ok(acc)
}

/// The sum of the products of the elements of a row with the elements of `right` that start
/// at `start` and lie `step` apart.
pub fn dot_strided<T: CType>(left: &[T], right: &[T], start: usize, step: usize) -> (r: Result<
    T,
    Error,
>)
    requires
        left@.len() > 0 ==> start + (left@.len() - 1) * step < right@.len(),
    ensures
        outcome(r) == dot_seq(left@, Seq::new(left@.len(), |y: int| right@[start + y * step])),
{
    let ghost strided = Seq::new(left@.len(), |y: int| right@[start + y * step]);
    let mut acc: T = zero::<T>();
    let mut y: usize = 0;
    let mut at: usize = start;
    assert(left@.take(0) =~= Seq::<T>::empty());
    while y < left.len()
        invariant
            y <= left.len(),
            strided == Seq::new(left@.len(), |y: int| right@[start + y * step]),
            left@.len() > 0 ==> start + (left@.len() - 1) * step < right@.len(),
            y < left.len() ==> at == start + y * step,
            dot_seq(left@.take(y as int), strided.take(y as int)) == Ok::<T, ErrorKind>(acc),
        decreases left.len() - y,
    {
        proof {
            assert(left@.take(y + 1).drop_last() =~= left@.take(y as int));
            assert(strided.take(y + 1).drop_last() =~= strided.take(y as int));
            assert(y * step <= (left@.len() - 1) * step) by (nonlinear_arith)
                requires
                    y <= left@.len() - 1,
                    step >= 0,
            ;
            assert(strided[y as int] == right@[start + y * step]);
        }
        let term = match apply_zip::<T, T>(ZipOp::Mul, left[y], right[at]) {
            Ok(term) => term,
            Err(error) => {
                proof {
                    lemma_dot_seq_prefix(left@, strided, y + 1);
                }
                return Err(error);
            },
        };
        match apply_zip::<T, T>(ZipOp::Add, acc, term) {
            Ok(next) => {
                acc = next;
            },
            Err(error) => {
                proof {
                    lemma_dot_seq_prefix(left@, strided, y + 1);
                }
                return Err(error);
            },
        }
        y = y + 1;
        if y < left.len() {
            proof {
                assert(y * step <= (left@.len() - 1) * step) by (nonlinear_arith)
                    requires
                        y <= left@.len() - 1,
                        step >= 0,
                ;
                assert(start + y * step == start + (y - 1) * step + step) by (nonlinear_arith);
            }
            at = at + step;
        }
    }
    proof {
        assert(left@.take(left.len() as int) =~= left@);
        assert(strided.take(left.len() as int) =~= strided);
    }
    Ok(acc)
}

/// The products of two batches of matrices.
pub struct MatMul<L, R, T> {
    pub left: L,
    pub right: R,
    pub batch_size: usize,
    pub dims: [usize; 3],
    pub dtype: PhantomData<T>,
}

impl<L, R, T> MatMul<L, R, T> {
    /// The products of the matrices of `left` and `right`, where `dims` holds the number of
    /// matrices in each batch, the rows and the columns of a left matrix, and the columns of a
    /// right one.
    pub fn new(left: L, right: R, dims: [usize; 4]) -> (op: Self)
        ensures
            op.left == left,
            op.right == right,
            op.batch_size == dims[0],
            op.dims[0] == dims[1],
            op.dims[1] == dims[2],
            op.dims[2] == dims[3],
    {
        MatMul {
            left,
            right,
            batch_size: dims[0],
            dims: [dims[1], dims[2], dims[3]],
            dtype: PhantomData,
        }
    }
}

/// Whether `turned` is the transposition of the matrix `n` of `right`, a batch of matrices of
/// `rows` rows and `cols` columns: its row `z` is the column `z` of that matrix.
pub open spec fn is_turned<T>(turned: Seq<T>, right: Seq<T>, n: int, rows: int, cols: int) -> bool {
    &&& turned.len() == rows * cols
    &&& forall|z: int|
        0 <= z < cols ==> #[trigger] row(turned, 0, cols, rows, z) == column(
            right,
            n,
            rows,
            cols,
            z,
        )
}

impl<L: Access<T>, R: Access<T>, T: CType> MatMul<L, R, T> {
    /// The transposition of each matrix of the right batch.
    fn transpose_right(&self, right: &[T]) -> (turned: Vec<Vec<T>>)
        requires
            self.inv(),
            right@.len() == self.right.len(),
        ensures
            turned@.len() == self.batch_size,
            forall|n: int|
                0 <= n < self.batch_size ==> is_turned(
                    (#[trigger] turned@[n])@,
                    right@,
                    n,
                    self.dims[1] as int,
                    self.dims[2] as int,
                ),
    {
        let b: usize = self.dims[1];
        let c: usize = self.dims[2];
        let batch: usize = self.batch_size;
        let mut turned: Vec<Vec<T>> = Vec::with_capacity(batch);
        let mut n: usize = 0;
        proof {
            self.right.lemma_access();
        }
        while n < batch
            invariant
                n <= batch,
                b == self.dims[1],
                c == self.dims[2],
                batch == self.batch_size,
                b >= 1,
                c >= 1,
                right@.len() == batch * b * c,
                right@.len() <= usize::MAX,
                turned@.len() == n,
                forall|m: int|
                    0 <= m < n ==> is_turned(
                        (#[trigger] turned@[m])@,
                        right@,
                        m,
                        b as int,
                        c as int,
                    ),
            decreases batch - n,
        {
            proof {
                lemma_cell(batch as int, b as int, c as int, n as int, 0, 0);
            }
            let size: usize = b * c;
            let start: usize = n * size;
            let matrix = slice_subrange(right, start, start + size);
            let mut out: Vec<T> = repeat(zero::<T>(), size);
            transpose_into(matrix, &mut out, c, b);
            proof {
                assert forall|z: int| 0 <= z < c implies (#[trigger] row(
                    out@,
                    0,
                    c as int,
                    b as int,
                    z,
                )) =~= column(right@, n as int, b as int, c as int, z) by {
                    lemma_cell(1, c as int, b as int, 0, z, 0);
                    assert forall|y: int| 0 <= y < b implies row(out@, 0, c as int, b as int, z)[y]
                        == column(right@, n as int, b as int, c as int, z)[y] by {
                        lemma_cell(1, c as int, b as int, 0, z, y);
                        lemma_cell(batch as int, b as int, c as int, n as int, y, z);
                        assert(out@[y + z * b] == matrix@[z + y * c]);
                        assert((0 * c + z) * b + y == y + z * b) by (nonlinear_arith);
                    }
                }
                assert(is_turned(out@, right@, n as int, b as int, c as int));
            }
            let ghost before = turned@;
            turned.push(out);
            proof {
                assert forall|m: int| 0 <= m < n + 1 implies is_turned(
                    (#[trigger] turned@[m])@,
                    right@,
                    m,
                    b as int,
                    c as int,
                ) by {
                    if m < n {
                        assert(turned@[m] == before[m]);
                    }
                }
            }
            n = n + 1;
        }
        turned
    }
}

impl<L: Access<T>, R: Access<T>, T: CType> Access<T> for MatMul<L, R, T> {
    open spec fn inv(&self) -> bool {
        &&& self.left.inv()
        &&& self.right.inv()
        &&& self.dims[0] >= 1
        &&& self.dims[1] >= 1
        &&& self.dims[2] >= 1
        &&& self.left.len() == self.batch_size * self.dims[0] * self.dims[1]
        &&& self.right.len() == self.batch_size * self.dims[1] * self.dims[2]
        &&& self.batch_size * self.dims[0] * self.dims[2] <= usize::MAX
    }

    open spec fn len(&self) -> nat {
        (self.batch_size * self.dims[0] * self.dims[2]) as nat
    }

    open spec fn value(&self) -> Result<Seq<T>, ErrorKind> {
        match self.left.value() {
            Err(kind) => Err(kind),
            Ok(left) => match self.right.value() {
                Err(kind) => Err(kind),
                Ok(right) => collect(
                    Seq::new(
                        self.len(),
                        |i: int|
                            matmul_at(
                                left,
                                right,
                                self.dims[0] as int,
                                self.dims[1] as int,
                                self.dims[2] as int,
                                i,
                            ),
                    ),
                ),
            },
        }
    }

    open spec fn elem(&self, offset: int) -> Result<T, ErrorKind> {
        Err(ErrorKind::Bounds)
    }

    open spec fn random_access(&self) -> bool {
        false
    }

    proof fn lemma_access(&self) {
        self.left.lemma_access();
        self.right.lemma_access();
        let batch = self.batch_size as int;
        let a = self.dims[0] as int;
        let c = self.dims[2] as int;
        assert(0 <= batch * a * c) by (nonlinear_arith)
            requires
                batch >= 0,
                a >= 1,
                c >= 1,
        ;
        if let Ok(left) = self.left.value() {
            if let Ok(right) = self.right.value() {
                lemma_collect_ok(
                    Seq::new(
                        self.len(),
                        |i: int|
                            matmul_at(
                                left,
                                right,
                                self.dims[0] as int,
                                self.dims[1] as int,
                                self.dims[2] as int,
                                i,
                            ),
                    ),
                );
            }
        }
    }

    fn size(&self) -> (n: usize) {
        proof {
            self.lemma_access();
            let batch = self.batch_size as int;
            let a = self.dims[0] as int;
            let c = self.dims[2] as int;
            assert(0 <= batch * a <= batch * a * c) by (nonlinear_arith)
                requires
                    batch >= 0,
                    a >= 1,
                    c >= 1,
            ;
        }
        self.batch_size * self.dims[0] * self.dims[2]
    }

    fn read<'a>(&'a self) -> (r: Result<SliceConverter<'a, T>, Error>)
        ensures
            r matches Ok(buffer) ==> !(buffer is Slice) && (buffer is Stack <==> self.left.len()
                < VEC_MIN_SIZE && self.right.len() < VEC_MIN_SIZE),
    {
        proof {
            self.left.lemma_access();
            self.right.lemma_access();
        }
        let (left, right) = if self.left.size() < VEC_MIN_SIZE && self.right.size()
            < VEC_MIN_SIZE {
            (self.left.read(), self.right.read())
        } else {
            join_read(&self.left, &self.right)
        };
        let left = match left {
            Ok(left) => left,
            Err(error) => {
                return Err(error);
            },
        };
        let right = match right {
            Ok(right) => right,
            Err(error) => {
                return Err(error);
            },
        };
        let l = left.as_slice();
        let r = right.as_slice();
        let a: usize = self.dims[0];
        let b: usize = self.dims[1];
        let c: usize = self.dims[2];
        let batch: usize = self.batch_size;
        let n: usize = self.size();
        let ghost g = |i: int| matmul_at(l@, r@, a as int, b as int, c as int, i);
        assert(Seq::new(n as nat, g) =~= Seq::new(
            self.len(),
            |i: int|
                matmul_at(
                    l@,
                    r@,
                    self.dims[0] as int,
                    self.dims[1] as int,
                    self.dims[2] as int,
                    i,
                ),
        ));
        if l.len() < VEC_MIN_SIZE && r.len() < VEC_MIN_SIZE {
            let f = |i: usize| -> (out: Result<T, Error>)
                requires
                    i < n,
                ensures
                    outcome(out) == matmul_at(l@, r@, a as int, b as int, c as int, i as int),
                {
                    proof {
                        lemma_unflatten(batch as int, a as int, c as int, i as int);
                        assert(a * c <= batch * a * c) by (nonlinear_arith)
                            requires
                                0 <= i < batch * a * c,
                                a >= 1,
                                c >= 1,
                                batch >= 0,
                        ;
                    }
                    let m: usize = i / (a * c);
                    let x: usize = (i / c) % a;
                    let z: usize = i % c;
                    proof {
                        lemma_cell(batch as int, a as int, b as int, m as int, x as int, 0);
                        assert(batch * a <= batch * a * b) by (nonlinear_arith)
                            requires
                                batch >= 0,
                                a >= 1,
                                b >= 1,
                        ;
                        lemma_cell(batch as int, b as int, c as int, m as int, 0, z as int);
                        lemma_cell(batch as int, b as int, c as int, m as int, b - 1, z as int);
                        assert((m * b * c + z) + (b - 1) * c == (m * b + (b - 1)) * c + z)
                            by (nonlinear_arith);
                        assert(0 <= m * b <= m * b * c) by (nonlinear_arith)
                            requires
                                m >= 0,
                                b >= 1,
                                c >= 1,
                        ;
                        lemma_column_strided(r@, m as int, b as int, c as int, z as int);
                    }
                    let start: usize = (m * a + x) * b;
                    let left_row = slice_subrange(l, start, start + b);
                    dot_strided(left_row, r, m * b * c + z, c)
                };
            match fill_stack(n, f, Ghost(g)) {
                Ok(items) => Ok(SliceConverter::Stack(items)),
                Err(error) => Err(error),
            }
        } else {
            let turned = self.transpose_right(r);
            let f = |i: usize| -> (out: Result<T, Error>)
                requires
                    i < n,
                ensures
                    outcome(out) == matmul_at(l@, r@, a as int, b as int, c as int, i as int),
                {
                    proof {
                        lemma_unflatten(batch as int, a as int, c as int, i as int);
                        assert(a * c <= batch * a * c) by (nonlinear_arith)
                            requires
                                0 <= i < batch * a * c,
                                a >= 1,
                                c >= 1,
                                batch >= 0,
                        ;
                    }
                    let m: usize = i / (a * c);
                    let x: usize = (i / c) % a;
                    let z: usize = i % c;
                    proof {
                        lemma_cell(batch as int, a as int, b as int, m as int, x as int, 0);
                        assert(batch * a <= batch * a * b) by (nonlinear_arith)
                            requires
                                batch >= 0,
                                a >= 1,
                                b >= 1,
                        ;
                        lemma_cell(1, c as int, b as int, 0, z as int, 0);
                        assert(is_turned(turned@[m as int]@, r@, m as int, b as int, c as int));
                        assert(row(turned@[m as int]@, 0, c as int, b as int, z as int) == column(
                            r@,
                            m as int,
                            b as int,
                            c as int,
                            z as int,
                        ));
                    }
                    let start: usize = (m * a + x) * b;
                    let left_row = slice_subrange(l, start, start + b);
                    let matrix = turned[m].as_slice();
                    let cells: usize = matrix.len();
                    proof {
                        assert(0 <= z * b && z * b + b <= b * c && (0 * c + z) * b == z * b)
                            by (nonlinear_arith)
                            requires
                                0 <= z < c,
                                b >= 1,
                        ;
                    }
                    let right_row = slice_subrange(matrix, z * b, z * b + b);
                    dot_rows(left_row, right_row)
                };
            match fill_heap(n, f, Ghost(g)) {
                Ok(items) => Ok(SliceConverter::Heap(items)),
                Err(error) => Err(error),
            }
        }
    }

    fn read_value(&self, offset: usize) -> (r: Result<T, Error>) {
        Err(
            Error::bounds(
                "a matrix product cannot be read one element at a time",
                &[offset],
            ),
        )
    }
}

} // verus!
