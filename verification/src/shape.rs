//! Shapes, and the checks on shapes and coordinates.

use smallvec::SmallVec;
use vstd::prelude::*;

use crate::error::{Error, ErrorKind};

verus! {

/// A short list of numbers: the dimensions of an array, a list of axes or a list of strides.
/// It is a `SmallVec`, which keeps up to eight numbers inline; the verifier knows of its contents
/// what `shape_from_slice` and `shape_as_slice` say of `shape_dims`, and nothing else.
#[verifier::external_body]
#[derive(Debug)]
pub struct Shape {
    dims: SmallVec<[usize; 8]>,
}

/// A list of axes.
pub type Axes = Shape;

/// A list of strides.
pub type Strides = Shape;

/// The numbers that a `Shape` holds, in order.
pub uninterp spec fn shape_dims(shape: Shape) -> Seq<usize>;

/// `SmallVec::from_slice`: a new list that holds the numbers of `dims`, in order.
#[verifier::external_body]
fn shape_from_slice(dims: &[usize]) -> (shape: Shape)
    ensures
        shape_dims(shape) == dims@,
{
    Shape { dims: SmallVec::from_slice(dims) }
}

/// `SmallVec::as_slice`: the numbers of the list, in order, as a slice.
#[verifier::external_body]
fn shape_as_slice(shape: &Shape) -> (dims: &[usize])
    ensures
        dims@ == shape_dims(*shape),
{
    shape.dims.as_slice()
}

impl View for Shape {
    type V = Seq<usize>;

    open spec fn view(&self) -> Seq<usize> {
        shape_dims(*self)
    }
}

impl Shape {
    /// A list with the numbers of `dims`.
    pub fn from_slice(dims: &[usize]) -> (shape: Shape)
        ensures
            shape@ == dims@,
    {
        shape_from_slice(dims)
    }

    /// The numbers of this list.
    pub fn as_slice(&self) -> (dims: &[usize])
        ensures
            dims@ == self@,
    {
        shape_as_slice(self)
    }

    /// How many numbers this list holds.
    pub fn len(&self) -> (n: usize)
        ensures
            n == self@.len(),
    {
        self.as_slice().len()
    }
}

impl Clone for Shape {
    fn clone(&self) -> (copy: Self)
        ensures
            copy@ == self@,
    {
        Shape::from_slice(self.as_slice())
    }
}

/// The product of the numbers of `dims`: the number of elements of an array of that shape.
pub open spec fn product(dims: Seq<usize>) -> nat
    decreases dims.len(),
{
    if dims.len() == 0 {
        1
    } else {
        product(dims.drop_last()) * dims.last() as nat
    }
}

/// Whether every dimension is at least 1.
pub open spec fn positive(dims: Seq<usize>) -> bool {
    forall|i: int| 0 <= i < dims.len() ==> dims[i] >= 1
}

/// Whether `dims` is the shape of an array: it has an axis, every dimension is at least 1, and
/// the number of elements fits a `usize`.
pub open spec fn valid_shape(dims: Seq<usize>) -> bool {
    &&& dims.len() >= 1
    &&& positive(dims)
    &&& product(dims) <= usize::MAX
}

/// Whether `coord` names an element of an array of shape `dims`.
pub open spec fn in_bounds(coord: Seq<usize>, dims: Seq<usize>) -> bool {
    &&& coord.len() == dims.len()
    &&& forall|i: int| 0 <= i < coord.len() ==> coord[i] < dims[i]
}

/// Whether two shapes are broadcast-compatible: aligned at their last axes, each pair of
/// dimensions is equal or has a 1.
pub open spec fn compatible(left: Seq<usize>, right: Seq<usize>) -> bool {
    forall|i: int|
        0 <= i < left.len() && i < right.len() ==> {
            let l = #[trigger] left[left.len() - 1 - i];
            let r = right[right.len() - 1 - i];
            l == r || l == 1 || r == 1
        }
}

/// Whether an array of shape `source` can be broadcast into `target`: aligned at their last
/// axes, each dimension of the source is that of the target or 1, and the target has no fewer
/// axes.
pub open spec fn broadcasts_to(source: Seq<usize>, target: Seq<usize>) -> bool {
    &&& source.len() <= target.len()
    &&& forall|j: int|
        0 <= j < source.len() ==> {
            let s = #[trigger] source[j];
            let t = target[target.len() - source.len() + j];
            s == t || s == 1
        }
}

/// The product of a shape with a 0 in it is 0.
pub proof fn lemma_product_zero(dims: Seq<usize>, k: int)
    requires
        0 <= k < dims.len(),
        dims[k] == 0,
    ensures
        product(dims) == 0,
    decreases dims.len(),
{
    if k < dims.len() - 1 {
        lemma_product_zero(dims.drop_last(), k);
        assert(product(dims.drop_last()) * dims.last() as nat == 0) by (nonlinear_arith)
            requires
                product(dims.drop_last()) == 0,
        ;
    } else {
        assert(product(dims.drop_last()) * dims.last() as nat == 0) by (nonlinear_arith)
            requires
                dims.last() == 0,
        ;
    }
}

/// The product of a shape without a 0 is at least 1, and no prefix has a greater product.
pub proof fn lemma_product_prefix(dims: Seq<usize>, k: int)
    requires
        positive(dims),
        0 <= k <= dims.len(),
    ensures
        1 <= product(dims.take(k)) <= product(dims),
    decreases dims.len() - k,
{
    if k == dims.len() {
        assert(dims.take(k) =~= dims);
        lemma_product_positive(dims);
    } else {
        lemma_product_prefix(dims, k + 1);
        let longer = dims.take(k + 1);
        assert(longer.drop_last() =~= dims.take(k));
        assert(longer.last() == dims[k]);
        lemma_product_positive(dims.take(k));
        assert(product(dims.take(k)) <= product(dims.take(k)) * dims[k] as nat)
            by (nonlinear_arith)
            requires
                dims[k] >= 1,
        ;
    }
}

/// The product of a shape without a 0 is at least 1.
pub proof fn lemma_product_positive(dims: Seq<usize>)
    requires
        positive(dims),
    ensures
        product(dims) >= 1,
    decreases dims.len(),
{
    if dims.len() > 0 {
        lemma_product_positive(dims.drop_last());
        assert(product(dims.drop_last()) * dims.last() as nat >= 1) by (nonlinear_arith)
            requires
                product(dims.drop_last()) >= 1,
                dims.last() >= 1,
        ;
    }
}

/// The number of elements of an array of shape `dims`, if it fits a `usize`.
pub fn shape_size(dims: &[usize]) -> (size: Option<usize>)
    ensures
        product(dims@) <= usize::MAX ==> size == Some(product(dims@) as usize),
        product(dims@) > usize::MAX ==> size is None,
{
    let mut k: usize = 0;
    while k < dims.len()
        invariant
            k <= dims.len(),
            forall|i: int| 0 <= i < k ==> dims@[i] >= 1,
        decreases dims.len() - k,
    {
        if dims[k] == 0 {
            proof {
                lemma_product_zero(dims@, k as int);
            }
            return Some(0);
        }
        k = k + 1;
    }
    let mut size: usize = 1;
    let mut i: usize = 0;
    assert(dims@.take(0) =~= Seq::<usize>::empty());
    while i < dims.len()
        invariant
            i <= dims.len(),
            positive(dims@),
            size == product(dims@.take(i as int)),
        decreases dims.len() - i,
    {
        proof {
            let longer = dims@.take(i + 1);
            assert(longer.drop_last() =~= dims@.take(i as int));
            assert(longer.last() == dims@[i as int]);
            lemma_product_prefix(dims@, i + 1);
        }
        match size.checked_mul(dims[i]) {
            Some(next) => {
                size = next;
            },
            None => {
                return None;
            },
        }
        i = i + 1;
    }
    assert(dims@.take(dims.len() as int) =~= dims@);
    Some(size)
}

/// Whether `dims` is the shape of an array.
pub fn is_valid_shape(dims: &[usize]) -> (valid: bool)
    ensures
        valid == valid_shape(dims@),
{
    if dims.len() == 0 {
        return false;
    }
    let mut k: usize = 0;
    while k < dims.len()
        invariant
            k <= dims.len(),
            forall|i: int| 0 <= i < k ==> dims@[i] >= 1,
        decreases dims.len() - k,
    {
        if dims[k] == 0 {
            return false;
        }
        k = k + 1;
    }
    shape_size(dims).is_some()
}

/// Whether two shapes are broadcast-compatible.
pub fn can_broadcast(left: &[usize], right: &[usize]) -> (can: bool)
    ensures
        can == compatible(left@, right@),
{
    let mut i: usize = 0;
    while i < left.len() && i < right.len()
        invariant
            i <= left.len(),
            i <= right.len(),
            forall|j: int|
                0 <= j < i ==> {
                    let l = #[trigger] left@[left@.len() - 1 - j];
                    let r = right@[right@.len() - 1 - j];
                    l == r || l == 1 || r == 1
                },
        decreases left.len() - i,
    {
        let l: usize = left[left.len() - 1 - i];
        let r: usize = right[right.len() - 1 - i];
        if !(l == r || l == 1 || r == 1) {
            return false;
        }
        i = i + 1;
    }
    true
}

/// Whether an array of shape `source` can be broadcast into `target`.
pub fn can_broadcast_to(source: &[usize], target: &[usize]) -> (can: bool)
    ensures
        can == broadcasts_to(source@, target@),
{
    if source.len() > target.len() {
        return false;
    }
    let pad: usize = target.len() - source.len();
    let mut i: usize = 0;
    while i < source.len()
        invariant
            i <= source.len(),
            pad + source.len() == target.len(),
            forall|j: int|
                0 <= j < i ==> {
                    let s = #[trigger] source@[j];
                    let t = target@[target@.len() - source@.len() + j];
                    s == t || s == 1
                },
        decreases source.len() - i,
    {
        let s: usize = source[i];
        let t: usize = target[pad + i];
        if !(s == t || s == 1) {
            return false;
        }
        i = i + 1;
    }
    true
}

/// Whether two slices hold the same numbers.
pub fn same_dims(left: &[usize], right: &[usize]) -> (same: bool)
    ensures
        same == (left@ == right@),
{
    if left.len() != right.len() {
        return false;
    }
    let mut i: usize = 0;
    while i < left.len()
        invariant
            i <= left.len(),
            left.len() == right.len(),
            forall|j: int| 0 <= j < i ==> left@[j] == right@[j],
        decreases left.len() - i,
    {
        if left[i] != right[i] {
            return false;
        }
        i = i + 1;
    }
    assert(left@ =~= right@);
    true
}

/// Accepts two operands of one shape, and rejects any other pair with a bounds error; where the
/// shapes are broadcast-compatible the message proposes to broadcast.
pub fn same_shape(op_name: &'static str, left: &[usize], right: &[usize]) -> (r: Result<
    (),
    Error,
>)
    ensures
        r is Ok <==> left@ == right@,
        r matches Err(error) ==> error.kind() == ErrorKind::Bounds,
{
    if same_dims(left, right) {
        Ok(())
    } else if can_broadcast(left, right) {
        Err(Error::bounds_pair(op_name, left, right).with_hint("consider broadcasting"))
    } else {
        Err(Error::bounds_pair(op_name, left, right))
    }
}

/// Accepts a coordinate of an array of shape `shape`, and rejects any other with a bounds error.
pub fn valid_coord(coord: &[usize], shape: &[usize]) -> (r: Result<(), Error>)
    ensures
        r is Ok <==> in_bounds(coord@, shape@),
        r matches Err(error) ==> error.kind() == ErrorKind::Bounds,
{
    if coord.len() == shape.len() {
        let mut i: usize = 0;
        while i < coord.len()
            invariant
                i <= coord.len(),
                coord.len() == shape.len(),
                forall|j: int| 0 <= j < i ==> coord@[j] < shape@[j],
            decreases coord.len() - i,
        {
            if coord[i] >= shape[i] {
                return Err(Error::bounds_pair("invalid coordinate for shape", coord, shape));
            }
            i = i + 1;
        }
        return Ok(());
    }
    Err(Error::bounds_pair("invalid coordinate for shape", coord, shape))
}

} // verus!
