//! The operations that change the shape of an array: broadcast, reshape, slice, squeeze,
//! unsqueeze and transpose; reductions along axes; matrix products and diagonals.

use vstd::arithmetic::div_mod::{lemma_div_by_multiple, lemma_mod_multiples_basic};
use vstd::prelude::*;
use vstd::slice::slice_subrange;
use vstd::std_specs::convert::FromSpec;
use vstd::view::View as _;

use crate::access::Access;
use crate::array::Array;
use crate::axes::{
    all_axes, axes_below, axes_in_bounds, expand_dims, expanded, is_identity,
    lemma_expanded_product, lemma_pick_product, lemma_pick_units, matmul_compatible, matmul_dims,
    or_scalar, pick, pick_dims, reduce_axes, reduce_order, reduce_permutation, reduced_shape,
};
use crate::buffer::SliceConverter;
use crate::ctype::{spec_one, spec_zero, CType};
use crate::error::{Error, ErrorKind};
use crate::index::strides_of;
use crate::kernel::ZipOp;
use crate::ops::{MatDiag, MatMul, Reduce, Slice, View};
use crate::permutation::{
    is_permutation, is_valid_permutation, permute, permuted, reversal, reversed_axes,
};
use crate::platform::{Platform, PlatformInstance};
use crate::range::{
    check_range, fill_range, filled, lemma_range_shape_positive, range_shape, shape_of_range,
    valid_range, Range,
};
use crate::shape::{
    broadcasts_to, can_broadcast_to, is_valid_shape, lemma_product_positive, lemma_product_prefix,
    positive, product, shape_size, valid_shape, Axes, Shape,
};

verus! {

/// An accessor whose kind is decided when it is made: a source as it is, or a view of the
/// source with its axes permuted. The input of a reduction is one: the source as it is where the
/// reduced axes are the last already, else the source seen with the reduced axes last.
pub enum Accessor<A, T> {
    Direct(A),
    Permuted(View<A, T>),
}

impl<A: Access<T>, T: CType> Access<T> for Accessor<A, T> {
    open spec fn inv(&self) -> bool {
        match self {
            Accessor::Direct(access) => access.inv(),
            Accessor::Permuted(view) => view.inv(),
        }
    }

    open spec fn len(&self) -> nat {
        match self {
            Accessor::Direct(access) => access.len(),
            Accessor::Permuted(view) => view.len(),
        }
    }

    open spec fn value(&self) -> Result<Seq<T>, ErrorKind> {
        match self {
            Accessor::Direct(access) => access.value(),
            Accessor::Permuted(view) => view.value(),
        }
    }

    open spec fn elem(&self, offset: int) -> Result<T, ErrorKind> {
        match self {
            Accessor::Direct(access) => access.elem(offset),
            Accessor::Permuted(view) => view.elem(offset),
        }
    }

    open spec fn random_access(&self) -> bool {
        match self {
            Accessor::Direct(access) => access.random_access(),
            Accessor::Permuted(view) => view.random_access(),
        }
    }

    proof fn lemma_access(&self) {
        match self {
            Accessor::Direct(access) => access.lemma_access(),
            Accessor::Permuted(view) => view.lemma_access(),
        }
    }

    fn size(&self) -> (n: usize) {
        match self {
            Accessor::Direct(access) => access.size(),
            Accessor::Permuted(view) => view.size(),
        }
    }

    fn read<'a>(&'a self) -> (r: Result<SliceConverter<'a, T>, Error>) {
        match self {
            Accessor::Direct(access) => access.read(),
            Accessor::Permuted(view) => view.read(),
        }
    }

    fn read_value(&self, offset: usize) -> (r: Result<T, Error>) {
        match self {
            Accessor::Direct(access) => access.read_value(offset),
            Accessor::Permuted(view) => view.read_value(offset),
        }
    }
}

impl<T: CType, A: Access<T>> Array<T, Accessor<A, T>, Platform> {
    /// The array `array` as an array of the composite platform, with its accessor as it is.
    pub fn from<P: PlatformInstance>(array: Array<T, A, P>) -> (erased: Self) where
        Platform: From<P>,

        requires
            array.wf(),
        ensures
            erased.wf(),
            erased.dims() == array.dims(),
            erased.accessor() == Accessor::<A, T>::Direct(array.accessor()),
            <Platform as FromSpec<P>>::obeys_from_spec() ==> erased.spec_platform() == <
                Platform as FromSpec<P>
            >::from_spec(array.spec_platform()),
    {
        let (shape, access, platform) = array.into_parts();
        Array::from_parts(shape, Accessor::Direct(access), Platform::from(platform))
    }
}

/// Whether `input` is the input of a reduction of `access`, an array of shape `dims`, over
/// `axes`: `access` itself where the reduced axes are the last already, else the view of
/// `access` with the other axes first and the reduced axes last, each group in ascending order.
pub open spec fn is_reduce_input<A, T>(
    input: Accessor<A, T>,
    access: A,
    dims: Seq<usize>,
    axes: Seq<usize>,
) -> bool {
    let order = reduce_order(dims.len(), axes);
    if order == all_axes(dims.len()) {
        input == Accessor::<A, T>::Direct(access)
    } else {
        input matches Accessor::Permuted(view) && view.access == access && view.spec.shape@
            == permuted(dims, order) && view.spec.source_strides@ == permuted(
            strides_of(dims, dims.len()),
            order,
        )
    }
}

/// The input of a reduction of `access`, an array of shape `shape`, over `axes`: the runs that
/// the reduction folds are the elements along the named axes.
pub fn permute_for_reduce<T: CType, A: Access<T>, P: PlatformInstance>(
    platform: P,
    access: A,
    shape: Shape,
    axes: Axes,
) -> (r: Result<Accessor<A, T>, Error>)
    requires
        access.inv(),
        valid_shape(shape@),
        product(shape@) == access.len(),
        axes_in_bounds(axes@, shape@.len()),
    ensures
        r matches Ok(input) && input.inv() && input.len() == access.len() && is_reduce_input(
            input,
            access,
            shape@,
            axes@,
        ),
{
    let order = reduce_permutation(shape.len(), axes.as_slice());
    if is_identity(order.as_slice()) {
        Ok(Accessor::Direct(access))
    } else {
        Ok(Accessor::Permuted(View::transpose(access, shape, Shape::from_slice(order.as_slice()))))
    }
}

/// The shape `[1]` is the shape of an array of one element.
pub proof fn lemma_unit_shape()
    ensures
        valid_shape(seq![1usize]),
        product(seq![1usize]) == 1,
        product(Seq::<usize>::empty()) == 1,
{
    assert(seq![1usize].drop_last() =~= Seq::<usize>::empty());
    assert(product(seq![1usize]) == product(Seq::<usize>::empty()) * 1);
}

/// The shape of a product of two batches of matrices of the shapes `left` and `right`.
pub open spec fn matmul_shape(left: Seq<usize>, right: Seq<usize>) -> Seq<usize> {
    left.take(left.len() - 2).push(left[left.len() - 2]).push(right[right.len() - 1])
}

impl<T: CType, A: Access<T>, P: PlatformInstance> Array<T, A, P> {
    /// This array broadcast into `shape`: aligned at their last axes, each dimension of this
    /// array must be that of `shape` or 1, and `shape` must be the shape of an array with no
    /// fewer axes. Any other shape is a bounds error.
    pub fn broadcast(self, shape: Shape) -> (r: Result<Array<T, View<A, T>, P>, Error>)
        requires
            self.wf(),
        ensures
            r is Ok <==> valid_shape(shape@) && broadcasts_to(self.dims(), shape@),
            r matches Ok(out) ==> out.wf() && out.dims() == shape@ && out.accessor().access
                == self.accessor() && out.accessor().spec.shape@ == shape@
                && out.accessor().spec.source_strides@ == strides_of(self.dims(), shape@.len())
                && out.spec_platform() == P::select_spec(product(shape@) as usize),
            r matches Err(error) ==> error.kind() == ErrorKind::Bounds,
    {
        if !is_valid_shape(shape.as_slice()) || !can_broadcast_to(
            self.dims_slice(),
            shape.as_slice(),
        ) {
            return Err(
                Error::bounds_pair("cannot broadcast", self.dims_slice(), shape.as_slice()),
            );
        }
        let size: usize = match shape_size(shape.as_slice()) {
            Some(size) => size,
            None => 0,
        };
        let platform = P::select(size);
        let (source, access, _) = self.into_parts();
        let view = View::broadcast(access, source, shape.clone());
        Ok(Array::from_parts(shape, view, platform))
    }

    /// This array with the shape `shape`, which must be the shape of an array with as many
    /// elements. Any other shape is a bounds error.
    pub fn reshape(self, shape: Shape) -> (r: Result<Self, Error>)
        requires
            self.wf(),
        ensures
            r is Ok <==> valid_shape(shape@) && product(shape@) == product(self.dims()),
            r matches Ok(out) ==> out.wf() && out.dims() == shape@ && out.accessor()
                == self.accessor() && out.spec_platform() == self.spec_platform(),
            r matches Err(error) ==> error.kind() == ErrorKind::Bounds,
    {
        if is_valid_shape(shape.as_slice()) {
            let size = shape_size(shape.as_slice());
            let own = shape_size(self.dims_slice());
            if size == own {
                let (_, access, platform) = self.into_parts();
                return Ok(Array::from_parts(shape, access, platform));
            }
        }
        Err(Error::bounds_pair("cannot reshape", self.dims_slice(), shape.as_slice()))
    }

    /// The slice that `range` takes of this array. `range` holds a range for each axis from the
    /// first on, and may leave out axes at the end, which are taken whole. Each range must be
    /// one of its axis, and the number of elements of the slice must fit a `usize`: anything else
    /// is a bounds error. The slice has an axis for each range but a single index; a slice left
    /// with no axis has the shape `[1]`.
    pub fn slice(self, range: Range) -> (r: Result<Array<T, Slice<A, T>, P>, Error>)
        requires
            self.wf(),
        ensures
            r is Ok <==> range@.len() <= self.dims().len() && valid_range(
                filled(range@, self.dims()),
                self.dims(),
            ) && product(range_shape(filled(range@, self.dims()))) <= usize::MAX,
            r matches Ok(out) ==> out.wf() && out.dims() == or_scalar(
                range_shape(filled(range@, self.dims())),
            ) && out.accessor().access == self.accessor() && out.accessor().spec.range@ == filled(
                range@,
                self.dims(),
            ) && out.accessor().spec.source_shape@ == self.dims() && out.spec_platform()
                == P::select_spec(product(out.dims()) as usize),
            r matches Err(error) ==> error.kind() == ErrorKind::Bounds,
    {
        let ghost dims = self.dims();
        let ghost given = range@;
        match check_range(self.dims_slice(), &range) {
            Ok(()) => {},
            Err(error) => {
                proof {
                    if given.len() <= dims.len() && valid_range(filled(given, dims), dims) {
                        assert forall|k: int| 0 <= k < given.len() implies (
                        #[trigger] given[k]).valid_for(dims[k]) by {
                            assert(filled(given, dims)[k].valid_for(dims[k]));
                        }
                    }
                }
                return Err(error);
            },
        }
        let (source, access, _) = self.into_parts();
        let full = fill_range(source.as_slice(), range);
        proof {
            assert forall|k: int| 0 <= k < full@.len() implies (#[trigger] full@[k]).valid_for(
                dims[k],
            ) by {
                if k < given.len() {
                    assert(given[k].valid_for(dims[k]));
                }
            }
            lemma_range_shape_positive(full@, dims);
            assert forall|k: int| 0 <= k < full@.len() implies (#[trigger] full@[k]).wf() by {
                assert(full@[k].valid_for(dims[k]));
            }
        }
        let taken = shape_of_range(&full);
        let size: usize = match shape_size(taken.as_slice()) {
            Some(size) => size,
            None => {
                return Err(Error::bounds("a slice with too many elements", taken.as_slice()));
            },
        };
        let op = Slice::new(access, source.as_slice(), full);
        let shape = if taken.len() == 0 {
            Shape::from_slice(&[1])
        } else {
            Shape::from_slice(taken.as_slice())
        };
        proof {
            lemma_unit_shape();
            assert(shape@ == or_scalar(taken@));
            assert(product(shape@) == product(taken@));
            assert(valid_shape(shape@));
            assert(op.len() == product(taken@));
        }
        Ok(Array::from_parts(shape, op, P::select(size)))
    }

    /// This array without the axes that `axes` names, each of which must be an axis of dimension
    /// 1: anything else is a bounds error. An array left with no axis has the shape `[1]`.
    pub fn squeeze(self, axes: Axes) -> (r: Result<Self, Error>)
        requires
            self.wf(),
        ensures
            r is Ok <==> axes_in_bounds(axes@, self.dims().len()) && forall|k: int|
                0 <= k < axes@.len() ==> self.dims()[#[trigger] axes@[k] as int] == 1,
            r matches Ok(out) ==> out.wf() && out.dims() == or_scalar(
                pick(self.dims(), axes@, false),
            ) && out.accessor() == self.accessor() && out.spec_platform() == self.spec_platform(),
            r matches Err(error) ==> error.kind() == ErrorKind::Bounds,
    {
        let named = axes.as_slice();
        if !axes_below(named, self.dims_slice().len()) {
            return Err(Error::bounds_pair("invalid contraction axes", named, self.dims_slice()));
        }
        let mut k: usize = 0;
        while k < named.len()
            invariant
                k <= named.len(),
                named@ == axes@,
                axes_in_bounds(named@, self.dims().len()),
                forall|j: int| 0 <= j < k ==> self.dims()[#[trigger] named@[j] as int] == 1,
            decreases named.len() - k,
        {
            if self.dims_slice()[named[k]] != 1 {
                return Err(
                    Error::bounds_pair("invalid contraction axes", named, self.dims_slice()),
                );
            }
            k = k + 1;
        }
        let dims = pick_dims(self.dims_slice(), named, false);
        proof {
            assert forall|i: int|
                0 <= i < self.dims().len() && named@.contains(i as usize) implies self.dims()[i]
                == 1 by {
                let j = choose|j: int| 0 <= j < named@.len() && named@[j] == i as usize;
                assert(self.dims()[named@[j] as int] == 1);
            }
            lemma_pick_units(self.dims(), named@);
            lemma_pick_product(self.dims(), named@);
            lemma_unit_shape();
            assert(valid_shape(or_scalar(dims@)));
            assert(product(or_scalar(dims@)) == product(self.dims()));
        }
        let shape = if dims.len() == 0 {
            Shape::from_slice(&[1])
        } else {
            Shape::from_slice(dims.as_slice())
        };
        assert(shape@ == or_scalar(dims@));
        let (_, access, platform) = self.into_parts();
        Ok(Array::from_parts(shape, access, platform))
    }

    /// This array with an axis of dimension 1 put in at each position that `axes` names; a
    /// position is the number of axes of this array before the new axis, and may be the number
    /// of axes of this array. A greater position is a bounds error.
    pub fn unsqueeze(self, axes: Axes) -> (r: Result<Self, Error>)
        requires
            self.wf(),
        ensures
            r is Ok <==> forall|k: int| 0 <= k < axes@.len() ==> axes@[k] <= self.dims().len(),
            r matches Ok(out) ==> out.wf() && out.dims() == expanded(
                self.dims(),
                axes@,
                self.dims().len(),
            ) && out.accessor() == self.accessor() && out.spec_platform() == self.spec_platform(),
            r matches Err(error) ==> error.kind() == ErrorKind::Bounds,
    {
        let named = axes.as_slice();
        let ndim: usize = self.dims_slice().len();
        let mut k: usize = 0;
        while k < named.len()
            invariant
                k <= named.len(),
                named@ == axes@,
                ndim == self.dims().len(),
                forall|j: int| 0 <= j < k ==> named@[j] <= ndim,
            decreases named.len() - k,
        {
            if named[k] > ndim {
                return Err(Error::bounds_pair("invalid expansion axes", named, self.dims_slice()));
            }
            k = k + 1;
        }
        let dims = expand_dims(self.dims_slice(), named);
        proof {
            lemma_expanded_product(self.dims(), named@, ndim as nat);
            assert(self.dims().take(ndim as int) =~= self.dims());
        }
        let (_, access, platform) = self.into_parts();
        Ok(Array::from_parts(Shape::from_slice(dims.as_slice()), access, platform))
    }

    /// This array with its axes in the order of `permutation`, which must name each axis once,
    /// or in the reverse order where no permutation is given. Anything else is a bounds error.
    pub fn transpose(self, permutation: Option<Axes>) -> (r: Result<
        Array<T, View<A, T>, P>,
        Error,
    >)
        requires
            self.wf(),
        ensures
            r is Ok <==> (permutation matches Some(axes) ==> is_permutation(
                axes@,
                self.dims().len(),
            )),
            r matches Ok(out) ==> {
                let order = match permutation {
                    Some(axes) => axes@,
                    None => reversal(self.dims().len()),
                };
                out.wf() && out.dims() == permuted(self.dims(), order) && out.accessor().access
                    == self.accessor() && out.accessor().spec.shape@ == permuted(
                    self.dims(),
                    order,
                ) && out.accessor().spec.source_strides@ == permuted(
                    strides_of(self.dims(), self.dims().len()),
                    order,
                ) && out.spec_platform() == self.spec_platform()
            },
            r matches Err(error) ==> error.kind() == ErrorKind::Bounds,
    {
        let ndim: usize = self.dims_slice().len();
        let order = match permutation {
            Some(axes) => {
                if is_valid_permutation(axes.as_slice(), ndim) {
                    axes
                } else {
                    return Err(
                        Error::bounds_pair(
                            "invalid permutation for shape",
                            axes.as_slice(),
                            self.dims_slice(),
                        ),
                    );
                }
            },
            None => Shape::from_slice(reversed_axes(ndim).as_slice()),
        };
        let dims = permute(self.dims_slice(), order.as_slice());
        let (shape, access, platform) = self.into_parts();
        let view = View::transpose(access, shape, order);
        Ok(Array::from_parts(Shape::from_slice(dims.as_slice()), view, platform))
    }

    /// The parts of a reduction of this array over `axes`: its shape, its input, the length of
    /// the runs that it folds, and its platform.
    fn reduce_parts(self, axes: Axes, keepdims: bool) -> (r: Result<
        (Shape, Accessor<A, T>, usize, P),
        Error,
    >)
        requires
            self.wf(),
        ensures
            r is Ok <==> axes_in_bounds(axes@, self.dims().len()),
            r matches Ok(parts) ==> {
                let (shape, input, stride, platform) = parts;
                &&& shape@ == reduced_shape(self.dims(), axes@, keepdims)
                &&& valid_shape(shape@)
                &&& input.inv()
                &&& is_reduce_input(input, self.accessor(), self.dims(), axes@)
                &&& stride == product(pick(self.dims(), axes@, true))
                &&& stride >= 1
                &&& input.len() % (stride as nat) == 0
                &&& input.len() / (stride as nat) == product(shape@)
                &&& platform == P::select_spec(product(shape@) as usize)
            },
            r matches Err(error) ==> error.kind() == ErrorKind::Bounds,
    {
        let shape = match reduce_axes(self.dims_slice(), axes.as_slice(), keepdims) {
            Ok(shape) => shape,
            Err(error) => {
                return Err(error);
            },
        };
        let ghost dims = self.dims();
        let ghost kept = product(pick(dims, axes@, false));
        let ndim: usize = self.dims_slice().len();
        proof {
            lemma_unit_shape();
            lemma_pick_product(dims, axes@);
            lemma_product_positive(pick(dims, axes@, false));
            lemma_product_positive(pick(dims, axes@, true));
            assert(product(pick(dims, axes@, true)) <= kept * product(pick(dims, axes@, true)))
                by (nonlinear_arith)
                requires
                    kept >= 1,
            ;
            assert(kept <= kept * product(pick(dims, axes@, true))) by (nonlinear_arith)
                requires
                    product(pick(dims, axes@, true)) >= 1,
            ;
        }
        let run = pick_dims(self.dims_slice(), axes.as_slice(), true);
        let stride: usize = match shape_size(run.as_slice()) {
            Some(stride) => stride,
            None => 1,
        };
        let size: usize = match shape_size(shape.as_slice()) {
            Some(size) => size,
            None => 0,
        };
        proof {
            lemma_mod_multiples_basic(kept as int, stride as int);
            lemma_div_by_multiple(kept as int, stride as int);
        }
        let (source, access, platform) = self.into_parts();
        let input = match permute_for_reduce(platform, access, source, axes) {
            Ok(input) => input,
            Err(error) => {
                return Err(error);
            },
        };
        Ok((shape, input, stride, P::select(size)))
    }
}

impl<T: CType, A: Access<T>, P: PlatformInstance> Array<T, A, P> {
    /// The greatest element along `axes`. The axes are taken as a set, and each must be an axis of
    /// this array: anything else
    /// is a bounds error. With `keepdims` each reduced axis is kept with the dimension 1.
    pub fn max(self, axes: Axes, keepdims: bool) -> (r: Result<
        Array<T, Reduce<Accessor<A, T>, T>, P>,
        Error,
    >)
        requires
            self.wf(),
        ensures
            r is Ok <==> axes_in_bounds(axes@, self.dims().len()),
            r matches Ok(out) ==> out.wf() && out.dims() == reduced_shape(
                self.dims(),
                axes@,
                keepdims,
            ) && is_reduce_input(out.accessor().access, self.accessor(), self.dims(), axes@)
                && out.accessor().stride == product(pick(self.dims(), axes@, true))
                && out.accessor().reduce == ZipOp::Max && out.accessor().id
                == T::from_int(T::min_int())
                && out.spec_platform() == P::select_spec(product(out.dims()) as usize),
            r matches Err(error) ==> error.kind() == ErrorKind::Bounds,
    {
        match self.reduce_parts(axes, keepdims) {
            Ok((shape, input, stride, platform)) => Ok(
                Array::from_parts(shape, Reduce::max(input, stride), platform),
            ),
            Err(error) => Err(error),
        }
    }

    /// The least element along `axes`. The axes are taken as a set, and each must be an axis of
    /// this array: anything else
    /// is a bounds error. With `keepdims` each reduced axis is kept with the dimension 1.
    pub fn min(self, axes: Axes, keepdims: bool) -> (r: Result<
        Array<T, Reduce<Accessor<A, T>, T>, P>,
        Error,
    >)
        requires
            self.wf(),
        ensures
            r is Ok <==> axes_in_bounds(axes@, self.dims().len()),
            r matches Ok(out) ==> out.wf() && out.dims() == reduced_shape(
                self.dims(),
                axes@,
                keepdims,
            ) && is_reduce_input(out.accessor().access, self.accessor(), self.dims(), axes@)
                && out.accessor().stride == product(pick(self.dims(), axes@, true))
                && out.accessor().reduce == ZipOp::Min && out.accessor().id
                == T::from_int(T::max_int())
                && out.spec_platform() == P::select_spec(product(out.dims()) as usize),
            r matches Err(error) ==> error.kind() == ErrorKind::Bounds,
    {
        match self.reduce_parts(axes, keepdims) {
            Ok((shape, input, stride, platform)) => Ok(
                Array::from_parts(shape, Reduce::min(input, stride), platform),
            ),
            Err(error) => Err(error),
        }
    }

    /// The product of the elements along `axes`. The axes are taken as a set, and each must be an
    /// axis of this array: anything else
    /// is a bounds error. With `keepdims` each reduced axis is kept with the dimension 1.
    pub fn product(self, axes: Axes, keepdims: bool) -> (r: Result<
        Array<T, Reduce<Accessor<A, T>, T>, P>,
        Error,
    >)
        requires
            self.wf(),
        ensures
            r is Ok <==> axes_in_bounds(axes@, self.dims().len()),
            r matches Ok(out) ==> out.wf() && out.dims() == reduced_shape(
                self.dims(),
                axes@,
                keepdims,
            ) && is_reduce_input(out.accessor().access, self.accessor(), self.dims(), axes@)
                && out.accessor().stride == product(pick(self.dims(), axes@, true))
                && out.accessor().reduce == ZipOp::Mul && out.accessor().id
                == spec_one::<T>()
                && out.spec_platform() == P::select_spec(product(out.dims()) as usize),
            r matches Err(error) ==> error.kind() == ErrorKind::Bounds,
    {
        match self.reduce_parts(axes, keepdims) {
            Ok((shape, input, stride, platform)) => Ok(
                Array::from_parts(shape, Reduce::product(input, stride), platform),
            ),
            Err(error) => Err(error),
        }
    }

    /// The sum of the elements along `axes`. The axes are taken as a set, and each must be an axis
    /// of this array: anything else
    /// is a bounds error. With `keepdims` each reduced axis is kept with the dimension 1.
    pub fn sum(self, axes: Axes, keepdims: bool) -> (r: Result<
        Array<T, Reduce<Accessor<A, T>, T>, P>,
        Error,
    >)
        requires
            self.wf(),
        ensures
            r is Ok <==> axes_in_bounds(axes@, self.dims().len()),
            r matches Ok(out) ==> out.wf() && out.dims() == reduced_shape(
                self.dims(),
                axes@,
                keepdims,
            ) && is_reduce_input(out.accessor().access, self.accessor(), self.dims(), axes@)
                && out.accessor().stride == product(pick(self.dims(), axes@, true))
                && out.accessor().reduce == ZipOp::Add && out.accessor().id
                == spec_zero::<T>()
                && out.spec_platform() == P::select_spec(product(out.dims()) as usize),
            r matches Err(error) ==> error.kind() == ErrorKind::Bounds,
    {
        match self.reduce_parts(axes, keepdims) {
            Ok((shape, input, stride, platform)) => Ok(
                Array::from_parts(shape, Reduce::sum(input, stride), platform),
            ),
            Err(error) => Err(error),
        }
    }

    /// The products of the matrices of this array and of `other`. Both must have at least two
    /// axes, the last dimension of this array must be the last but one of `other`, the axes
    /// before the last two must be the same, and the number of elements of the products must fit
    /// a `usize`: anything else is a bounds error.
    pub fn matmul<R: Access<T>>(self, other: Array<T, R, P>) -> (r: Result<
        Array<T, MatMul<A, R, T>, P>,
        Error,
    >)
        requires
            self.wf(),
            other.wf(),
        ensures
            r is Ok <==> matmul_compatible(self.dims(), other.dims()) && product(
                matmul_shape(self.dims(), other.dims()),
            ) <= usize::MAX,
            r matches Ok(out) ==> {
                let n = self.dims().len();
                out.wf() && out.dims() == matmul_shape(self.dims(), other.dims())
                    && out.accessor().left == self.accessor() && out.accessor().right
                    == other.accessor() && out.accessor().batch_size == product(
                    self.dims().take(n - 2),
                ) && out.accessor().dims[0] == self.dims()[n - 2] && out.accessor().dims[1]
                    == self.dims()[n - 1] && out.accessor().dims[2] == other.dims()[n - 1]
                    && out.spec_platform() == P::select_spec(product(out.dims()) as usize)
            },
            r matches Err(error) ==> error.kind() == ErrorKind::Bounds,
    {
        let ghost left = self.dims();
        let ghost right = other.dims();
        let ndim: usize = self.dims_slice().len();
        proof {
            if ndim >= 2 {
                lemma_product_prefix(left, ndim - 2);
            }
        }
        let dims = match matmul_dims(self.dims_slice(), other.dims_slice()) {
            Some(dims) => dims,
            None => {
                return Err(
                    Error::bounds_pair(
                        "invalid dimensions for matrix multiply",
                        self.dims_slice(),
                        other.dims_slice(),
                    ),
                );
            },
        };
        let batch: usize = dims[0];
        let a: usize = dims[1];
        let b: usize = dims[2];
        let c: usize = dims[3];
        let ghost out_dims = matmul_shape(left, right);
        proof {
            let n = ndim as int;
            let prefix = left.take(n - 2);
            assert(left.drop_last().drop_last() =~= prefix);
            assert(left.drop_last().last() == a);
            assert(left.last() == b);
            assert(product(left.drop_last()) == product(prefix) * a);
            assert(product(left) == product(left.drop_last()) * b);
            assert(right.drop_last().drop_last() =~= prefix);
            assert(right.drop_last().last() == b);
            assert(right.last() == c);
            assert(product(right.drop_last()) == product(prefix) * b);
            assert(product(right) == product(right.drop_last()) * c);
            assert(out_dims.drop_last().drop_last() =~= prefix);
            assert(out_dims.drop_last().last() == a);
            assert(out_dims.last() == c);
            assert(product(out_dims.drop_last()) == product(prefix) * a);
            assert(product(out_dims) == product(out_dims.drop_last()) * c);
            assert(positive(prefix));
            lemma_product_positive(prefix);
            assert(batch * a <= batch * a * c) by (nonlinear_arith)
                requires
                    batch >= 1,
                    a >= 1,
                    c >= 1,
            ;
        }
        let size: usize = match batch.checked_mul(a) {
            Some(rows) => match rows.checked_mul(c) {
                Some(size) => size,
                None => {
                    return Err(
                        Error::bounds_pair(
                            "a matrix product with too many elements",
                            self.dims_slice(),
                            other.dims_slice(),
                        ),
                    );
                },
            },
            None => {
                return Err(
                    Error::bounds_pair(
                        "a matrix product with too many elements",
                        self.dims_slice(),
                        other.dims_slice(),
                    ),
                );
            },
        };
        let mut shape: Vec<usize> = crate::buffer::copy_slice(
            slice_subrange(self.dims_slice(), 0, ndim - 2),
        );
        shape.push(a);
        shape.push(c);
        assert(shape@ =~= out_dims);
        let (_, left_access, _) = self.into_parts();
        let (_, right_access, _) = other.into_parts();
        Ok(
            Array::from_parts(
                Shape::from_slice(shape.as_slice()),
                MatMul::new(left_access, right_access, dims),
                P::select(size),
            ),
        )
    }

    /// The diagonals of the matrices of this array, which must have at least two axes and equal
    /// last two dimensions: anything else is a bounds error.
    pub fn diag(self) -> (r: Result<Array<T, MatDiag<A, T>, P>, Error>)
        requires
            self.wf(),
        ensures
            r is Ok <==> self.dims().len() >= 2 && self.dims()[self.dims().len() - 1]
                == self.dims()[self.dims().len() - 2],
            r matches Ok(out) ==> {
                let n = self.dims().len();
                out.wf() && out.dims() == self.dims().take(n - 1) && out.accessor().access
                    == self.accessor() && out.accessor().batch_size == product(
                    self.dims().take(n - 2),
                ) && out.accessor().dim == self.dims()[n - 1] && out.spec_platform()
                    == P::select_spec(product(out.dims()) as usize)
            },
            r matches Err(error) ==> error.kind() == ErrorKind::Bounds,
    {
        let ghost dims = self.dims();
        let ndim: usize = self.dims_slice().len();
        if ndim < 2 || self.dims_slice()[ndim - 1] != self.dims_slice()[ndim - 2] {
            return Err(Error::bounds("invalid shape for diagonal", self.dims_slice()));
        }
        let dim: usize = self.dims_slice()[ndim - 1];
        proof {
            let n = ndim as int;
            lemma_product_prefix(dims, n - 2);
            lemma_product_prefix(dims, n - 1);
            assert(dims.drop_last() =~= dims.take(n - 1));
            assert(dims.take(n - 1).drop_last() =~= dims.take(n - 2));
            assert(product(dims.take(n - 1)) == product(dims.take(n - 2)) * dim);
            assert(product(dims) == product(dims.take(n - 2)) * dim * dim);
        }
        let batch: usize = match shape_size(slice_subrange(self.dims_slice(), 0, ndim - 2)) {
            Some(batch) => batch,
            None => 0,
        };
        let shape = crate::buffer::copy_slice(slice_subrange(self.dims_slice(), 0, ndim - 1));
        let size: usize = match shape_size(shape.as_slice()) {
            Some(size) => size,
            None => 0,
        };
        proof {
            assert(dims.subrange(0, ndim - 2) =~= dims.take(ndim - 2));
            assert(shape@ =~= dims.take(ndim - 1));
        }
        let (_, access, _) = self.into_parts();
        Ok(
            Array::from_parts(
                Shape::from_slice(shape.as_slice()),
                MatDiag::new(access, batch, dim),
                P::select(size),
            ),
        )
    }
}

} // verus!
