//! Views and slices: reads, and for slices writes, through strides, without a copy.

use std::marker::PhantomData;

use vstd::prelude::*;
use vstd::view::View as _;

use crate::access::{fill, lemma_collect_values, scatter, Access, AccessMut};
use crate::buffer::{SliceConverter, VEC_MIN_SIZE};
use crate::ctype::CType;
use crate::error::{Error, ErrorKind};
use crate::index::{
    coords_of, dot, lemma_dot_monotone, lemma_dot_prefix, lemma_dot_project, lemma_dot_strides,
    lemma_ravel_bound, project, ravel, sized, strides_for, strides_of,
};
use crate::range::{
    lemma_span_index, lemma_span_size, range_shape, shape_of_range, slice_coord, valid_range,
    AxisRange, Range,
};
use crate::permutation::{
    is_permutation, lemma_permuted_dot, lemma_permuted_product, permute, permuted,
};
use crate::shape::{
    broadcasts_to, in_bounds, positive, product, shape_size, valid_shape, Axes, Shape, Strides,
};

verus! {

/// Each dimension less 1: the greatest coordinate of an array of shape `dims`.
pub open spec fn decrement(dims: Seq<usize>) -> Seq<usize> {
    Seq::new(dims.len(), |k: int| (dims[k] - 1) as usize)
}

/// The greatest source offset that a view of shape `dims` with the source strides `strides`
/// reads.
pub open spec fn reach(dims: Seq<usize>, strides: Seq<usize>) -> nat {
    dot(decrement(dims), strides)
}

/// The addressing of a view: the shape and strides of its output, and the stride in the source
/// of each output axis.
pub struct ViewSpec {
    pub shape: Shape,
    pub strides: Strides,
    pub source_strides: Strides,
}

impl ViewSpec {
    /// Whether the strides are those of the shape, and every source offset fits a `usize`.
    pub open spec fn inv(&self) -> bool {
        &&& valid_shape(self.shape@)
        &&& self.strides@ == strides_of(self.shape@, self.shape@.len())
        &&& self.source_strides@.len() == self.shape@.len()
        &&& reach(self.shape@, self.source_strides@) <= usize::MAX
    }

    /// The number of elements of the view.
    pub open spec fn spec_size(&self) -> nat {
        product(self.shape@)
    }

    /// The offset in the source of the element at `offset` of the view: the sum over the axes
    /// of the offset divided by the stride, modulo the dimension, times the source stride.
    pub open spec fn spec_source_offset(&self, offset: nat) -> nat {
        dot(coords_of(offset, self.shape@, self.strides@), self.source_strides@)
    }

    /// No source offset is beyond the reach of the view.
    pub proof fn lemma_source_offset(&self, offset: nat)
        requires
            self.inv(),
        ensures
            self.spec_source_offset(offset) <= reach(self.shape@, self.source_strides@),
    {
        let coords = coords_of(offset, self.shape@, self.strides@);
        let most = decrement(self.shape@);
        assert forall|k: int| 0 <= k < coords.len() implies coords[k] <= most[k] by {
            let stride = self.strides@[k] as nat;
            let dim = self.shape@[k] as nat;
            if stride != 0 {
                assert((offset / stride) % dim < dim) by (nonlinear_arith)
                    requires
                        dim >= 1,
                ;
            }
        }
        lemma_dot_monotone(coords, most, self.source_strides@);
    }

    /// The addressing of a view of shape `shape` whose axes have the strides `source_strides`
    /// in the source.
    pub fn new(shape: Shape, source_strides: Strides) -> (spec: Self)
        requires
            valid_shape(shape@),
            source_strides@.len() == shape@.len(),
            reach(shape@, source_strides@) <= usize::MAX,
        ensures
            spec.inv(),
            spec.shape@ == shape@,
            spec.source_strides@ == source_strides@,
    {
        let strides = strides_for(shape.as_slice(), shape.len());
        ViewSpec { shape, strides, source_strides }
    }

    /// The number of elements of the view.
    pub fn size(&self) -> (n: usize)
        requires
            self.inv(),
        ensures
            n == self.spec_size(),
    {
        match shape_size(self.shape.as_slice()) {
            Some(n) => n,
            None => 0,
        }
    }

    /// The offset in the source of the element at `offset` of the view.
    pub fn source_offset(&self, offset: usize) -> (source: usize)
        requires
            self.inv(),
        ensures
            source == self.spec_source_offset(offset as nat),
            source <= reach(self.shape@, self.source_strides@),
    {
        let shape = self.shape.as_slice();
        let strides = self.strides.as_slice();
        let source_strides = self.source_strides.as_slice();
        let ghost coords = coords_of(offset as nat, shape@, strides@);
        proof {
            self.lemma_source_offset(offset as nat);
        }
        let mut total: usize = 0;
        let mut i: usize = 0;
        while i < shape.len()
            invariant
                i <= shape.len(),
                shape@.len() == strides@.len(),
                shape@.len() == source_strides@.len(),
                positive(shape@),
                coords == coords_of(offset as nat, shape@, strides@),
                dot(coords, source_strides@) <= usize::MAX,
                total == dot(coords.take(i as int), source_strides@.take(i as int)),
            decreases shape.len() - i,
        {
            let coord: usize = if strides[i] == 0 {
                0
            } else {
                (offset / strides[i]) % shape[i]
            };
            proof {
                lemma_dot_prefix(coords, source_strides@, i + 1);
                assert(coords.take(i + 1).drop_last() =~= coords.take(i as int));
                assert(source_strides@.take(i + 1).drop_last() =~= source_strides@.take(i as int));
                assert(coords[i as int] == coord);
                assert(dot(coords.take(i + 1), source_strides@.take(i + 1)) == total + coord
                    * source_strides@[i as int]);
                assert(0 <= coord * source_strides@[i as int]) by (nonlinear_arith);
            }
            total = total + coord * source_strides[i];
            i = i + 1;
        }
        proof {
            assert(coords.take(shape.len() as int) =~= coords);
            assert(source_strides@.take(shape.len() as int) =~= source_strides@);
        }
        total
    }
}

/// A view of a source through strides: a broadcast or a transposition, without a copy.
pub struct View<A, T> {
    pub access: A,
    pub spec: ViewSpec,
    pub dtype: PhantomData<T>,
}

impl<A: Access<T>, T: CType> View<A, T> {
    /// The view of `access`, an array of shape `shape`, broadcast into the shape `broadcast`:
    /// an axis of the source has its own stride where the dimensions are equal and the stride 0
    /// where the source has the dimension 1, and so has each axis that the source lacks.
    pub fn broadcast(access: A, shape: Shape, broadcast: Shape) -> (op: Self)
        requires
            access.inv(),
            valid_shape(shape@),
            product(shape@) == access.len(),
            valid_shape(broadcast@),
            broadcasts_to(shape@, broadcast@),
        ensures
            op.inv(),
            op.access == access,
            op.spec.shape@ == broadcast@,
            op.spec.source_strides@ == strides_of(shape@, broadcast@.len()),
    {
        let source_strides = strides_for(shape.as_slice(), broadcast.len());
        proof {
            let most = decrement(broadcast@);
            let inner = project(most, shape@);
            assert forall|j: int| 0 <= j < shape@.len() implies inner[j] < shape@[j] by {
                assert(shape@[j] == broadcast@[broadcast@.len() - shape@.len() + j] || shape@[j]
                    == 1);
            }
            lemma_dot_project(most, shape@);
            lemma_ravel_bound(inner, shape@);
        }
        View { access, spec: ViewSpec::new(broadcast, source_strides), dtype: PhantomData }
    }

    /// The view of `access`, an array of shape `shape`, with its axes in the order of `axes`.
    pub fn transpose(access: A, shape: Shape, axes: Axes) -> (op: Self)
        requires
            access.inv(),
            valid_shape(shape@),
            product(shape@) == access.len(),
            is_permutation(axes@, shape@.len()),
        ensures
            op.inv(),
            op.access == access,
            op.spec.shape@ == permuted(shape@, axes@),
            op.spec.source_strides@ == permuted(strides_of(shape@, shape@.len()), axes@),
            op.len() == access.len(),
    {
        let strides = strides_for(shape.as_slice(), shape.len());
        let dims = permute(shape.as_slice(), axes.as_slice());
        let source_strides = permute(strides.as_slice(), axes.as_slice());
        proof {
            let most = decrement(shape@);
            lemma_permuted_product(shape@, axes@);
            lemma_permuted_dot(most, strides@, axes@);
            assert(permuted(most, axes@) =~= decrement(dims@));
            assert(in_bounds(most, shape@));
            lemma_dot_strides(most, shape@);
            lemma_ravel_bound(most, shape@);
        }
        View {
            access,
            spec: ViewSpec::new(
                Shape::from_slice(dims.as_slice()),
                Shape::from_slice(source_strides.as_slice()),
            ),
            dtype: PhantomData,
        }
    }
}

impl<A: Access<T>, T: CType> Access<T> for View<A, T> {
    open spec fn inv(&self) -> bool {
        &&& self.access.inv()
        &&& self.spec.inv()
        &&& reach(self.spec.shape@, self.spec.source_strides@) < self.access.len()
    }

    open spec fn len(&self) -> nat {
        self.spec.spec_size()
    }

    open spec fn value(&self) -> Result<Seq<T>, ErrorKind> {
        match self.access.value() {
            Err(kind) => Err(kind),
            Ok(items) => Ok(
                Seq::new(
                    self.spec.spec_size(),
                    |i: int| items[self.spec.spec_source_offset(i as nat) as int],
                ),
            ),
        }
    }

    open spec fn elem(&self, offset: int) -> Result<T, ErrorKind> {
        if 0 <= offset < self.spec.spec_size() {
            self.access.elem(self.spec.spec_source_offset(offset as nat) as int)
        } else {
            Err(ErrorKind::Bounds)
        }
    }

    open spec fn random_access(&self) -> bool {
        self.access.random_access()
    }

    proof fn lemma_access(&self) {
        self.access.lemma_access();
        if let Ok(items) = self.access.value() {
            if self.random_access() {
                assert forall|i: int| 0 <= i < self.len() implies self.elem(i) == Ok::<
                    T,
                    ErrorKind,
                >(self.value()->Ok_0[i]) by {
                    self.spec.lemma_source_offset(i as nat);
                }
            }
        }
    }

    fn size(&self) -> (n: usize) {
        self.spec.size()
    }

    fn read<'a>(&'a self) -> (r: Result<SliceConverter<'a, T>, Error>)
        ensures
            r matches Ok(buffer) ==> !(buffer is Slice) && (buffer is Stack <==> self.len()
                < VEC_MIN_SIZE),
    {
        proof {
            self.access.lemma_access();
        }
        let source = match self.access.read() {
            Ok(source) => source,
            Err(error) => {
                return Err(error);
            },
        };
        let items = source.as_slice();
        let spec = &self.spec;
        let n: usize = spec.size();
        let ghost g = |i: int| Ok::<T, ErrorKind>(items@[spec.spec_source_offset(i as nat) as int]);
        let f = |i: usize| -> (out: Result<T, Error>)
            requires
                i < n,
            ensures
                out == Ok::<T, Error>(items@[spec.spec_source_offset(i as nat) as int]),
            { Ok(items[spec.source_offset(i)]) };
        let out = fill(n, f, Ghost(g));
        proof {
            lemma_collect_values(
                Seq::new(n as nat, g),
                Seq::new(
                    spec.spec_size(),
                    |i: int| items@[spec.spec_source_offset(i as nat) as int],
                ),
            );
        }
        out
    }

    fn read_value(&self, offset: usize) -> (r: Result<T, Error>) {
        if offset < self.spec.size() {
            self.access.read_value(self.spec.source_offset(offset))
        } else {
            Err(Error::bounds("invalid offset for a view of size", &[offset, self.spec.size()]))
        }
    }
}

/// The shape of the slice of a prefix of the axes is a prefix of the shape of the slice.
pub proof fn lemma_range_shape_prefix(range: Seq<AxisRange>, k: int)
    requires
        0 <= k <= range.len(),
    ensures
        range_shape(range.take(k)).len() <= range_shape(range).len(),
        range_shape(range.take(k)) =~= range_shape(range).take(
            range_shape(range.take(k)).len() as int,
        ),
    decreases range.len() - k,
{
    if k < range.len() {
        lemma_range_shape_prefix(range, k + 1);
        assert(range.take(k + 1).drop_last() =~= range.take(k));
    } else {
        assert(range.take(k) =~= range);
    }
}

/// The addressing of a slice: the range that it takes of each axis of its source, the shape
/// and strides of its output, and the shape and strides of its source.
pub struct SliceSpec {
    pub range: Range,
    pub shape: Shape,
    pub strides: Strides,
    pub source_shape: Shape,
    pub source_strides: Strides,
}

impl SliceSpec {
    /// Whether the range is one of the source, the shape is that of the range, and the strides
    /// are those of the shapes.
    pub open spec fn inv(&self) -> bool {
        &&& valid_shape(self.source_shape@)
        &&& valid_range(self.range@, self.source_shape@)
        &&& self.shape@ == range_shape(self.range@)
        &&& sized(self.shape@)
        &&& self.strides@ == strides_of(self.shape@, self.shape@.len())
        &&& self.source_strides@ == strides_of(self.source_shape@, self.source_shape@.len())
    }

    /// The number of elements of the slice.
    pub open spec fn spec_size(&self) -> nat {
        product(self.shape@)
    }

    /// The offset in the source of the element at `offset` of the slice: the row-major offset
    /// of the source coordinate that the coordinate of `offset` stands for.
    pub open spec fn spec_source_offset(&self, offset: nat) -> nat {
        ravel(
            slice_coord(self.range@, coords_of(offset, self.shape@, self.strides@)),
            self.source_shape@,
        )
    }

    /// The coordinate that the strides give for an offset is a coordinate of the slice, and
    /// its source offset is an offset of the source.
    pub proof fn lemma_source_offset(&self, offset: nat)
        requires
            self.inv(),
        ensures
            in_bounds(coords_of(offset, self.shape@, self.strides@), self.shape@),
            self.spec_source_offset(offset) < product(self.source_shape@),
    {
        let coords = coords_of(offset, self.shape@, self.strides@);
        assert forall|k: int| 0 <= k < coords.len() implies coords[k] < self.shape@[k] by {
            let stride = self.strides@[k] as nat;
            let dim = self.shape@[k] as nat;
            if stride != 0 {
                assert((offset / stride) % dim < dim) by (nonlinear_arith)
                    requires
                        dim >= 1,
                ;
            }
        }
        crate::range::lemma_slice_coord(self.range@, self.source_shape@, coords);
        lemma_ravel_bound(slice_coord(self.range@, coords), self.source_shape@);
    }

    /// The addressing of the slice that `range` takes of an array of shape `source_shape`.
    pub fn new(source_shape: &[usize], range: Range) -> (spec: Self)
        requires
            valid_shape(source_shape@),
            valid_range(range@, source_shape@),
            sized(range_shape(range@)),
        ensures
            spec.inv(),
            spec.range@ == range@,
            spec.source_shape@ == source_shape@,
            spec.shape@ == range_shape(range@),
    {
        assert forall|k: int| 0 <= k < range@.len() implies (#[trigger] range@[k]).wf() by {
            assert(range@[k].valid_for(source_shape@[k]));
        }
        let shape = shape_of_range(&range);
        let strides = strides_for(shape.as_slice(), shape.len());
        let source_strides = strides_for(source_shape, source_shape.len());
        SliceSpec {
            range,
            shape: Shape::from_slice(shape.as_slice()),
            strides,
            source_shape: Shape::from_slice(source_shape),
            source_strides,
        }
    }

    /// The number of elements of the slice.
    pub fn size(&self) -> (n: usize)
        requires
            self.inv(),
        ensures
            n == self.spec_size(),
    {
        match shape_size(self.shape.as_slice()) {
            Some(n) => n,
            None => 0,
        }
    }

    /// The offset in the source of the element at `offset` of the slice.
    pub fn source_offset(&self, offset: usize) -> (source: usize)
        requires
            self.inv(),
        ensures
            source == self.spec_source_offset(offset as nat),
            source < product(self.source_shape@),
    {
        let shape = self.shape.as_slice();
        let strides = self.strides.as_slice();
        let dims = self.source_shape.as_slice();
        let source_strides = self.source_strides.as_slice();
        let ghost coords = coords_of(offset as nat, shape@, strides@);
        let ghost most = decrement(dims@);
        let ghost range = self.range@;
        proof {
            self.lemma_source_offset(offset as nat);
            assert(in_bounds(most, dims@));
            lemma_dot_strides(most, dims@);
            lemma_ravel_bound(most, dims@);
            assert(range.take(0) =~= Seq::<AxisRange>::empty());
            assert(source_strides@.take(0) =~= Seq::<usize>::empty());
        }
        let mut total: usize = 0;
        let mut cursor: usize = 0;
        let mut k: usize = 0;
        while k < self.range.len()
            invariant
                k <= range.len(),
                cursor <= shape.len(),
                self.inv(),
                range == self.range@,
                shape@ == self.shape@,
                strides@ == self.strides@,
                dims@ == self.source_shape@,
                source_strides@ == self.source_strides@,
                coords == coords_of(offset as nat, shape@, strides@),
                in_bounds(coords, shape@),
                most == decrement(dims@),
                dot(most, source_strides@) < product(dims@),
                range_shape(range.take(k as int)).len() == cursor,
                in_bounds(
                    slice_coord(range.take(k as int), coords.take(cursor as int)),
                    dims@.take(k as int),
                ),
                total == dot(
                    slice_coord(range.take(k as int), coords.take(cursor as int)),
                    source_strides@.take(k as int),
                ),
            decreases range.len() - k,
        {
            let ghost before = slice_coord(range.take(k as int), coords.take(cursor as int));
            let ghost old_cursor = cursor;
            proof {
                assert(range.take(k + 1).drop_last() =~= range.take(k as int));
                assert(range.take(k + 1).last() == range[k as int]);
                assert(range[k as int].valid_for(dims@[k as int]));
                lemma_range_shape_prefix(range, k + 1);
            }
            let index: usize = match &self.range[k] {
                AxisRange::At(i) => *i,
                AxisRange::In(start, stop, step) => {
                    proof {
                        lemma_span_size(*start, *stop, *step);
                    }
                    let coord: usize = if strides[cursor] == 0 {
                        0
                    } else {
                        (offset / strides[cursor]) % shape[cursor]
                    };
                    proof {
                        assert(coord == coords[cursor as int]);
                        assert(range_shape(range.take(k + 1))[cursor as int]
                            == shape@[cursor as int]);
                        lemma_span_index(*start, *stop, *step, coord as nat);
                        assert(0 <= coord * *step) by (nonlinear_arith);
                    }
                    cursor = cursor + 1;
                    *start + coord * *step
                },
                AxisRange::Of(indices) => {
                    let coord: usize = if strides[cursor] == 0 {
                        0
                    } else {
                        (offset / strides[cursor]) % shape[cursor]
                    };
                    proof {
                        assert(coord == coords[cursor as int]);
                        assert(range_shape(range.take(k + 1))[cursor as int]
                            == shape@[cursor as int]);
                    }
                    cursor = cursor + 1;
                    indices[coord]
                },
            };
            proof {
                let after = slice_coord(range.take(k + 1), coords.take(cursor as int));
                if old_cursor != cursor {
                    assert(coords.take(cursor as int).drop_last() =~= coords.take(
                        old_cursor as int,
                    ));
                    assert(coords.take(cursor as int).last() == coords[old_cursor as int]);
                }
                assert(after == before.push(index));
                assert(after.drop_last() =~= before);
                assert(source_strides@.take(k + 1).drop_last() =~= source_strides@.take(k as int));
                assert(dot(after, source_strides@.take(k + 1)) == total + index
                    * source_strides@[k as int]);
                assert(in_bounds(after, dims@.take(k + 1)));
                lemma_dot_monotone(after, most.take(k + 1), source_strides@.take(k + 1));
                lemma_dot_prefix(most, source_strides@, k + 1);
                assert(0 <= index * source_strides@[k as int]) by (nonlinear_arith);
            }
            total = total + index * source_strides[k];
            k = k + 1;
        }
        proof {
            assert(range.take(k as int) =~= range);
            assert(coords.take(cursor as int) =~= coords);
            assert(source_strides@.take(k as int) =~= source_strides@);
            assert(dims@.take(k as int) =~= dims@);
            lemma_dot_strides(slice_coord(range, coords), dims@);
        }
        total
    }
}

/// A slice of a source, read and written through without a copy.
pub struct Slice<A, T> {
    pub access: A,
    pub spec: SliceSpec,
    pub dtype: PhantomData<T>,
}

impl<A: Access<T>, T: CType> Slice<A, T> {
    /// The slice that `range` takes of `access`, an array of shape `shape`.
    pub fn new(access: A, shape: &[usize], range: Range) -> (op: Self)
        requires
            access.inv(),
            valid_shape(shape@),
            product(shape@) == access.len(),
            valid_range(range@, shape@),
            sized(range_shape(range@)),
        ensures
            op.inv(),
            op.access == access,
            op.spec.range@ == range@,
            op.spec.source_shape@ == shape@,
            op.spec.shape@ == range_shape(range@),
    {
        Slice { access, spec: SliceSpec::new(shape, range), dtype: PhantomData }
    }

    /// The source of this slice.
    pub fn into_source(self) -> (access: A)
        ensures
            access == self.access,
    {
        self.access
    }
}

impl<A: Access<T>, T: CType> Access<T> for Slice<A, T> {
    open spec fn inv(&self) -> bool {
        &&& self.access.inv()
        &&& self.spec.inv()
        &&& product(self.spec.source_shape@) == self.access.len()
    }

    open spec fn len(&self) -> nat {
        self.spec.spec_size()
    }

    open spec fn value(&self) -> Result<Seq<T>, ErrorKind> {
        match self.access.value() {
            Err(kind) => Err(kind),
            Ok(items) => Ok(
                Seq::new(
                    self.spec.spec_size(),
                    |i: int| items[self.spec.spec_source_offset(i as nat) as int],
                ),
            ),
        }
    }

    open spec fn elem(&self, offset: int) -> Result<T, ErrorKind> {
        if 0 <= offset < self.spec.spec_size() {
            self.access.elem(self.spec.spec_source_offset(offset as nat) as int)
        } else {
            Err(ErrorKind::Bounds)
        }
    }

    open spec fn random_access(&self) -> bool {
        self.access.random_access()
    }

    proof fn lemma_access(&self) {
        self.access.lemma_access();
        if let Ok(items) = self.access.value() {
            if self.random_access() {
                assert forall|i: int| 0 <= i < self.len() implies self.elem(i) == Ok::<
                    T,
                    ErrorKind,
                >(self.value()->Ok_0[i]) by {
                    self.spec.lemma_source_offset(i as nat);
                }
            }
        }
    }

    fn size(&self) -> (n: usize) {
        self.spec.size()
    }

    fn read<'a>(&'a self) -> (r: Result<SliceConverter<'a, T>, Error>)
        ensures
            r matches Ok(buffer) ==> !(buffer is Slice) && (buffer is Stack <==> self.len()
                < VEC_MIN_SIZE),
    {
        proof {
            self.access.lemma_access();
        }
        let source = match self.access.read() {
            Ok(source) => source,
            Err(error) => {
                return Err(error);
            },
        };
        let items = source.as_slice();
        let spec = &self.spec;
        let n: usize = spec.size();
        let ghost g = |i: int| Ok::<T, ErrorKind>(items@[spec.spec_source_offset(i as nat) as int]);
        let f = |i: usize| -> (out: Result<T, Error>)
            requires
                i < n,
            ensures
                out == Ok::<T, Error>(items@[spec.spec_source_offset(i as nat) as int]),
            { Ok(items[spec.source_offset(i)]) };
        let out = fill(n, f, Ghost(g));
        proof {
            lemma_collect_values(
                Seq::new(n as nat, g),
                Seq::new(
                    spec.spec_size(),
                    |i: int| items@[spec.spec_source_offset(i as nat) as int],
                ),
            );
        }
        out
    }

    fn read_value(&self, offset: usize) -> (r: Result<T, Error>) {
        if offset < self.spec.size() {
            self.access.read_value(self.spec.source_offset(offset))
        } else {
            Err(Error::bounds("invalid offset for a slice of size", &[offset, self.spec.size()]))
        }
    }
}

impl<A: AccessMut<T>, T: CType> AccessMut<T> for Slice<A, T> {
    open spec fn store(&self) -> Seq<T> {
        self.access.store()
    }

    open spec fn slots(&self) -> Seq<int> {
        Seq::new(
            self.spec.spec_size(),
            |i: int| self.access.slots()[self.spec.spec_source_offset(i as nat) as int],
        )
    }

    proof fn lemma_access_mut(&self) {
        self.access.lemma_access_mut();
        self.access.lemma_access();
        assert forall|i: int| 0 <= i < self.len() implies 0 <= #[trigger] self.slots()[i]
            < self.store().len() by {
            self.spec.lemma_source_offset(i as nat);
        }
        let items = self.access.value()->Ok_0;
        assert(self.value()->Ok_0 =~= Seq::new(
            self.len(),
            |i: int| self.store()[self.slots()[i]],
        )) by {
            assert forall|i: int| 0 <= i < self.len() implies self.value()->Ok_0[i]
                == self.store()[self.slots()[i]] by {
                self.spec.lemma_source_offset(i as nat);
            }
        }
    }

    fn write(&mut self, data: &[T]) -> (r: Result<(), Error>) {
        let n: usize = self.spec.size();
        if data.len() != n {
            return Err(
                Error::bounds(
                    "cannot overwrite a slice with data of another size",
                    &[n, data.len()],
                ),
            );
        }
        let mut i: usize = 0;
        while i < n
            invariant
                i <= n,
                n == data@.len(),
                n == old(self).len(),
                self.inv(),
                self.spec == old(self).spec,
                self.access.slots() == old(self).access.slots(),
                self.access.len() == old(self).access.len(),
                self.access.store().len() == old(self).access.store().len(),
                self.access.store() == scatter(
                    old(self).store(),
                    old(self).slots(),
                    data@,
                    i as nat,
                ),
            decreases n - i,
        {
            let source: usize = self.spec.source_offset(i);
            let written = self.access.write_value_at(source, data[i]);
            i = i + 1;
        }
        Ok(())
    }

    fn write_value(&mut self, value: T) -> (r: Result<(), Error>) {
        let n: usize = self.spec.size();
        let ghost data = Seq::new(n as nat, |i: int| value);
        let mut i: usize = 0;
        while i < n
            invariant
                i <= n,
                n == old(self).len(),
                data == Seq::new(n as nat, |i: int| value),
                self.inv(),
                self.spec == old(self).spec,
                self.access.slots() == old(self).access.slots(),
                self.access.len() == old(self).access.len(),
                self.access.store().len() == old(self).access.store().len(),
                self.access.store() == scatter(
                    old(self).store(),
                    old(self).slots(),
                    data,
                    i as nat,
                ),
            decreases n - i,
        {
            let source: usize = self.spec.source_offset(i);
            let written = self.access.write_value_at(source, value);
            i = i + 1;
        }
        Ok(())
    }

    fn write_value_at(&mut self, offset: usize, value: T) -> (r: Result<(), Error>)
        ensures
            final(self).spec == old(self).spec,
            offset < old(self).len() ==> final(self).access.elem(
                old(self).spec.spec_source_offset(offset as nat) as int,
            ) == Ok::<T, ErrorKind>(value),
    {
        if offset < self.spec.size() {
            let source: usize = self.spec.source_offset(offset);
            proof {
                self.access.lemma_access_mut();
            }
            let written = self.access.write_value_at(source, value);
            proof {
                self.access.lemma_access_mut();
                self.access.lemma_access();
            }
            written
        } else {
            Err(Error::bounds("invalid offset for a slice of size", &[offset, self.spec.size()]))
        }
    }
}

} // verus!
