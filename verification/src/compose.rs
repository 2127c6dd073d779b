//! The composition of two ranges: the slice of a slice as one slice.

use vstd::prelude::*;
use vstd::view::View as _;

use crate::access::Access;
use crate::ctype::CType;
use crate::error::ErrorKind;
use crate::index::{coords_of, lemma_unravel_ravel, lemma_coords_of, lemma_ravel_bound, ravel};
use crate::ops::{Slice, SliceSpec};
use crate::error::Error;
use crate::range::{
    check_range, lemma_slice_coord, lemma_span_index, lemma_span_size, range_shape, shape_of_range,
    slice_coord, valid_range, AxisRange, Range,
};
use crate::shape::in_bounds;

verus! {

/// Whether `both` takes of an axis what `second` takes of what `first` takes of it, where
/// `first` is no single index.
pub open spec fn composes_axis(first: AxisRange, second: AxisRange, both: AxisRange) -> bool {
    match second {
        AxisRange::At(j) => both matches AxisRange::At(k) && k == first.spec_index(j as nat),
        _ => !(both is At) && both.spec_size() == second.spec_size() && forall|c: nat|
            c < second.spec_size()->Some_0 ==> #[trigger] both.spec_index(c) == first.spec_index(
                second.spec_index(c),
            ),
    }
}

/// Whether `both` is the composition of `first`, a range of an array, with `second`, a range of
/// the slice that `first` takes: a single index of `first` is one of `both`, and each other
/// range of `first` is composed with the range of `second` for the axis that it gives.
pub open spec fn composes(
    first: Seq<AxisRange>,
    second: Seq<AxisRange>,
    both: Seq<AxisRange>,
) -> bool
    decreases first.len(),
{
    if first.len() == 0 {
        second.len() == 0 && both.len() == 0
    } else if both.len() != first.len() {
        false
    } else {
        match first.last() {
            AxisRange::At(i) => (both.last() matches AxisRange::At(k) && k == i) && composes(
                first.drop_last(),
                second,
                both.drop_last(),
            ),
            bound => second.len() > 0 && composes_axis(bound, second.last(), both.last())
                && composes(first.drop_last(), second.drop_last(), both.drop_last()),
        }
    }
}

/// A prefix of a valid range is a valid range of the prefix of the shape.
proof fn lemma_valid_prefix(range: Seq<AxisRange>, dims: Seq<usize>)
    requires
        valid_range(range, dims),
        range.len() > 0,
    ensures
        valid_range(range.drop_last(), dims.drop_last()),
        range.last().valid_for(dims.last()),
{
    let front = range.drop_last();
    assert forall|k: int| 0 <= k < front.len() implies (#[trigger] front[k]).valid_for(
        dims.drop_last()[k],
    ) by {
        assert(range[k].valid_for(dims[k]));
    }
    assert(range[range.len() - 1].valid_for(dims[dims.len() - 1]));
}

/// The index in the source of an index of a valid range is below the dimension.
proof fn lemma_index_bound(bound: AxisRange, dim: usize, coord: nat)
    requires
        bound.valid_for(dim),
        !(bound is At),
        coord < bound.spec_size()->Some_0,
    ensures
        bound.spec_index(coord) < dim,
{
    match bound {
        AxisRange::In(start, stop, step) => {
            lemma_span_index(start, stop, step, coord);
        },
        _ => {},
    }
}

/// A valid range that is no single index gives an axis of a dimension that is at least 1 and
/// fits a `usize`.
proof fn lemma_size_bound(bound: AxisRange, dim: usize)
    requires
        bound.valid_for(dim),
        !(bound is At),
    ensures
        1 <= bound.spec_size()->Some_0 <= usize::MAX,
{
    match bound {
        AxisRange::In(start, stop, step) => {
            lemma_span_size(start, stop, step);
        },
        _ => {},
    }
}

/// The composition of two ranges takes the slice that the second takes of the slice of the
/// first: it has the shape of the slice of the second, and a coordinate of it stands for the
/// source coordinate that the first gives for the coordinate that the second gives.
pub proof fn lemma_composes(
    first: Seq<AxisRange>,
    second: Seq<AxisRange>,
    both: Seq<AxisRange>,
    dims: Seq<usize>,
    coord: Seq<usize>,
)
    requires
        valid_range(first, dims),
        valid_range(second, range_shape(first)),
        composes(first, second, both),
        in_bounds(coord, range_shape(second)),
    ensures
        range_shape(both) =~= range_shape(second),
        slice_coord(both, coord) =~= slice_coord(first, slice_coord(second, coord)),
    decreases first.len(),
{
    if first.len() > 0 {
        lemma_valid_prefix(first, dims);
        let f = first.drop_last();
        let b = both.drop_last();
        let d = dims.drop_last();
        match first.last() {
            AxisRange::At(i) => {
                assert(range_shape(first) == range_shape(f));
                lemma_composes(f, second, b, d, coord);
            },
            bound => {
                let shape = range_shape(first);
                assert(shape.drop_last() =~= range_shape(f));
                lemma_valid_prefix(second, shape);
                let s = second.drop_last();
                let last = second.last();
                assert(last.valid_for(shape.last()));
                match last {
                    AxisRange::At(j) => {
                        assert(range_shape(second) == range_shape(s));
                        lemma_composes(f, s, b, d, coord);
                        lemma_size_bound(bound, dims.last());
                        lemma_index_bound(bound, dims.last(), j as nat);
                        let inner = slice_coord(second, coord);
                        assert(inner.drop_last() =~= slice_coord(s, coord));
                    },
                    _ => {
                        let taken = range_shape(second);
                        assert(taken.drop_last() =~= range_shape(s));
                        let c = coord.drop_last();
                        assert(in_bounds(c, range_shape(s)));
                        lemma_composes(f, s, b, d, c);
                        lemma_size_bound(last, shape.last());
                        lemma_size_bound(bound, dims.last());
                        lemma_index_bound(last, shape.last(), coord.last() as nat);
                        lemma_index_bound(bound, dims.last(), last.spec_index(coord.last() as nat));
                        let inner = slice_coord(second, coord);
                        assert(inner.drop_last() =~= slice_coord(s, c));
                        assert(both.last().spec_index(coord.last() as nat) == bound.spec_index(
                            last.spec_index(coord.last() as nat),
                        ));
                    },
                }
            },
        }
    }
}

/// The source offset of the composition is the source offset, by the first range, of the
/// source offset by the second.
pub proof fn lemma_nested_offset(first: SliceSpec, second: SliceSpec, both: SliceSpec, offset: nat)
    requires
        first.inv(),
        second.inv(),
        both.inv(),
        both.source_shape@ == first.source_shape@,
        second.source_shape@ == first.shape@,
        composes(first.range@, second.range@, both.range@),
    ensures
        both.shape@ == second.shape@,
        second.spec_source_offset(offset) < first.spec_size(),
        both.spec_source_offset(offset) == first.spec_source_offset(
            second.spec_source_offset(offset),
        ),
{
    let dims = first.source_shape@;
    let c = coords_of(offset, second.shape@, second.strides@);
    second.lemma_source_offset(offset);
    lemma_composes(first.range@, second.range@, both.range@, dims, c);
    assert(both.shape@ == second.shape@);
    assert(both.strides@ == second.strides@);
    let inner = slice_coord(second.range@, c);
    lemma_slice_coord(second.range@, first.shape@, c);
    lemma_ravel_bound(inner, first.shape@);
    lemma_coords_of(ravel(inner, first.shape@), first.shape@);
    lemma_unravel_ravel(inner, first.shape@);
    assert(coords_of(ravel(inner, first.shape@), first.shape@, first.strides@) =~= inner);
}

/// A slice of a slice reads what the slice by the composition of the two ranges reads, element
/// by element and as a whole. The first range must give its slice an axis.
pub proof fn law_slice_composition<A: Access<T>, T: CType>(
    nested: Slice<Slice<A, T>, T>,
    direct: Slice<A, T>,
)
    requires
        nested.inv(),
        direct.inv(),
        direct.access == nested.access.access,
        direct.spec.source_shape@ == nested.access.spec.source_shape@,
        nested.spec.source_shape@ == nested.access.spec.shape@,
        composes(nested.access.spec.range@, nested.spec.range@, direct.spec.range@),
    ensures
        direct.len() == nested.len(),
        forall|offset: int|
            0 <= offset < nested.len() ==> #[trigger] direct.elem(offset) == nested.elem(offset),
        direct.value() == nested.value(),
{
    let first = nested.access.spec;
    let second = nested.spec;
    let both = direct.spec;
    lemma_nested_offset(first, second, both, 0);
    assert forall|offset: int| 0 <= offset < nested.len() implies #[trigger] direct.elem(offset)
        == nested.elem(offset) by {
        lemma_nested_offset(first, second, both, offset as nat);
    }
    nested.access.access.lemma_access();
    if let Ok(items) = nested.access.access.value() {
        let whole = direct.value()->Ok_0;
        let through = nested.value()->Ok_0;
        assert forall|i: int| 0 <= i < whole.len() implies #[trigger] whole[i] == through[i] by {
            lemma_nested_offset(first, second, both, i as nat);
        }
        assert(whole =~= through);
    }
}

/// The index in the source of the index `coord` of a range of an axis of dimension `dim`.
pub fn index_of(bound: &AxisRange, dim: usize, coord: usize) -> (index: usize)
    requires
        bound.valid_for(dim),
        bound is At || coord < bound.spec_size()->Some_0,
    ensures
        index == bound.spec_index(coord as nat),
        index < dim,
{
    match bound {
        AxisRange::At(i) => *i,
        AxisRange::In(start, stop, step) => {
            proof {
                lemma_span_index(*start, *stop, *step, coord as nat);
                assert(0 <= coord * *step) by (nonlinear_arith);
            }
            *start + coord * *step
        },
        AxisRange::Of(indices) => indices[coord],
    }
}

/// The composition of `first`, a range of an array of shape `shape` with a range for each
/// axis, with `second`, a range of the slice that `first` takes with a range for each of its
/// axes. A range of `first` that is no range of its axis, or one of `second`, or a range with
/// another number of axes, is a bounds error.
pub fn compose(shape: &[usize], first: &Range, second: &Range) -> (r: Result<Range, Error>)
    ensures
        r is Ok <==> valid_range(first@, shape@) && valid_range(second@, range_shape(first@)),
        r matches Ok(both) ==> composes(first@, second@, both@) && valid_range(both@, shape@),
        r matches Err(error) ==> error.kind() == ErrorKind::Bounds,
{
    if first.len() != shape.len() {
        return Err(Error::bounds("a range for each axis is needed", shape));
    }
    match check_range(shape, first) {
        Ok(()) => {},
        Err(error) => {
            return Err(error);
        },
    }
    assert forall|k: int| 0 <= k < first@.len() implies (#[trigger] first@[k]).wf() by {
        assert(first@[k].valid_for(shape@[k]));
    }
    let taken = shape_of_range(first);
    if second.len() != taken.len() {
        return Err(Error::bounds("a range for each axis is needed", taken.as_slice()));
    }
    match check_range(taken.as_slice(), second) {
        Ok(()) => {},
        Err(error) => {
            return Err(error);
        },
    }
    let mut both: Range = Vec::new();
    let mut cursor: usize = 0;
    let mut k: usize = 0;
    proof {
        assert(first@.take(0) =~= Seq::<AxisRange>::empty());
        assert(second@.take(0) =~= Seq::<AxisRange>::empty());
    }
    while k < first.len()
        invariant
            k <= first.len(),
            cursor <= second.len(),
            first.len() == shape.len(),
            valid_range(first@, shape@),
            taken@ == range_shape(first@),
            valid_range(second@, taken@),
            range_shape(first@.take(k as int)).len() == cursor,
            both@.len() == k,
            composes(first@.take(k as int), second@.take(cursor as int), both@),
            forall|j: int| 0 <= j < k ==> (#[trigger] both@[j]).valid_for(shape@[j]),
        decreases first.len() - k,
    {
        let ghost before = both@;
        let ghost old_cursor = cursor;
        proof {
            assert(first@.take(k + 1).drop_last() =~= first@.take(k as int));
            assert(first@.take(k + 1).last() == first@[k as int]);
            assert(first@[k as int].valid_for(shape@[k as int]));
            crate::ops::view::lemma_range_shape_prefix(first@, k + 1);
        }
        let dim: usize = shape[k];
        match &first[k] {
            AxisRange::At(i) => {
                both.push(AxisRange::At(*i));
            },
            bound => {
                proof {
                    assert(range_shape(first@.take(k + 1))[cursor as int] == taken@[cursor as int]);
                    assert(second@[cursor as int].valid_for(taken@[cursor as int]));
                    lemma_size_bound(*bound, dim);
                    assert(second@.take(cursor + 1).drop_last() =~= second@.take(cursor as int));
                    assert(second@.take(cursor + 1).last() == second@[cursor as int]);
                }
                let size: usize = taken[cursor];
                match &second[cursor] {
                    AxisRange::At(j) => {
                        both.push(AxisRange::At(index_of(bound, dim, *j)));
                    },
                    inner => {
                        proof {
                            lemma_size_bound(*inner, size);
                        }
                        let count: usize = match inner.size() {
                            Some(count) => count,
                            None => 0,
                        };
                        let mut list: Vec<usize> = Vec::with_capacity(count);
                        let mut c: usize = 0;
                        while c < count
                            invariant
                                c <= count,
                                count == inner.spec_size()->Some_0,
                                !(inner is At),
                                !(bound is At),
                                inner.valid_for(size),
                                bound.valid_for(dim),
                                size == bound.spec_size()->Some_0,
                                list@.len() == c,
                                forall|x: int|
                                    0 <= x < c ==> list@[x] < dim && #[trigger] list@[x]
                                        == bound.spec_index(inner.spec_index(x as nat)),
                            decreases count - c,
                        {
                            let through: usize = index_of(inner, size, c);
                            list.push(index_of(bound, dim, through));
                            c = c + 1;
                        }
                        both.push(AxisRange::Of(list));
                    },
                }
                cursor = cursor + 1;
            },
        }
        proof {
            assert(both@.drop_last() =~= before);
            assert(both@.last().valid_for(shape@[k as int]));
            assert forall|j: int| 0 <= j < k + 1 implies (#[trigger] both@[j]).valid_for(
                shape@[j],
            ) by {
                if j < k {
                    assert(both@[j] == before[j]);
                }
            }
        }
        k = k + 1;
    }
    proof {
        assert(first@.take(k as int) =~= first@);
        assert(second@.take(cursor as int) =~= second@);
    }
    Ok(both)
}

} // verus!
