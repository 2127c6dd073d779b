//! The ranges that a slice takes of the axes of an array.

use vstd::prelude::*;

use crate::error::{Error, ErrorKind};
use crate::shape::{in_bounds, positive};

verus! {

/// `num / denom`, rounded up.
pub open spec fn spec_div_ceil(num: int, denom: int) -> int {
    if num % denom == 0 {
        num / denom
    } else {
        num / denom + 1
    }
}

/// `num / denom`, rounded up.
pub fn div_ceil(num: usize, denom: usize) -> (quotient: usize)
    requires
        denom > 0,
    ensures
        quotient == spec_div_ceil(num as int, denom as int),
{
    if num % denom == 0 {
        num / denom
    } else {
        assert(num as int / denom as int + 1 <= usize::MAX) by (nonlinear_arith)
            requires
                denom > 0,
                num as int % denom as int != 0,
                num <= usize::MAX,
        ;
        (num / denom) + 1
    }
}

/// The part of one axis that a slice takes.
#[derive(Clone, Debug, PartialEq, Eq)]
pub enum AxisRange {
    /// The one index: the axis is not an axis of the slice.
    At(usize),
    /// The indices from a start up to a stop, a step apart.
    In(usize, usize, usize),
    /// The indices of a list, in its order.
    Of(Vec<usize>),
}

/// The parts that a slice takes of the axes of an array, from the first axis on.
pub type Range = Vec<AxisRange>;

impl AxisRange {
    /// Whether this is a range of an axis of dimension `dim`: an index below `dim`; a start
    /// below a stop that is no more than `dim`, with a step of at least 1; or a list, not
    /// empty, of indices below `dim`.
    pub open spec fn valid_for(&self, dim: usize) -> bool {
        match self {
            AxisRange::At(i) => *i < dim,
            AxisRange::In(start, stop, step) => *start < *stop && *stop <= dim && *step >= 1,
            AxisRange::Of(indices) => 1 <= indices@.len() <= usize::MAX && forall|k: int|
                0 <= k < indices@.len() ==> indices@[k] < dim,
        }
    }

    /// Whether a span has a start no greater than its stop and a step that is not 0.
    pub open spec fn wf(&self) -> bool {
        match self {
            AxisRange::In(start, stop, step) => *start <= *stop && *step >= 1,
            _ => true,
        }
    }

    /// The dimension of the axis of the slice that this range gives, if it gives one: the
    /// length of a span divided by its step, rounded up, or the number of indices of a list.
    pub open spec fn spec_size(&self) -> Option<nat> {
        match self {
            AxisRange::At(_) => None,
            AxisRange::In(start, stop, step) => Some(
                spec_div_ceil(*stop - *start, *step as int) as nat,
            ),
            AxisRange::Of(indices) => Some(indices@.len()),
        }
    }

    /// The index in the source of the index `coord` of the slice.
    pub open spec fn spec_index(&self, coord: nat) -> nat {
        match self {
            AxisRange::At(i) => *i as nat,
            AxisRange::In(start, _, step) => (*start + coord * *step) as nat,
            AxisRange::Of(indices) => indices@[coord as int] as nat,
        }
    }

    /// Whether this range is a single index.
    pub fn is_index(&self) -> (index: bool)
        ensures
            index == (self is At),
    {
        match self {
            AxisRange::At(_) => true,
            _ => false,
        }
    }

    /// The dimension of the axis of the slice that this range gives, if it gives one.
    pub fn size(&self) -> (n: Option<usize>)
        requires
            self.wf(),
        ensures
            self.spec_size() matches Some(size) ==> n == Some(size as usize) && size <= usize::MAX,
            self.spec_size() is None ==> n is None,
    {
        match self {
            AxisRange::At(_) => None,
            AxisRange::In(start, stop, step) => {
                assert(spec_div_ceil(*stop - *start, *step as int) >= 0) by (nonlinear_arith)
                    requires
                        *stop - *start >= 0,
                        *step >= 1,
                ;
                Some(div_ceil(*stop - *start, *step))
            },
            AxisRange::Of(indices) => Some(indices.len()),
        }
    }

    /// Whether this is a range of an axis of dimension `dim`.
    pub fn is_valid_for(&self, dim: usize) -> (valid: bool)
        ensures
            valid == self.valid_for(dim),
    {
        match self {
            AxisRange::At(i) => *i < dim,
            AxisRange::In(start, stop, step) => *start < *stop && *stop <= dim && *step >= 1,
            AxisRange::Of(indices) => {
                if indices.len() == 0 {
                    return false;
                }
                let mut k: usize = 0;
                while k < indices.len()
                    invariant
                        k <= indices.len(),
                        indices.len() >= 1,
                        self matches AxisRange::Of(list) && list@ == indices@,
                        forall|j: int| 0 <= j < k ==> indices@[j] < dim,
                    decreases indices.len() - k,
                {
                    if indices[k] >= dim {
                        assert(!(indices@[k as int] < dim));
                        return false;
                    }
                    k = k + 1;
                }
                true
            },
        }
    }
}

/// A span that is not empty has at least one step, and no more steps than indices.
pub proof fn lemma_span_size(start: usize, stop: usize, step: usize)
    requires
        start < stop,
        step >= 1,
    ensures
        1 <= spec_div_ceil(stop - start, step as int) <= stop - start,
{
    let length = stop - start;
    let s = step as int;
    assert(length == s * (length / s) + length % s && 0 <= length % s < s) by (nonlinear_arith)
        requires
            s >= 1,
    ;
    let q = length / s;
    let r = length % s;
    assert(q >= 0 && (q >= 1 || r >= 1) && q + (if r == 0 { 0int } else { 1int }) <= length)
        by (nonlinear_arith)
        requires
            length == s * q + r,
            0 <= r < s,
            length >= 1,
    ;
}

/// An index of a span, less than the number of its steps, is below its stop.
pub proof fn lemma_span_index(start: usize, stop: usize, step: usize, coord: nat)
    requires
        start < stop,
        step >= 1,
        coord < spec_div_ceil(stop - start, step as int),
    ensures
        start + coord * step < stop,
{
    let length = stop - start;
    let s = step as int;
    assert(length == s * (length / s) + length % s && 0 <= length % s < s) by (nonlinear_arith)
        requires
            s >= 1,
    ;
    let q = length / s;
    let r = length % s;
    assert(q >= 0 && (q >= 1 || r >= 1) && q + (if r == 0 { 0int } else { 1int }) <= length)
        by (nonlinear_arith)
        requires
            length == s * q + r,
            0 <= r < s,
            length >= 1,
    ;
    assert(coord * s < length) by (nonlinear_arith)
        requires
            length == s * q + r,
            0 <= r < s,
            coord < (if r == 0 { q } else { q + 1 }),
    ;
}

/// Whether `range` has a valid range for each axis of an array of shape `dims`.
pub open spec fn valid_range(range: Seq<AxisRange>, dims: Seq<usize>) -> bool {
    &&& range.len() == dims.len()
    &&& forall|k: int| 0 <= k < range.len() ==> (#[trigger] range[k]).valid_for(dims[k])
}

/// The shape of the slice that `range` takes: the dimensions that its ranges give, in order.
pub open spec fn range_shape(range: Seq<AxisRange>) -> Seq<usize>
    decreases range.len(),
{
    if range.len() == 0 {
        Seq::empty()
    } else {
        let rest = range_shape(range.drop_last());
        match range.last().spec_size() {
            None => rest,
            Some(size) => rest.push(size as usize),
        }
    }
}

/// The coordinate in the source of the element of the slice at `coord`.
pub open spec fn slice_coord(range: Seq<AxisRange>, coord: Seq<usize>) -> Seq<usize>
    decreases range.len(),
{
    if range.len() == 0 {
        Seq::empty()
    } else {
        match range.last() {
            AxisRange::At(i) => slice_coord(range.drop_last(), coord).push(i),
            bound => slice_coord(range.drop_last(), coord.drop_last()).push(
                bound.spec_index(coord.last() as nat) as usize,
            ),
        }
    }
}

/// The range that takes an axis of dimension `dim` whole.
pub open spec fn full_axis(dim: usize) -> AxisRange {
    AxisRange::In(0, dim, 1)
}

/// `range` with a whole axis for each axis of `dims` that it leaves out.
pub open spec fn filled(range: Seq<AxisRange>, dims: Seq<usize>) -> Seq<AxisRange> {
    Seq::new(
        dims.len(),
        |k: int|
            if k < range.len() {
                range[k]
            } else {
                full_axis(dims[k])
            },
    )
}

/// A coordinate of the slice stands for a coordinate of the source.
pub proof fn lemma_slice_coord(range: Seq<AxisRange>, dims: Seq<usize>, coord: Seq<usize>)
    requires
        valid_range(range, dims),
        in_bounds(coord, range_shape(range)),
    ensures
        in_bounds(slice_coord(range, coord), dims),
    decreases range.len(),
{
    if range.len() > 0 {
        let front = range.drop_last();
        let d = dims.drop_last();
        assert(valid_range(front, d)) by {
            assert forall|k: int| 0 <= k < front.len() implies (#[trigger] front[k]).valid_for(
                d[k],
            ) by {
                assert(range[k].valid_for(dims[k]));
            }
        }
        let last = range.last();
        assert(last.valid_for(dims.last()));
        match last {
            AxisRange::At(i) => {
                lemma_slice_coord(front, d, coord);
            },
            AxisRange::In(start, stop, step) => {
                let shape = range_shape(range);
                assert(shape.drop_last() =~= range_shape(front));
                assert(in_bounds(coord.drop_last(), range_shape(front)));
                lemma_slice_coord(front, d, coord.drop_last());
                lemma_span_size(start, stop, step);
                assert(coord.last() < shape.last());
                lemma_span_index(start, stop, step, coord.last() as nat);
            },
            AxisRange::Of(indices) => {
                let shape = range_shape(range);
                assert(shape.drop_last() =~= range_shape(front));
                assert(in_bounds(coord.drop_last(), range_shape(front)));
                lemma_slice_coord(front, d, coord.drop_last());
                assert(coord.last() < shape.last());
            },
        }
    }
}

/// Accepts a range of an array of shape `shape`, which may leave out axes at the end, and
/// rejects any other with a bounds error.
pub fn check_range(shape: &[usize], range: &Range) -> (r: Result<(), Error>)
    ensures
        r is Ok <==> range@.len() <= shape@.len() && forall|k: int|
            0 <= k < range@.len() ==> (#[trigger] range@[k]).valid_for(shape@[k]),
        r matches Err(error) ==> error.kind() == ErrorKind::Bounds,
{
    if range.len() > shape.len() {
        return Err(Error::bounds("a range with more axes than the shape", shape));
    }
    let mut k: usize = 0;
    while k < range.len()
        invariant
            k <= range.len(),
            range.len() <= shape.len(),
            forall|j: int| 0 <= j < k ==> (#[trigger] range@[j]).valid_for(shape@[j]),
        decreases range.len() - k,
    {
        if !range[k].is_valid_for(shape[k]) {
            return Err(Error::bounds("invalid range for the axis of dimension", &[k, shape[k]]));
        }
        k = k + 1;
    }
    Ok(())
}

/// Adds to `range` a whole axis for each axis of `shape` that it leaves out.
pub fn fill_range(shape: &[usize], range: Range) -> (full: Range)
    requires
        range@.len() <= shape@.len(),
    ensures
        full@ == filled(range@, shape@),
{
    let mut full = range;
    let ghost given = full@;
    while full.len() < shape.len()
        invariant
            given.len() <= full@.len() <= shape@.len(),
            forall|k: int| 0 <= k < given.len() ==> full@[k] == given[k],
            forall|k: int| given.len() <= k < full@.len() ==> full@[k] == full_axis(shape@[k]),
        decreases shape.len() - full.len(),
    {
        let dim: usize = shape[full.len()];
        full.push(AxisRange::In(0, dim, 1));
    }
    assert(full@ =~= filled(given, shape@));
    full
}

/// The shape of the slice that `range` takes.
pub fn shape_of_range(range: &Range) -> (shape: Vec<usize>)
    requires
        forall|k: int| 0 <= k < range@.len() ==> (#[trigger] range@[k]).wf(),
    ensures
        shape@ == range_shape(range@),
{
    let mut shape: Vec<usize> = Vec::new();
    let mut k: usize = 0;
    assert(range@.take(0) =~= Seq::<AxisRange>::empty());
    while k < range.len()
        invariant
            k <= range.len(),
            forall|j: int| 0 <= j < range@.len() ==> (#[trigger] range@[j]).wf(),
            shape@ == range_shape(range@.take(k as int)),
        decreases range.len() - k,
    {
        proof {
            assert(range@.take(k + 1).drop_last() =~= range@.take(k as int));
            assert(range@.take(k + 1).last() == range@[k as int]);
            assert(range@[k as int].wf());
        }
        match range[k].size() {
            Some(size) => {
                shape.push(size);
            },
            None => {},
        }
        k = k + 1;
    }
    assert(range@.take(range.len() as int) =~= range@);
    shape
}

/// Every dimension of the slice of a valid range is at least 1.
pub proof fn lemma_range_shape_positive(range: Seq<AxisRange>, dims: Seq<usize>)
    requires
        valid_range(range, dims),
    ensures
        positive(range_shape(range)),
    decreases range.len(),
{
    if range.len() > 0 {
        let front = range.drop_last();
        let d = dims.drop_last();
        assert(valid_range(front, d)) by {
            assert forall|k: int| 0 <= k < front.len() implies (#[trigger] front[k]).valid_for(
                d[k],
            ) by {
                assert(range[k].valid_for(dims[k]));
            }
        }
        lemma_range_shape_positive(front, d);
        assert(range.last().valid_for(dims.last()));
        let shape = range_shape(range);
        match range.last() {
            AxisRange::At(_) => {
                assert(shape == range_shape(front));
            },
            AxisRange::In(start, stop, step) => {
                lemma_span_size(start, stop, step);
                assert(shape.drop_last() =~= range_shape(front));
                assert(shape.last() >= 1);
                assert forall|k: int| 0 <= k < shape.len() implies shape[k] >= 1 by {
                    if k < shape.len() - 1 {
                        assert(shape[k] == range_shape(front)[k]);
                    }
                }
            },
            AxisRange::Of(indices) => {
                assert(shape.drop_last() =~= range_shape(front));
                assert(shape.last() >= 1);
                assert forall|k: int| 0 <= k < shape.len() implies shape[k] >= 1 by {
                    if k < shape.len() - 1 {
                        assert(shape[k] == range_shape(front)[k]);
                    }
                }
            },
        }
    }
}

} // verus!
