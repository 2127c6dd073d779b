//! The arithmetic of axes: the shapes of reductions, contractions, expansions and matrix
//! products.

use vstd::prelude::*;
use vstd::slice::slice_subrange;

use crate::error::{Error, ErrorKind};
use crate::permutation::{is_permutation, permuted};
use crate::shape::{positive, product, shape_size, Shape};

verus! {

/// Whether each of `axes` is an axis of an array of `ndim` axes.
pub open spec fn axes_in_bounds(axes: Seq<usize>, ndim: nat) -> bool {
    forall|i: int| 0 <= i < axes.len() ==> axes[i] < ndim
}

/// The numbers of `dims` at the axes that `axes` names, where `named` is set, or at the other
/// axes, where it is not; in the order of `dims`.
pub open spec fn pick(dims: Seq<usize>, axes: Seq<usize>, named: bool) -> Seq<usize>
    decreases dims.len(),
{
    if dims.len() == 0 {
        Seq::empty()
    } else {
        let rest = pick(dims.drop_last(), axes, named);
        if axes.contains((dims.len() - 1) as usize) == named {
            rest.push(dims.last())
        } else {
            rest
        }
    }
}

/// The axes `0..ndim`.
pub open spec fn all_axes(ndim: nat) -> Seq<usize> {
    Seq::new(ndim, |i: int| i as usize)
}

/// `dims` with 1 at each axis that `axes` names.
pub open spec fn unit_axes(dims: Seq<usize>, axes: Seq<usize>) -> Seq<usize> {
    Seq::new(
        dims.len(),
        |i: int|
            if axes.contains(i as usize) {
                1usize
            } else {
                dims[i]
            },
    )
}

/// `dims`, or `[1]` where `dims` has no axis.
pub open spec fn or_scalar(dims: Seq<usize>) -> Seq<usize> {
    if dims.len() == 0 {
        seq![1usize]
    } else {
        dims
    }
}

/// The shape of a reduction of an array of shape `dims` over `axes`: with `keepdims` each
/// reduced axis has the dimension 1, without it the reduced axes are left out, and a shape
/// left with no axis is `[1]`.
pub open spec fn reduced_shape(dims: Seq<usize>, axes: Seq<usize>, keepdims: bool) -> Seq<usize> {
    if keepdims {
        unit_axes(dims, axes)
    } else {
        or_scalar(pick(dims, axes, false))
    }
}

/// The order of the axes in which the axes that `axes` names come last: the other axes in
/// ascending order, then the named axes in ascending order.
pub open spec fn reduce_order(ndim: nat, axes: Seq<usize>) -> Seq<usize> {
    pick(all_axes(ndim), axes, false) + pick(all_axes(ndim), axes, true)
}

/// How many times `axes` names `x`.
pub open spec fn count_axis(axes: Seq<usize>, x: usize) -> nat
    decreases axes.len(),
{
    if axes.len() == 0 {
        0
    } else {
        count_axis(axes.drop_last(), x) + if axes.last() == x {
            1nat
        } else {
            0nat
        }
    }
}

/// `n` ones.
pub open spec fn ones(n: nat) -> Seq<usize> {
    Seq::new(n, |i: int| 1usize)
}

/// The first `upto` axes of `dims`, with an axis of dimension 1 put in at each position that
/// `axes` names, as often as it names it; a position is the number of axes of `dims` before the
/// new axis.
pub open spec fn expanded(dims: Seq<usize>, axes: Seq<usize>, upto: nat) -> Seq<usize>
    decreases upto,
{
    if upto == 0 {
        ones(count_axis(axes, 0))
    } else {
        expanded(dims, axes, (upto - 1) as nat).push(dims[upto - 1]) + ones(
            count_axis(axes, upto as usize),
        )
    }
}

/// The picked axes of `0..ndim` are axes below `ndim`, in ascending order, picked as asked.
pub proof fn lemma_pick_axes(ndim: nat, axes: Seq<usize>, named: bool)
    requires
        ndim <= usize::MAX,
    ensures
        pick(all_axes(ndim), axes, named).len() <= ndim,
        forall|k: int|
            0 <= k < pick(all_axes(ndim), axes, named).len() ==> {
                let x = #[trigger] pick(all_axes(ndim), axes, named)[k];
                x < ndim && axes.contains(x) == named
            },
        forall|k: int, j: int|
            0 <= k < j < pick(all_axes(ndim), axes, named).len() ==> pick(
                all_axes(ndim),
                axes,
                named,
            )[k] < pick(all_axes(ndim), axes, named)[j],
        pick(all_axes(ndim), axes, false).len() + pick(all_axes(ndim), axes, true).len() == ndim,
    decreases ndim,
{
    if ndim > 0 {
        let before = (ndim - 1) as nat;
        assert(all_axes(ndim).drop_last() =~= all_axes(before));
        lemma_pick_axes(before, axes, named);
        lemma_pick_axes(before, axes, !named);
    }
}

/// The order of a reduction is a permutation of the axes.
pub proof fn lemma_reduce_order(ndim: nat, axes: Seq<usize>)
    requires
        ndim <= usize::MAX,
    ensures
        is_permutation(reduce_order(ndim, axes), ndim),
{
    lemma_pick_axes(ndim, axes, false);
    lemma_pick_axes(ndim, axes, true);
    let kept = pick(all_axes(ndim), axes, false);
    let named = pick(all_axes(ndim), axes, true);
    let order = reduce_order(ndim, axes);
    assert forall|i: int, j: int| 0 <= i < j < order.len() implies order[i] != order[j] by {
        if j < kept.len() {
            assert(kept[i] < kept[j]);
        } else if i >= kept.len() {
            assert(named[i - kept.len()] < named[j - kept.len()]);
        } else {
            assert(axes.contains(kept[i]) == false);
            assert(axes.contains(named[j - kept.len()]) == true);
        }
    }
    assert forall|i: int| 0 <= i < order.len() implies order[i] < ndim by {
        if i < kept.len() {
            assert(kept[i] < ndim);
        } else {
            assert(named[i - kept.len()] < ndim);
        }
    }
}

/// Picking dimensions is picking axes and taking their dimensions.
pub proof fn lemma_pick_permuted(dims: Seq<usize>, axes: Seq<usize>, named: bool)
    requires
        dims.len() <= usize::MAX,
    ensures
        pick(dims, axes, named) =~= permuted(dims, pick(all_axes(dims.len()), axes, named)),
    decreases dims.len(),
{
    if dims.len() > 0 {
        let n = dims.len();
        let before = (n - 1) as nat;
        assert(all_axes(n).drop_last() =~= all_axes(before));
        lemma_pick_permuted(dims.drop_last(), axes, named);
        lemma_pick_axes(before, axes, named);
        let front = pick(all_axes(before), axes, named);
        assert forall|k: int| 0 <= k < front.len() implies dims.drop_last()[front[k] as int]
            == dims[front[k] as int] by {
            assert(front[k] < before);
        }
    }
}

/// The number of elements is that of the other axes times that of the named axes.
pub proof fn lemma_pick_product(dims: Seq<usize>, axes: Seq<usize>)
    requires
        dims.len() <= usize::MAX,
    ensures
        product(dims) == product(pick(dims, axes, false)) * product(pick(dims, axes, true)),
        product(unit_axes(dims, axes)) == product(pick(dims, axes, false)),
        positive(dims) ==> positive(pick(dims, axes, false)) && positive(pick(dims, axes, true))
            && positive(unit_axes(dims, axes)),
    decreases dims.len(),
{
    let units = unit_axes(dims, axes);
    if dims.len() > 0 {
        let d = dims.drop_last();
        let last = dims.last() as nat;
        lemma_pick_product(d, axes);
        let kept = product(pick(d, axes, false));
        let named = product(pick(d, axes, true));
        assert(units.drop_last() =~= unit_axes(d, axes));
        assert(product(dims) == product(d) * last);
        assert(product(units) == product(units.drop_last()) * units.last() as nat);
        if axes.contains((dims.len() - 1) as usize) {
            let picked = pick(dims, axes, true);
            assert(picked == pick(d, axes, true).push(dims.last()));
            assert(picked.drop_last() =~= pick(d, axes, true));
            assert(picked.last() == dims.last());
            assert(product(picked) == named * last);
            assert(pick(dims, axes, false) == pick(d, axes, false));
            assert((kept * named) * last == kept * (named * last)) by (nonlinear_arith);
            assert(units.last() == 1);
            assert(kept * 1 == kept) by (nonlinear_arith);
        } else {
            let picked = pick(dims, axes, false);
            assert(picked == pick(d, axes, false).push(dims.last()));
            assert(picked.drop_last() =~= pick(d, axes, false));
            assert(picked.last() == dims.last());
            assert(product(picked) == kept * last);
            assert(pick(dims, axes, true) == pick(d, axes, true));
            assert((kept * named) * last == (kept * last) * named) by (nonlinear_arith);
            assert(units.last() == dims.last());
        }
        if positive(dims) {
            assert(positive(d));
        }
    } else {
        assert(units =~= Seq::<usize>::empty());
        assert(1nat * 1nat == 1nat);
    }
}

/// Where each named axis has the dimension 1, the other axes hold all the elements.
pub proof fn lemma_pick_units(dims: Seq<usize>, axes: Seq<usize>)
    requires
        dims.len() <= usize::MAX,
        forall|i: int| 0 <= i < dims.len() && axes.contains(i as usize) ==> dims[i] == 1,
    ensures
        product(pick(dims, axes, true)) == 1,
        product(pick(dims, axes, false)) == product(dims),
    decreases dims.len(),
{
    if dims.len() > 0 {
        let d = dims.drop_last();
        assert forall|i: int| 0 <= i < d.len() && axes.contains(i as usize) implies d[i] == 1 by {
            assert(dims[i] == 1);
        }
        lemma_pick_units(d, axes);
        lemma_pick_product(dims, axes);
        if axes.contains((dims.len() - 1) as usize) {
            let picked = pick(dims, axes, true);
            assert(picked == pick(d, axes, true).push(dims.last()));
            assert(picked.drop_last() =~= pick(d, axes, true));
            assert(picked.last() == dims.last());
            assert(dims[dims.len() - 1] == 1);
            assert(product(picked) == product(pick(d, axes, true)) * 1);
        } else {
            assert(pick(dims, axes, true) == pick(d, axes, true));
        }
        assert(product(pick(dims, axes, false)) * 1 == product(pick(dims, axes, false)))
            by (nonlinear_arith);
    }
}

/// Whether `axes` names `x`.
pub fn contains_axis(axes: &[usize], x: usize) -> (found: bool)
    ensures
        found == axes@.contains(x),
{
    let mut i: usize = 0;
    while i < axes.len()
        invariant
            i <= axes.len(),
            forall|j: int| 0 <= j < i ==> axes@[j] != x,
        decreases axes.len() - i,
    {
        if axes[i] == x {
            return true;
        }
        i = i + 1;
    }
    false
}

/// Whether each of `axes` is below `bound`.
pub fn axes_below(axes: &[usize], bound: usize) -> (below: bool)
    ensures
        below == axes_in_bounds(axes@, bound as nat),
{
    let mut i: usize = 0;
    while i < axes.len()
        invariant
            i <= axes.len(),
            forall|j: int| 0 <= j < i ==> axes@[j] < bound,
        decreases axes.len() - i,
    {
        if axes[i] >= bound {
            return false;
        }
        i = i + 1;
    }
    true
}

/// The numbers of `dims` at the axes that `axes` names, or at the other axes.
pub fn pick_dims(dims: &[usize], axes: &[usize], named: bool) -> (picked: Vec<usize>)
    ensures
        picked@ == pick(dims@, axes@, named),
{
    let mut picked: Vec<usize> = Vec::new();
    let mut i: usize = 0;
    assert(dims@.take(0) =~= Seq::<usize>::empty());
    while i < dims.len()
        invariant
            i <= dims.len(),
            picked@ == pick(dims@.take(i as int), axes@, named),
        decreases dims.len() - i,
    {
        proof {
            assert(dims@.take(i + 1).drop_last() =~= dims@.take(i as int));
            assert(dims@.take(i + 1).last() == dims@[i as int]);
        }
        if contains_axis(axes, i) == named {
            picked.push(dims[i]);
        }
        i = i + 1;
    }
    assert(dims@.take(dims.len() as int) =~= dims@);
    picked
}

/// The shape of a reduction of an array of shape `shape` over `axes`, which are taken as a set.
/// An axis that the shape does not have is a bounds error.
pub fn reduce_axes(shape: &[usize], axes: &[usize], keepdims: bool) -> (r: Result<Shape, Error>)
    ensures
        r is Ok <==> axes_in_bounds(axes@, shape@.len()),
        r matches Ok(reduced) ==> reduced@ == reduced_shape(shape@, axes@, keepdims),
        r matches Err(error) ==> error.kind() == ErrorKind::Bounds,
{
    if !axes_below(axes, shape.len()) {
        return Err(Error::bounds_pair("axis out of bounds for shape", axes, shape));
    }
    if keepdims {
        let mut dims: Vec<usize> = Vec::with_capacity(shape.len());
        let mut i: usize = 0;
        while i < shape.len()
            invariant
                i <= shape.len(),
                dims@.len() == i,
                forall|j: int| 0 <= j < i ==> dims@[j] == unit_axes(shape@, axes@)[j],
            decreases shape.len() - i,
        {
            if contains_axis(axes, i) {
                dims.push(1);
            } else {
                dims.push(shape[i]);
            }
            i = i + 1;
        }
        assert(dims@ =~= unit_axes(shape@, axes@));
        Ok(Shape::from_slice(dims.as_slice()))
    } else {
        let dims = pick_dims(shape, axes, false);
        if dims.len() == 0 {
            Ok(Shape::from_slice(&[1]))
        } else {
            Ok(Shape::from_slice(dims.as_slice()))
        }
    }
}

/// The order of the axes in which the axes that `axes` names come last.
pub fn reduce_permutation(ndim: usize, axes: &[usize]) -> (order: Vec<usize>)
    ensures
        order@ == reduce_order(ndim as nat, axes@),
        is_permutation(order@, ndim as nat),
{
    let mut all: Vec<usize> = Vec::with_capacity(ndim);
    let mut i: usize = 0;
    while i < ndim
        invariant
            i <= ndim,
            all@.len() == i,
            forall|j: int| 0 <= j < i ==> all@[j] == j,
        decreases ndim - i,
    {
        all.push(i);
        i = i + 1;
    }
    assert(all@ =~= all_axes(ndim as nat));
    let mut order = pick_dims(all.as_slice(), axes, false);
    let mut named = pick_dims(all.as_slice(), axes, true);
    order.append(&mut named);
    proof {
        lemma_reduce_order(ndim as nat, axes@);
    }
    order
}

/// Whether `order` leaves every axis in its place.
pub fn is_identity(order: &[usize]) -> (same: bool)
    ensures
        same == (order@ == all_axes(order@.len())),
{
    let mut i: usize = 0;
    while i < order.len()
        invariant
            i <= order.len(),
            forall|j: int| 0 <= j < i ==> order@[j] == j,
        decreases order.len() - i,
    {
        if order[i] != i {
            assert(all_axes(order@.len())[i as int] == i);
            return false;
        }
        i = i + 1;
    }
    assert(order@ =~= all_axes(order@.len()));
    true
}

/// How many times `axes` names `x`.
pub fn count_of(axes: &[usize], x: usize) -> (count: usize)
    ensures
        count == count_axis(axes@, x),
{
    let mut count: usize = 0;
    let mut i: usize = 0;
    assert(axes@.take(0) =~= Seq::<usize>::empty());
    while i < axes.len()
        invariant
            i <= axes.len(),
            count <= i,
            count == count_axis(axes@.take(i as int), x),
        decreases axes.len() - i,
    {
        proof {
            assert(axes@.take(i + 1).drop_last() =~= axes@.take(i as int));
            assert(axes@.take(i + 1).last() == axes@[i as int]);
        }
        if axes[i] == x {
            count = count + 1;
        }
        i = i + 1;
    }
    assert(axes@.take(axes.len() as int) =~= axes@);
    count
}

/// `dims` with an axis of dimension 1 put in at each position that `axes` names.
pub fn expand_dims(dims: &[usize], axes: &[usize]) -> (out: Vec<usize>)
    ensures
        out@ == expanded(dims@, axes@, dims@.len()),
{
    let mut out: Vec<usize> = Vec::new();
    let mut p: usize = 0;
    let first: usize = count_of(axes, 0);
    let mut k: usize = 0;
    while k < first
        invariant
            k <= first,
            out@ == ones(k as nat),
        decreases first - k,
    {
        out.push(1);
        assert(out@ =~= ones((k + 1) as nat));
        k = k + 1;
    }
    while p < dims.len()
        invariant
            p <= dims.len(),
            out@ == expanded(dims@, axes@, p as nat),
        decreases dims.len() - p,
    {
        let ghost before = out@;
        out.push(dims[p]);
        p = p + 1;
        let count: usize = count_of(axes, p);
        let mut k: usize = 0;
        while k < count
            invariant
                k <= count,
                out@ == before.push(dims@[p - 1]) + ones(k as nat),
            decreases count - k,
        {
            out.push(1);
            assert(out@ =~= before.push(dims@[p - 1]) + ones((k + 1) as nat));
            k = k + 1;
        }
    }
    out
}

/// The product of a shape does not change when axes of dimension 1 are put in.
pub proof fn lemma_expanded_product(dims: Seq<usize>, axes: Seq<usize>, upto: nat)
    requires
        upto <= dims.len(),
    ensures
        product(expanded(dims, axes, upto)) == product(dims.take(upto as int)),
        positive(dims) ==> positive(expanded(dims, axes, upto)),
        expanded(dims, axes, upto).len() >= upto,
    decreases upto,
{
    if upto == 0 {
        lemma_ones_product(Seq::empty(), count_axis(axes, 0));
        assert(Seq::<usize>::empty() + ones(count_axis(axes, 0)) =~= ones(count_axis(axes, 0)));
        assert(dims.take(0) =~= Seq::<usize>::empty());
    } else {
        let before = (upto - 1) as nat;
        lemma_expanded_product(dims, axes, before);
        let grown = expanded(dims, axes, before).push(dims[upto - 1]);
        assert(grown.drop_last() =~= expanded(dims, axes, before));
        assert(dims.take(upto as int).drop_last() =~= dims.take(before as int));
        lemma_ones_product(grown, count_axis(axes, upto as usize));
    }
}

/// The product of a shape does not change when ones are added at its end.
pub proof fn lemma_ones_product(dims: Seq<usize>, n: nat)
    ensures
        product(dims + ones(n)) == product(dims),
        positive(dims) ==> positive(dims + ones(n)),
    decreases n,
{
    if n == 0 {
        assert(dims + ones(0) =~= dims);
    } else {
        lemma_ones_product(dims, (n - 1) as nat);
        assert((dims + ones(n)).drop_last() =~= dims + ones((n - 1) as nat));
        assert(product(dims) * 1 == product(dims)) by (nonlinear_arith);
    }
}

/// Whether the shapes `left` and `right` are those of two batches of matrices that can be
/// multiplied: each has at least two axes, the last dimension of `left` is the last but one of
/// `right`, and the axes before the last two are the same.
pub open spec fn matmul_compatible(left: Seq<usize>, right: Seq<usize>) -> bool {
    &&& left.len() >= 2
    &&& right.len() == left.len()
    &&& left[left.len() - 1] == right[right.len() - 2]
    &&& left.take(left.len() - 2) == right.take(right.len() - 2)
}

/// The dimensions of a multiplication of two batches of matrices of the shapes `left` and
/// `right`: the number of matrices in a batch, the rows and the columns of a left matrix, and
/// the columns of a right one; or nothing, where the shapes do not go together or the number of
/// matrices does not fit a `usize`.
pub fn matmul_dims(left: &[usize], right: &[usize]) -> (dims: Option<[usize; 4]>)
    ensures
        dims is Some <==> matmul_compatible(left@, right@) && product(
            left@.take(left@.len() - 2),
        ) <= usize::MAX,
        dims matches Some(d) ==> d[0] == product(left@.take(left@.len() - 2)) && d[1]
            == left@[left@.len() - 2] && d[2] == left@[left@.len() - 1] && d[3]
            == right@[right@.len() - 1],
{
    if left.len() < 2 || right.len() != left.len() {
        return None;
    }
    let n: usize = left.len();
    let b: usize = left[n - 1];
    let a: usize = left[n - 2];
    let c: usize = right[n - 1];
    if right[n - 2] != b {
        return None;
    }
    let mut i: usize = 0;
    while i < n - 2
        invariant
            i <= n - 2,
            n == left.len(),
            n == right.len(),
            forall|j: int| 0 <= j < i ==> left@[j] == right@[j],
        decreases n - 2 - i,
    {
        if left[i] != right[i] {
            assert(left@.take(n - 2)[i as int] != right@.take(n - 2)[i as int]);
            return None;
        }
        i = i + 1;
    }
    assert(left@.take(n - 2) =~= right@.take(n - 2));
    let batch = slice_subrange(left, 0, n - 2);
    assert(batch@ =~= left@.take(n - 2));
    match shape_size(batch) {
        Some(batch_size) => Some([batch_size, a, b, c]),
        None => None,
    }
}

} // verus!
