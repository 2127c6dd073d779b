//! What holds of arrays and their operations: how reads, reshapes, broadcasts, transpositions,
//! reductions, selections and comparisons relate.

use vstd::prelude::*;
use vstd::view::View as _;

use crate::access::{lemma_collect_values, Access};
use crate::array::Array;
use crate::axes::{
    all_axes, lemma_pick_permuted, lemma_reduce_order, pick, reduce_order, reduced_shape, unit_axes,
};
use crate::ctype::{spec_one, spec_zero, CType};
use crate::error::ErrorKind;
use crate::index::{
    coords_of, dot, lemma_coords_of, lemma_dot_project, lemma_dot_strides, lemma_ravel_bound,
    lemma_ravel_unravel, lemma_unravel_in_bounds, lemma_unravel_ravel, project, ravel, strides_of,
    unravel,
};
use crate::kernel::{truth, zip_int, zip_spec, ZipOp};
use crate::ops::elementwise::{select, zip_all};
use crate::ops::reduce::{fold_spec, run};
use crate::ops::{Cond, Reduce, Scalar, View};
use crate::permutation::{
    image, is_inverse, is_permutation, lemma_permutation_onto, lemma_permuted_dot, permuted,
};
use crate::platform::PlatformInstance;
use crate::reduction::{all_nonzero, fold_all};
use crate::shape::{broadcasts_to, compatible, in_bounds, product, valid_shape};
use crate::transform::{is_reduce_input, Accessor};

verus! {

/// The shape of a well-formed array asks for as many elements as its accessor has.
pub proof fn law_shape_size<T: CType, A: Access<T>, P: PlatformInstance>(array: Array<T, A, P>)
    requires
        array.wf(),
    ensures
        product(array.dims()) == array.accessor().len(),
        array.value() matches Ok(items) ==> items.len() == product(array.dims()),
{
    array.accessor().lemma_access();
}

/// A read of the element at a coordinate gives the element of the buffer at the coordinate's
/// row-major offset, where the array can be read as a whole and element by element.
pub proof fn law_read_value<T: CType, A: Access<T>, P: PlatformInstance>(
    array: Array<T, A, P>,
    coord: Seq<usize>,
)
    requires
        array.wf(),
        array.accessor().random_access(),
        array.value() is Ok,
        in_bounds(coord, array.dims()),
    ensures
        ravel(coord, array.dims()) < array.value()->Ok_0.len(),
        array.value_at(coord) == Ok::<T, ErrorKind>(
            array.value()->Ok_0[ravel(coord, array.dims()) as int],
        ),
{
    array.accessor().lemma_access();
    lemma_ravel_bound(coord, array.dims());
}

/// A reshaped array reads at a coordinate what the array reads at the coordinate, in its own
/// shape, of the same row-major offset.
pub proof fn law_reshape<T: CType, A: Access<T>, P: PlatformInstance>(
    array: Array<T, A, P>,
    reshaped: Array<T, A, P>,
    coord: Seq<usize>,
)
    requires
        array.wf(),
        reshaped.wf(),
        reshaped.accessor() == array.accessor(),
        in_bounds(coord, reshaped.dims()),
    ensures
        in_bounds(unravel(ravel(coord, reshaped.dims()), array.dims()), array.dims()),
        reshaped.value_at(coord) == array.value_at(
            unravel(ravel(coord, reshaped.dims()), array.dims()),
        ),
{
    let offset = ravel(coord, reshaped.dims());
    lemma_ravel_bound(coord, reshaped.dims());
    lemma_unravel_in_bounds(offset, array.dims());
    lemma_ravel_unravel(offset, array.dims());
}

/// The source offset of a view at the row-major offset of a coordinate is the sum of the
/// products of the coordinate and the source strides.
pub proof fn lemma_view_offset<A: Access<T>, T: CType>(view: View<A, T>, coord: Seq<usize>)
    requires
        view.spec.inv(),
        in_bounds(coord, view.spec.shape@),
    ensures
        ravel(coord, view.spec.shape@) < view.spec.spec_size(),
        view.spec.spec_source_offset(ravel(coord, view.spec.shape@)) == dot(
            coord,
            view.spec.source_strides@,
        ),
{
    let dims = view.spec.shape@;
    lemma_ravel_bound(coord, dims);
    lemma_coords_of(ravel(coord, dims), dims);
    lemma_unravel_ravel(coord, dims);
    assert(coords_of(ravel(coord, dims), dims, view.spec.strides@) =~= coord);
}

/// A broadcast array reads at a coordinate what its source reads at the projection of the
/// coordinate: the coordinate without the axes that the source lacks, and with the index 0 at
/// each axis where the source has the dimension 1.
pub proof fn law_broadcast<T: CType, A: Access<T>, P: PlatformInstance>(
    source: Array<T, A, P>,
    broadcast: Array<T, View<A, T>, P>,
    coord: Seq<usize>,
)
    requires
        source.wf(),
        broadcast.wf(),
        broadcasts_to(source.dims(), broadcast.dims()),
        broadcast.accessor().access == source.accessor(),
        broadcast.accessor().spec.shape@ == broadcast.dims(),
        broadcast.accessor().spec.source_strides@ == strides_of(
            source.dims(),
            broadcast.dims().len(),
        ),
        in_bounds(coord, broadcast.dims()),
    ensures
        in_bounds(project(coord, source.dims()), source.dims()),
        broadcast.value_at(coord) == source.value_at(project(coord, source.dims())),
{
    let view = broadcast.accessor();
    let dims = source.dims();
    let inner = project(coord, dims);
    assert forall|j: int| 0 <= j < dims.len() implies inner[j] < dims[j] by {
        assert(dims[j] == broadcast.dims()[broadcast.dims().len() - dims.len() + j] || dims[j]
            == 1);
    }
    lemma_view_offset(view, coord);
    lemma_dot_project(coord, dims);
}

/// The other direction of an inverse: where `back` undoes `axes`, `axes` undoes `back`.
pub proof fn lemma_inverse(axes: Seq<usize>, back: Seq<usize>)
    requires
        is_permutation(axes, axes.len()),
        is_inverse(axes, back),
    ensures
        is_permutation(back, axes.len()),
        is_inverse(back, axes),
{
    let n = axes.len();
    lemma_permutation_onto(axes);
    assert forall|x: int| 0 <= x < n implies back[x] < n && axes[back[x] as int] == x by {
        assert(image(axes, n as int).contains(x));
        let i = choose|i: int| 0 <= i < n && axes[i] == x;
        assert(back[axes[i] as int] == i);
    }
    assert forall|i: int, j: int| 0 <= i < j < n implies back[i] != back[j] by {
        assert(axes[back[i] as int] == i);
        assert(axes[back[j] as int] == j);
    }
}

/// A transposed array reads at a coordinate what its source reads at the coordinate whose
/// axes are the coordinate's in the order of the source.
pub proof fn law_transpose<T: CType, A: Access<T>, P: PlatformInstance>(
    source: Array<T, A, P>,
    transposed: Array<T, View<A, T>, P>,
    axes: Seq<usize>,
    coord: Seq<usize>,
)
    requires
        source.wf(),
        transposed.wf(),
        is_permutation(axes, source.dims().len()),
        transposed.dims() == permuted(source.dims(), axes),
        transposed.accessor().access == source.accessor(),
        transposed.accessor().spec.shape@ == transposed.dims(),
        transposed.accessor().spec.source_strides@ == permuted(
            strides_of(source.dims(), source.dims().len()),
            axes,
        ),
        in_bounds(coord, source.dims()),
    ensures
        in_bounds(permuted(coord, axes), transposed.dims()),
        transposed.value_at(permuted(coord, axes)) == source.value_at(coord),
{
    let view = transposed.accessor();
    let dims = source.dims();
    let turned = permuted(coord, axes);
    assert(in_bounds(turned, transposed.dims()));
    lemma_view_offset(view, turned);
    lemma_permuted_dot(coord, strides_of(dims, dims.len()), axes);
    lemma_dot_strides(coord, dims);
    lemma_ravel_bound(coord, dims);
}

/// A transposition of a transposition by the inverse permutation has the shape of the array
/// and reads at every coordinate what the array reads.
pub proof fn law_transpose_round_trip<T: CType, A: Access<T>, P: PlatformInstance>(
    source: Array<T, A, P>,
    there: Array<T, View<A, T>, P>,
    back: Array<T, View<View<A, T>, T>, P>,
    axes: Seq<usize>,
    inverse: Seq<usize>,
    coord: Seq<usize>,
)
    requires
        source.wf(),
        there.wf(),
        back.wf(),
        is_permutation(axes, source.dims().len()),
        is_inverse(axes, inverse),
        there.dims() == permuted(source.dims(), axes),
        there.accessor().access == source.accessor(),
        there.accessor().spec.shape@ == there.dims(),
        there.accessor().spec.source_strides@ == permuted(
            strides_of(source.dims(), source.dims().len()),
            axes,
        ),
        back.dims() == permuted(there.dims(), inverse),
        back.accessor().access == there.accessor(),
        back.accessor().spec.shape@ == back.dims(),
        back.accessor().spec.source_strides@ == permuted(
            strides_of(there.dims(), there.dims().len()),
            inverse,
        ),
        in_bounds(coord, source.dims()),
    ensures
        back.dims() == source.dims(),
        back.value_at(coord) == source.value_at(coord),
{
    lemma_inverse(axes, inverse);
    assert(back.dims() =~= source.dims());
    let middle = permuted(coord, axes);
    law_transpose(source, there, axes, coord);
    assert(is_permutation(inverse, there.dims().len()));
    law_transpose(there, back, inverse, middle);
    assert(permuted(middle, inverse) =~= coord);
}

/// The fold of a run of one element with the identity of the sum is the element.
pub proof fn lemma_sum_of_one<T: CType>(item: T)
    ensures
        fold_spec(ZipOp::Add, spec_zero::<T>(), seq![item]) == Ok::<T, ErrorKind>(item),
{
    let items = seq![item];
    assert(items.drop_last() =~= Seq::<T>::empty());
    T::lemma_limits();
    T::lemma_from_int(0);
    item.lemma_as_int();
    assert(fold_spec(ZipOp::Add, spec_zero::<T>(), items.drop_last()) == Ok::<T, ErrorKind>(
        spec_zero::<T>(),
    ));
    assert(zip_spec::<T, T>(ZipOp::Add, spec_zero::<T>(), item) == Ok::<T, ErrorKind>(item));
}

/// A sum over no axes, with the reduced axes kept, has the shape of the array and gives what a
/// read of the array gives: the reduction takes the array itself as its input and folds runs of
/// one element.
pub proof fn law_sum_no_axes<T: CType, A: Access<T>>(access: A, dims: Seq<usize>)
    requires
        access.inv(),
        dims.len() <= usize::MAX,
    ensures
        reduced_shape(dims, Seq::<usize>::empty(), true) == dims,
        reduce_order(dims.len(), Seq::<usize>::empty()) == all_axes(dims.len()),
        product(pick(dims, Seq::<usize>::empty(), true)) == 1,
        (Reduce {
            access: Accessor::<A, T>::Direct(access),
            stride: 1,
            reduce: ZipOp::Add,
            id: spec_zero::<T>(),
        }).value() == access.value(),
{
    let none = Seq::<usize>::empty();
    assert(unit_axes(dims, none) =~= dims);
    lemma_pick_none(dims);
    lemma_pick_none(all_axes(dims.len()));
    assert(reduce_order(dims.len(), none) =~= all_axes(dims.len()));
    access.lemma_access();
    let op = Reduce {
        access: Accessor::<A, T>::Direct(access),
        stride: 1,
        reduce: ZipOp::Add,
        id: spec_zero::<T>(),
    };
    if let Ok(items) = access.value() {
        let results = Seq::new(
            op.len(),
            |i: int| fold_spec(ZipOp::Add, spec_zero::<T>(), run(items, 1, i)),
        );
        assert forall|i: int| 0 <= i < results.len() implies results[i] == Ok::<T, ErrorKind>(
            items[i],
        ) by {
            assert(run(items, 1, i) =~= seq![items[i]]);
            lemma_sum_of_one(items[i]);
        }
        lemma_collect_values(results, items);
    }
}

/// Where no axis is named, every axis is one of the other axes.
pub proof fn lemma_pick_none(dims: Seq<usize>)
    ensures
        pick(dims, Seq::<usize>::empty(), false) == dims,
        pick(dims, Seq::<usize>::empty(), true) == Seq::<usize>::empty(),
    decreases dims.len(),
{
    if dims.len() > 0 {
        lemma_pick_none(dims.drop_last());
        assert(dims.drop_last().push(dims.last()) =~= dims);
    }
}

/// The sum of zeros is zero, and the product of ones is one.
pub proof fn law_fold_constant<T: CType>(n: nat)
    ensures
        fold_spec(ZipOp::Add, spec_zero::<T>(), Seq::new(n, |i: int| spec_zero::<T>())) == Ok::<
            T,
            ErrorKind,
        >(spec_zero::<T>()),
        fold_spec(ZipOp::Mul, spec_one::<T>(), Seq::new(n, |i: int| spec_one::<T>())) == Ok::<
            T,
            ErrorKind,
        >(spec_one::<T>()),
    decreases n,
{
    let zeros = Seq::new(n, |i: int| spec_zero::<T>());
    let units = Seq::new(n, |i: int| spec_one::<T>());
    if n > 0 {
        law_fold_constant::<T>((n - 1) as nat);
        assert(zeros.drop_last() =~= Seq::new((n - 1) as nat, |i: int| spec_zero::<T>()));
        assert(units.drop_last() =~= Seq::new((n - 1) as nat, |i: int| spec_one::<T>()));
        T::lemma_limits();
        T::lemma_from_int(0);
        T::lemma_from_int(1);
        assert(1int * 1int == 1int);
    }
}

/// Whether `op` gives the same for two operands in either order.
pub open spec fn commutative(op: ZipOp) -> bool {
    op == ZipOp::Add || op == ZipOp::Mul || op == ZipOp::And || op == ZipOp::Or || op
        == ZipOp::Xor || op == ZipOp::Eq || op == ZipOp::Ne || op == ZipOp::Max || op
        == ZipOp::Min
}

/// The shape of the broadcast of two shapes of one number of axes: on each axis the greater
/// dimension.
pub open spec fn broadcast_shape(left: Seq<usize>, right: Seq<usize>) -> Seq<usize> {
    Seq::new(
        left.len(),
        |i: int|
            if left[i] >= right[i] {
                left[i]
            } else {
                right[i]
            },
    )
}

/// A commutative operation on two arrays of one shape gives the same whichever operand comes
/// first, where both can be read; and the shape of the result, which is the shape of the
/// operands, is the broadcast of their shapes.
pub proof fn law_commutative<T: CType, OT: CType>(
    op: ZipOp,
    left: Seq<T>,
    right: Seq<T>,
    dims: Seq<usize>,
)
    requires
        commutative(op),
        left.len() == right.len(),
    ensures
        zip_all::<T, OT>(op, left, right) == zip_all::<T, OT>(op, right, left),
        broadcast_shape(dims, dims) == dims,
        compatible(dims, dims),
{
    assert(broadcast_shape(dims, dims) =~= dims);
    let forth = Seq::new(left.len(), |i: int| zip_spec::<T, OT>(op, left[i], right[i]));
    let back = Seq::new(right.len(), |i: int| zip_spec::<T, OT>(op, right[i], left[i]));
    assert forall|i: int| 0 <= i < left.len() implies forth[i] == back[i] by {
        let a = left[i].as_int();
        let b = right[i].as_int();
        assert(a * b == b * a) by (nonlinear_arith);
        assert(zip_int(op, a, b) == zip_int(op, b, a));
    }
    assert(forth =~= back);
}

/// A selection by a condition that is nowhere 0 gives the first operand, and a selection by a
/// condition that is 0 everywhere gives the second, where all three can be read.
pub proof fn law_cond<A: Access<u8>, L: Access<T>, R: Access<T>, T: CType>(op: Cond<A, L, R, T>)
    requires
        op.inv(),
        op.cond.value() is Ok,
        op.then_case.value() is Ok,
        op.or_else.value() is Ok,
    ensures
        (forall|i: int| 0 <= i < op.len() ==> op.cond.value()->Ok_0[i] != 0) ==> op.value()
            == op.then_case.value(),
        (forall|i: int| 0 <= i < op.len() ==> op.cond.value()->Ok_0[i] == 0) ==> op.value()
            == op.or_else.value(),
{
    op.cond.lemma_access();
    op.then_case.lemma_access();
    op.or_else.lemma_access();
    let cond = op.cond.value()->Ok_0;
    let first = op.then_case.value()->Ok_0;
    let second = op.or_else.value()->Ok_0;
    let picked = Seq::new(cond.len(), |i: int| select(cond[i], first[i], second[i]));
    if forall|i: int| 0 <= i < op.len() ==> cond[i] != 0 {
        assert(picked =~= first);
    }
    if forall|i: int| 0 <= i < op.len() ==> cond[i] == 0 {
        assert(picked =~= second);
    }
}

/// The elements of `items` compared with 0: 1 where an element is not 0, else 0.
pub open spec fn nonzero_flags<T: CType>(items: Seq<T>) -> Seq<u8> {
    Seq::new(items.len(), |i: int| truth(items[i].as_int() != 0) as u8)
}

/// The comparison of the elements of an array with 0 for inequality gives their flags.
pub proof fn lemma_ne_zero<A: Access<T>, T: CType>(op: Scalar<A, T, u8>)
    requires
        op.inv(),
        op.op == ZipOp::Ne,
        op.scalar == spec_zero::<T>(),
    ensures
        op.value() == (match op.access.value() {
            Ok(items) => Ok(nonzero_flags(items)),
            Err(kind) => Err(kind),
        }),
{
    if let Ok(items) = op.access.value() {
        let results = Seq::new(
            items.len(),
            |i: int| zip_spec::<T, u8>(ZipOp::Ne, items[i], op.scalar),
        );
        T::lemma_limits();
        T::lemma_from_int(0);
        assert forall|i: int| 0 <= i < items.len() implies results[i] == Ok::<u8, ErrorKind>(
            nonzero_flags(items)[i],
        ) by {}
        lemma_collect_values(results, nonzero_flags(items));
    }
}

/// The product of the flags of a list is 1 where no element is 0, else 0.
pub proof fn lemma_flags_product<T: CType>(items: Seq<T>)
    ensures
        fold_spec(ZipOp::Mul, spec_one::<u8>(), nonzero_flags(items)) == Ok::<u8, ErrorKind>(
            truth(all_nonzero(items)) as u8,
        ),
    decreases items.len(),
{
    let flags = nonzero_flags(items);
    if items.len() > 0 {
        let front = items.drop_last();
        lemma_flags_product(front);
        assert(flags.drop_last() =~= nonzero_flags(front));
        if all_nonzero(items) {
            assert forall|i: int| 0 <= i < front.len() implies (#[trigger] front[i]).as_int()
                != 0 by {
                assert(items[i].as_int() != 0);
            }
            assert(items[items.len() - 1].as_int() != 0);
        } else {
            if all_nonzero(front) {
                assert(items.last().as_int() == 0) by {
                    if items.last().as_int() != 0 {
                        assert forall|i: int| 0 <= i < items.len() implies (
                        #[trigger] items[i]).as_int() != 0 by {
                            if i < front.len() {
                                assert(front[i].as_int() != 0);
                            }
                        }
                    }
                }
            }
        }
        assert(1int * 1int == 1int && 1int * 0int == 0int && 0int * 1int == 0int && 0int * 0int
            == 0int);
    }
}

/// Whether no element of an array is 0 is whether the product of its elements compared with 0
/// for inequality is not 0.
pub proof fn law_all<A: Access<T>, T: CType>(access: A)
    requires
        access.inv(),
        access.value() is Ok,
    ensures
        fold_all(
            ZipOp::Mul,
            spec_one::<u8>(),
            (Scalar::<A, T, u8> {
                access,
                scalar: spec_zero::<T>(),
                op: ZipOp::Ne,
                dtype: std::marker::PhantomData,
            }).value(),
        ) matches Ok(flag) && (flag != 0) == all_nonzero(access.value()->Ok_0),
{
    let op = Scalar::<A, T, u8> {
        access,
        scalar: spec_zero::<T>(),
        op: ZipOp::Ne,
        dtype: std::marker::PhantomData,
    };
    lemma_ne_zero(op);
    lemma_flags_product(access.value()->Ok_0);
}

/// The row-major offset of a coordinate made of two parts, in a shape made of two parts: the
/// offset of the first part times the number of elements of the second shape, plus the offset of
/// the second part.
pub proof fn lemma_ravel_concat(
    first: Seq<usize>,
    second: Seq<usize>,
    dims: Seq<usize>,
    more: Seq<usize>,
)
    requires
        first.len() == dims.len(),
        second.len() == more.len(),
    ensures
        ravel(first + second, dims + more) == ravel(first, dims) * product(more) + ravel(
            second,
            more,
        ),
    decreases more.len(),
{
    if more.len() == 0 {
        assert(first + second =~= first);
        assert(dims + more =~= dims);
        assert(ravel(first, dims) * 1 == ravel(first, dims)) by (nonlinear_arith);
    } else {
        let c = second.drop_last();
        let d = more.drop_last();
        lemma_ravel_concat(first, c, dims, d);
        assert((first + second).drop_last() =~= first + c);
        assert((dims + more).drop_last() =~= dims + d);
        let head = ravel(first, dims);
        let tail = ravel(c, d);
        let last = more.last() as nat;
        assert((head * product(d) + tail) * last == head * (product(d) * last) + tail * last)
            by (nonlinear_arith);
    }
}

/// The parts of a coordinate of an array at the named axes and at the other axes are
/// coordinates of the arrays of the dimensions at those axes.
pub proof fn lemma_pick_in_bounds(
    coord: Seq<usize>,
    dims: Seq<usize>,
    axes: Seq<usize>,
    named: bool,
)
    requires
        in_bounds(coord, dims),
    ensures
        in_bounds(pick(coord, axes, named), pick(dims, axes, named)),
    decreases dims.len(),
{
    if dims.len() > 0 {
        lemma_pick_in_bounds(coord.drop_last(), dims.drop_last(), axes, named);
    }
}

/// The input of a reduction holds the element of the source at a coordinate in the run of the
/// coordinate's part at the other axes, at the place of its part at the reduced axes: its
/// offset is the row-major offset of the first part, times the length of a run, plus the
/// row-major offset of the second part.
pub proof fn law_reduce_input<T: CType, A: Access<T>>(
    input: Accessor<A, T>,
    access: A,
    dims: Seq<usize>,
    axes: Seq<usize>,
    coord: Seq<usize>,
)
    requires
        access.inv(),
        valid_shape(dims),
        dims.len() <= usize::MAX,
        product(dims) == access.len(),
        input.inv(),
        is_reduce_input(input, access, dims, axes),
        in_bounds(coord, dims),
    ensures
        ravel(pick(coord, axes, true), pick(dims, axes, true)) < product(pick(dims, axes, true))
            || pick(dims, axes, true).len() == 0,
        input.elem(
            (ravel(pick(coord, axes, false), pick(dims, axes, false)) * product(
                pick(dims, axes, true),
            ) + ravel(pick(coord, axes, true), pick(dims, axes, true))) as int,
        ) == access.elem(ravel(coord, dims) as int),
{
    let n = dims.len();
    let order = reduce_order(n, axes);
    let kept = pick(dims, axes, false);
    let named = pick(dims, axes, true);
    let first = pick(coord, axes, false);
    let second = pick(coord, axes, true);
    lemma_reduce_order(n, axes);
    lemma_pick_permuted(dims, axes, false);
    lemma_pick_permuted(dims, axes, true);
    lemma_pick_permuted(coord, axes, false);
    lemma_pick_permuted(coord, axes, true);
    lemma_pick_in_bounds(coord, dims, axes, false);
    lemma_pick_in_bounds(coord, dims, axes, true);
    lemma_ravel_bound(second, named);
    lemma_ravel_concat(first, second, kept, named);
    assert(permuted(dims, order) =~= kept + named);
    assert(permuted(coord, order) =~= first + second);
    let offset = ravel(first, kept) * product(named) + ravel(second, named);
    assert(offset == ravel(permuted(coord, order), permuted(dims, order)));
    if order == all_axes(n) {
        assert(permuted(dims, order) =~= dims);
        assert(permuted(coord, order) =~= coord);
    } else {
        let view = input->Permuted_0;
        let turned = permuted(coord, order);
        assert(in_bounds(turned, view.spec.shape@));
        lemma_view_offset(view, turned);
        lemma_permuted_dot(coord, strides_of(dims, n), order);
        lemma_dot_strides(coord, dims);
        lemma_ravel_bound(coord, dims);
    }
}

} // verus!
