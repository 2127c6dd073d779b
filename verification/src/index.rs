//! Row-major addressing: offsets, coordinates and strides.

use vstd::arithmetic::div_mod::{
    lemma_div_denominator, lemma_fundamental_div_mod, lemma_fundamental_div_mod_converse,
};

use vstd::prelude::*;

use crate::shape::{
    in_bounds, lemma_product_positive, lemma_product_prefix, positive, product, valid_shape, Shape,
    Strides,
};

verus! {

/// The row-major offset of the element at `coord` in an array of shape `dims`.
pub open spec fn ravel(coord: Seq<usize>, dims: Seq<usize>) -> nat
    decreases dims.len(),
{
    if dims.len() == 0 || coord.len() != dims.len() {
        0
    } else {
        ravel(coord.drop_last(), dims.drop_last()) * dims.last() as nat + coord.last() as nat
    }
}

/// The coordinate of the element at the row-major `offset` in an array of shape `dims`.
pub open spec fn unravel(offset: nat, dims: Seq<usize>) -> Seq<usize>
    decreases dims.len(),
{
    if dims.len() == 0 {
        Seq::empty()
    } else {
        unravel(offset / dims.last() as nat, dims.drop_last()).push(
            (offset % dims.last() as nat) as usize,
        )
    }
}

/// The sum of the products of `coord` and `strides`, axis by axis.
pub open spec fn dot(coord: Seq<usize>, strides: Seq<usize>) -> nat
    decreases coord.len(),
{
    if coord.len() == 0 || coord.len() != strides.len() {
        0
    } else {
        dot(coord.drop_last(), strides.drop_last()) + coord.last() as nat * strides.last() as nat
    }
}

/// The strides of an array of shape `dims` seen with `ndim` axes: the stride of an axis is the
/// product of the dimensions after it, that of an axis of dimension 1 is 0, and so is that of
/// each axis put before the first.
pub open spec fn strides_of(dims: Seq<usize>, ndim: nat) -> Seq<usize> {
    Seq::new(
        ndim,
        |k: int|
            {
                let x = k - (ndim - dims.len());
                if x < 0 || dims[x] == 1 {
                    0usize
                } else {
                    product(dims.skip(x + 1)) as usize
                }
            },
    )
}

/// The coordinate that the strides of an array give for a row-major `offset`: along each axis
/// the offset divided by the stride, modulo the dimension, and 0 where the stride is 0.
pub open spec fn coords_of(offset: nat, dims: Seq<usize>, strides: Seq<usize>) -> Seq<usize> {
    Seq::new(
        dims.len(),
        |k: int|
            if strides[k] == 0 {
                0usize
            } else {
                ((offset / strides[k] as nat) % dims[k] as nat) as usize
            },
    )
}

/// The product of two lists put together is the product of their products.
pub proof fn lemma_product_concat(a: Seq<usize>, b: Seq<usize>)
    ensures
        product(a + b) == product(a) * product(b),
    decreases b.len(),
{
    if b.len() == 0 {
        assert(a + b =~= a);
        assert(product(b) == 1);
        assert(product(a) * 1 == product(a)) by (nonlinear_arith);
    } else {
        assert((a + b).drop_last() =~= a + b.drop_last());
        assert((a + b).last() == b.last());
        lemma_product_concat(a, b.drop_last());
        let pa = product(a);
        let pb = product(b.drop_last());
        let last = b.last() as nat;
        assert(product(a + b) == product(a + b.drop_last()) * last);
        assert(product(b) == pb * last);
        assert((pa * pb) * last == pa * (pb * last)) by (nonlinear_arith);
    }
}

/// The product of the dimensions after an axis is no more than the product of all.
pub proof fn lemma_suffix_product(dims: Seq<usize>, k: int)
    requires
        positive(dims),
        0 <= k <= dims.len(),
    ensures
        1 <= product(dims.skip(k)) <= product(dims),
        product(dims) == product(dims.take(k)) * product(dims.skip(k)),
{
    assert(dims.take(k) + dims.skip(k) =~= dims);
    lemma_product_concat(dims.take(k), dims.skip(k));
    assert(positive(dims.take(k)));
    assert(positive(dims.skip(k)));
    lemma_product_positive(dims.take(k));
    lemma_product_positive(dims.skip(k));
    assert(product(dims.skip(k)) <= product(dims.take(k)) * product(dims.skip(k)))
        by (nonlinear_arith)
        requires
            product(dims.take(k)) >= 1,
    ;
}

/// A coordinate of an array has a row-major offset below the array's size.
pub proof fn lemma_ravel_bound(coord: Seq<usize>, dims: Seq<usize>)
    requires
        in_bounds(coord, dims),
    ensures
        dims.len() > 0 ==> ravel(coord, dims) < product(dims),
        dims.len() == 0 ==> ravel(coord, dims) == 0,
    decreases dims.len(),
{
    if dims.len() > 0 {
        let c = coord.drop_last();
        let d = dims.drop_last();
        assert(in_bounds(c, d));
        lemma_ravel_bound(c, d);
        if d.len() == 0 {
            assert(product(d) == 1);
        }
        let last = dims.last() as nat;
        let tail = coord.last() as nat;
        assert(ravel(c, d) * last + tail < product(d) * last) by (nonlinear_arith)
            requires
                ravel(c, d) < product(d),
                tail < last,
        ;
    }
}

/// The coordinate of an offset below the size of an array is a coordinate of the array.
pub proof fn lemma_unravel_in_bounds(offset: nat, dims: Seq<usize>)
    requires
        positive(dims),
        offset < product(dims),
    ensures
        in_bounds(unravel(offset, dims), dims),
    decreases dims.len(),
{
    if dims.len() > 0 {
        let d = dims.drop_last();
        let last = dims.last() as nat;
        assert(positive(d));
        assert(offset / last < product(d)) by (nonlinear_arith)
            requires
                offset < product(d) * last,
                last >= 1,
        ;
        lemma_unravel_in_bounds(offset / last, d);
        assert(offset % last < last) by (nonlinear_arith)
            requires
                last >= 1,
        ;
    }
}

/// Taking the coordinate of an offset and then its offset gives the offset back.
pub proof fn lemma_ravel_unravel(offset: nat, dims: Seq<usize>)
    requires
        positive(dims),
        offset < product(dims),
    ensures
        ravel(unravel(offset, dims), dims) == offset,
    decreases dims.len(),
{
    if dims.len() > 0 {
        let d = dims.drop_last();
        let last = dims.last() as nat;
        assert(positive(d));
        assert(offset / last < product(d)) by (nonlinear_arith)
            requires
                offset < product(d) * last,
                last >= 1,
        ;
        lemma_ravel_unravel(offset / last, d);
        lemma_unravel_in_bounds(offset, dims);
        let coord = unravel(offset, dims);
        assert(coord.drop_last() =~= unravel(offset / last, d));
        assert(coord.last() == (offset % last) as usize);
        assert(offset % last < last) by (nonlinear_arith)
            requires
                last >= 1,
        ;
        lemma_fundamental_div_mod(offset as int, last as int);
        assert((offset / last) * last == last * (offset / last)) by (nonlinear_arith);
    }
}

/// Taking the offset of a coordinate and then its coordinate gives the coordinate back.
pub proof fn lemma_unravel_ravel(coord: Seq<usize>, dims: Seq<usize>)
    requires
        in_bounds(coord, dims),
    ensures
        unravel(ravel(coord, dims), dims) =~= coord,
    decreases dims.len(),
{
    if dims.len() > 0 {
        let c = coord.drop_last();
        let d = dims.drop_last();
        let last = dims.last() as int;
        assert(in_bounds(c, d));
        lemma_unravel_ravel(c, d);
        let offset = ravel(coord, dims) as int;
        let q = ravel(c, d) as int;
        let r = coord.last() as int;
        assert(offset == last * q + r) by (nonlinear_arith)
            requires
                offset == q * last + r,
        ;
        lemma_fundamental_div_mod_converse(offset, last, q, r);
        assert(unravel(offset as nat, dims) =~= unravel(q as nat, d).push(r as usize));
    }
}

/// Scaling every stride scales the sum.
pub proof fn lemma_dot_scale(coord: Seq<usize>, strides: Seq<usize>, scaled: Seq<usize>, by: nat)
    requires
        coord.len() == strides.len(),
        scaled.len() == strides.len(),
        forall|k: int| 0 <= k < strides.len() ==> scaled[k] == strides[k] * by,
    ensures
        dot(coord, scaled) == dot(coord, strides) * by,
    decreases coord.len(),
{
    if coord.len() > 0 {
        assert forall|k: int| 0 <= k < strides.drop_last().len() implies scaled.drop_last()[k]
            == strides.drop_last()[k] * by by {
            assert(scaled[k] == strides[k] * by);
        }
        lemma_dot_scale(coord.drop_last(), strides.drop_last(), scaled.drop_last(), by);
        let rest = dot(coord.drop_last(), strides.drop_last());
        let c = coord.last() as nat;
        let s = strides.last() as nat;
        let t = scaled.last() as nat;
        assert(t == s * by);
        assert(dot(coord, scaled) == dot(coord.drop_last(), scaled.drop_last()) + c * t);
        assert(dot(coord, strides) == rest + c * s);
        assert(rest * by + c * (s * by) == (rest + c * s) * by) by (nonlinear_arith);
    } else {
        assert(0 * by == 0) by (nonlinear_arith);
    }
}

/// Whether the dimensions are all at least 1 and their product fits a `usize`.
pub open spec fn sized(dims: Seq<usize>) -> bool {
    positive(dims) && product(dims) <= usize::MAX
}

/// How the strides of a shape come from those of the shape without its last axis.
pub proof fn lemma_strides_step(dims: Seq<usize>, ndim: nat)
    requires
        dims.len() > 0,
        sized(dims),
        dims.len() <= ndim,
    ensures
        sized(dims.drop_last()),
        forall|k: int|
            0 <= k < ndim - 1 ==> #[trigger] strides_of(dims, ndim)[k] == strides_of(
                dims.drop_last(),
                (ndim - 1) as nat,
            )[k] * dims.last(),
        strides_of(dims, ndim)[ndim - 1] == (if dims.last() == 1 {
            0usize
        } else {
            1usize
        }),
{
    let d = dims.drop_last();
    let n = dims.len() as int;
    let pad = ndim - n;
    let last = dims.last() as nat;
    assert(positive(d));
    lemma_product_positive(d);
    assert(product(d) <= product(d) * last) by (nonlinear_arith)
        requires
            last >= 1,
    ;
    assert(dims.skip(n) =~= Seq::<usize>::empty());
    assert forall|k: int| 0 <= k < ndim - 1 implies #[trigger] strides_of(dims, ndim)[k]
        == strides_of(d, (ndim - 1) as nat)[k] * dims.last() by {
        let x = k - pad;
        if x >= 0 && dims[x] != 1 {
            let tail = dims.skip(x + 1);
            assert(tail.drop_last() =~= d.skip(x + 1));
            assert(tail.last() == dims.last());
            assert(product(tail) == product(d.skip(x + 1)) * last);
            lemma_suffix_product(dims, x + 1);
            lemma_suffix_product(d, x + 1);
            assert(strides_of(dims, ndim)[k] == product(tail) as usize);
            assert(strides_of(d, (ndim - 1) as nat)[k] == product(d.skip(x + 1)) as usize);
        } else {
            assert(strides_of(d, (ndim - 1) as nat)[k] == 0);
            assert(0 * last == 0) by (nonlinear_arith);
        }
    }
}

/// The coordinate in an array of shape `dims` that a coordinate with at least as many axes
/// stands for after a broadcast: the leading axes are dropped, and an axis of dimension 1 has
/// the index 0.
pub open spec fn project(coord: Seq<usize>, dims: Seq<usize>) -> Seq<usize> {
    Seq::new(
        dims.len(),
        |j: int|
            if dims[j] == 1 {
                0usize
            } else {
                coord[coord.len() - dims.len() + j]
            },
    )
}

/// A sum over strides that are all 0 is 0.
pub proof fn lemma_dot_zero(coord: Seq<usize>, strides: Seq<usize>)
    requires
        forall|k: int| 0 <= k < strides.len() ==> strides[k] == 0,
    ensures
        dot(coord, strides) == 0,
    decreases coord.len(),
{
    if coord.len() > 0 && coord.len() == strides.len() {
        lemma_dot_zero(coord.drop_last(), strides.drop_last());
        assert(coord.last() as nat * strides.last() as nat == 0) by (nonlinear_arith)
            requires
                strides.last() == 0,
        ;
    }
}

/// A sum is no less than the sum of a coordinate that is no greater on any axis.
pub proof fn lemma_dot_monotone(low: Seq<usize>, high: Seq<usize>, strides: Seq<usize>)
    requires
        low.len() == high.len(),
        low.len() == strides.len(),
        forall|k: int| 0 <= k < low.len() ==> low[k] <= high[k],
    ensures
        dot(low, strides) <= dot(high, strides),
    decreases low.len(),
{
    if low.len() > 0 {
        lemma_dot_monotone(low.drop_last(), high.drop_last(), strides.drop_last());
        let a = low.last() as nat;
        let b = high.last() as nat;
        let s = strides.last() as nat;
        assert(a * s <= b * s) by (nonlinear_arith)
            requires
                a <= b,
        ;
    }
}

/// The sum over a prefix of the axes is no more than the sum over all.
pub proof fn lemma_dot_prefix(coord: Seq<usize>, strides: Seq<usize>, k: int)
    requires
        coord.len() == strides.len(),
        0 <= k <= coord.len(),
    ensures
        dot(coord.take(k), strides.take(k)) <= dot(coord, strides),
    decreases coord.len() - k,
{
    if k < coord.len() {
        lemma_dot_prefix(coord, strides, k + 1);
        assert(coord.take(k + 1).drop_last() =~= coord.take(k));
        assert(strides.take(k + 1).drop_last() =~= strides.take(k));
        let c = coord[k] as nat;
        let s = strides[k] as nat;
        assert(0 <= c * s) by (nonlinear_arith);
    } else {
        assert(coord.take(k) =~= coord);
        assert(strides.take(k) =~= strides);
    }
}

/// The sum of a coordinate's products with the strides of a smaller array, seen with the
/// coordinate's number of axes, is the row-major offset in that array of the coordinate's
/// projection.
pub proof fn lemma_dot_project(coord: Seq<usize>, dims: Seq<usize>)
    requires
        sized(dims),
        dims.len() <= coord.len(),
        in_bounds(project(coord, dims), dims),
    ensures
        dot(coord, strides_of(dims, coord.len())) == ravel(project(coord, dims), dims),
    decreases dims.len(),
{
    let ndim = coord.len();
    let strides = strides_of(dims, ndim);
    if dims.len() == 0 {
        lemma_dot_zero(coord, strides);
    } else {
        let c = coord.drop_last();
        let d = dims.drop_last();
        let last = dims.last() as nat;
        lemma_strides_step(dims, ndim);
        let p = project(coord, dims);
        assert(p.drop_last() =~= project(c, d));
        assert(in_bounds(project(c, d), d));
        lemma_dot_project(c, d);
        lemma_dot_scale(c, strides_of(d, c.len()), strides.drop_last(), last);
        let tail = coord.last() as nat;
        let stride = strides.last() as nat;
        assert(tail * stride == p.last()) by (nonlinear_arith)
            requires
                (stride == 1 && p.last() == tail) || (stride == 0 && p.last() == 0),
        ;
    }
}

/// The sum of a coordinate's products with the strides of an array is its row-major offset.
pub proof fn lemma_dot_strides(coord: Seq<usize>, dims: Seq<usize>)
    requires
        sized(dims),
        in_bounds(coord, dims),
    ensures
        dot(coord, strides_of(dims, dims.len())) == ravel(coord, dims),
{
    assert(project(coord, dims) =~= coord);
    lemma_dot_project(coord, dims);
}

/// The coordinate that the strides of an array give for an offset is the offset's coordinate.
pub proof fn lemma_coords_of(offset: nat, dims: Seq<usize>)
    requires
        valid_shape(dims),
        offset < product(dims),
    ensures
        coords_of(offset, dims, strides_of(dims, dims.len())) =~= unravel(offset, dims),
    decreases dims.len(),
{
    let n = dims.len() as int;
    let d = dims.drop_last();
    let last = dims.last() as nat;
    let strides = strides_of(dims, dims.len());
    let inner = strides_of(d, d.len());
    lemma_strides_step(dims, dims.len());
    lemma_unravel_in_bounds(offset, dims);
    let coord = unravel(offset, dims);
    assert(offset / last < product(d)) by (nonlinear_arith)
        requires
            offset < product(d) * last,
            last >= 1,
    ;
    if n > 1 {
        lemma_coords_of(offset / last, d);
    }
    assert forall|k: int| 0 <= k < n implies coords_of(offset, dims, strides)[k] == coord[k] by {
        if k == n - 1 {
            if last == 1 {
                assert(offset % last == 0) by (nonlinear_arith)
                    requires
                        last == 1,
                ;
            } else {
                assert(offset / 1 == offset) by (nonlinear_arith);
            }
        } else {
            assert(coord[k] == unravel(offset / last, d)[k]);
            assert(coords_of(offset / last, d, inner)[k] == unravel(offset / last, d)[k]);
            if inner[k] != 0 {
                lemma_suffix_product(d, k + 1);
                assert(inner[k] * last != 0) by (nonlinear_arith)
                    requires
                        inner[k] != 0,
                        last != 0,
                ;
                assert(strides[k] == inner[k] * last);
                lemma_div_denominator(offset as int, last as int, inner[k] as int);
                assert(last * inner[k] == inner[k] * last) by (nonlinear_arith);
            } else {
                assert(inner[k] * last == 0) by (nonlinear_arith)
                    requires
                        inner[k] == 0,
                ;
            }
        }
    }
}

/// The product of the dimensions from an axis on is that axis's dimension times the product of
/// the dimensions after it.
pub proof fn lemma_suffix_step(dims: Seq<usize>, k: int)
    requires
        0 <= k < dims.len(),
    ensures
        product(dims.skip(k)) == dims[k] * product(dims.skip(k + 1)),
{
    let head = seq![dims[k]];
    assert(head + dims.skip(k + 1) =~= dims.skip(k));
    lemma_product_concat(head, dims.skip(k + 1));
    assert(head.drop_last() =~= Seq::<usize>::empty());
    assert(product(head.drop_last()) == 1);
    assert(head.last() == dims[k]);
    assert(product(head) == product(head.drop_last()) * head.last() as nat);
}

/// The strides of an array of shape `shape` seen with `ndim` axes.
pub fn strides_for(shape: &[usize], ndim: usize) -> (strides: Strides)
    requires
        sized(shape@),
        shape@.len() <= ndim,
    ensures
        strides@ == strides_of(shape@, ndim as nat),
{
    let n: usize = shape.len();
    let pad: usize = ndim - n;
    let mut out: Vec<usize> = Vec::new();
    let mut k: usize = 0;
    while k < ndim
        invariant
            k <= ndim,
            out@.len() == k,
            forall|j: int| 0 <= j < k ==> out@[j] == 0,
        decreases ndim - k,
    {
        out.push(0);
        k = k + 1;
    }
    let mut running: usize = 1;
    let mut x: usize = n;
    assert(shape@.skip(n as int) =~= Seq::<usize>::empty());
    while x > 0
        invariant
            x <= n,
            n == shape@.len(),
            pad + n == ndim,
            sized(shape@),
            out@.len() == ndim,
            running == product(shape@.skip(x as int)),
            forall|j: int| 0 <= j < pad + x ==> out@[j] == 0,
            forall|j: int|
                pad + x <= j < ndim ==> out@[j] == strides_of(shape@, ndim as nat)[j],
        decreases x,
    {
        x = x - 1;
        if shape[x] != 1 {
            out.set(pad + x, running);
        }
        proof {
            lemma_suffix_step(shape@, x as int);
            lemma_suffix_product(shape@, x as int);
            assert(shape@[x as int] * product(shape@.skip(x + 1)) == product(shape@.skip(x + 1))
                * shape@[x as int]) by (nonlinear_arith);
        }
        running = running * shape[x];
    }
    assert(out@ =~= strides_of(shape@, ndim as nat));
    Shape::from_slice(out.as_slice())
}

/// The row-major offset of the element at `coord` in an array of shape `shape`.
pub fn ravel_offset(coord: &[usize], shape: &[usize]) -> (offset: usize)
    requires
        valid_shape(shape@),
        in_bounds(coord@, shape@),
    ensures
        offset == ravel(coord@, shape@),
        offset < product(shape@),
{
    let mut offset: usize = 0;
    let mut i: usize = 0;
    while i < shape.len()
        invariant
            i <= shape.len(),
            valid_shape(shape@),
            in_bounds(coord@, shape@),
            offset == ravel(coord@.take(i as int), shape@.take(i as int)),
        decreases shape.len() - i,
    {
        proof {
            let c = coord@.take(i + 1);
            let d = shape@.take(i + 1);
            assert(c.drop_last() =~= coord@.take(i as int));
            assert(d.drop_last() =~= shape@.take(i as int));
            assert(in_bounds(c, d));
            lemma_ravel_bound(c, d);
            lemma_product_prefix(shape@, i + 1);
        }
        offset = offset * shape[i] + coord[i];
        i = i + 1;
    }
    proof {
        assert(coord@.take(shape.len() as int) =~= coord@);
        assert(shape@.take(shape.len() as int) =~= shape@);
        lemma_ravel_bound(coord@, shape@);
    }
    offset
}

/// The coordinate of the element at the row-major `offset` in an array of shape `shape`.
pub fn unravel_offset(offset: usize, shape: &[usize]) -> (coord: Vec<usize>)
    requires
        valid_shape(shape@),
        offset < product(shape@),
    ensures
        coord@ == unravel(offset as nat, shape@),
        in_bounds(coord@, shape@),
{
    let strides = strides_for(shape, shape.len());
    let strides = strides.as_slice();
    let mut coord: Vec<usize> = Vec::new();
    let mut i: usize = 0;
    while i < shape.len()
        invariant
            i <= shape.len(),
            valid_shape(shape@),
            strides@ == strides_of(shape@, shape@.len()),
            coord@.len() == i,
            forall|k: int|
                0 <= k < i ==> coord@[k] == coords_of(offset as nat, shape@, strides@)[k],
        decreases shape.len() - i,
    {
        if strides[i] == 0 {
            coord.push(0);
        } else {
            coord.push((offset / strides[i]) % shape[i]);
        }
        i = i + 1;
    }
    proof {
        lemma_coords_of(offset as nat, shape@);
        lemma_unravel_in_bounds(offset as nat, shape@);
        assert(coord@ =~= coords_of(offset as nat, shape@, strides@));
    }
    coord
}

} // verus!
