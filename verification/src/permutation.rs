//! Permutations of axes, and the sums and products that they leave unchanged.

use vstd::prelude::*;

use crate::index::dot;
use crate::shape::product;

verus! {

/// Whether `axes` names each of the axes `0..ndim` once.
pub open spec fn is_permutation(axes: Seq<usize>, ndim: nat) -> bool {
    &&& axes.len() == ndim
    &&& forall|i: int| 0 <= i < axes.len() ==> axes[i] < ndim
    &&& forall|i: int, j: int| 0 <= i < j < axes.len() ==> axes[i] != axes[j]
}

/// The list whose axis `i` is the axis `axes[i]` of `dims`.
pub open spec fn permuted(dims: Seq<usize>, axes: Seq<usize>) -> Seq<usize> {
    Seq::new(axes.len(), |i: int| dims[axes[i] as int])
}

/// The axes `0..ndim` from the last to the first.
pub open spec fn reversal(ndim: nat) -> Seq<usize> {
    Seq::new(ndim, |i: int| (ndim - 1 - i) as usize)
}

/// Whether `back` undoes the permutation `axes`.
pub open spec fn is_inverse(axes: Seq<usize>, back: Seq<usize>) -> bool {
    &&& back.len() == axes.len()
    &&& forall|i: int| 0 <= i < axes.len() ==> axes[i] < back.len() && back[axes[i] as int] == i
}

/// The sum, or where `times` is set the product, of `a` and `b`.
pub open spec fn combine(times: bool, a: nat, b: nat) -> nat {
    if times {
        a * b
    } else {
        a + b
    }
}

/// The sum or product of `term` over `0..n`.
pub open spec fn fold_terms(times: bool, term: spec_fn(int) -> nat, n: nat) -> nat
    decreases n,
{
    if n == 0 {
        if times {
            1
        } else {
            0
        }
    } else {
        combine(times, fold_terms(times, term, (n - 1) as nat), term(n - 1))
    }
}

/// The sum or product of `term` over those of `0..n` that `mask` holds.
pub open spec fn fold_masked(times: bool, term: spec_fn(int) -> nat, mask: Set<int>, n: nat) -> nat
    decreases n,
{
    if n == 0 {
        if times {
            1
        } else {
            0
        }
    } else if mask.contains(n - 1) {
        combine(times, fold_masked(times, term, mask, (n - 1) as nat), term(n - 1))
    } else {
        fold_masked(times, term, mask, (n - 1) as nat)
    }
}

/// The first `k` of the axes that `axes` names.
pub open spec fn image(axes: Seq<usize>, k: int) -> Set<int> {
    Set::new(|x: int| exists|i: int| 0 <= i < k && axes[i] == x)
}

/// Sums and products can be regrouped.
proof fn lemma_combine(times: bool, a: nat, b: nat, c: nat)
    ensures
        combine(times, combine(times, a, b), c) == combine(times, combine(times, a, c), b),
{
    assert((a * b) * c == (a * c) * b) by (nonlinear_arith);
}

/// A masked fold looks at the mask below `n` alone.
proof fn lemma_masked_agree(
    times: bool,
    term: spec_fn(int) -> nat,
    left: Set<int>,
    right: Set<int>,
    n: nat,
)
    requires
        forall|x: int| 0 <= x < n ==> (left.contains(x) <==> right.contains(x)),
    ensures
        fold_masked(times, term, left, n) == fold_masked(times, term, right, n),
    decreases n,
{
    if n > 0 {
        lemma_masked_agree(times, term, left, right, (n - 1) as nat);
    }
}

/// Adding a new axis to the mask adds its term to the fold.
proof fn lemma_masked_insert(
    times: bool,
    term: spec_fn(int) -> nat,
    mask: Set<int>,
    m: int,
    n: nat,
)
    requires
        0 <= m < n,
        !mask.contains(m),
    ensures
        fold_masked(times, term, mask.insert(m), n) == combine(
            times,
            fold_masked(times, term, mask, n),
            term(m),
        ),
    decreases n,
{
    let more = mask.insert(m);
    let before = (n - 1) as nat;
    if m == n - 1 {
        lemma_masked_agree(times, term, more, mask, before);
    } else {
        lemma_masked_insert(times, term, mask, m, before);
        if mask.contains(n - 1) {
            lemma_combine(times, fold_masked(times, term, mask, before), term(m), term(n - 1));
        }
    }
}

/// The fold of the terms at the first `k` named axes is the fold masked by those axes.
proof fn lemma_fold_image(
    times: bool,
    term: spec_fn(int) -> nat,
    axes: Seq<usize>,
    k: nat,
)
    requires
        is_permutation(axes, axes.len()),
        k <= axes.len(),
    ensures
        fold_terms(times, |i: int| term(axes[i] as int), k) == fold_masked(
            times,
            term,
            image(axes, k as int),
            axes.len(),
        ),
    decreases k,
{
    let n = axes.len();
    if k == 0 {
        lemma_masked_none(times, term, image(axes, 0), n);
    } else {
        let before = (k - 1) as nat;
        lemma_fold_image(times, term, axes, before);
        let m = axes[k - 1] as int;
        let mask = image(axes, k - 1);
        assert(!mask.contains(m));
        assert(image(axes, k as int) =~= mask.insert(m)) by {
            assert forall|x: int| image(axes, k as int).contains(x) implies mask.insert(
                m,
            ).contains(x) by {
                let i = choose|i: int| 0 <= i < k && axes[i] == x;
                if i < k - 1 {
                    assert(mask.contains(x));
                }
            }
            assert forall|x: int| mask.insert(m).contains(x) implies image(
                axes,
                k as int,
            ).contains(x) by {
                if x == m {
                    assert(axes[k - 1] == x);
                } else {
                    let i = choose|i: int| 0 <= i < k - 1 && axes[i] == x;
                    assert(0 <= i < k && axes[i] == x);
                }
            }
        }
        lemma_masked_insert(times, term, mask, m, n);
    }
}

/// A fold masked by no axis below `n` is the fold of nothing.
proof fn lemma_masked_none(times: bool, term: spec_fn(int) -> nat, mask: Set<int>, n: nat)
    requires
        forall|x: int| 0 <= x < n ==> !mask.contains(x),
    ensures
        fold_masked(times, term, mask, n) == fold_terms(times, term, 0),
    decreases n,
{
    if n > 0 {
        lemma_masked_none(times, term, mask, (n - 1) as nat);
    }
}

/// A fold masked by every axis below `n` is the fold over all.
proof fn lemma_masked_all(times: bool, term: spec_fn(int) -> nat, mask: Set<int>, n: nat)
    requires
        forall|x: int| 0 <= x < n ==> mask.contains(x),
    ensures
        fold_masked(times, term, mask, n) == fold_terms(times, term, n),
    decreases n,
{
    if n > 0 {
        lemma_masked_all(times, term, mask, (n - 1) as nat);
    }
}

/// A mask that counts `n` axes below `n` holds them all.
proof fn lemma_masked_count(mask: Set<int>, n: nat)
    ensures
        fold_masked(false, |x: int| 1nat, mask, n) <= n,
        fold_masked(false, |x: int| 1nat, mask, n) == n ==> forall|x: int|
            0 <= x < n ==> mask.contains(x),
    decreases n,
{
    if n > 0 {
        lemma_masked_count(mask, (n - 1) as nat);
    }
}

/// The sum of `n` ones is `n`.
proof fn lemma_fold_ones(term: spec_fn(int) -> nat, n: nat)
    requires
        forall|i: int| 0 <= i < n ==> #[trigger] term(i) == 1,
    ensures
        fold_terms(false, term, n) == n,
    decreases n,
{
    if n > 0 {
        lemma_fold_ones(term, (n - 1) as nat);
    }
}

/// A permutation names every axis.
pub proof fn lemma_permutation_onto(axes: Seq<usize>)
    requires
        is_permutation(axes, axes.len()),
    ensures
        forall|x: int| 0 <= x < axes.len() ==> image(axes, axes.len() as int).contains(x),
{
    let n = axes.len();
    let ones = |x: int| 1nat;
    lemma_fold_image(false, ones, axes, n);
    lemma_fold_ones(|i: int| ones(axes[i] as int), n);
    lemma_masked_count(image(axes, n as int), n);
}

/// A fold of terms does not change when the terms are taken in the order of a permutation.
pub proof fn lemma_fold_permuted(times: bool, term: spec_fn(int) -> nat, axes: Seq<usize>)
    requires
        is_permutation(axes, axes.len()),
    ensures
        fold_terms(times, |i: int| term(axes[i] as int), axes.len()) == fold_terms(
            times,
            term,
            axes.len(),
        ),
{
    let n = axes.len();
    lemma_fold_image(times, term, axes, n);
    lemma_permutation_onto(axes);
    lemma_masked_all(times, term, image(axes, n as int), n);
}

/// Two folds of terms that agree below `n` are equal.
pub proof fn lemma_fold_agree(
    times: bool,
    left: spec_fn(int) -> nat,
    right: spec_fn(int) -> nat,
    n: nat,
)
    requires
        forall|i: int| 0 <= i < n ==> #[trigger] left(i) == right(i),
    ensures
        fold_terms(times, left, n) == fold_terms(times, right, n),
    decreases n,
{
    if n > 0 {
        lemma_fold_agree(times, left, right, (n - 1) as nat);
    }
}

/// The product of a list is the product of its terms.
pub proof fn lemma_product_fold(dims: Seq<usize>)
    ensures
        product(dims) == fold_terms(true, |k: int| dims[k] as nat, dims.len()),
    decreases dims.len(),
{
    if dims.len() > 0 {
        let d = dims.drop_last();
        lemma_product_fold(d);
        lemma_fold_agree(true, |k: int| d[k] as nat, |k: int| dims[k] as nat, d.len());
    }
}

/// The sum of the products of two lists is the sum of its terms.
pub proof fn lemma_dot_fold(coord: Seq<usize>, strides: Seq<usize>)
    requires
        coord.len() == strides.len(),
    ensures
        dot(coord, strides) == fold_terms(
            false,
            |k: int| coord[k] as nat * strides[k] as nat,
            coord.len(),
        ),
    decreases coord.len(),
{
    if coord.len() > 0 {
        let c = coord.drop_last();
        let s = strides.drop_last();
        lemma_dot_fold(c, s);
        lemma_fold_agree(
            false,
            |k: int| c[k] as nat * s[k] as nat,
            |k: int| coord[k] as nat * strides[k] as nat,
            c.len(),
        );
    }
}

/// The product of a shape does not change when its axes are permuted.
pub proof fn lemma_permuted_product(dims: Seq<usize>, axes: Seq<usize>)
    requires
        is_permutation(axes, dims.len()),
    ensures
        product(permuted(dims, axes)) == product(dims),
{
    let out = permuted(dims, axes);
    let term = |k: int| dims[k] as nat;
    lemma_product_fold(out);
    lemma_product_fold(dims);
    lemma_fold_permuted(true, term, axes);
    lemma_fold_agree(true, |i: int| out[i] as nat, |i: int| term(axes[i] as int), out.len());
}

/// The sum of the products of two lists does not change when both are permuted alike.
pub proof fn lemma_permuted_dot(coord: Seq<usize>, strides: Seq<usize>, axes: Seq<usize>)
    requires
        coord.len() == strides.len(),
        is_permutation(axes, coord.len()),
    ensures
        dot(permuted(coord, axes), permuted(strides, axes)) == dot(coord, strides),
{
    let c = permuted(coord, axes);
    let s = permuted(strides, axes);
    let term = |k: int| coord[k] as nat * strides[k] as nat;
    lemma_dot_fold(c, s);
    lemma_dot_fold(coord, strides);
    lemma_fold_permuted(false, term, axes);
    lemma_fold_agree(
        false,
        |i: int| c[i] as nat * s[i] as nat,
        |i: int| term(axes[i] as int),
        c.len(),
    );
}

/// Whether `axes` names each of the axes `0..ndim` once.
pub fn is_valid_permutation(axes: &[usize], ndim: usize) -> (valid: bool)
    ensures
        valid == is_permutation(axes@, ndim as nat),
{
    if axes.len() != ndim {
        return false;
    }
    let mut i: usize = 0;
    while i < axes.len()
        invariant
            i <= axes.len(),
            axes.len() == ndim,
            forall|k: int| 0 <= k < i ==> axes@[k] < ndim,
            forall|k: int, j: int| 0 <= k < j < i ==> axes@[k] != axes@[j],
        decreases axes.len() - i,
    {
        if axes[i] >= ndim {
            return false;
        }
        let mut k: usize = 0;
        while k < i
            invariant
                k <= i,
                i < axes.len(),
                forall|j: int| 0 <= j < k ==> axes@[j] != axes@[i as int],
            decreases i - k,
        {
            if axes[k] == axes[i] {
                return false;
            }
            k = k + 1;
        }
        i = i + 1;
    }
    true
}

/// The list whose axis `i` is the axis `axes[i]` of `dims`.
pub fn permute(dims: &[usize], axes: &[usize]) -> (out: Vec<usize>)
    requires
        forall|i: int| 0 <= i < axes@.len() ==> axes@[i] < dims@.len(),
    ensures
        out@ == permuted(dims@, axes@),
{
    let mut out: Vec<usize> = Vec::with_capacity(axes.len());
    let mut i: usize = 0;
    while i < axes.len()
        invariant
            i <= axes.len(),
            forall|k: int| 0 <= k < axes@.len() ==> axes@[k] < dims@.len(),
            out@.len() == i,
            forall|k: int| 0 <= k < i ==> out@[k] == dims@[axes@[k] as int],
        decreases axes.len() - i,
    {
        out.push(dims[axes[i]]);
        i = i + 1;
    }
    assert(out@ =~= permuted(dims@, axes@));
    out
}

/// The axes `0..ndim` from the last to the first.
pub fn reversed_axes(ndim: usize) -> (axes: Vec<usize>)
    ensures
        axes@ == reversal(ndim as nat),
        is_permutation(axes@, ndim as nat),
{
    let mut axes: Vec<usize> = Vec::with_capacity(ndim);
    let mut i: usize = 0;
    while i < ndim
        invariant
            i <= ndim,
            axes@.len() == i,
            forall|k: int| 0 <= k < i ==> axes@[k] == ndim - 1 - k,
        decreases ndim - i,
    {
        axes.push(ndim - 1 - i);
        i = i + 1;
    }
    assert(axes@ =~= reversal(ndim as nat));
    axes
}

} // verus!
