//! Accessors: the uniform way to read, and to write, the elements of an array, whether they
//! lie in a buffer or are computed on demand.

use rayon::iter::{IntoParallelIterator, ParallelIterator};
use vstd::prelude::*;

use crate::buffer::{Buffer, SliceConverter, StackVec, VEC_MIN_SIZE};
use crate::ctype::CType;
use crate::error::{outcome, Error, ErrorKind};

verus! {

/// What a list of results comes to: all the values, or the first error.
pub open spec fn collect<T>(results: Seq<Result<T, ErrorKind>>) -> Result<Seq<T>, ErrorKind>
    decreases results.len(),
{
    if results.len() == 0 {
        Ok(Seq::empty())
    } else {
        match collect(results.drop_last()) {
            Err(kind) => Err(kind),
            Ok(values) => match results.last() {
                Ok(value) => Ok(values.push(value)),
                Err(kind) => Err(kind),
            },
        }
    }
}

/// Where a list of results comes to values, each result is its value.
pub proof fn lemma_collect_ok<T>(results: Seq<Result<T, ErrorKind>>)
    ensures
        collect(results) matches Ok(values) ==> values.len() == results.len() && forall|i: int|
            0 <= i < results.len() ==> results[i] == Ok::<T, ErrorKind>(values[i]),
    decreases results.len(),
{
    if results.len() > 0 {
        lemma_collect_ok(results.drop_last());
        if let Ok(values) = collect(results) {
            let front = collect(results.drop_last())->Ok_0;
            assert(values == front.push(results.last()->Ok_0));
            assert forall|i: int| 0 <= i < results.len() implies results[i] == Ok::<
                T,
                ErrorKind,
            >(values[i]) by {
                if i < results.len() - 1 {
                    assert(results[i] == results.drop_last()[i]);
                }
            }
        }
    }
}

/// A list of values comes to those values.
pub proof fn lemma_collect_values<T>(results: Seq<Result<T, ErrorKind>>, values: Seq<T>)
    requires
        values.len() == results.len(),
        forall|i: int| 0 <= i < results.len() ==> results[i] == Ok::<T, ErrorKind>(values[i]),
    ensures
        collect(results) == Ok::<Seq<T>, ErrorKind>(values),
    decreases results.len(),
{
    if results.len() > 0 {
        lemma_collect_values(results.drop_last(), values.drop_last());
        assert(values.drop_last().push(values.last()) =~= values);
    } else {
        assert(values =~= Seq::<T>::empty());
    }
}

/// An error in a prefix of a list of results is what the whole list comes to.
pub proof fn lemma_collect_prefix<T>(results: Seq<Result<T, ErrorKind>>, k: int)
    requires
        0 <= k <= results.len(),
        collect(results.take(k)) is Err,
    ensures
        collect(results) == collect(results.take(k)),
    decreases results.len() - k,
{
    if k < results.len() {
        assert(results.take(k + 1).drop_last() =~= results.take(k));
        lemma_collect_prefix(results, k + 1);
    } else {
        assert(results.take(k) =~= results);
    }
}

/// What a read of a whole accessor returned, with the buffer reduced to its items and an error
/// to its class.
pub open spec fn read_outcome<'a, T>(result: Result<SliceConverter<'a, T>, Error>) -> Result<
    Seq<T>,
    ErrorKind,
> {
    match result {
        Ok(buffer) => Ok(buffer@),
        Err(error) => Err(error.kind()),
    }
}

/// A uniform way to read an array's data, be it a buffer or an operation that is evaluated on
/// demand.
pub trait Access<T: CType>: Sized + Send + Sync {
    /// Whether this accessor is well formed: each of its inputs has the size that it expects.
    spec fn inv(&self) -> bool;

    /// The number of elements.
    spec fn len(&self) -> nat;

    /// What a read of all the elements gives: the elements, or the first failure.
    spec fn value(&self) -> Result<Seq<T>, ErrorKind>;

    /// What a read of the element at `offset` gives.
    spec fn elem(&self, offset: int) -> Result<T, ErrorKind>;

    /// Whether single elements can be read.
    spec fn random_access(&self) -> bool;

    /// The elements number `len`; a read of one element gives what a read of all gives at its
    /// offset, where single elements can be read and the read of all succeeds; and an offset
    /// from `len` on is out of bounds.
    proof fn lemma_access(&self)
        requires
            self.inv(),
        ensures
            self.len() <= usize::MAX,
            self.value() matches Ok(items) ==> items.len() == self.len(),
            self.random_access() ==> (self.value() matches Ok(items) ==> forall|i: int|
                0 <= i < self.len() ==> self.elem(i) == Ok::<T, ErrorKind>(items[i])),
            forall|i: int|
                i >= self.len() ==> self.elem(i) == Err::<T, ErrorKind>(ErrorKind::Bounds),
    ;

    /// The number of elements.
    fn size(&self) -> (n: usize)
        requires
            self.inv(),
        ensures
            n == self.len(),
    ;

    /// Reads all the elements.
    fn read<'a>(&'a self) -> (r: Result<SliceConverter<'a, T>, Error>)
        requires
            self.inv(),
        ensures
            read_outcome(r) == self.value(),
    ;

    /// Reads the element at `offset`.
    fn read_value(&self, offset: usize) -> (r: Result<T, Error>)
        requires
            self.inv(),
        ensures
            outcome(r) == self.elem(offset as int),
    ;
}

/// An accessor that owns a buffer.
pub struct AccessBuf<T> {
    buffer: Buffer<T>,
}

impl<T> View for AccessBuf<T> {
    type V = Seq<T>;

    closed spec fn view(&self) -> Seq<T> {
        self.buffer@
    }
}

impl<T: CType> AccessBuf<T> {
    /// The accessor of `buffer`.
    pub fn new(buffer: Buffer<T>) -> (access: Self)
        ensures
            access@ == buffer@,
            access.inv(),
    {
        let _size: usize = buffer.size();
        AccessBuf { buffer }
    }

    /// The buffer of this accessor.
    pub fn into_inner(self) -> (buffer: Buffer<T>)
        ensures
            buffer@ == self@,
    {
        self.buffer
    }

    /// The buffer of this accessor.
    pub fn inner(&self) -> (buffer: &Buffer<T>)
        ensures
            buffer@ == self@,
    {
        &self.buffer
    }
}

impl<T: CType> Access<T> for AccessBuf<T> {
    open spec fn inv(&self) -> bool {
        self@.len() <= usize::MAX
    }

    open spec fn len(&self) -> nat {
        self@.len()
    }

    open spec fn value(&self) -> Result<Seq<T>, ErrorKind> {
        Ok(self@)
    }

    open spec fn elem(&self, offset: int) -> Result<T, ErrorKind> {
        if 0 <= offset < self@.len() {
            Ok(self@[offset])
        } else {
            Err(ErrorKind::Bounds)
        }
    }

    open spec fn random_access(&self) -> bool {
        true
    }

    proof fn lemma_access(&self) {
    }

    fn size(&self) -> (n: usize) {
        self.buffer.size()
    }

    fn read<'a>(&'a self) -> (r: Result<SliceConverter<'a, T>, Error>) {
        Ok(SliceConverter::from_slice(self.buffer.as_slice()))
    }

    fn read_value(&self, offset: usize) -> (r: Result<T, Error>) {
        self.buffer.read_value(offset)
    }
}

impl<'b, T: CType, A: Access<T>> Access<T> for &'b A {
    open spec fn inv(&self) -> bool {
        (**self).inv()
    }

    open spec fn len(&self) -> nat {
        (**self).len()
    }

    open spec fn value(&self) -> Result<Seq<T>, ErrorKind> {
        (**self).value()
    }

    open spec fn elem(&self, offset: int) -> Result<T, ErrorKind> {
        (**self).elem(offset)
    }

    open spec fn random_access(&self) -> bool {
        (**self).random_access()
    }

    proof fn lemma_access(&self) {
        (**self).lemma_access();
    }

    fn size(&self) -> (n: usize) {
        (**self).size()
    }

    fn read<'a>(&'a self) -> (r: Result<SliceConverter<'a, T>, Error>) {
        (**self).read()
    }

    fn read_value(&self, offset: usize) -> (r: Result<T, Error>) {
        (**self).read_value(offset)
    }
}

/// rayon's `into_par_iter`, `map` and `collect` on the range `0..n`: the results of `f` at
/// 0, 1, ..., n - 1, in that order. `f` is called on those offsets alone.
#[verifier::external_body]
fn par_collect<R: Send, F: Fn(usize) -> R + Send + Sync>(n: usize, f: F) -> (out: Vec<R>)
    requires
        forall|i: usize| i < n ==> call_requires(f, (i,)),
    ensures
        out@.len() == n,
        forall|i: int| 0 <= i < n ==> call_ensures(f, (i as usize,), #[trigger] out@[i]),
{
    (0..n).into_par_iter().map(f).collect()
}

/// rayon's `join`: the results of `first` and `second`, each of which is called once and may
/// run on another thread.
#[verifier::external_body]
fn par_join<A: Send, B: Send, F: FnOnce() -> A + Send, G: FnOnce() -> B + Send>(
    first: F,
    second: G,
) -> (results: (A, B))
    requires
        call_requires(first, ()),
        call_requires(second, ()),
    ensures
        call_ensures(first, (), results.0),
        call_ensures(second, (), results.1),
{
    rayon::join(first, second)
}

/// Reads all the elements of two accessors, each on a thread of its own.
pub(crate) fn join_read<'a, T: CType, L: Access<T>, R: Access<T>>(left: &'a L, right: &'a R) -> (r: (
    Result<SliceConverter<'a, T>, Error>,
    Result<SliceConverter<'a, T>, Error>,
))
    requires
        left.inv(),
        right.inv(),
    ensures
        read_outcome(r.0) == left.value(),
        read_outcome(r.1) == right.value(),
{
    let first = || -> (read: Result<SliceConverter<'a, T>, Error>)
        ensures
            read_outcome(read) == left.value(),
        { left.read() };
    let second = || -> (read: Result<SliceConverter<'a, T>, Error>)
        ensures
            read_outcome(read) == right.value(),
        { right.read() };
    par_join(first, second)
}

/// Reads all the elements of three accessors, each on a thread of its own.
pub(crate) fn join_read3<'a, T: CType, C: Access<u8>, L: Access<T>, R: Access<T>>(
    cond: &'a C,
    left: &'a L,
    right: &'a R,
) -> (r: (
    Result<SliceConverter<'a, u8>, Error>,
    (Result<SliceConverter<'a, T>, Error>, Result<SliceConverter<'a, T>, Error>),
))
    requires
        cond.inv(),
        left.inv(),
        right.inv(),
    ensures
        read_outcome(r.0) == cond.value(),
        read_outcome(r.1.0) == left.value(),
        read_outcome(r.1.1) == right.value(),
{
    let first = || -> (read: Result<SliceConverter<'a, u8>, Error>)
        ensures
            read_outcome(read) == cond.value(),
        { cond.read() };
    let second = || -> (read: (
        Result<SliceConverter<'a, T>, Error>,
        Result<SliceConverter<'a, T>, Error>,
    ))
        ensures
            read_outcome(read.0) == left.value(),
            read_outcome(read.1) == right.value(),
        { join_read(left, right) };
    par_join(first, second)
}

/// Computes `n` elements in sequence, up to the first that fails.
pub(crate) fn fill_stack<T: CType, F: Fn(usize) -> Result<T, Error>>(
    n: usize,
    f: F,
    Ghost(g): Ghost<spec_fn(int) -> Result<T, ErrorKind>>,
) -> (r: Result<StackVec<T>, Error>)
    requires
        forall|i: usize| i < n ==> call_requires(f, (i,)),
        forall|i: usize, out: Result<T, Error>|
            i < n && call_ensures(f, (i,), out) ==> outcome(out) == g(i as int),
    ensures
        r matches Ok(items) ==> collect(Seq::new(n as nat, g)) == Ok::<Seq<T>, ErrorKind>(items@),
        r matches Err(error) ==> collect(Seq::new(n as nat, g)) == Err::<Seq<T>, ErrorKind>(
            error.kind(),
        ),
{
    let ghost results = Seq::new(n as nat, g);
    let mut items: StackVec<T> = StackVec::new();
    let mut i: usize = 0;
    assert(results.take(0) =~= Seq::<Result<T, ErrorKind>>::empty());
    while i < n
        invariant
            i <= n,
            results == Seq::new(n as nat, g),
            forall|i: usize| i < n ==> call_requires(f, (i,)),
            forall|i: usize, out: Result<T, Error>|
                i < n && call_ensures(f, (i,), out) ==> outcome(out) == g(i as int),
            collect(results.take(i as int)) == Ok::<Seq<T>, ErrorKind>(items@),
        decreases n - i,
    {
        let result = f(i);
        proof {
            assert(results.take(i + 1).drop_last() =~= results.take(i as int));
            assert(results.take(i + 1).last() == g(i as int));
        }
        match result {
            Ok(item) => {
                items.push(item);
            },
            Err(error) => {
                proof {
                    lemma_collect_prefix(results, i + 1);
                }
                return Err(error);
            },
        }
        i = i + 1;
    }
    assert(results.take(n as int) =~= results);
    Ok(items)
}

/// Computes `n` elements in parallel, and hands on the first failure if there is one.
pub(crate) fn fill_heap<T: CType, F: Fn(usize) -> Result<T, Error> + Send + Sync>(
    n: usize,
    f: F,
    Ghost(g): Ghost<spec_fn(int) -> Result<T, ErrorKind>>,
) -> (r: Result<Vec<T>, Error>)
    requires
        forall|i: usize| i < n ==> call_requires(f, (i,)),
        forall|i: usize, out: Result<T, Error>|
            i < n && call_ensures(f, (i,), out) ==> outcome(out) == g(i as int),
    ensures
        r matches Ok(items) ==> collect(Seq::new(n as nat, g)) == Ok::<Seq<T>, ErrorKind>(items@),
        r matches Err(error) ==> collect(Seq::new(n as nat, g)) == Err::<Seq<T>, ErrorKind>(
            error.kind(),
        ),
{
    let ghost results = Seq::new(n as nat, g);
    let computed: Vec<Result<T, Error>> = par_collect(n, f);
    let mut items: Vec<T> = Vec::with_capacity(n);
    let mut i: usize = 0;
    assert(results.take(0) =~= Seq::<Result<T, ErrorKind>>::empty());
    while i < n
        invariant
            i <= n,
            computed@.len() == n,
            results == Seq::new(n as nat, g),
            forall|k: int| 0 <= k < n ==> outcome(#[trigger] computed@[k]) == g(k),
            collect(results.take(i as int)) == Ok::<Seq<T>, ErrorKind>(items@),
        decreases n - i,
    {
        proof {
            assert(results.take(i + 1).drop_last() =~= results.take(i as int));
            assert(results.take(i + 1).last() == g(i as int));
            assert(outcome(computed@[i as int]) == g(i as int));
        }
        match &computed[i] {
            Ok(item) => {
                items.push(*item);
            },
            Err(error) => {
                proof {
                    lemma_collect_prefix(results, i + 1);
                }
                return Err(Error::of_kind(error.kind(), error.message()));
            },
        }
        i = i + 1;
    }
    assert(results.take(n as int) =~= results);
    Ok(items)
}

/// Computes `n` elements: fewer than `VEC_MIN_SIZE` in sequence into a `Stack` buffer, more in
/// parallel into a `Heap` buffer.
pub(crate) fn fill<'a, T: CType, F: Fn(usize) -> Result<T, Error> + Send + Sync>(
    n: usize,
    f: F,
    Ghost(g): Ghost<spec_fn(int) -> Result<T, ErrorKind>>,
) -> (r: Result<SliceConverter<'a, T>, Error>)
    requires
        forall|i: usize| i < n ==> call_requires(f, (i,)),
        forall|i: usize, out: Result<T, Error>|
            i < n && call_ensures(f, (i,), out) ==> outcome(out) == g(i as int),
    ensures
        read_outcome(r) == collect(Seq::new(n as nat, g)),
        r matches Ok(buffer) ==> (buffer is Stack <==> n < VEC_MIN_SIZE) && !(buffer is Slice),
{
    if n < VEC_MIN_SIZE {
        match fill_stack(n, f, Ghost(g)) {
            Ok(items) => Ok(SliceConverter::Stack(items)),
            Err(error) => Err(error),
        }
    } else {
        match fill_heap(n, f, Ghost(g)) {
            Ok(items) => Ok(SliceConverter::Heap(items)),
            Err(error) => Err(error),
        }
    }
}

/// What a store holds after the first `n` elements of `data` were written, in order, each to
/// the slot of its offset.
pub open spec fn scatter<T>(store: Seq<T>, slots: Seq<int>, data: Seq<T>, n: nat) -> Seq<T>
    decreases n,
{
    if n == 0 {
        store
    } else {
        scatter(store, slots, data, (n - 1) as nat).update(slots[n - 1], data[n - 1])
    }
}

/// Writing the first `n` elements each to the slot of its own offset replaces the first `n`
/// elements of the store.
pub proof fn lemma_scatter_identity<T>(store: Seq<T>, data: Seq<T>, n: nat)
    requires
        n <= data.len(),
        n <= store.len(),
    ensures
        scatter(store, Seq::new(store.len(), |i: int| i), data, n) =~= data.take(n as int)
            + store.skip(n as int),
    decreases n,
{
    if n > 0 {
        lemma_scatter_identity(store, data, (n - 1) as nat);
    }
}

/// An accessor that can be written through: its elements are slots of a store, and a write to
/// an element is a write to its slot.
pub trait AccessMut<T: CType>: Access<T> {
    /// The elements of the store that this accessor writes to.
    spec fn store(&self) -> Seq<T>;

    /// The slot in the store of each element.
    spec fn slots(&self) -> Seq<int>;

    /// Each element has a slot in the store, and reads what the store holds there.
    proof fn lemma_access_mut(&self)
        requires
            self.inv(),
        ensures
            self.random_access(),
            self.slots().len() == self.len(),
            forall|i: int|
                0 <= i < self.len() ==> 0 <= #[trigger] self.slots()[i] < self.store().len(),
            self.value() == Ok::<Seq<T>, ErrorKind>(
                Seq::new(self.len(), |i: int| self.store()[self.slots()[i]]),
            ),
    ;

    /// Writes the elements of `data`, in order, each at its offset. Data of another size than
    /// this accessor is a bounds error, and nothing is written.
    fn write(&mut self, data: &[T]) -> (r: Result<(), Error>)
        requires
            old(self).inv(),
        ensures
            final(self).inv(),
            final(self).len() == old(self).len(),
            final(self).slots() == old(self).slots(),
            final(self).store().len() == old(self).store().len(),
            data@.len() == old(self).len() ==> r is Ok && final(self).store() == scatter(
                old(self).store(),
                old(self).slots(),
                data@,
                data@.len(),
            ),
            data@.len() != old(self).len() ==> r is Err && r->Err_0.kind() == ErrorKind::Bounds
                && final(self).store() == old(self).store(),
    ;

    /// Writes `value` at every offset.
    fn write_value(&mut self, value: T) -> (r: Result<(), Error>)
        requires
            old(self).inv(),
        ensures
            final(self).inv(),
            final(self).len() == old(self).len(),
            final(self).slots() == old(self).slots(),
            final(self).store().len() == old(self).store().len(),
            r is Ok,
            final(self).store() == scatter(
                old(self).store(),
                old(self).slots(),
                Seq::new(old(self).len(), |i: int| value),
                old(self).len(),
            ),
    ;

    /// Writes `value` at `offset`. An offset from the size on is a bounds error, and nothing is
    /// written.
    fn write_value_at(&mut self, offset: usize, value: T) -> (r: Result<(), Error>)
        requires
            old(self).inv(),
        ensures
            final(self).inv(),
            final(self).len() == old(self).len(),
            final(self).slots() == old(self).slots(),
            final(self).store().len() == old(self).store().len(),
            offset < old(self).len() ==> r is Ok && final(self).store() == old(
                self,
            ).store().update(old(self).slots()[offset as int], value),
            offset >= old(self).len() ==> r is Err && r->Err_0.kind() == ErrorKind::Bounds
                && final(self).store() == old(self).store(),
    ;
}

impl<T: CType> AccessMut<T> for AccessBuf<T> {
    open spec fn store(&self) -> Seq<T> {
        self@
    }

    open spec fn slots(&self) -> Seq<int> {
        Seq::new(self@.len(), |i: int| i)
    }

    proof fn lemma_access_mut(&self) {
        assert(self@ =~= Seq::new(self@.len(), |i: int| self.store()[self.slots()[i]]));
    }

    fn write(&mut self, data: &[T]) -> (r: Result<(), Error>) {
        proof {
            if data@.len() == self@.len() {
                lemma_scatter_identity(self@, data@, data@.len());
                assert(data@.take(data@.len() as int) + self@.skip(data@.len() as int) =~= data@);
            }
        }
        self.buffer.write(data)
    }

    fn write_value(&mut self, value: T) -> (r: Result<(), Error>) {
        proof {
            let data = Seq::new(self@.len(), |i: int| value);
            lemma_scatter_identity(self@, data, self@.len());
            assert(data.take(self@.len() as int) + self@.skip(self@.len() as int) =~= data);
        }
        self.buffer.write_value(value)
    }

    fn write_value_at(&mut self, offset: usize, value: T) -> (r: Result<(), Error>) {
        self.buffer.write_value_at(offset, value)
    }
}

} // verus!
