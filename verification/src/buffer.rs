//! Buffers in host memory.

use vstd::prelude::*;

use crate::error::{Error, ErrorKind};

verus! {

/// The size below which a result is computed in sequence and kept in a `StackVec`.
pub const VEC_MIN_SIZE: usize = 64;

/// The buffer of a small result: one of fewer than `VEC_MIN_SIZE` items, as a rule, though it
/// may hold any number.
#[derive(Clone, Debug, PartialEq, Eq)]
pub struct StackVec<T> {
    items: Vec<T>,
}

impl<T> View for StackVec<T> {
    type V = Seq<T>;

    closed spec fn view(&self) -> Seq<T> {
        self.items@
    }
}

impl<T> StackVec<T> {
    /// An empty buffer.
    pub fn new() -> (buffer: Self)
        ensures
            buffer@ == Seq::<T>::empty(),
    {
        StackVec { items: Vec::new() }
    }

    /// A buffer with the items of `items`.
    pub fn from_vec(items: Vec<T>) -> (buffer: Self)
        ensures
            buffer@ == items@,
    {
        StackVec { items }
    }

    /// The items of this buffer, as a vector.
    pub fn into_vec(self) -> (items: Vec<T>)
        ensures
            items@ == self@,
    {
        self.items
    }

    /// The items of this buffer.
    pub fn as_slice(&self) -> (items: &[T])
        ensures
            items@ == self@,
    {
        self.items.as_slice()
    }

    /// The number of items.
    pub fn len(&self) -> (n: usize)
        ensures
            n == self@.len(),
    {
        self.items.len()
    }

    /// Adds `item` at the end.
    pub fn push(&mut self, item: T)
        ensures
            final(self)@ == old(self)@.push(item),
    {
        self.items.push(item);
    }

    /// Replaces the item at `offset`.
    pub fn set(&mut self, offset: usize, item: T)
        requires
            offset < old(self)@.len(),
        ensures
            final(self)@ == old(self)@.update(offset as int, item),
    {
        self.items.set(offset, item);
    }
}

impl<T: Copy> StackVec<T> {
    /// A buffer with the items of `items`.
    pub fn from_slice(items: &[T]) -> (buffer: Self)
        ensures
            buffer@ == items@,
    {
        StackVec { items: copy_slice(items) }
    }
}

/// A vector with the items of `items`.
pub fn copy_slice<T: Copy>(items: &[T]) -> (copy: Vec<T>)
    ensures
        copy@ == items@,
{
    let mut copy: Vec<T> = Vec::with_capacity(items.len());
    let mut i: usize = 0;
    while i < items.len()
        invariant
            i <= items.len(),
            copy@ == items@.take(i as int),
        decreases items.len() - i,
    {
        copy.push(items[i]);
        assert(items@.take(i + 1) =~= items@.take(i as int).push(items@[i as int]));
        i = i + 1;
    }
    assert(items@.take(items.len() as int) =~= items@);
    copy
}

/// A vector of `size` copies of `value`.
pub fn repeat<T: Copy>(value: T, size: usize) -> (items: Vec<T>)
    ensures
        items@ == Seq::new(size as nat, |i: int| value),
{
    let mut items: Vec<T> = Vec::with_capacity(size);
    let mut i: usize = 0;
    while i < size
        invariant
            i <= size,
            items@ == Seq::new(i as nat, |k: int| value),
        decreases size - i,
    {
        items.push(value);
        assert(items@ =~= Seq::new((i + 1) as nat, |k: int| value));
        i = i + 1;
    }
    items
}

/// An owned buffer in host memory.
#[derive(Clone, Debug, PartialEq, Eq)]
pub enum Buffer<T> {
    Heap(Vec<T>),
    Stack(StackVec<T>),
}

impl<T> View for Buffer<T> {
    type V = Seq<T>;

    open spec fn view(&self) -> Seq<T> {
        match self {
            Buffer::Heap(items) => items@,
            Buffer::Stack(items) => items@,
        }
    }
}

impl<T> Buffer<T> {
    /// The number of items in this buffer.
    pub fn size(&self) -> (n: usize)
        ensures
            n == self@.len(),
    {
        match self {
            Buffer::Heap(items) => items.len(),
            Buffer::Stack(items) => items.len(),
        }
    }

    /// The items of this buffer.
    pub fn as_slice(&self) -> (items: &[T])
        ensures
            items@ == self@,
    {
        match self {
            Buffer::Heap(items) => items.as_slice(),
            Buffer::Stack(items) => items.as_slice(),
        }
    }

    /// The items of this buffer, as a vector.
    pub fn into_vec(self) -> (items: Vec<T>)
        ensures
            items@ == self@,
    {
        match self {
            Buffer::Heap(items) => items,
            Buffer::Stack(items) => items.into_vec(),
        }
    }

    /// The buffer that holds `items` on the heap.
    pub fn from_vec(items: Vec<T>) -> (buffer: Self)
        ensures
            buffer == Buffer::Heap(items),
    {
        Buffer::Heap(items)
    }

    /// The buffer that holds `items` inline.
    pub fn from_stackvec(items: StackVec<T>) -> (buffer: Self)
        ensures
            buffer == Buffer::Stack(items),
    {
        Buffer::Stack(items)
    }
}

impl<T: Copy> Buffer<T> {
    /// A copy of the items of this buffer, as a vector.
    pub fn to_vec(&self) -> (items: Vec<T>)
        ensures
            items@ == self@,
    {
        copy_slice(self.as_slice())
    }

    /// The item at `offset`; an offset beyond the last item is a bounds error.
    pub fn read_value(&self, offset: usize) -> (r: Result<T, Error>)
        ensures
            offset < self@.len() ==> r == Ok::<T, Error>(self@[offset as int]),
            offset >= self@.len() ==> r is Err && r->Err_0.kind() == ErrorKind::Bounds,
    {
        let items = self.as_slice();
        if offset < items.len() {
            Ok(items[offset])
        } else {
            Err(Error::bounds("invalid offset for a buffer of size", &[offset, items.len()]))
        }
    }

    /// Overwrites this buffer with `data`, which must have its size; any other size is a bounds
    /// error, and leaves the buffer as it was.
    pub fn write(&mut self, data: &[T]) -> (r: Result<(), Error>)
        ensures
            data@.len() == old(self)@.len() ==> r is Ok && final(self)@ == data@,
            data@.len() != old(self)@.len() ==> r is Err && r->Err_0.kind() == ErrorKind::Bounds
                && *final(self) == *old(self),
    {
        if data.len() == self.size() {
            match self {
                Buffer::Heap(items) => {
                    *items = copy_slice(data);
                },
                Buffer::Stack(items) => {
                    *items = StackVec::from_slice(data);
                },
            }
            Ok(())
        } else {
            Err(
                Error::bounds(
                    "cannot overwrite a buffer with one of another size",
                    &[self.size(), data.len()],
                ),
            )
        }
    }

    /// Overwrites every item of this buffer with `value`.
    pub fn write_value(&mut self, value: T) -> (r: Result<(), Error>)
        ensures
            r is Ok,
            final(self)@ == Seq::new(old(self)@.len(), |i: int| value),
    {
        let size: usize = self.size();
        match self {
            Buffer::Heap(items) => {
                *items = repeat(value, size);
            },
            Buffer::Stack(items) => {
                *items = StackVec::from_vec(repeat(value, size));
            },
        }
        Ok(())
    }

    /// Overwrites the item at `offset` with `value`; an offset beyond the last item is a bounds
    /// error, and leaves the buffer as it was.
    pub fn write_value_at(&mut self, offset: usize, value: T) -> (r: Result<(), Error>)
        ensures
            offset < old(self)@.len() ==> r is Ok && final(self)@ == old(self)@.update(
                offset as int,
                value,
            ),
            offset >= old(self)@.len() ==> r is Err && r->Err_0.kind() == ErrorKind::Bounds
                && *final(self) == *old(self),
    {
        if offset < self.size() {
            match self {
                Buffer::Heap(items) => {
                    items.set(offset, value);
                },
                Buffer::Stack(items) => {
                    items.set(offset, value);
                },
            }
            Ok(())
        } else {
            Err(Error::bounds("invalid offset for a buffer of size", &[offset, self.size()]))
        }
    }
}

/// A buffer in host memory that a reader was handed: owned, or borrowed from its accessor.
#[derive(Clone, Debug)]
pub enum SliceConverter<'a, T> {
    Heap(Vec<T>),
    Stack(StackVec<T>),
    Slice(&'a [T]),
}

impl<'a, T> View for SliceConverter<'a, T> {
    type V = Seq<T>;

    open spec fn view(&self) -> Seq<T> {
        match self {
            SliceConverter::Heap(items) => items@,
            SliceConverter::Stack(items) => items@,
            SliceConverter::Slice(items) => items@,
        }
    }
}

impl<'a, T> SliceConverter<'a, T> {
    /// The number of items in this buffer.
    pub fn size(&self) -> (n: usize)
        ensures
            n == self@.len(),
    {
        match self {
            SliceConverter::Heap(items) => items.len(),
            SliceConverter::Stack(items) => items.len(),
            SliceConverter::Slice(items) => items.len(),
        }
    }

    /// The items of this buffer.
    pub fn as_slice(&self) -> (items: &[T])
        ensures
            items@ == self@,
    {
        match self {
            SliceConverter::Heap(items) => items.as_slice(),
            SliceConverter::Stack(items) => items.as_slice(),
            SliceConverter::Slice(items) => items,
        }
    }

    /// The converter that owns what `buffer` held.
    pub fn from_buffer(buffer: Buffer<T>) -> (converter: Self)
        ensures
            converter@ == buffer@,
            buffer is Heap ==> converter is Heap,
            buffer is Stack ==> converter is Stack,
    {
        match buffer {
            Buffer::Heap(items) => SliceConverter::Heap(items),
            Buffer::Stack(items) => SliceConverter::Stack(items),
        }
    }

    /// The converter that borrows `items`.
    pub fn from_slice(items: &'a [T]) -> (converter: Self)
        ensures
            converter == SliceConverter::Slice(items),
    {
        SliceConverter::Slice(items)
    }
}

impl<'a, T: Copy> SliceConverter<'a, T> {
    /// The items as an owned vector; a borrowed slice is copied.
    pub fn into_vec(self) -> (items: Vec<T>)
        ensures
            items@ == self@,
    {
        match self {
            SliceConverter::Heap(items) => items,
            SliceConverter::Stack(items) => items.into_vec(),
            SliceConverter::Slice(items) => copy_slice(items),
        }
    }

    /// The items as an owned `StackVec`.
    pub fn into_stackvec(self) -> (items: StackVec<T>)
        ensures
            items@ == self@,
    {
        match self {
            SliceConverter::Heap(items) => StackVec::from_vec(items),
            SliceConverter::Stack(items) => items,
            SliceConverter::Slice(items) => StackVec::from_slice(items),
        }
    }

    /// The items as an owned buffer: an owned buffer keeps its kind, and a borrowed slice is
    /// copied into a `Stack` buffer if it has fewer than `VEC_MIN_SIZE` items, else into a
    /// `Heap` buffer.
    pub fn into_buffer(self) -> (buffer: Buffer<T>)
        ensures
            buffer@ == self@,
            self is Heap ==> buffer is Heap,
            self is Stack ==> buffer is Stack,
            self is Slice ==> (buffer is Stack <==> self@.len() < VEC_MIN_SIZE),
    {
        match self {
            SliceConverter::Heap(items) => Buffer::Heap(items),
            SliceConverter::Stack(items) => Buffer::Stack(items),
            SliceConverter::Slice(items) => {
                if items.len() < VEC_MIN_SIZE {
                    Buffer::Stack(StackVec::from_slice(items))
                } else {
                    Buffer::Heap(copy_slice(items))
                }
            },
        }
    }
}

} // verus!
