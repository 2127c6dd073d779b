//! The array: a shape, an accessor and a platform. Its constructors and its readers and
//! writers.

use std::marker::PhantomData;

use vstd::prelude::*;

use crate::access::{read_outcome, Access, AccessBuf, AccessMut};
use crate::buffer::{Buffer, SliceConverter};
use crate::ctype::CType;
use crate::error::{outcome, Error, ErrorKind};
use crate::index::{ravel, ravel_offset};
use crate::ops::Linear;
use crate::platform::{Constant, Convert, PlatformInstance};
use crate::shape::{
    in_bounds, is_valid_shape, product, same_shape, shape_size, valid_coord, valid_shape, Shape,
};

verus! {

/// An n-dimensional array: a shape, an accessor that gives the elements in row-major order, and
/// the platform that its operations are built for.
pub struct Array<T, A, P> {
    shape: Shape,
    access: A,
    platform: P,
    dtype: PhantomData<T>,
}

impl<T, A, P> Array<T, A, P> {
    /// The dimensions of this array.
    pub closed spec fn dims(&self) -> Seq<usize> {
        self.shape@
    }

    /// The accessor of this array.
    pub closed spec fn accessor(&self) -> A {
        self.access
    }

    /// The platform of this array.
    pub closed spec fn spec_platform(&self) -> P {
        self.platform
    }

    /// The accessor of this array.
    pub fn access(&self) -> (access: &A)
        ensures
            *access == self.accessor(),
    {
        &self.access
    }

    /// The accessor of this array.
    pub fn into_access(self) -> (access: A)
        ensures
            access == self.accessor(),
    {
        self.access
    }

    /// The array of the given parts.
    pub(crate) fn from_parts(shape: Shape, access: A, platform: P) -> (array: Self)
        ensures
            array.dims() == shape@,
            array.accessor() == access,
            array.spec_platform() == platform,
    {
        Array { shape, access, platform, dtype: PhantomData }
    }

    /// The parts of this array.
    pub(crate) fn into_parts(self) -> (parts: (Shape, A, P))
        ensures
            parts.0@ == self.dims(),
            parts.1 == self.accessor(),
            parts.2 == self.spec_platform(),
    {
        (self.shape, self.access, self.platform)
    }

    /// The dimensions of this array.
    pub(crate) fn dims_slice(&self) -> (dims: &[usize])
        ensures
            dims@ == self.dims(),
    {
        self.shape.as_slice()
    }
}

impl<T: CType, A: Access<T>, P: PlatformInstance> Array<T, A, P> {
    /// Whether this array is well formed: its shape is the shape of an array, its accessor is
    /// well formed, and the accessor has as many elements as the shape asks for.
    pub open spec fn wf(&self) -> bool {
        &&& valid_shape(self.dims())
        &&& self.accessor().inv()
        &&& product(self.dims()) == self.accessor().len()
    }

    /// What a read of all the elements of this array gives.
    pub open spec fn value(&self) -> Result<Seq<T>, ErrorKind> {
        self.accessor().value()
    }

    /// What a read of the element at `coord` gives: what the accessor gives at the row-major
    /// offset of `coord`, or a bounds error where `coord` is no coordinate of this array.
    pub open spec fn value_at(&self, coord: Seq<usize>) -> Result<T, ErrorKind> {
        if in_bounds(coord, self.dims()) {
            self.accessor().elem(ravel(coord, self.dims()) as int)
        } else {
            Err(ErrorKind::Bounds)
        }
    }

    /// An array that borrows the accessor of this array: operations on it leave this array
    /// in place.
    pub fn as_ref<'a>(&'a self) -> (borrowed: Array<T, &'a A, P>)
        requires
            self.wf(),
        ensures
            borrowed.wf(),
            borrowed.dims() == self.dims(),
            *borrowed.accessor() == self.accessor(),
            borrowed.spec_platform() == self.spec_platform(),
            borrowed.value() == self.value(),
    {
        Array::from_parts(self.shape.clone(), &self.access, self.platform)
    }

    /// The platform of this array.
    pub fn platform(&self) -> (platform: P)
        ensures
            platform == self.spec_platform(),
    {
        self.platform
    }

    /// Reads all the elements of this array, in row-major order.
    pub fn buffer<'a>(&'a self) -> (r: Result<SliceConverter<'a, T>, Error>)
        requires
            self.wf(),
        ensures
            read_outcome(r) == self.value(),
    {
        self.access.read()
    }

    /// Reads the element at `coord`.
    pub fn read_value(&self, coord: &[usize]) -> (r: Result<T, Error>)
        requires
            self.wf(),
        ensures
            outcome(r) == self.value_at(coord@),
    {
        match valid_coord(coord, self.shape.as_slice()) {
            Ok(()) => {
                let offset: usize = ravel_offset(coord, self.shape.as_slice());
                self.access.read_value(offset)
            },
            Err(error) => Err(error),
        }
    }

    /// Reads this array into an array that owns a buffer of the platform.
    pub fn into_read(self) -> (r: Result<Array<T, AccessBuf<T>, P>, Error>) where P: Convert<T>
        requires
            self.wf(),
        ensures
            r is Ok <==> self.value() is Ok,
            r matches Ok(array) ==> array.wf() && array.dims() == self.dims() && self.value()
                == Ok::<Seq<T>, ErrorKind>(array.accessor()@) && array.spec_platform()
                == self.spec_platform(),
            r matches Err(error) ==> self.value() == Err::<Seq<T>, ErrorKind>(error.kind()),
    {
        proof {
            self.access.lemma_access();
        }
        let owned = match self.access.read() {
            Ok(buffer) => match self.platform.convert(buffer) {
                Ok(owned) => owned,
                Err(error) => {
                    return Err(error);
                },
            },
            Err(error) => {
                return Err(error);
            },
        };
        Ok(Array::from_parts(self.shape, AccessBuf::new(owned), self.platform))
    }
}

impl<T: CType, P: PlatformInstance> Array<T, AccessBuf<T>, P> {
    /// The array of shape `shape` that `buffer` holds in row-major order. A shape that is not
    /// the shape of an array, or that asks for another number of elements than the buffer
    /// holds, is a bounds error.
    pub fn new(buffer: Buffer<T>, shape: Shape) -> (r: Result<Self, Error>)
        ensures
            r is Ok <==> valid_shape(shape@) && product(shape@) == buffer@.len(),
            r matches Ok(array) ==> array.wf() && array.dims() == shape@ && array.accessor()@
                == buffer@ && array.spec_platform() == P::select_spec(buffer@.len() as usize),
            r matches Err(error) ==> error.kind() == ErrorKind::Bounds,
    {
        let platform = P::select(buffer.size());
        Self::new_inner(platform, buffer, shape)
    }

    /// The array of shape `shape` that `buffer` holds, on `platform`.
    fn new_inner(platform: P, buffer: Buffer<T>, shape: Shape) -> (r: Result<Self, Error>)
        ensures
            r is Ok <==> valid_shape(shape@) && product(shape@) == buffer@.len(),
            r matches Ok(array) ==> array.wf() && array.dims() == shape@ && array.accessor()@
                == buffer@ && array.spec_platform() == platform,
            r matches Err(error) ==> error.kind() == ErrorKind::Bounds,
    {
        if is_valid_shape(shape.as_slice()) {
            match shape_size(shape.as_slice()) {
                Some(size) => {
                    if size == buffer.size() {
                        return Ok(Array::from_parts(shape, AccessBuf::new(buffer), platform));
                    }
                },
                None => {},
            }
        }
        Err(
            Error::bounds_pair(
                "cannot construct an array with this shape from a buffer of this size",
                shape.as_slice(),
                &[buffer.size()],
            ),
        )
    }

    /// The array of shape `shape` with the elements of `buffer`, copied into a buffer of the
    /// platform for their number.
    pub fn convert<'a>(buffer: SliceConverter<'a, T>, shape: Shape) -> (r: Result<
        Self,
        Error,
    >) where P: Convert<T>
        ensures
            r is Ok <==> valid_shape(shape@) && product(shape@) == buffer@.len(),
            r matches Ok(array) ==> array.wf() && array.dims() == shape@ && array.accessor()@
                == buffer@ && array.spec_platform() == P::select_spec(buffer@.len() as usize),
            r matches Err(error) ==> error.kind() == ErrorKind::Bounds,
    {
        let platform = P::select(buffer.size());
        match platform.convert(buffer) {
            Ok(owned) => Self::new_inner(platform, owned, shape),
            Err(error) => Err(Error::bounds("cannot convert the buffer", shape.as_slice())),
        }
    }

    /// The array of shape `shape` whose elements are all `value`. A shape that is not the shape
    /// of an array is a bounds error.
    pub fn constant(value: T, shape: Shape) -> (r: Result<Self, Error>) where P: Constant<T>
        ensures
            r is Ok <==> valid_shape(shape@),
            r matches Ok(array) ==> array.wf() && array.dims() == shape@ && array.accessor()@
                == Seq::new(product(shape@), |i: int| value) && array.spec_platform()
                == P::select_spec(product(shape@) as usize),
            r matches Err(error) ==> error.kind() == ErrorKind::Bounds,
    {
        if is_valid_shape(shape.as_slice()) {
            match shape_size(shape.as_slice()) {
                Some(size) => {
                    let platform = P::select(size);
                    match platform.constant(value, size) {
                        Ok(buffer) => {
                            return Ok(Array::from_parts(shape, AccessBuf::new(buffer), platform));
                        },
                        Err(error) => {},
                    }
                },
                None => {},
            }
        }
        Err(Error::bounds("cannot construct an array with this shape", shape.as_slice()))
    }

    /// A copy of `source` that owns a buffer.
    pub fn copy<A: Access<T>>(source: &Array<T, A, P>) -> (r: Result<Self, Error>) where
        P: Convert<T>,

        requires
            source.wf(),
        ensures
            r is Ok <==> source.value() is Ok,
            r matches Ok(array) ==> array.wf() && array.dims() == source.dims() && source.value()
                == Ok::<Seq<T>, ErrorKind>(array.accessor()@) && array.spec_platform()
                == source.spec_platform(),
            r matches Err(error) ==> source.value() == Err::<Seq<T>, ErrorKind>(error.kind()),
    {
        proof {
            source.access.lemma_access();
        }
        let owned = match source.access.read() {
            Ok(buffer) => match source.platform.convert(buffer) {
                Ok(owned) => owned,
                Err(error) => {
                    return Err(error);
                },
            },
            Err(error) => {
                return Err(error);
            },
        };
        Ok(Array::from_parts(source.shape.clone(), AccessBuf::new(owned), source.platform))
    }
}

impl<T: CType, P: PlatformInstance> Array<T, Linear<T>, P> {
    /// The array of shape `shape` of evenly spaced elements that start at `start` and stay
    /// below `stop`. A shape that is not the shape of an array, or a start beyond the stop, is a
    /// bounds error.
    pub fn range(start: T, stop: T, shape: Shape) -> (r: Result<Self, Error>)
        ensures
            r is Ok <==> valid_shape(shape@) && start.as_int() <= stop.as_int(),
            r matches Ok(array) ==> array.wf() && array.dims() == shape@ && array.accessor()
                == (Linear { start, stop, size: product(shape@) as usize })
                && array.spec_platform() == P::select_spec(product(shape@) as usize),
            r matches Err(error) ==> error.kind() == ErrorKind::Bounds,
    {
        if is_valid_shape(shape.as_slice()) && start.widen() <= stop.widen() {
            match shape_size(shape.as_slice()) {
                Some(size) => {
                    let platform = P::select(size);
                    return Ok(Array::from_parts(shape, Linear::new(start, stop, size), platform));
                },
                None => {},
            }
        }
        Err(Error::bounds("invalid range for the shape", shape.as_slice()))
    }
}

impl<T: CType, A: AccessMut<T>, P: PlatformInstance> Array<T, A, P> {
    /// Overwrites this array with the elements of `other`, which must have its shape: another
    /// shape is a bounds error, and a failure to read `other` is handed on; nothing is written
    /// then.
    pub fn write<O: Access<T>>(&mut self, other: &Array<T, O, P>) -> (r: Result<(), Error>)
        requires
            old(self).wf(),
            other.wf(),
        ensures
            final(self).wf(),
            final(self).dims() == old(self).dims(),
            final(self).accessor().slots() == old(self).accessor().slots(),
            r is Ok <==> old(self).dims() == other.dims() && other.value() is Ok,
            r matches Err(error) ==> (if old(self).dims() == other.dims() {
                other.value() == Err::<Seq<T>, ErrorKind>(error.kind())
            } else {
                error.kind() == ErrorKind::Bounds
            }),
            r is Ok ==> final(self).accessor().store() == crate::access::scatter(
                old(self).accessor().store(),
                old(self).accessor().slots(),
                other.value()->Ok_0,
                old(self).accessor().len(),
            ),
            r is Err ==> final(self).accessor().store() == old(self).accessor().store(),
    {
        proof {
            other.access.lemma_access();
        }
        match same_shape("write", self.shape.as_slice(), other.shape.as_slice()) {
            Ok(()) => {},
            Err(error) => {
                return Err(error);
            },
        }
        let data = match other.access.read() {
            Ok(data) => data,
            Err(error) => {
                return Err(error);
            },
        };
        self.access.write(data.as_slice())
    }

    /// Overwrites every element of this array with `value`.
    pub fn write_value(&mut self, value: T) -> (r: Result<(), Error>)
        requires
            old(self).wf(),
        ensures
            final(self).wf(),
            final(self).dims() == old(self).dims(),
            final(self).accessor().slots() == old(self).accessor().slots(),
            r is Ok,
            final(self).accessor().store() == crate::access::scatter(
                old(self).accessor().store(),
                old(self).accessor().slots(),
                Seq::new(old(self).accessor().len(), |i: int| value),
                old(self).accessor().len(),
            ),
    {
        self.access.write_value(value)
    }

    /// Overwrites the element at `coord` with `value`. A coordinate that is none of this array
    /// is a bounds error, and nothing is written.
    pub fn write_value_at(&mut self, coord: &[usize], value: T) -> (r: Result<(), Error>)
        requires
            old(self).wf(),
        ensures
            final(self).wf(),
            final(self).dims() == old(self).dims(),
            final(self).accessor().slots() == old(self).accessor().slots(),
            r is Ok <==> in_bounds(coord@, old(self).dims()),
            r is Ok ==> final(self).accessor().store() == old(self).accessor().store().update(
                old(self).accessor().slots()[ravel(coord@, old(self).dims()) as int],
                value,
            ),
            r matches Err(error) ==> error.kind() == ErrorKind::Bounds,
            r is Err ==> final(self).accessor().store() == old(self).accessor().store(),
    {
        match valid_coord(coord, self.shape.as_slice()) {
            Ok(()) => {
                let offset: usize = ravel_offset(coord, self.shape.as_slice());
                self.access.write_value_at(offset, value)
            },
            Err(error) => Err(error),
        }
    }
}

} // verus!
