//! Execution platforms, and the selection of a platform by the size of the data.

use vstd::prelude::*;

use crate::buffer::{repeat, Buffer, SliceConverter, StackVec, VEC_MIN_SIZE};
use crate::ctype::CType;
use crate::error::Error;

verus! {

/// The size from which a result is computed on a device.
pub const GPU_MIN_SIZE: usize = 1024;

/// The size from which a result is computed on an accelerator, where there is one.
pub const ACC_MIN_SIZE: usize = 2_147_483_648;

/// An execution platform.
pub trait PlatformInstance: Copy + Sized {
    /// The platform for data of `size_hint` elements.
    spec fn select_spec(size_hint: usize) -> Self;

    /// Whether this platform computes in sequence into `Stack` buffers.
    spec fn on_stack(&self) -> bool;

    /// Selects the platform for data of `size_hint` elements.
    fn select(size_hint: usize) -> (platform: Self)
        ensures
            platform == Self::select_spec(size_hint),
    ;
}

/// A platform that can make a buffer filled with one value.
pub trait Constant<T: CType>: PlatformInstance {
    /// A buffer of `size` elements, each `value`: a `Stack` buffer on a platform that computes
    /// in sequence, else a `Heap` buffer.
    fn constant(&self, value: T, size: usize) -> (r: Result<Buffer<T>, Error>)
        ensures
            r matches Ok(buffer) && buffer@ == Seq::new(size as nat, |i: int| value) && (
            buffer is Stack <==> self.on_stack()),
    ;
}

/// A platform that can make an owned buffer of its kind out of any buffer.
pub trait Convert<T: CType>: PlatformInstance {
    /// An owned buffer with the elements of `buffer`: a `Stack` buffer on a platform that
    /// computes in sequence, else a `Heap` buffer.
    fn convert<'a>(&self, buffer: SliceConverter<'a, T>) -> (r: Result<Buffer<T>, Error>)
        ensures
            r matches Ok(owned) && owned@ == buffer@ && (owned is Stack <==> self.on_stack()),
    ;
}

/// The platform that computes small results in sequence.
#[derive(Clone, Copy, Debug, PartialEq, Eq, Structural)]
pub struct Stack;

/// The platform that computes large results in parallel.
#[derive(Clone, Copy, Debug, PartialEq, Eq, Structural)]
pub struct Heap;

/// The host platform: `Stack` or `Heap`, by the size of the data.
#[derive(Clone, Copy, Debug, PartialEq, Eq, Structural)]
pub enum Host {
    Stack(Stack),
    Heap(Heap),
}

/// The platform of an array. Without a device, the host takes data of every size.
#[derive(Clone, Copy, Debug, PartialEq, Eq, Structural)]
pub enum Platform {
    Host(Host),
}

impl PlatformInstance for Stack {
    open spec fn select_spec(size_hint: usize) -> Self {
        Stack
    }

    open spec fn on_stack(&self) -> bool {
        true
    }

    fn select(size_hint: usize) -> (platform: Self) {
        Stack
    }
}

impl PlatformInstance for Heap {
    open spec fn select_spec(size_hint: usize) -> Self {
        Heap
    }

    open spec fn on_stack(&self) -> bool {
        false
    }

    fn select(size_hint: usize) -> (platform: Self) {
        Heap
    }
}

impl PlatformInstance for Host {
    open spec fn select_spec(size_hint: usize) -> Self {
        if size_hint < VEC_MIN_SIZE {
            Host::Stack(Stack)
        } else {
            Host::Heap(Heap)
        }
    }

    open spec fn on_stack(&self) -> bool {
        self is Stack
    }

    fn select(size_hint: usize) -> (platform: Self) {
        if size_hint < VEC_MIN_SIZE {
            Host::Stack(Stack)
        } else {
            Host::Heap(Heap)
        }
    }
}

impl PlatformInstance for Platform {
    open spec fn select_spec(size_hint: usize) -> Self {
        Platform::Host(Host::select_spec(size_hint))
    }

    open spec fn on_stack(&self) -> bool {
        self->Host_0 is Stack
    }

    fn select(size_hint: usize) -> (platform: Self) {
        Platform::Host(Host::select(size_hint))
    }
}

impl From<Host> for Platform {
    fn from(host: Host) -> (platform: Self) {
        Platform::Host(host)
    }
}

impl vstd::std_specs::convert::FromSpecImpl<Host> for Platform {
    open spec fn obeys_from_spec() -> bool {
        true
    }

    open spec fn from_spec(host: Host) -> Self {
        Platform::Host(host)
    }
}


impl<T: CType> Constant<T> for Stack {
    fn constant(&self, value: T, size: usize) -> (r: Result<Buffer<T>, Error>) {
        Ok(Buffer::Stack(StackVec::from_vec(repeat(value, size))))
    }
}

impl<T: CType> Constant<T> for Heap {
    fn constant(&self, value: T, size: usize) -> (r: Result<Buffer<T>, Error>) {
        Ok(Buffer::Heap(repeat(value, size)))
    }
}

impl<T: CType> Constant<T> for Host {
    fn constant(&self, value: T, size: usize) -> (r: Result<Buffer<T>, Error>) {
        match self {
            Host::Stack(stack) => stack.constant(value, size),
            Host::Heap(heap) => heap.constant(value, size),
        }
    }
}

impl<T: CType> Constant<T> for Platform {
    fn constant(&self, value: T, size: usize) -> (r: Result<Buffer<T>, Error>) {
        match self {
            Platform::Host(host) => host.constant(value, size),
        }
    }
}

impl<T: CType> Convert<T> for Stack {
    fn convert<'a>(&self, buffer: SliceConverter<'a, T>) -> (r: Result<Buffer<T>, Error>) {
        Ok(Buffer::Stack(buffer.into_stackvec()))
    }
}

impl<T: CType> Convert<T> for Heap {
    fn convert<'a>(&self, buffer: SliceConverter<'a, T>) -> (r: Result<Buffer<T>, Error>) {
        Ok(Buffer::Heap(buffer.into_vec()))
    }
}

impl<T: CType> Convert<T> for Host {
    fn convert<'a>(&self, buffer: SliceConverter<'a, T>) -> (r: Result<Buffer<T>, Error>) {
        match self {
            Host::Stack(stack) => stack.convert(buffer),
            Host::Heap(heap) => heap.convert(buffer),
        }
    }
}

impl<T: CType> Convert<T> for Platform {
    fn convert<'a>(&self, buffer: SliceConverter<'a, T>) -> (r: Result<Buffer<T>, Error>) {
        match self {
            Platform::Host(host) => host.convert(buffer),
        }
    }
}

/// Where data of a given size is computed.
#[derive(Clone, Copy, Debug, PartialEq, Eq, Structural)]
pub enum Tier {
    /// On the host, in sequence.
    Stack,
    /// On the host, in parallel.
    Heap,
    /// On a device of the GPU tier.
    Gpu,
    /// On a device of the accelerator tier.
    Accelerator,
}

/// The tier for data of `size_hint` elements: `Stack` below `VEC_MIN_SIZE`, `Heap` below
/// `GPU_MIN_SIZE`, the GPU tier below `ACC_MIN_SIZE`, and beyond it the accelerator tier where
/// there is one, else the GPU tier. Without a device the host takes every size.
pub open spec fn tier_for(size_hint: usize, device: bool, accelerator: bool) -> Tier {
    if size_hint < VEC_MIN_SIZE {
        Tier::Stack
    } else if size_hint < GPU_MIN_SIZE || !device {
        Tier::Heap
    } else if size_hint < ACC_MIN_SIZE || !accelerator {
        Tier::Gpu
    } else {
        Tier::Accelerator
    }
}

/// Selects the tier for data of `size_hint` elements, given whether there is a device at all and
/// whether there is an accelerator.
pub fn select_tier(size_hint: usize, device: bool, accelerator: bool) -> (tier: Tier)
    ensures
        tier == tier_for(size_hint, device, accelerator),
{
    if size_hint < VEC_MIN_SIZE {
        Tier::Stack
    } else if size_hint < GPU_MIN_SIZE || !device {
        Tier::Heap
    } else if size_hint < ACC_MIN_SIZE || !accelerator {
        Tier::Gpu
    } else {
        Tier::Accelerator
    }
}

} // verus!
