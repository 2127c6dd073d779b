//! The decisions of the device platform: which device and which queue an operation takes,
//! and how a reduction proceeds. The descriptions of the operations that run on a device.

use std::marker::PhantomData;

use vstd::prelude::*;

use crate::platform::{ACC_MIN_SIZE, GPU_MIN_SIZE};
use crate::range::{div_ceil, spec_div_ceil};

verus! {

/// The number of work items in a work group of a device kernel.
pub const WG_SIZE: usize = 64;

/// The number of elements per processor below which a device reduction is finished on the host.
pub const HOST_REDUCE_SIZE: usize = 8192;

/// The kind of a device.
#[derive(Clone, Copy, Debug, PartialEq, Eq, Structural)]
pub enum DeviceType {
    Cpu,
    Gpu,
    Accelerator,
}

/// The kind of device for data of `size_hint` elements: a CPU below `GPU_MIN_SIZE`, a GPU below
/// `ACC_MIN_SIZE`, else an accelerator.
pub open spec fn device_type_for(size_hint: usize) -> DeviceType {
    if size_hint < GPU_MIN_SIZE {
        DeviceType::Cpu
    } else if size_hint < ACC_MIN_SIZE {
        DeviceType::Gpu
    } else {
        DeviceType::Accelerator
    }
}

/// Selects the kind of device for data of `size_hint` elements.
pub fn select_device_type(size_hint: usize) -> (kind: DeviceType)
    ensures
        kind == device_type_for(size_hint),
{
    if size_hint < GPU_MIN_SIZE {
        DeviceType::Cpu
    } else if size_hint < ACC_MIN_SIZE {
        DeviceType::Gpu
    } else {
        DeviceType::Accelerator
    }
}

/// The kinds of device in the order in which they are tried where a device of kind `wanted` is
/// asked for: the wanted kind first; then, for a CPU, a GPU and an accelerator, for a GPU, an
/// accelerator and a CPU, and for an accelerator, a GPU and a CPU.
pub open spec fn fallbacks(wanted: DeviceType) -> Seq<DeviceType> {
    match wanted {
        DeviceType::Cpu => seq![DeviceType::Cpu, DeviceType::Gpu, DeviceType::Accelerator],
        DeviceType::Gpu => seq![DeviceType::Gpu, DeviceType::Accelerator, DeviceType::Cpu],
        DeviceType::Accelerator => seq![
            DeviceType::Accelerator,
            DeviceType::Gpu,
            DeviceType::Cpu,
        ],
    }
}

/// How many devices of each kind a platform has.
#[derive(Clone, Copy, Debug, PartialEq, Eq, Structural)]
pub struct DeviceCounts {
    pub cpus: usize,
    pub gpus: usize,
    pub accs: usize,
}

impl DeviceCounts {
    /// The number of devices of kind `kind`.
    pub open spec fn spec_count(&self, kind: DeviceType) -> usize {
        match kind {
            DeviceType::Cpu => self.cpus,
            DeviceType::Gpu => self.gpus,
            DeviceType::Accelerator => self.accs,
        }
    }

    /// The number of devices of kind `kind`.
    pub fn count(&self, kind: DeviceType) -> (n: usize)
        ensures
            n == self.spec_count(kind),
    {
        match kind {
            DeviceType::Cpu => self.cpus,
            DeviceType::Gpu => self.gpus,
            DeviceType::Accelerator => self.accs,
        }
    }

    /// The kind of device to take where a device of kind `wanted` is asked for: the first kind
    /// in the order of fallbacks of which there is a device, or nothing where there is no device
    /// at all.
    pub fn select_device(&self, wanted: DeviceType) -> (kind: Option<DeviceType>)
        ensures
            kind matches Some(found) ==> exists|i: int|
                0 <= i < 3 && fallbacks(wanted)[i] == found && self.spec_count(found) > 0
                    && forall|j: int|
                    0 <= j < i ==> self.spec_count(#[trigger] fallbacks(wanted)[j]) == 0,
            kind is None <==> self.cpus == 0 && self.gpus == 0 && self.accs == 0,
    {
        let (first, second, third) = match wanted {
            DeviceType::Cpu => (DeviceType::Cpu, DeviceType::Gpu, DeviceType::Accelerator),
            DeviceType::Gpu => (DeviceType::Gpu, DeviceType::Accelerator, DeviceType::Cpu),
            DeviceType::Accelerator => (
                DeviceType::Accelerator,
                DeviceType::Gpu,
                DeviceType::Cpu,
            ),
        };
        if self.count(first) > 0 {
            assert(fallbacks(wanted)[0] == first);
            Some(first)
        } else if self.count(second) > 0 {
            assert(fallbacks(wanted)[1] == second);
            assert(fallbacks(wanted)[0] == first);
            Some(second)
        } else if self.count(third) > 0 {
            assert(fallbacks(wanted)[2] == third);
            assert(fallbacks(wanted)[1] == second);
            assert(fallbacks(wanted)[0] == first);
            Some(third)
        } else {
            None
        }
    }
}

/// The device of a list of `len` devices that the draw number `counter` takes, where the
/// devices are taken in turn; nothing where the list is empty.
pub fn next_device(counter: usize, len: usize) -> (index: Option<usize>)
    ensures
        len == 0 ==> index is None,
        len > 0 ==> index == Some((counter % len) as usize),
{
    if len == 0 {
        None
    } else {
        Some(counter % len)
    }
}

/// The command queue for an operation.
#[derive(Clone, Copy, Debug, PartialEq, Eq, Structural)]
pub enum QueueChoice {
    /// The queue of the left operand.
    Left,
    /// The queue of the right operand.
    Right,
    /// A new queue on a device of the wanted kind.
    New,
}

/// Chooses the command queue for an operation on data of `size_hint` elements, given the kinds
/// of the devices of the queues of its operands, where they have one: the queue of the left
/// operand if its device is of the kind for the size, else that of the right operand if its
/// device is, else a new queue.
pub fn choose_queue(
    size_hint: usize,
    left: Option<DeviceType>,
    right: Option<DeviceType>,
) -> (choice: QueueChoice)
    ensures
        choice == (if left == Some(device_type_for(size_hint)) {
            QueueChoice::Left
        } else if right == Some(device_type_for(size_hint)) {
            QueueChoice::Right
        } else {
            QueueChoice::New
        }),
{
    let wanted = select_device_type(size_hint);
    match left {
        Some(kind) => {
            if kind == wanted {
                return QueueChoice::Left;
            }
        },
        None => {},
    }
    match right {
        Some(kind) => {
            if kind == wanted {
                return QueueChoice::Right;
            }
        },
        None => {},
    }
    QueueChoice::New
}

/// What a device reduction does next with a buffer.
#[derive(Clone, Copy, Debug, PartialEq, Eq, Structural)]
pub enum ReduceStep {
    /// Read the buffer and fold it on the host.
    Finish,
    /// Launch the kernel, which reduces each work group to one element of an output of the
    /// given length.
    Launch { output_len: usize, global_work_size: usize },
}

/// The next step of the reduction of a device buffer of `len` elements, where a buffer of fewer
/// than `min_size` elements is folded on the host: a longer one is reduced by a kernel to one
/// element for each work group of `WG_SIZE` elements. A length for which the work items do not
/// fit a `usize` is folded on the host too.
pub fn reduce_step(len: usize, min_size: usize) -> (step: ReduceStep)
    ensures
        len < min_size ==> step == ReduceStep::Finish,
        step matches ReduceStep::Launch { output_len, global_work_size } ==> len >= min_size
            && output_len == spec_div_ceil(len as int, WG_SIZE as int) && global_work_size
            == WG_SIZE * output_len && (len >= 2 ==> output_len < len),
        len >= min_size && len <= usize::MAX - WG_SIZE ==> step is Launch,
        len > usize::MAX - WG_SIZE ==> step == ReduceStep::Finish,
{
    if len < min_size || len > usize::MAX - WG_SIZE {
        ReduceStep::Finish
    } else {
        let output_len: usize = div_ceil(len, WG_SIZE);
        assert(WG_SIZE * output_len <= len + WG_SIZE && (len >= 2 ==> output_len < len))
            by (nonlinear_arith)
            requires
                output_len == spec_div_ceil(len as int, 64),
                WG_SIZE == 64,
                len >= 0,
        ;
        ReduceStep::Launch { output_len, global_work_size: WG_SIZE * output_len }
    }
}

/// The size below which a device reduction is finished on the host of `cpus` processors.
pub fn host_reduce_size(cpus: usize) -> (size: usize)
    ensures
        size == if cpus * HOST_REDUCE_SIZE <= usize::MAX {
            (cpus * HOST_REDUCE_SIZE) as usize
        } else {
            usize::MAX
        },
{
    match cpus.checked_mul(HOST_REDUCE_SIZE) {
        Some(size) => size,
        None => usize::MAX,
    }
}

/// The flag that a device kernel for `all` or `any` starts with: 1 for `all`, which a kernel
/// clears at an element that is 0, and 0 for `any`, which a kernel sets at an element that is
/// not 0.
pub fn initial_flag(all: bool) -> (flag: u8)
    ensures
        flag == (if all { 1u8 } else { 0u8 }),
{
    if all {
        1
    } else {
        0
    }
}

/// A device buffer of `size` elements that are all `value`.
pub struct ArrayConstant<T> {
    pub value: T,
    pub size: u64,
}

/// A device buffer of `size` random elements.
pub struct ArrayRandom {
    pub size: u64,
}

/// A batch of `count` identity matrices of dimension `size` on a device.
pub struct MatEye {
    pub count: u64,
    pub size: u64,
}

/// The sums of the elements of two device operands.
pub struct ArrayAdd<L, R> {
    pub left: L,
    pub right: R,
}

/// The quotients of the elements of two device operands.
pub struct ArrayDiv<L, R> {
    pub left: L,
    pub right: R,
}

/// The products of the elements of two device operands.
pub struct ArrayMul<L, R> {
    pub left: L,
    pub right: R,
}

/// The remainders of the elements of two device operands.
pub struct ArrayMod<L, R> {
    pub left: L,
    pub right: R,
}

/// The differences of the elements of two device operands.
pub struct ArraySub<L, R> {
    pub left: L,
    pub right: R,
}

/// Where the elements of two device operands are equal.
pub struct ArrayEq<L, R> {
    pub left: L,
    pub right: R,
}

/// Where the elements of the left device operand are greater than those of the right.
pub struct ArrayGT<L, R> {
    pub left: L,
    pub right: R,
}

/// Where the elements of the left device operand are at least those of the right.
pub struct ArrayGTE<L, R> {
    pub left: L,
    pub right: R,
}

/// Where the elements of the left device operand are less than those of the right.
pub struct ArrayLT<L, R> {
    pub left: L,
    pub right: R,
}

/// Where the elements of the left device operand are at most those of the right.
pub struct ArrayLTE<L, R> {
    pub left: L,
    pub right: R,
}

/// Where the elements of two device operands differ.
pub struct ArrayNE<L, R> {
    pub left: L,
    pub right: R,
}

/// The greatest element of a device operand.
pub struct ArrayMax<A> {
    pub source: A,
}

/// The least element of a device operand.
pub struct ArrayMin<A> {
    pub source: A,
}

/// The product of the elements of a device operand.
pub struct ArrayProduct<A> {
    pub source: A,
}

/// The sum of the elements of a device operand.
pub struct ArraySum<A> {
    pub source: A,
}

/// The elements of a device operand as elements of another type.
pub struct ArrayCast<A, O> {
    pub source: A,
    pub dtype: PhantomData<O>,
}

} // verus!
