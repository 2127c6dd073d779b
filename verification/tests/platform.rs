use ha_ndarray::buffer::{copy_slice, repeat};
use ha_ndarray::device::{
    choose_queue, host_reduce_size, initial_flag, next_device, reduce_step, select_device_type,
    DeviceCounts, DeviceType, QueueChoice, ReduceStep, WG_SIZE,
};
use ha_ndarray::platform::{select_tier, Tier, ACC_MIN_SIZE, GPU_MIN_SIZE};
use ha_ndarray::random::{normal_pairs, truncate_draws};
use ha_ndarray::{
    AccessBuf, Array, Buffer, Constant, Convert, Error, ErrorKind, Heap, Host, NDArray, Platform,
    PlatformInstance, Shape, SliceConverter, Stack, StackVec, VEC_MIN_SIZE,
};

#[test]
fn platforms_are_selected_by_size() {
    assert_eq!(Host::select(0), Host::Stack(Stack));
    assert_eq!(Host::select(VEC_MIN_SIZE - 1), Host::Stack(Stack));
    assert_eq!(Host::select(VEC_MIN_SIZE), Host::Heap(Heap));
    assert_eq!(Platform::select(10), Platform::Host(Host::Stack(Stack)));
    assert_eq!(Platform::select(1 << 40), Platform::Host(Host::Heap(Heap)));
    assert_eq!(Platform::from(Host::Heap(Heap)), Platform::Host(Host::Heap(Heap)));
    assert_eq!(Stack::select(1 << 20), Stack);
    assert_eq!(Heap::select(1), Heap);
}

#[test]
fn tiers_are_selected_by_size() {
    assert_eq!(select_tier(VEC_MIN_SIZE - 1, true, true), Tier::Stack);
    assert_eq!(select_tier(VEC_MIN_SIZE, true, true), Tier::Heap);
    assert_eq!(select_tier(GPU_MIN_SIZE - 1, true, true), Tier::Heap);
    assert_eq!(select_tier(GPU_MIN_SIZE, true, true), Tier::Gpu);
    assert_eq!(select_tier(ACC_MIN_SIZE - 1, true, true), Tier::Gpu);
    assert_eq!(select_tier(ACC_MIN_SIZE, true, true), Tier::Accelerator);
    assert_eq!(select_tier(ACC_MIN_SIZE, true, false), Tier::Gpu);
    assert_eq!(select_tier(ACC_MIN_SIZE, false, false), Tier::Heap);
    assert_eq!(select_tier(GPU_MIN_SIZE, false, true), Tier::Heap);
    assert_eq!(select_tier(1, false, false), Tier::Stack);
}

#[test]
fn arrays_take_the_platform_for_their_size() -> Result<(), Error> {
    let small: Array<i32, AccessBuf<i32>, Platform> = Array::constant(1, Shape::from_slice(&[3, 3]))?;
    assert_eq!(small.platform(), Platform::Host(Host::Stack(Stack)));
    assert!(matches!(small.access().inner(), Buffer::Stack(_)));
    let large: Array<i32, AccessBuf<i32>, Platform> = Array::constant(1, Shape::from_slice(&[30, 30]))?;
    assert_eq!(large.platform(), Platform::Host(Host::Heap(Heap)));
    assert!(matches!(large.access().inner(), Buffer::Heap(_)));
    let grown = small.broadcast(Shape::from_slice(&[100, 3, 3]))?;
    assert_eq!(grown.platform(), Platform::Host(Host::Heap(Heap)));
    assert!(matches!(grown.buffer()?, SliceConverter::Heap(_)));
    let forced: Array<i32, AccessBuf<i32>, Stack> = Array::constant(1, Shape::from_slice(&[30, 30]))?;
    assert_eq!(forced.size(), 900);
    assert!(matches!(forced.access().inner(), Buffer::Stack(_)));
    let converted: Array<i32, AccessBuf<i32>, Platform> =
        Array::convert(SliceConverter::from_slice(&[1, 2, 3, 4]), Shape::from_slice(&[2, 2]))?;
    assert!(matches!(converted.access().inner(), Buffer::Stack(_)));
    assert_eq!(converted.buffer()?.into_vec(), vec![1, 2, 3, 4]);
    let wrong: Result<Array<i32, AccessBuf<i32>, Platform>, Error> =
        Array::convert(SliceConverter::from_slice(&[1, 2, 3, 4]), Shape::from_slice(&[3]));
    assert_eq!(wrong.err().map(|e| e.kind()), Some(ErrorKind::Bounds));
    let no_axis: Result<Array<i32, AccessBuf<i32>, Platform>, Error> =
        Array::constant(1, Shape::from_slice(&[]));
    assert_eq!(no_axis.err().map(|e| e.kind()), Some(ErrorKind::Bounds));
    let on_host: Array<i32, AccessBuf<i32>, Host> = Array::constant(2, Shape::from_slice(&[2, 2]))?;
    let composite = Array::from(on_host);
    assert_eq!(composite.platform(), Platform::Host(Host::Stack(Stack)));
    assert_eq!(composite.shape(), [2, 2]);
    assert_eq!(composite.buffer()?.into_vec(), vec![2, 2, 2, 2]);
    let borrowed = composite.as_ref();
    assert_eq!(borrowed.add_scalar(1)?.buffer()?.into_vec(), vec![3, 3, 3, 3]);
    assert_eq!(composite.as_ref().eq(composite.as_ref())?.buffer()?.into_vec(), vec![1, 1, 1, 1]);
    Ok(())
}

#[test]
fn platforms_make_buffers_of_their_kind() -> Result<(), Error> {
    assert_eq!(Stack.constant(7u8, 3)?, Buffer::Stack(StackVec::from_vec(vec![7, 7, 7])));
    assert_eq!(Heap.constant(7u8, 3)?, Buffer::Heap(vec![7, 7, 7]));
    assert_eq!(Host::Heap(Heap).constant(7u8, 0)?, Buffer::Heap(vec![]));
    assert_eq!(Platform::select(2).constant(-1i64, 2)?, Buffer::Stack(StackVec::from_vec(vec![-1, -1])));
    let data = [1i32, 2, 3];
    assert_eq!(Stack.convert(SliceConverter::from_slice(&data))?, Buffer::Stack(StackVec::from_slice(&data)));
    assert_eq!(Heap.convert(SliceConverter::Stack(StackVec::from_slice(&data)))?, Buffer::Heap(vec![1, 2, 3]));
    assert_eq!(Platform::select(100).convert(SliceConverter::from_slice(&data))?, Buffer::Heap(vec![1, 2, 3]));
    Ok(())
}

#[test]
fn buffers_are_read_and_written() {
    let mut buffer = Buffer::from_vec(vec![1i32, 2, 3]);
    assert_eq!(buffer.size(), 3);
    assert_eq!(buffer.as_slice(), &[1, 2, 3]);
    assert_eq!(buffer.read_value(2).unwrap(), 3);
    assert_eq!(buffer.read_value(3).unwrap_err().kind(), ErrorKind::Bounds);
    assert_eq!(buffer.write(&[4, 5]).unwrap_err().kind(), ErrorKind::Bounds);
    assert_eq!(buffer.to_vec(), vec![1, 2, 3]);
    buffer.write(&[4, 5, 6]).unwrap();
    assert_eq!(buffer.to_vec(), vec![4, 5, 6]);
    buffer.write_value_at(1, 0).unwrap();
    assert_eq!(buffer.write_value_at(3, 0).unwrap_err().kind(), ErrorKind::Bounds);
    assert_eq!(buffer.to_vec(), vec![4, 0, 6]);
    buffer.write_value(9).unwrap();
    assert_eq!(buffer.clone().into_vec(), vec![9, 9, 9]);
    assert!(matches!(buffer, Buffer::Heap(_)));

    let mut stack = Buffer::from_stackvec(StackVec::from_slice(&[1u8, 2]));
    stack.write(&[3, 4]).unwrap();
    stack.write_value_at(0, 5).unwrap();
    assert_eq!(stack, Buffer::Stack(StackVec::from_vec(vec![5, 4])));
    stack.write_value(1).unwrap();
    assert_eq!(stack.into_vec(), vec![1, 1]);

    let mut items = StackVec::new();
    items.push(1);
    items.push(2);
    items.set(0, 3);
    assert_eq!(items.len(), 2);
    assert_eq!(items.as_slice(), &[3, 2]);
    assert_eq!(items.into_vec(), vec![3, 2]);
    assert_eq!(copy_slice(&[1, 2, 3]), vec![1, 2, 3]);
    assert_eq!(repeat('x', 3), vec!['x', 'x', 'x']);
}

#[test]
fn converters_hand_on_or_copy() {
    let small = [0u8; 63];
    let large = [0u8; 64];
    assert!(matches!(SliceConverter::from_slice(&small).into_buffer(), Buffer::Stack(_)));
    assert!(matches!(SliceConverter::from_slice(&large).into_buffer(), Buffer::Heap(_)));
    assert!(matches!(SliceConverter::Heap(vec![1]).into_buffer(), Buffer::Heap(_)));
    assert!(matches!(SliceConverter::Stack(StackVec::from_vec(large.to_vec())).into_buffer(), Buffer::Stack(_)));
    assert!(matches!(SliceConverter::from_buffer(Buffer::from_vec(vec![1])), SliceConverter::Heap(_)));
    let converter = SliceConverter::from_slice(&small[..3]);
    assert_eq!(converter.size(), 3);
    assert_eq!(converter.as_slice(), &[0, 0, 0]);
    assert_eq!(converter.clone().into_vec(), vec![0, 0, 0]);
    assert_eq!(converter.into_stackvec().len(), 3);
}

#[test]
fn devices_are_selected_by_size_and_in_turn() {
    assert_eq!(select_device_type(GPU_MIN_SIZE - 1), DeviceType::Cpu);
    assert_eq!(select_device_type(GPU_MIN_SIZE), DeviceType::Gpu);
    assert_eq!(select_device_type(ACC_MIN_SIZE - 1), DeviceType::Gpu);
    assert_eq!(select_device_type(ACC_MIN_SIZE), DeviceType::Accelerator);

    let all = DeviceCounts { cpus: 1, gpus: 2, accs: 3 };
    assert_eq!(all.count(DeviceType::Gpu), 2);
    assert_eq!(all.select_device(DeviceType::Cpu), Some(DeviceType::Cpu));
    assert_eq!(all.select_device(DeviceType::Gpu), Some(DeviceType::Gpu));
    assert_eq!(all.select_device(DeviceType::Accelerator), Some(DeviceType::Accelerator));
    let cpu_only = DeviceCounts { cpus: 1, gpus: 0, accs: 0 };
    assert_eq!(cpu_only.select_device(DeviceType::Gpu), Some(DeviceType::Cpu));
    assert_eq!(cpu_only.select_device(DeviceType::Accelerator), Some(DeviceType::Cpu));
    let no_gpu = DeviceCounts { cpus: 1, gpus: 0, accs: 1 };
    assert_eq!(no_gpu.select_device(DeviceType::Gpu), Some(DeviceType::Accelerator));
    let no_cpu = DeviceCounts { cpus: 0, gpus: 1, accs: 1 };
    assert_eq!(no_cpu.select_device(DeviceType::Cpu), Some(DeviceType::Gpu));
    let no_acc = DeviceCounts { cpus: 1, gpus: 1, accs: 0 };
    assert_eq!(no_acc.select_device(DeviceType::Accelerator), Some(DeviceType::Gpu));
    let none = DeviceCounts { cpus: 0, gpus: 0, accs: 0 };
    assert_eq!(none.select_device(DeviceType::Cpu), None);

    assert_eq!(next_device(0, 3), Some(0));
    assert_eq!(next_device(4, 3), Some(1));
    assert_eq!(next_device(usize::MAX, 2), Some(1));
    assert_eq!(next_device(7, 0), None);

    assert_eq!(choose_queue(10, Some(DeviceType::Cpu), Some(DeviceType::Cpu)), QueueChoice::Left);
    assert_eq!(choose_queue(10, Some(DeviceType::Gpu), Some(DeviceType::Cpu)), QueueChoice::Right);
    assert_eq!(choose_queue(10, Some(DeviceType::Gpu), None), QueueChoice::New);
    assert_eq!(choose_queue(GPU_MIN_SIZE, None, Some(DeviceType::Gpu)), QueueChoice::Right);
    assert_eq!(choose_queue(ACC_MIN_SIZE, None, None), QueueChoice::New);
}

#[test]
fn a_device_reduction_shrinks_its_buffer_to_the_host_size() {
    assert_eq!(host_reduce_size(4), 32768);
    assert_eq!(host_reduce_size(usize::MAX), usize::MAX);
    assert_eq!(reduce_step(100, 8192), ReduceStep::Finish);
    assert_eq!(
        reduce_step(8192, 8192),
        ReduceStep::Launch { output_len: 128, global_work_size: 128 * WG_SIZE }
    );
    assert_eq!(
        reduce_step(8193, 8192),
        ReduceStep::Launch { output_len: 129, global_work_size: 129 * WG_SIZE }
    );
    assert_eq!(reduce_step(usize::MAX, 8192), ReduceStep::Finish);
    let mut len = 10_000_000;
    let mut launches = 0;
    while let ReduceStep::Launch { output_len, .. } = reduce_step(len, 8192) {
        assert!(output_len < len);
        len = output_len;
        launches += 1;
    }
    assert_eq!(launches, 2);
    assert_eq!(len, 2442);
    assert_eq!(initial_flag(true), 1);
    assert_eq!(initial_flag(false), 0);
}

#[test]
fn normal_draws_come_in_pairs_and_are_cut_to_size() {
    assert_eq!(normal_pairs(5), 3);
    assert_eq!(normal_pairs(4), 2);
    assert_eq!(normal_pairs(0), 0);
    let draws: Vec<f32> = (0..2 * normal_pairs(5)).map(|i| i as f32).collect();
    assert_eq!(truncate_draws(draws, 5), vec![0., 1., 2., 3., 4.]);
    assert_eq!(truncate_draws(vec![1, 2, 3, 4], 4).len(), 4);
    assert_eq!(truncate_draws(vec![1, 2], 4), vec![1, 2]);
}

#[test]
fn every_class_of_error_has_a_message() {
    for kind in [
        ErrorKind::Bounds,
        ErrorKind::Unsupported,
        ErrorKind::Arithmetic,
        ErrorKind::Platform,
        ErrorKind::IO,
    ] {
        let error = Error::of_kind(kind, "what went wrong");
        assert_eq!(error.kind(), kind);
        assert_eq!(error.message(), "what went wrong");
        let hinted = error.with_hint("a hint");
        assert_eq!(hinted.kind(), kind);
        assert_eq!(hinted.message(), "what went wrong (a hint)");
    }
    let bounds = Error::bounds("invalid axis for shape", &[3, 2]);
    assert_eq!(bounds.kind(), ErrorKind::Bounds);
    assert_eq!(bounds.message(), "invalid axis for shape: [3, 2]");
    let pair = Error::bounds_pair("cannot add", &[3, 2], &[2]);
    assert_eq!(pair.message(), "cannot add: [3, 2] and [2]");
    assert_eq!(Error::arithmetic("overflow").kind(), ErrorKind::Arithmetic);
    assert_eq!(Error::unsupported("no").kind(), ErrorKind::Unsupported);
}
