use ha_ndarray::compose::compose;
use ha_ndarray::index::{ravel_offset, unravel_offset};
use ha_ndarray::ops::Linear;
use ha_ndarray::{
    Access, AccessBuf, AccessMut, Array, AxisRange, Buffer, Error, ErrorKind, NDArray,
    NDArrayReduceAll,
    NDArrayReduceBoolean, Platform, Shape,
};

type ArrayBuf<T> = Array<T, AccessBuf<T>, Platform>;
type ArrayRange<T> = Array<T, Linear<T>, Platform>;

fn array(shape: &[usize], data: Vec<i32>) -> ArrayBuf<i32> {
    Array::new(Buffer::from_vec(data), Shape::from_slice(shape)).unwrap()
}

fn range(stop: i32, shape: &[usize]) -> ArrayRange<i32> {
    Array::range(0, stop, Shape::from_slice(shape)).unwrap()
}

#[test]
fn the_shape_asks_for_the_elements_of_the_accessor() -> Result<(), Error> {
    let source = array(&[2, 3], vec![1, 2, 3, 4, 5, 6]);
    assert_eq!(source.size(), 6);
    assert_eq!(source.buffer()?.size(), 6);
    let wrong: Result<ArrayBuf<i32>, Error> =
        Array::new(Buffer::from_vec(vec![1, 2, 3, 4, 5]), Shape::from_slice(&[2, 3]));
    assert_eq!(wrong.err().map(|e| e.kind()), Some(ErrorKind::Bounds));
    let empty: Result<ArrayBuf<i32>, Error> = Array::new(Buffer::from_vec(vec![]), Shape::from_slice(&[0]));
    assert_eq!(empty.err().map(|e| e.kind()), Some(ErrorKind::Bounds));
    let no_axis: Result<ArrayBuf<i32>, Error> = Array::new(Buffer::from_vec(vec![1]), Shape::from_slice(&[]));
    assert_eq!(no_axis.err().map(|e| e.kind()), Some(ErrorKind::Bounds));
    let views = range(24, &[4, 3, 2])
        .transpose(None)?
        .slice(vec![AxisRange::At(1)])?
        .broadcast(Shape::from_slice(&[5, 3, 4]))?;
    assert_eq!(views.size(), 60);
    assert_eq!(views.buffer()?.size(), 60);
    Ok(())
}

#[test]
fn a_read_at_a_coordinate_reads_the_buffer_at_its_offset() -> Result<(), Error> {
    let source = range(24, &[2, 3, 4]).mul_scalar(3)?;
    let buffer = source.buffer()?.into_vec();
    for offset in 0..24 {
        let coord = unravel_offset(offset, &[2, 3, 4]);
        assert_eq!(source.read_value(&coord)?, buffer[ravel_offset(&coord, &[2, 3, 4])]);
    }
    assert_eq!(source.read_value(&[1, 2, 3])?, 69);
    Ok(())
}

#[test]
fn a_reshaped_array_reads_by_offset() -> Result<(), Error> {
    let reshaped = range(24, &[2, 3, 4]).reshape(Shape::from_slice(&[6, 4]))?;
    assert_eq!(reshaped.shape(), [6, 4]);
    let source = range(24, &[2, 3, 4]);
    for offset in 0..24 {
        let coord = unravel_offset(offset, &[6, 4]);
        let same = unravel_offset(offset, &[2, 3, 4]);
        assert_eq!(reshaped.read_value(&coord)?, source.read_value(&same)?);
    }
    assert_eq!(reshaped.read_value(&[4, 1])?, 17);
    let wrong = range(24, &[2, 3, 4]).reshape(Shape::from_slice(&[5, 5]));
    assert_eq!(wrong.err().map(|e| e.kind()), Some(ErrorKind::Bounds));
    let zero = range(24, &[2, 3, 4]).reshape(Shape::from_slice(&[24, 0]));
    assert_eq!(zero.err().map(|e| e.kind()), Some(ErrorKind::Bounds));
    Ok(())
}

#[test]
fn a_broadcast_array_reads_the_projection_of_the_coordinate() -> Result<(), Error> {
    let broadcast = array(&[3, 1], vec![10, 20, 30]).broadcast(Shape::from_slice(&[2, 3, 4]))?;
    assert_eq!(broadcast.shape(), [2, 3, 4]);
    let source = array(&[3, 1], vec![10, 20, 30]);
    for offset in 0..24 {
        let coord = unravel_offset(offset, &[2, 3, 4]);
        assert_eq!(broadcast.read_value(&coord)?, source.read_value(&[coord[1], 0])?);
    }
    assert_eq!(broadcast.read_value(&[1, 2, 3])?, 30);
    let shrunk = array(&[3, 1], vec![10, 20, 30]).broadcast(Shape::from_slice(&[1, 1]));
    assert_eq!(shrunk.err().map(|e| e.kind()), Some(ErrorKind::Bounds));
    let fewer = array(&[3, 1], vec![10, 20, 30]).broadcast(Shape::from_slice(&[4]));
    assert_eq!(fewer.err().map(|e| e.kind()), Some(ErrorKind::Bounds));
    Ok(())
}

#[test]
fn a_transposition_and_its_inverse_give_the_array_back() -> Result<(), Error> {
    let there = range(24, &[2, 3, 4]).transpose(Some(Shape::from_slice(&[2, 0, 1])))?;
    assert_eq!(there.shape(), [4, 2, 3]);
    assert_eq!(&there.buffer()?.as_slice()[..3], &[0, 4, 8]);
    let back = there.transpose(Some(Shape::from_slice(&[1, 2, 0])))?;
    assert_eq!(back.shape(), [2, 3, 4]);
    assert_eq!(back.buffer()?.into_vec(), (0..24).collect::<Vec<i32>>());
    for offset in 0..24 {
        let coord = unravel_offset(offset, &[2, 3, 4]);
        assert_eq!(back.read_value(&coord)?, offset as i32);
    }
    let repeated = range(24, &[2, 3, 4]).transpose(Some(Shape::from_slice(&[2, 0, 0])));
    assert_eq!(repeated.err().map(|e| e.kind()), Some(ErrorKind::Bounds));
    let short = range(24, &[2, 3, 4]).transpose(Some(Shape::from_slice(&[1, 0])));
    assert_eq!(short.err().map(|e| e.kind()), Some(ErrorKind::Bounds));
    Ok(())
}

#[test]
fn a_slice_of_a_slice_is_the_slice_by_the_composition() -> Result<(), Error> {
    let first = vec![AxisRange::In(1, 6, 2), AxisRange::At(2), AxisRange::Of(vec![3, 0, 0, 1])];
    let second = vec![AxisRange::In(1, 3, 1), AxisRange::In(0, 4, 3)];
    let nested = range(72, &[6, 3, 4]).slice(first.clone())?.slice(second.clone())?;
    let both = compose(&[6, 3, 4], &first, &second)?;
    let direct = range(72, &[6, 3, 4]).slice(both)?;
    assert_eq!(nested.shape(), [2, 2]);
    assert_eq!(direct.shape(), nested.shape());
    assert_eq!(direct.buffer()?.into_vec(), nested.buffer()?.into_vec());
    assert_eq!(direct.buffer()?.into_vec(), vec![47, 45, 71, 69]);

    let second = vec![AxisRange::At(2), AxisRange::Of(vec![1, 1])];
    let nested = range(72, &[6, 3, 4]).slice(first.clone())?.slice(second.clone())?;
    let both = compose(&[6, 3, 4], &first, &second)?;
    assert_eq!(both[0], AxisRange::At(5));
    let direct = range(72, &[6, 3, 4]).slice(both)?;
    assert_eq!(direct.buffer()?.into_vec(), nested.buffer()?.into_vec());
    assert_eq!(direct.buffer()?.into_vec(), vec![68, 68]);

    let wrong = compose(&[6, 3, 4], &first, &vec![AxisRange::At(3), AxisRange::At(0)]);
    assert_eq!(wrong.err().map(|e| e.kind()), Some(ErrorKind::Bounds));
    Ok(())
}

#[test]
fn a_write_to_a_slice_is_a_write_to_its_source() -> Result<(), Error> {
    let source = array(&[4, 3], (0..12).collect());
    let mut slice = source.slice(vec![AxisRange::In(1, 4, 2), AxisRange::Of(vec![2, 0])])?;
    assert_eq!(slice.buffer()?.into_vec(), vec![5, 3, 11, 9]);
    slice.write_value_at(&[1, 0], -1)?;
    assert_eq!(slice.read_value(&[1, 0])?, -1);
    let refused = slice.write_value_at(&[2, 0], -1);
    assert_eq!(refused.err().map(|e| e.kind()), Some(ErrorKind::Bounds));
    let source = slice.into_access().into_source();
    assert_eq!(source.inner().to_vec(), vec![0, 1, 2, 3, 4, 5, 6, 7, 8, 9, 10, -1]);

    let source = array(&[4, 3], (0..12).collect());
    let mut slice = source.slice(vec![AxisRange::In(1, 4, 2), AxisRange::Of(vec![2, 0])])?;
    slice.write(&array(&[2, 2], vec![-1, -2, -3, -4]))?;
    let refused = slice.write(&array(&[4], vec![-1, -2, -3, -4]));
    assert_eq!(refused.err().map(|e| e.kind()), Some(ErrorKind::Bounds));
    let source = slice.into_access().into_source();
    assert_eq!(source.inner().to_vec(), vec![0, 1, 2, -2, 4, -1, 6, 7, 8, -4, 10, -3]);

    let mut slice = Array::<i32, _, Platform>::new(Buffer::from_vec(source.inner().to_vec()), Shape::from_slice(&[4, 3]))?
        .slice(vec![AxisRange::At(0)])?;
    slice.write_value(7)?;
    let source = slice.into_access().into_source();
    assert_eq!(source.inner().to_vec(), vec![7, 7, 7, -2, 4, -1, 6, 7, 8, -4, 10, -3]);

    let mut whole = array(&[2, 2], vec![1, 2, 3, 4]);
    whole.write_value_at(&[0, 1], 9)?;
    assert_eq!(whole.buffer()?.into_vec(), vec![1, 9, 3, 4]);
    whole.write(&array(&[2, 2], vec![5, 6, 7, 8]))?;
    assert_eq!(whole.buffer()?.into_vec(), vec![5, 6, 7, 8]);
    whole.write_value(0)?;
    assert_eq!(whole.buffer()?.into_vec(), vec![0, 0, 0, 0]);
    assert_eq!(whole.access().size(), 4);
    let mut access = whole.into_access();
    access.write_value_at(3, 1)?;
    assert_eq!(access.inner().to_vec(), vec![0, 0, 0, 1]);
    Ok(())
}

#[test]
fn a_sum_over_no_axes_is_the_array() -> Result<(), Error> {
    let sum = array(&[2, 3], vec![1, -2, 3, -4, 5, -6]).sum(Shape::from_slice(&[]), true)?;
    assert_eq!(sum.shape(), [2, 3]);
    assert_eq!(sum.buffer()?.into_vec(), vec![1, -2, 3, -4, 5, -6]);
    Ok(())
}

#[test]
fn zeros_sum_to_zero_and_ones_multiply_to_one() -> Result<(), Error> {
    let zeros: ArrayBuf<i32> = Array::constant(0, Shape::from_slice(&[3, 4, 5]))?;
    assert_eq!(zeros.sum_all()?, 0);
    let ones: ArrayBuf<u8> = Array::constant(1, Shape::from_slice(&[30, 40]))?;
    assert_eq!(ones.product_all()?, 1);
    Ok(())
}

#[test]
fn addition_does_not_depend_on_the_order_of_its_operands() -> Result<(), Error> {
    let left = || array(&[2, 2], vec![1, -2, 3, -4]);
    let right = || array(&[2, 2], vec![40, 30, 20, 10]);
    let forth = left().add(right())?;
    let back = right().add(left())?;
    assert_eq!(forth.shape(), [2, 2]);
    assert_eq!(forth.shape(), back.shape());
    assert_eq!(forth.buffer()?.into_vec(), back.buffer()?.into_vec());
    assert_eq!(left().mul(right())?.buffer()?.into_vec(), right().mul(left())?.buffer()?.into_vec());
    assert_eq!(left().ne(right())?.buffer()?.into_vec(), right().ne(left())?.buffer()?.into_vec());
    Ok(())
}

#[test]
fn a_condition_of_ones_selects_the_first_and_of_zeros_the_second() -> Result<(), Error> {
    let first = || array(&[3], vec![1, 2, 3]);
    let second = || array(&[3], vec![-1, -2, -3]);
    let ones: ArrayBuf<u8> = Array::constant(1, Shape::from_slice(&[3]))?;
    assert_eq!(ones.cond(first(), second())?.buffer()?.into_vec(), vec![1, 2, 3]);
    let zeros: ArrayBuf<u8> = Array::constant(0, Shape::from_slice(&[3]))?;
    assert_eq!(zeros.cond(first(), second())?.buffer()?.into_vec(), vec![-1, -2, -3]);
    Ok(())
}

#[test]
fn all_is_the_product_of_the_comparisons_with_zero() -> Result<(), Error> {
    for data in [vec![1, 2, 3], vec![1, 0, 3], vec![0, 0, 0], vec![-1]] {
        let n = data.len();
        let all = array(&[n], data.clone()).all()?;
        let product = array(&[n], data).ne_scalar(0)?.product_all()?;
        assert_eq!(all, product != 0);
    }
    Ok(())
}

#[test]
fn squeeze_drops_unit_axes_only() -> Result<(), Error> {
    let squeezed = array(&[1, 3, 1], vec![1, 2, 3]).squeeze(Shape::from_slice(&[0, 2]))?;
    assert_eq!(squeezed.shape(), [3]);
    assert_eq!(squeezed.buffer()?.into_vec(), vec![1, 2, 3]);
    let scalar = array(&[1, 1], vec![7]).squeeze(Shape::from_slice(&[1, 0, 0]))?;
    assert_eq!(scalar.shape(), [1]);
    let wide = array(&[1, 3, 1], vec![1, 2, 3]).squeeze(Shape::from_slice(&[1]));
    assert_eq!(wide.err().map(|e| e.kind()), Some(ErrorKind::Bounds));
    let beyond = array(&[1, 3, 1], vec![1, 2, 3]).squeeze(Shape::from_slice(&[3]));
    assert_eq!(beyond.err().map(|e| e.kind()), Some(ErrorKind::Bounds));
    let grown = array(&[3], vec![1, 2, 3]).unsqueeze(Shape::from_slice(&[1, 0]))?;
    assert_eq!(grown.shape(), [1, 3, 1]);
    let beyond = array(&[3], vec![1, 2, 3]).unsqueeze(Shape::from_slice(&[2]));
    assert_eq!(beyond.err().map(|e| e.kind()), Some(ErrorKind::Bounds));
    Ok(())
}

#[test]
fn a_slice_without_an_axis_has_the_shape_of_one_element() -> Result<(), Error> {
    let slice = range(24, &[4, 3, 2]).slice(vec![AxisRange::At(3), AxisRange::At(2), AxisRange::At(1)])?;
    assert_eq!(slice.shape(), [1]);
    assert_eq!(slice.buffer()?.into_vec(), vec![23]);
    assert_eq!(slice.read_value(&[0])?, 23);
    let strided = range(24, &[4, 3, 2]).slice(vec![AxisRange::In(0, 4, 3), AxisRange::Of(vec![2, 2, 0])])?;
    assert_eq!(strided.shape(), [2, 3, 2]);
    assert_eq!(strided.buffer()?.into_vec(), vec![4, 5, 4, 5, 0, 1, 22, 23, 22, 23, 18, 19]);
    let beyond = range(24, &[4, 3, 2]).slice(vec![AxisRange::In(0, 5, 1)]);
    assert_eq!(beyond.err().map(|e| e.kind()), Some(ErrorKind::Bounds));
    Ok(())
}

#[test]
fn copies_own_their_buffers() -> Result<(), Error> {
    let source = range(6, &[2, 3]).add_scalar(1)?;
    let copy: ArrayBuf<i32> = Array::copy(&source)?;
    assert_eq!(copy.shape(), [2, 3]);
    assert_eq!(copy.access().inner().to_vec(), vec![1, 2, 3, 4, 5, 6]);
    let read = source.into_read()?;
    assert_eq!(read.into_access().into_inner().into_vec(), vec![1, 2, 3, 4, 5, 6]);
    let failing = array(&[2], vec![1, 2]).div(array(&[2], vec![1, 0]))?;
    let copy: Result<ArrayBuf<i32>, Error> = Array::copy(&failing);
    assert_eq!(copy.err().map(|e| e.kind()), Some(ErrorKind::Arithmetic));
    Ok(())
}
