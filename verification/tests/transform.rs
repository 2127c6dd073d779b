use ha_ndarray::ops::Linear;
use ha_ndarray::{
    AccessBuf, Array, AxisRange, Buffer, Error, NDArray, NDArrayReduceAll, NDArrayReduceBoolean,
    Platform, Shape, StackVec,
};

type ArrayBuf<T> = Array<T, AccessBuf<T>, Platform>;
type ArrayRange<T> = Array<T, Linear<T>, Platform>;

fn shape(dims: &[usize]) -> Shape {
    Shape::from_slice(dims)
}

#[test]
fn test_broadcast_small() -> Result<(), Error> {
    let data = vec![5, 1];
    let strides: Array<i32, _, Platform> =
        ArrayBuf::new(Buffer::from_vec(data.to_vec()), shape(&[2]))?.broadcast(shape(&[1, 2]))?;
    assert_eq!(strides.buffer()?.as_slice(), &data[..]);
    Ok(())
}

#[test]
fn test_broadcast_large() -> Result<(), Error> {
    let input: ArrayBuf<u32> = ArrayBuf::new(Buffer::from_vec(vec![1u32; 600]), shape(&[300, 1, 2]))?;
    let output = input.broadcast(shape(&[300, 250, 2]))?;
    assert_eq!(output.shape(), &[300, 250, 2]);
    assert_eq!(output.sum_all()?, 150000);
    Ok(())
}

#[test]
fn test_slice_1d() -> Result<(), Error> {
    let input: ArrayRange<i32> = Array::range(0, 4, shape(&[4]))?;

    let expected: ArrayRange<i32> = Array::range(1, 3, shape(&[2]))?;

    let actual = input.slice(vec![AxisRange::In(1, 3, 1)])?;

    assert_eq!(expected.shape(), actual.shape());
    assert!(expected.eq(actual)?.all()?);

    Ok(())
}

#[test]
fn test_slice_2d() -> Result<(), Error> {
    let input: ArrayRange<i32> = Array::range(0, 12, shape(&[4, 3]))?;
    let expected: ArrayRange<i32> = Array::range(3, 9, shape(&[2, 3]))?;

    let actual = input.slice(vec![AxisRange::In(1, 3, 1)])?;

    assert_eq!(expected.shape(), actual.shape());
    assert_eq!(expected.buffer()?.into_vec(), actual.buffer()?.into_vec());
    assert!(
        expected.eq(actual)?.all()?,
        "expected {:?} but found {:?}",
        (3..9).collect::<Vec<i32>>(),
        12
    );

    Ok(())
}

#[test]
fn test_slice_3d() -> Result<(), Error> {
    let input: ArrayRange<i32> = Array::range(0, 24, shape(&[4, 3, 2]))?;

    let expected: ArrayBuf<i32> = ArrayBuf::new(Buffer::from_vec(vec![8, 9, 10, 11]), shape(&[2, 2]))?;

    let actual = input.slice(vec![AxisRange::At(1), AxisRange::In(1, 3, 1)])?;

    assert_eq!(expected.shape(), actual.shape());
    assert!(expected.eq(actual)?.all()?);

    Ok(())
}

#[test]
fn test_transpose_2d() -> Result<(), Error> {
    let input: ArrayRange<i32> = Array::range(0, 6, shape(&[2, 3]))?;

    let expected: ArrayBuf<i32> = ArrayBuf::new(
        Buffer::from_vec(vec![
            0, 3, //
            1, 4, //
            2, 5, //
        ]),
        shape(&[3, 2]),
    )?;

    let actual = input.transpose(None)?;
    assert_eq!(expected.shape(), actual.shape());
    assert!(expected.eq(actual)?.all()?);

    Ok(())
}

#[test]
fn test_transpose_3d() -> Result<(), Error> {
    let input: ArrayRange<i32> = Array::range(0, 24, shape(&[2, 3, 4]))?;

    let expected: ArrayBuf<i32> = ArrayBuf::new(
        Buffer::from_vec(vec![
            0, 4, 8, //
            12, 16, 20, //
            1, 5, 9, //
            13, 17, 21, //
            //
            2, 6, 10, //
            14, 18, 22, //
            3, 7, 11, //
            15, 19, 23, //
        ]),
        shape(&[4, 2, 3]),
    )?;

    let actual = input.transpose(Some(shape(&[2, 0, 1])))?;
    assert!(expected.eq(actual)?.all()?);

    Ok(())
}

#[test]
fn test_offsets_to_coords() -> Result<(), Error> {
    let coords: ArrayBuf<i32> = ArrayBuf::new(
        Buffer::from_stackvec(StackVec::from_vec(vec![0, 1])),
        shape(&[1, 2]),
    )?;
    let strides = ArrayBuf::new(Buffer::from_vec(vec![5, 1]), shape(&[2]))?
        .broadcast(shape(coords.shape()))?;
    let offsets = coords.mul(strides)?;
    let offsets = offsets.sum(shape(&[1]), false)?;
    assert_eq!(offsets.buffer()?.into_vec(), vec![1]);
    Ok(())
}
