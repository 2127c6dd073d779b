use ha_ndarray::{
    AccessBuf, Array, Buffer, Error, ErrorKind, NDArray, NDArrayReduceBoolean, Platform, Shape,
};

type ArrayBuf<T> = Array<T, AccessBuf<T>, Platform>;

#[test]
fn test_matmul() -> Result<(), Error> {
    let left: ArrayBuf<i64> = Array::constant(1, Shape::from_slice(&[2, 3]))?;
    let right: ArrayBuf<i64> = Array::constant(1, Shape::from_slice(&[3, 4]))?;

    let actual = left.matmul(right)?;
    assert_eq!(actual.shape(), [2, 4]);
    assert_eq!(actual.buffer()?.into_vec(), vec![3, 3, 3, 3, 3, 3, 3, 3]);
    assert!(actual.eq_scalar(3)?.all()?);
    Ok(())
}

#[test]
fn matmul_multiplies_rows_by_columns() -> Result<(), Error> {
    let left: ArrayBuf<i32> =
        Array::new(Buffer::from_vec(vec![1, 2, 3, 4, 5, 6]), Shape::from_slice(&[2, 3]))?;
    let right: ArrayBuf<i32> =
        Array::new(Buffer::from_vec(vec![7, 8, 9, 10, 11, 12]), Shape::from_slice(&[3, 2]))?;
    let product = left.matmul(right)?;
    assert_eq!(product.shape(), [2, 2]);
    assert_eq!(product.buffer()?.into_vec(), vec![58, 64, 139, 154]);
    Ok(())
}

#[test]
fn matmul_of_batches_keeps_the_matrices_apart() -> Result<(), Error> {
    let left: ArrayBuf<i32> = Array::new(
        Buffer::from_vec(vec![1, 2, 3, 4, 5, 6, 7, 8]),
        Shape::from_slice(&[2, 2, 2]),
    )?;
    let right: ArrayBuf<i32> = Array::new(
        Buffer::from_vec(vec![1, 0, 0, 1, 2, 0, 0, 2]),
        Shape::from_slice(&[2, 2, 2]),
    )?;
    let product = left.matmul(right)?;
    assert_eq!(product.shape(), [2, 2, 2]);
    assert_eq!(product.buffer()?.into_vec(), vec![1, 2, 3, 4, 10, 12, 14, 16]);
    Ok(())
}

#[test]
fn matmul_in_parallel_transposes_the_right_matrices() -> Result<(), Error> {
    // 10 x 8 times 8 x 9: both operands have more elements than a stack buffer holds
    let left: ArrayBuf<i64> =
        Array::new(Buffer::from_vec((0..80).collect()), Shape::from_slice(&[10, 8]))?;
    let right: ArrayBuf<i64> =
        Array::new(Buffer::from_vec((0..72).collect()), Shape::from_slice(&[8, 9]))?;
    let product = left.matmul(right)?.buffer()?.into_vec();
    let mut expected = Vec::new();
    for x in 0..10i64 {
        for z in 0..9i64 {
            let mut sum = 0;
            for y in 0..8i64 {
                sum += (x * 8 + y) * (y * 9 + z);
            }
            expected.push(sum);
        }
    }
    assert_eq!(product, expected);
    Ok(())
}

#[test]
fn matmul_rejects_shapes_that_do_not_go_together() -> Result<(), Error> {
    let left: ArrayBuf<i32> = Array::constant(1, Shape::from_slice(&[2, 3]))?;
    let right: ArrayBuf<i32> = Array::constant(1, Shape::from_slice(&[4, 3]))?;
    assert_eq!(left.matmul(right).err().map(|e| e.kind()), Some(ErrorKind::Bounds));

    let left: ArrayBuf<i32> = Array::constant(1, Shape::from_slice(&[2, 2, 3]))?;
    let right: ArrayBuf<i32> = Array::constant(1, Shape::from_slice(&[1, 3, 2]))?;
    assert_eq!(left.matmul(right).err().map(|e| e.kind()), Some(ErrorKind::Bounds));

    let left: ArrayBuf<i32> = Array::constant(1, Shape::from_slice(&[3]))?;
    let right: ArrayBuf<i32> = Array::constant(1, Shape::from_slice(&[3]))?;
    assert_eq!(left.matmul(right).err().map(|e| e.kind()), Some(ErrorKind::Bounds));
    Ok(())
}

#[test]
fn matmul_cannot_be_read_one_element_at_a_time() -> Result<(), Error> {
    let left: ArrayBuf<i32> = Array::constant(1, Shape::from_slice(&[2, 3]))?;
    let right: ArrayBuf<i32> = Array::constant(1, Shape::from_slice(&[3, 4]))?;
    let product = left.matmul(right)?;
    assert_eq!(product.read_value(&[0, 0]).err().map(|e| e.kind()), Some(ErrorKind::Bounds));
    Ok(())
}

#[test]
fn diag_reads_the_diagonals() -> Result<(), Error> {
    let batch: ArrayBuf<i32> =
        Array::new(Buffer::from_vec((0..18).collect()), Shape::from_slice(&[2, 3, 3]))?;
    let diag = batch.diag()?;
    assert_eq!(diag.shape(), [2, 3]);
    assert_eq!(diag.buffer()?.into_vec(), vec![0, 4, 8, 9, 13, 17]);
    assert_eq!(diag.read_value(&[1, 1])?, 13);
    Ok(())
}

#[test]
fn diag_rejects_matrices_that_are_not_square() -> Result<(), Error> {
    let array: ArrayBuf<i32> = Array::constant(1, Shape::from_slice(&[2, 3]))?;
    assert_eq!(array.diag().err().map(|e| e.kind()), Some(ErrorKind::Bounds));
    let array: ArrayBuf<i32> = Array::constant(1, Shape::from_slice(&[3]))?;
    assert_eq!(array.diag().err().map(|e| e.kind()), Some(ErrorKind::Bounds));
    Ok(())
}
