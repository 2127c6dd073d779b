use ha_ndarray::{AccessBuf, Array, Buffer, Error, NDArrayReduceBoolean, Platform, Shape};

fn from_vec(shape: &[usize], data: Vec<i32>) -> Result<Array<i32, AccessBuf<i32>, Platform>, Error> {
    Array::new(Buffer::from_vec(data), Shape::from_slice(shape))
}

#[test]
fn arithmetic_test_add() -> Result<(), Error> {
    let shape = vec![5, 2];
    let left = from_vec(&shape, (0..10).into_iter().collect())?;
    let right = from_vec(&shape, (0..10).into_iter().rev().collect())?;
    let actual = left.add(right)?;
    let expected: Array<i32, AccessBuf<i32>, Platform> =
        Array::constant(9, Shape::from_slice(&shape))?;
    assert!(expected.eq(actual)?.all()?);
    Ok(())
}

#[test]
fn test_expand_and_broadcast_and_sub() -> Result<(), Error> {
    let left = from_vec(&[2, 3], (0i32..6).into_iter().collect())?;
    let right = from_vec(&[2], vec![0, 1])?;
    let expected = from_vec(&[2, 3], vec![0, 1, 2, 2, 3, 4])?;
    let actual = left.sub(
        right
            .unsqueeze(Shape::from_slice(&[1]))?
            .broadcast(Shape::from_slice(&[2, 3]))?,
    )?;
    assert!(expected.eq(actual)?.all()?);
    Ok(())
}

#[test]
fn test_sub() -> Result<(), Error> {
    let shape = [1, 2, 3];
    let array = from_vec(&shape, vec![0, 1, 2, 3, 4, 5])?;
    let same = from_vec(&shape, vec![0, 1, 2, 3, 4, 5])?;
    let actual = array.sub(same)?;
    assert!(!actual.any()?);
    Ok(())
}

#[test]
fn mod_test_add() -> Result<(), Error> {
    let shape = [1, 2, 3];

    let buffer = Buffer::from_vec(vec![0u64; 6]);
    let left: Array<u64, AccessBuf<u64>, Platform> = Array::new(buffer, Shape::from_slice(&shape))?;

    let buffer = Buffer::from_vec(vec![0u64; 6]);
    let right: Array<u64, AccessBuf<u64>, Platform> = Array::new(buffer, Shape::from_slice(&shape))?;

    let buffer = Buffer::from_vec(vec![0u64; 6]);
    let expected: Array<u64, AccessBuf<u64>, Platform> =
        Array::new(buffer, Shape::from_slice(&shape))?;

    let actual = left.add(right)?;
    let eq = actual.eq(expected)?;

    assert!(eq.all()?);

    Ok(())
}
