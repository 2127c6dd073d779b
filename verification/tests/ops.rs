use ha_ndarray::ctype::cast;
use ha_ndarray::kernel::{apply_map, apply_zip, MapOp, ZipOp};
use ha_ndarray::ops::Linear;
use ha_ndarray::{
    Access, AccessBuf, Array, Buffer, Error, ErrorKind, NDArray, NDArrayReduceAll,
    NDArrayReduceBoolean, Platform, Shape,
};

type ArrayBuf<T> = Array<T, AccessBuf<T>, Platform>;

fn array<T: ha_ndarray::CType>(shape: &[usize], data: Vec<T>) -> ArrayBuf<T> {
    Array::new(Buffer::from_vec(data), Shape::from_slice(shape)).unwrap()
}

fn kind<V>(result: Result<V, Error>) -> Option<ErrorKind> {
    result.err().map(|error| error.kind())
}

#[test]
fn scalar_kernels_compute_in_the_integers() {
    assert_eq!(apply_zip::<i32, i32>(ZipOp::Add, 2, 3).unwrap(), 5);
    assert_eq!(apply_zip::<i32, i32>(ZipOp::Sub, 2, 3).unwrap(), -1);
    assert_eq!(apply_zip::<i32, i32>(ZipOp::Mul, -2, 3).unwrap(), -6);
    assert_eq!(apply_zip::<i32, i32>(ZipOp::Div, 7, 2).unwrap(), 3);
    assert_eq!(apply_zip::<i32, i32>(ZipOp::Div, -7, 2).unwrap(), -3);
    assert_eq!(apply_zip::<i32, i32>(ZipOp::Div, 7, -2).unwrap(), -3);
    assert_eq!(apply_zip::<i32, i32>(ZipOp::Rem, -7, 2).unwrap(), -1);
    assert_eq!(apply_zip::<i32, i32>(ZipOp::Rem, 7, -2).unwrap(), 1);
    assert_eq!(apply_zip::<i32, i32>(ZipOp::Pow, 2, 10).unwrap(), 1024);
    assert_eq!(apply_zip::<i32, i32>(ZipOp::Pow, -2, 3).unwrap(), -8);
    assert_eq!(apply_zip::<i32, i32>(ZipOp::Pow, 7, 0).unwrap(), 1);
    assert_eq!(apply_zip::<i32, i32>(ZipOp::Pow, 0, 0).unwrap(), 1);
    assert_eq!(apply_zip::<i32, i32>(ZipOp::Pow, -1, 1_000_001).unwrap(), -1);
    assert_eq!(apply_zip::<i32, i32>(ZipOp::Pow, 1, i32::MAX).unwrap(), 1);
    assert_eq!(apply_zip::<i64, i64>(ZipOp::Pow, -2, 63).unwrap(), i64::MIN);
    assert_eq!(apply_zip::<u64, u64>(ZipOp::Pow, 2, 63).unwrap(), 1 << 63);
    assert_eq!(apply_zip::<i32, i32>(ZipOp::Max, -2, 3).unwrap(), 3);
    assert_eq!(apply_zip::<i32, i32>(ZipOp::Min, -2, 3).unwrap(), -2);
    assert_eq!(apply_zip::<i32, u8>(ZipOp::And, -2, 3).unwrap(), 1);
    assert_eq!(apply_zip::<i32, u8>(ZipOp::And, 0, 3).unwrap(), 0);
    assert_eq!(apply_zip::<i32, u8>(ZipOp::Or, 0, 3).unwrap(), 1);
    assert_eq!(apply_zip::<i32, u8>(ZipOp::Or, 0, 0).unwrap(), 0);
    assert_eq!(apply_zip::<i32, u8>(ZipOp::Xor, 2, 3).unwrap(), 0);
    assert_eq!(apply_zip::<i32, u8>(ZipOp::Xor, 0, 3).unwrap(), 1);
    assert_eq!(apply_zip::<i32, u8>(ZipOp::Eq, 3, 3).unwrap(), 1);
    assert_eq!(apply_zip::<i32, u8>(ZipOp::Ne, 3, 3).unwrap(), 0);
    assert_eq!(apply_zip::<i32, u8>(ZipOp::Ge, 3, 3).unwrap(), 1);
    assert_eq!(apply_zip::<i32, u8>(ZipOp::Gt, 3, 3).unwrap(), 0);
    assert_eq!(apply_zip::<i32, u8>(ZipOp::Le, 2, 3).unwrap(), 1);
    assert_eq!(apply_zip::<i32, u8>(ZipOp::Lt, 3, 2).unwrap(), 0);
    assert_eq!(apply_map::<i32, i32>(MapOp::Abs, -5).unwrap(), 5);
    assert_eq!(apply_map::<i32, i32>(MapOp::Round, -5).unwrap(), -5);
    assert_eq!(apply_map::<i32, u8>(MapOp::Not, -5).unwrap(), 0);
    assert_eq!(apply_map::<i32, u8>(MapOp::Not, 0).unwrap(), 1);
}

#[test]
fn scalar_kernels_fail_where_the_result_is_not_a_number_of_the_type() {
    assert_eq!(kind(apply_zip::<u8, u8>(ZipOp::Add, 200, 56)), Some(ErrorKind::Arithmetic));
    assert_eq!(apply_zip::<u8, u8>(ZipOp::Add, 200, 55).unwrap(), 255);
    assert_eq!(kind(apply_zip::<u8, u8>(ZipOp::Sub, 1, 2)), Some(ErrorKind::Arithmetic));
    assert_eq!(kind(apply_zip::<i8, i8>(ZipOp::Mul, 16, 8)), Some(ErrorKind::Arithmetic));
    assert_eq!(apply_zip::<i8, i8>(ZipOp::Mul, -16, 8).unwrap(), -128);
    assert_eq!(kind(apply_zip::<u64, u64>(ZipOp::Mul, u64::MAX, u64::MAX)), Some(ErrorKind::Arithmetic));
    assert_eq!(kind(apply_zip::<i32, i32>(ZipOp::Div, 1, 0)), Some(ErrorKind::Arithmetic));
    assert_eq!(kind(apply_zip::<i32, i32>(ZipOp::Rem, 1, 0)), Some(ErrorKind::Arithmetic));
    assert_eq!(kind(apply_zip::<i8, i8>(ZipOp::Div, -128, -1)), Some(ErrorKind::Arithmetic));
    assert_eq!(apply_zip::<i8, i8>(ZipOp::Rem, -128, -1).unwrap(), 0);
    assert_eq!(kind(apply_zip::<i32, i32>(ZipOp::Pow, 2, -1)), Some(ErrorKind::Unsupported));
    assert_eq!(kind(apply_zip::<i32, i32>(ZipOp::Pow, 2, 31)), Some(ErrorKind::Arithmetic));
    assert_eq!(kind(apply_zip::<u64, u64>(ZipOp::Pow, 2, 64)), Some(ErrorKind::Arithmetic));
    assert_eq!(kind(apply_zip::<u64, u64>(ZipOp::Pow, u64::MAX, u64::MAX)), Some(ErrorKind::Arithmetic));
    assert_eq!(kind(apply_map::<i8, i8>(MapOp::Abs, -128)), Some(ErrorKind::Arithmetic));
}

#[test]
fn elementwise_ops_read_whole_and_by_element() -> Result<(), Error> {
    let left = array(&[2, 2], vec![1i32, -2, 3, -4]);
    let right = array(&[2, 2], vec![4i32, 3, 2, 1]);
    let product = left.mul(right)?;
    assert_eq!(product.shape(), [2, 2]);
    assert_eq!(product.buffer()?.into_vec(), vec![4, -6, 6, -4]);
    assert_eq!(product.read_value(&[1, 0])?, 6);
    assert_eq!(kind(product.read_value(&[2, 0])), Some(ErrorKind::Bounds));

    let shifted = product.add_scalar(10)?.abs()?;
    assert_eq!(shifted.buffer()?.into_vec(), vec![14, 4, 16, 6]);
    let compared = shifted.gt_scalar(6)?;
    assert_eq!(compared.buffer()?.into_vec(), vec![1u8, 0, 1, 0]);
    assert_eq!(compared.not()?.buffer()?.into_vec(), vec![0u8, 1, 0, 1]);
    Ok(())
}

#[test]
fn large_operands_are_read_and_combined_in_parallel() -> Result<(), Error> {
    let left = array(&[10, 100], (0..1000i64).collect());
    let right = array(&[10, 100], (0..1000i64).rev().collect());
    let sums = left.add(right)?;
    assert!(matches!(sums.buffer()?, ha_ndarray::SliceConverter::Heap(_)));
    assert_eq!(sums.buffer()?.into_vec(), vec![999i64; 1000]);

    let cond = array(&[200], (0..200).map(|i| (i % 2) as u8).collect());
    let first = array(&[200], (0..200i32).collect()).mul_scalar(2)?;
    let second = array(&[200], (0..200i32).collect()).sub_scalar(1000)?;
    let picked = cond.cond(first, second)?.buffer()?.into_vec();
    for i in 0..200i32 {
        let expected = if i % 2 == 1 { 2 * i } else { i - 1000 };
        assert_eq!(picked[i as usize], expected);
    }

    let left = array(&[500], vec![1u8; 500]);
    let right = array(&[500], (0..500).map(|i| if i == 321 { 255 } else { 1 }).collect());
    assert_eq!(kind(left.add(right)?.buffer()), Some(ErrorKind::Arithmetic));

    let small = array(&[3], vec![1i32, 2, 3]).add(array(&[3], vec![1i32, 1, 1]))?;
    assert!(matches!(small.buffer()?, ha_ndarray::SliceConverter::Stack(_)));
    Ok(())
}

#[test]
fn elementwise_ops_need_one_shape() {
    let left = array(&[2, 2], vec![1i32, 2, 3, 4]);
    let right = array(&[4], vec![1i32, 2, 3, 4]);
    assert_eq!(kind(left.add(right)), Some(ErrorKind::Bounds));
    let left = array(&[2, 1], vec![1i32, 2]);
    let right = array(&[1, 3], vec![1i32, 2, 3]);
    assert_eq!(kind(left.eq(right)), Some(ErrorKind::Bounds));
}

#[test]
fn division_of_an_array_by_zero_is_not_supported() -> Result<(), Error> {
    let numbers = array(&[3], vec![6i32, 7, -8]);
    assert_eq!(kind(numbers.div_scalar(0)), Some(ErrorKind::Unsupported));
    let numbers = array(&[3], vec![6i32, 7, -8]);
    assert_eq!(numbers.div_scalar(2)?.buffer()?.into_vec(), vec![3, 3, -4]);
    Ok(())
}

#[test]
fn a_failing_element_fails_the_read_of_all_but_not_of_the_others() -> Result<(), Error> {
    let left = array(&[3], vec![6i32, 7, 8]);
    let right = array(&[3], vec![3i32, 0, 2]);
    let quotient = left.div(right)?;
    assert_eq!(kind(quotient.buffer()), Some(ErrorKind::Arithmetic));
    assert_eq!(quotient.read_value(&[0])?, 2);
    assert_eq!(kind(quotient.read_value(&[1])), Some(ErrorKind::Arithmetic));
    assert_eq!(quotient.read_value(&[2])?, 4);
    Ok(())
}

#[test]
fn cast_goes_by_way_of_a_double() {
    let edges: [i64; 16] = [
        0,
        1,
        -1,
        (1 << 53) - 1,
        1 << 53,
        (1 << 53) + 1,
        (1 << 53) + 2,
        (1 << 53) + 3,
        (1 << 54) + 2,
        (1 << 54) + 6,
        -((1 << 53) + 1),
        -((1 << 53) + 3),
        i64::MAX,
        i64::MAX - 511,
        i64::MAX - 512,
        i64::MIN,
    ];
    for n in edges {
        assert_eq!(cast::<i64, i64>(n), (n as f64) as i64, "{n}");
        assert_eq!(cast::<i64, u64>(n), (n as f64) as u64, "{n}");
        assert_eq!(cast::<i64, i32>(n), (n as f64) as i32, "{n}");
        assert_eq!(cast::<i64, u8>(n), (n as f64) as u8, "{n}");
    }
    assert_eq!(cast::<i64, i64>((1 << 53) + 1), 1 << 53);
    assert_eq!(cast::<i64, i64>((1 << 53) + 3), (1 << 53) + 4);
    assert_eq!(cast::<u64, u64>(u64::MAX), u64::MAX);
    assert_eq!(cast::<u64, i64>(u64::MAX), i64::MAX);
    assert_eq!(cast::<u64, u64>(u64::MAX - 1024), (u64::MAX - 1024) as f64 as u64);
    assert_eq!(cast::<u64, u64>(u64::MAX - 1023), (u64::MAX - 1023) as f64 as u64);

    // a sequence of numbers of all magnitudes
    let mut state: u64 = 0x9e37_79b9_7f4a_7c15;
    for round in 0..20_000u32 {
        state = state.wrapping_mul(6364136223846793005).wrapping_add(1442695040888963407);
        let wide = state >> (round % 64);
        assert_eq!(cast::<u64, u64>(wide), (wide as f64) as u64, "{wide}");
        let signed = (state as i64) >> (round % 64);
        assert_eq!(cast::<i64, i64>(signed), (signed as f64) as i64, "{signed}");
        assert_eq!(cast::<i64, i16>(signed), (signed as f64) as i16, "{signed}");
    }
}

#[test]
fn cast_saturates() -> Result<(), Error> {
    let wide = array(&[5], vec![-1i32, 0, 255, 256, i32::MAX]);
    let narrow = wide.cast::<u8>()?;
    assert_eq!(narrow.buffer()?.into_vec(), vec![0u8, 0, 255, 255, 255]);
    let wide = array(&[3], vec![i64::MIN, -129, 127]);
    assert_eq!(wide.cast::<i8>()?.buffer()?.into_vec(), vec![-128i8, -128, 127]);
    let small = array(&[2], vec![0u8, 200]);
    assert_eq!(small.cast::<i64>()?.read_value(&[1])?, 200);
    Ok(())
}

#[test]
fn cond_selects_by_element() -> Result<(), Error> {
    let cond = array(&[4], vec![1u8, 0, 2, 0]);
    let first = array(&[4], vec![10i32, 11, 12, 13]);
    let second = array(&[4], vec![20i32, 21, 22, 23]);
    let picked = cond.cond(first, second)?;
    assert_eq!(picked.buffer()?.into_vec(), vec![10, 21, 12, 23]);
    assert_eq!(picked.read_value(&[1])?, 21);

    let cond = array(&[4], vec![1u8, 0, 2, 0]);
    let first = array(&[4], vec![10i32, 11, 12, 13]);
    let second = array(&[2, 2], vec![20i32, 21, 22, 23]);
    assert_eq!(kind(cond.cond(first, second)), Some(ErrorKind::Bounds));
    Ok(())
}

#[test]
fn range_spaces_its_elements_evenly() -> Result<(), Error> {
    let range: Array<i32, Linear<i32>, Platform> = Array::range(0, 24, Shape::from_slice(&[4, 3, 2]))?;
    assert_eq!(range.buffer()?.into_vec(), (0..24).collect::<Vec<i32>>());
    assert_eq!(range.read_value(&[3, 2, 1])?, 23);
    let range: Array<i32, Linear<i32>, Platform> = Array::range(0, 10, Shape::from_slice(&[4]))?;
    assert_eq!(range.buffer()?.into_vec(), vec![0, 2, 5, 7]);
    let range: Array<i64, Linear<i64>, Platform> = Array::range(-6, 6, Shape::from_slice(&[3]))?;
    assert_eq!(range.buffer()?.into_vec(), vec![-6, -2, 2]);
    let range: Array<u64, Linear<u64>, Platform> = Array::range(0, u64::MAX, Shape::from_slice(&[2]))?;
    assert_eq!(range.buffer()?.into_vec(), vec![0, u64::MAX / 2]);
    let range: Array<u8, Linear<u8>, Platform> = Array::range(7, 7, Shape::from_slice(&[3]))?;
    assert_eq!(range.buffer()?.into_vec(), vec![7, 7, 7]);
    let backwards: Result<Array<i32, Linear<i32>, Platform>, Error> =
        Array::range(3, 1, Shape::from_slice(&[2]));
    assert_eq!(kind(backwards), Some(ErrorKind::Bounds));
    let no_shape: Result<Array<i32, Linear<i32>, Platform>, Error> =
        Array::range(0, 1, Shape::from_slice(&[]));
    assert_eq!(kind(no_shape), Some(ErrorKind::Bounds));
    // more elements than a stack buffer holds are computed in parallel
    let long: Array<i64, Linear<i64>, Platform> = Array::range(0, 3000, Shape::from_slice(&[1000]))?;
    assert_eq!(long.buffer()?.into_vec(), (0..1000).map(|i| 3 * i).collect::<Vec<i64>>());
    Ok(())
}

#[test]
fn reductions_fold_along_the_named_axes() -> Result<(), Error> {
    let numbers = || array(&[2, 3], vec![1i32, 2, 3, 4, 5, 6]);
    assert_eq!(numbers().sum(Shape::from_slice(&[1]), false)?.buffer()?.into_vec(), vec![6, 15]);
    assert_eq!(numbers().sum(Shape::from_slice(&[0]), false)?.buffer()?.into_vec(), vec![5, 7, 9]);
    let kept = numbers().sum(Shape::from_slice(&[0]), true)?;
    assert_eq!(kept.shape(), [1, 3]);
    assert_eq!(kept.buffer()?.into_vec(), vec![5, 7, 9]);
    assert_eq!(kept.read_value(&[0, 2])?, 9);
    let all = numbers().sum(Shape::from_slice(&[1, 0, 1]), false)?;
    assert_eq!(all.shape(), [1]);
    assert_eq!(all.buffer()?.into_vec(), vec![21]);
    assert_eq!(numbers().product(Shape::from_slice(&[1]), false)?.buffer()?.into_vec(), vec![6, 120]);
    assert_eq!(numbers().max(Shape::from_slice(&[0]), false)?.buffer()?.into_vec(), vec![4, 5, 6]);
    assert_eq!(numbers().min(Shape::from_slice(&[1]), false)?.buffer()?.into_vec(), vec![1, 4]);
    assert_eq!(kind(numbers().sum(Shape::from_slice(&[2]), false)), Some(ErrorKind::Bounds));
    Ok(())
}

#[test]
fn reductions_of_a_whole_array() -> Result<(), Error> {
    let numbers = || array(&[2, 3], vec![3i32, -2, 5, 4, 1, 6]);
    assert_eq!(numbers().sum_all()?, 17);
    assert_eq!(numbers().product_all()?, -720);
    assert_eq!(numbers().max_all()?, 6);
    assert_eq!(numbers().min_all()?, -2);
    assert!(numbers().all()?);
    assert!(numbers().any()?);
    assert!(!array(&[3], vec![1i32, 0, 2]).all()?);
    assert!(array(&[3], vec![0i32, 0, 2]).any()?);
    assert!(!array(&[3], vec![0i32, 0, 0]).any()?);
    assert_eq!(kind(array(&[2], vec![200u8, 100]).sum_all()), Some(ErrorKind::Arithmetic));
    assert_eq!(array(&[2], vec![i8::MIN, 5]).max_all()?, 5);
    Ok(())
}

#[test]
fn accessors_report_their_size() -> Result<(), Error> {
    let numbers = array(&[2, 3], vec![1i32, 2, 3, 4, 5, 6]);
    assert_eq!(numbers.ndim(), 2);
    assert_eq!(numbers.size(), 6);
    assert_eq!(numbers.access().size(), 6);
    let reduced = numbers.sum(Shape::from_slice(&[1]), false)?;
    assert_eq!(reduced.access().size(), 2);
    assert_eq!(reduced.into_access().stride, 3);
    Ok(())
}
