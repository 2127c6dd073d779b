//! Element types, and the conversions between them.

use vstd::arithmetic::power2::{lemma2_to64, lemma_pow2_pos, lemma_pow2_unfold, pow2};
use vstd::prelude::*;

use crate::error::{outcome, Error, ErrorKind};

verus! {

/// A scalar element type: an integer type whose values embed into the mathematical integers.
///
/// Every element operation of the engine is defined once, over `int`, and carried out in 128-bit
/// arithmetic; an element type only says how its values widen and narrow.
pub trait CType: Copy + Send + Sync + Sized {
    /// The number that `self` stands for.
    spec fn as_int(self) -> int;

    /// The least number of this type.
    spec fn min_int() -> int;

    /// The greatest number of this type.
    spec fn max_int() -> int;

    /// The value of this type that stands for `value`, where it is in range.
    spec fn from_int(value: int) -> Self;

    /// The range of the type holds 0 and 1, fits 65 bits, and is that of an unsigned or of a
    /// two's complement type.
    proof fn lemma_limits()
        ensures
            -0x8000_0000_0000_0000 <= Self::min_int() <= 0,
            1 <= Self::max_int() <= 0xffff_ffff_ffff_ffff,
            Self::min_int() == 0 || Self::min_int() == -Self::max_int() - 1,
    ;

    /// `as_int` maps into the range, and `from_int` undoes it.
    proof fn lemma_as_int(self)
        ensures
            Self::min_int() <= self.as_int() <= Self::max_int(),
            Self::from_int(self.as_int()) == self,
    ;

    /// `from_int` is exact on the range.
    proof fn lemma_from_int(value: int)
        requires
            Self::min_int() <= value <= Self::max_int(),
        ensures
            Self::from_int(value).as_int() == value,
    ;

    /// The number that `self` stands for, as a wide integer.
    fn widen(self) -> (wide: i128)
        ensures
            wide == self.as_int(),
            Self::min_int() <= wide <= Self::max_int(),
            -0x8000_0000_0000_0000 <= wide <= 0xffff_ffff_ffff_ffff,
    ;

    /// The value of this type that stands for `wide`, if there is one.
    fn narrow(wide: i128) -> (narrow: Option<Self>)
        ensures
            Self::min_int() <= wide <= Self::max_int() ==> narrow == Some(
                Self::from_int(wide as int),
            ),
            !(Self::min_int() <= wide <= Self::max_int()) ==> narrow is None,
    ;

    /// The least value of this type.
    fn min_value() -> (least: Self)
        ensures
            least == Self::from_int(Self::min_int()),
    ;

    /// The greatest value of this type.
    fn max_value() -> (greatest: Self)
        ensures
            greatest == Self::from_int(Self::max_int()),
    ;
}

/// The value of `T` for 0.
pub open spec fn spec_zero<T: CType>() -> T {
    T::from_int(0)
}

/// The value of `T` for 1.
pub open spec fn spec_one<T: CType>() -> T {
    T::from_int(1)
}

/// Whether `value` is a number of `T`.
pub open spec fn in_range<T: CType>(value: int) -> bool {
    T::min_int() <= value <= T::max_int()
}

/// `value` as a `T`, or an arithmetic error where `T` cannot hold it.
pub open spec fn narrow_spec<T: CType>(value: int) -> Result<T, ErrorKind> {
    if in_range::<T>(value) {
        Ok(T::from_int(value))
    } else {
        Err(ErrorKind::Arithmetic)
    }
}

/// `value` as a `T`, or the nearest number of `T` where `T` cannot hold it.
pub open spec fn saturate_spec<T: CType>(value: int) -> T {
    if value < T::min_int() {
        T::from_int(T::min_int())
    } else if value > T::max_int() {
        T::from_int(T::max_int())
    } else {
        T::from_int(value)
    }
}

/// The value of `T` for 0.
pub fn zero<T: CType>() -> (z: T)
    ensures
        z == spec_zero::<T>(),
        z.as_int() == 0,
{
    proof {
        T::lemma_limits();
        T::lemma_from_int(0);
    }
    match T::narrow(0) {
        Some(z) => z,
        None => T::min_value(),
    }
}

/// The value of `T` for 1.
pub fn one<T: CType>() -> (o: T)
    ensures
        o == spec_one::<T>(),
        o.as_int() == 1,
{
    proof {
        T::lemma_limits();
        T::lemma_from_int(1);
    }
    match T::narrow(1) {
        Some(o) => o,
        None => T::max_value(),
    }
}

/// Narrows a wide result to `T`; a result out of range is an arithmetic error.
pub fn checked_narrow<T: CType>(wide: i128) -> (r: Result<T, Error>)
    ensures
        outcome(r) == narrow_spec::<T>(wide as int),
{
    match T::narrow(wide) {
        Some(value) => Ok(value),
        None => Err(Error::arithmetic("the result does not fit the element type")),
    }
}

/// Narrows a wide value to `T`, taking the nearest number of `T` where it is out of range.
pub fn saturate<T: CType>(wide: i128) -> (r: T)
    ensures
        r == saturate_spec::<T>(wide as int),
{
    match T::narrow(wide) {
        Some(value) => value,
        None => {
            proof {
                T::lemma_limits();
            }
            let least = T::min_value();
            proof {
                T::lemma_from_int(T::min_int());
            }
            if wide < least.widen() {
                least
            } else {
                T::max_value()
            }
        },
    }
}

/// The least magnitude that a double-precision floating-point number may round: below it every
/// integer is such a number.
pub open spec fn exact_bound() -> int {
    0x20_0000_0000_0000
}

/// The power of two by which magnitudes from `magnitude` on are apart as double-precision
/// floating-point numbers: 1 below `exact_bound`, and twice as much whenever the magnitude
/// doubles.
pub open spec fn double_scale(magnitude: int) -> int
    decreases magnitude,
{
    if magnitude < exact_bound() {
        1
    } else {
        2 * double_scale(magnitude / 2)
    }
}

/// The integer that is the double-precision floating-point number nearest to `value`: of two
/// that are equally near, the one that is an even multiple of their distance.
pub open spec fn double_of(value: int) -> int {
    let magnitude = if value < 0 {
        -value
    } else {
        value
    };
    let scale = double_scale(magnitude);
    let quotient = magnitude / scale;
    let rest = magnitude % scale;
    let rounded = if 2 * rest > scale || (2 * rest == scale && quotient % 2 == 1) {
        (quotient + 1) * scale
    } else {
        quotient * scale
    };
    if value < 0 {
        -rounded
    } else {
        rounded
    }
}

/// The scale of a magnitude is at least 1, and the magnitude over its scale is below
/// `exact_bound`.
pub proof fn lemma_double_scale(magnitude: int)
    requires
        magnitude >= 0,
    ensures
        double_scale(magnitude) >= 1,
        magnitude / double_scale(magnitude) < exact_bound(),
        magnitude < exact_bound() ==> double_scale(magnitude) == 1,
    decreases magnitude,
{
    if magnitude >= exact_bound() {
        let half = magnitude / 2;
        lemma_double_scale(half);
        let scale = double_scale(half);
        vstd::arithmetic::div_mod::lemma_div_denominator(magnitude, 2, scale);
        assert(2 * scale == scale * 2) by (nonlinear_arith);
    }
}

/// A magnitude below `exact_bound` times two to the power `steps` has a scale of no more than
/// two to that power.
pub proof fn lemma_scale_bound(magnitude: int, steps: nat)
    requires
        0 <= magnitude < exact_bound() * pow2(steps),
    ensures
        double_scale(magnitude) <= pow2(steps),
    decreases steps,
{
    lemma_pow2_pos(steps);
    if magnitude >= exact_bound() {
        if steps == 0 {
            lemma2_to64();
        } else {
            lemma_pow2_unfold(steps);
            let rest = pow2((steps - 1) as nat);
            assert(magnitude / 2 < exact_bound() * rest) by (nonlinear_arith)
                requires
                    magnitude < exact_bound() * (2 * rest),
            ;
            lemma_scale_bound(magnitude / 2, (steps - 1) as nat);
        }
    }
}

/// The integer that is the double-precision floating-point number nearest to `wide`.
pub fn nearest_double(wide: i128) -> (rounded: i128)
    requires
        -0x1_0000_0000_0000_0000 <= wide <= 0x1_0000_0000_0000_0000,
    ensures
        rounded == double_of(wide as int),
{
    let magnitude: i128 = if wide < 0 {
        -wide
    } else {
        wide
    };
    let mut scale: i128 = 1;
    let mut reduced: i128 = magnitude;
    proof {
        lemma_double_scale(magnitude as int);
        lemma2_to64();
        lemma_scale_bound(magnitude as int, 12);
        assert(1 * double_scale(magnitude as int) == double_scale(magnitude as int))
            by (nonlinear_arith);
    }
    while reduced >= 0x20_0000_0000_0000
        invariant
            0 <= reduced <= magnitude <= 0x1_0000_0000_0000_0000,
            1 <= scale,
            reduced == magnitude / scale,
            double_scale(magnitude as int) == scale * double_scale(reduced as int),
            double_scale(magnitude as int) <= 0x1000,
        decreases reduced,
    {
        proof {
            lemma_double_scale(reduced as int);
            vstd::arithmetic::div_mod::lemma_div_denominator(magnitude as int, scale as int, 2);
            assert(scale * (2 * double_scale(reduced / 2)) == (scale * 2) * double_scale(
                reduced / 2,
            )) by (nonlinear_arith);
            assert(scale * 2 <= scale * (2 * double_scale(reduced / 2))) by (nonlinear_arith)
                requires
                    double_scale(reduced / 2) >= 1,
                    scale >= 1,
            ;
        }
        reduced = reduced / 2;
        scale = scale * 2;
    }
    proof {
        lemma_double_scale(reduced as int);
        assert(scale * 1 == scale) by (nonlinear_arith);
        assert(scale <= scale * double_scale(reduced as int)) by (nonlinear_arith)
            requires
                double_scale(reduced as int) >= 1,
                scale >= 1,
        ;
    }
    let quotient: i128 = magnitude / scale;
    let rest: i128 = magnitude % scale;
    proof {
        lemma_double_scale(reduced as int);
        assert(0 <= quotient * scale <= (quotient + 1) * scale <= 0x20_0000_0000_0000 * 0x1000)
            by (nonlinear_arith)
            requires
                0 <= quotient < 0x20_0000_0000_0000,
                1 <= scale <= 0x1000,
        ;
    }
    let rounded: i128 = if 2 * rest > scale || (2 * rest == scale && quotient % 2 == 1) {
        (quotient + 1) * scale
    } else {
        quotient * scale
    };
    if wide < 0 {
        -rounded
    } else {
        rounded
    }
}

/// Converts between element types by way of a double-precision floating-point number: the
/// number is rounded to the nearest such number, and a number that the target cannot hold
/// becomes the nearest that it can. A number of a magnitude below `exact_bound` is converted
/// exactly where the target holds it.
pub open spec fn cast_spec<IT: CType, OT: CType>(value: IT) -> OT {
    saturate_spec::<OT>(double_of(value.as_int()))
}

/// Converts between element types by way of a double-precision floating-point number.
pub fn cast<IT: CType, OT: CType>(value: IT) -> (r: OT)
    ensures
        r == cast_spec::<IT, OT>(value),
{
    saturate::<OT>(nearest_double(value.widen()))
}

} // verus!
