//! The scalar functions of the elementwise operations, defined over the integers.

use vstd::arithmetic::power::{lemma_pow0, pow};
use vstd::prelude::*;

use crate::ctype::{checked_narrow, narrow_spec, CType};
use crate::error::{outcome, Error, ErrorKind};

verus! {

/// The scalar function of an elementwise operation on two operands.
#[derive(Clone, Copy, Debug, PartialEq, Eq, Structural)]
pub enum ZipOp {
    Add,
    Sub,
    Mul,
    Div,
    Rem,
    Pow,
    And,
    Or,
    Xor,
    Eq,
    Ne,
    Ge,
    Gt,
    Le,
    Lt,
    Max,
    Min,
}

/// The scalar function of an elementwise operation on one operand.
#[derive(Clone, Copy, Debug, PartialEq, Eq, Structural)]
pub enum MapOp {
    Abs,
    Round,
    Not,
}

/// 1 for true, 0 for false.
pub open spec fn truth(b: bool) -> int {
    if b {
        1
    } else {
        0
    }
}

/// The quotient of `x` by `d`, rounded toward zero; `d` is not 0.
pub open spec fn trunc_div(x: int, d: int) -> int {
    if x >= 0 && d > 0 {
        x / d
    } else if x < 0 && d < 0 {
        (-x) / (-d)
    } else if x < 0 {
        -((-x) / d)
    } else {
        -(x / (-d))
    }
}

/// The remainder of `x` by `d` that goes with `trunc_div`: it has the sign of `x`.
pub open spec fn trunc_rem(x: int, d: int) -> int {
    if x >= 0 && d > 0 {
        x % d
    } else if x < 0 && d < 0 {
        -((-x) % (-d))
    } else if x < 0 {
        -((-x) % d)
    } else {
        x % (-d)
    }
}

/// What `op` makes of two integers: division and remainder by zero are arithmetic errors, and a
/// negative exponent is not supported.
pub open spec fn zip_int(op: ZipOp, a: int, b: int) -> Result<int, ErrorKind> {
    match op {
        ZipOp::Add => Ok(a + b),
        ZipOp::Sub => Ok(a - b),
        ZipOp::Mul => Ok(a * b),
        ZipOp::Div => if b == 0 {
            Err(ErrorKind::Arithmetic)
        } else {
            Ok(trunc_div(a, b))
        },
        ZipOp::Rem => if b == 0 {
            Err(ErrorKind::Arithmetic)
        } else {
            Ok(trunc_rem(a, b))
        },
        ZipOp::Pow => if b < 0 {
            Err(ErrorKind::Unsupported)
        } else {
            Ok(pow(a, b as nat))
        },
        ZipOp::And => Ok(truth(a != 0 && b != 0)),
        ZipOp::Or => Ok(truth(a != 0 || b != 0)),
        ZipOp::Xor => Ok(truth((a != 0) != (b != 0))),
        ZipOp::Eq => Ok(truth(a == b)),
        ZipOp::Ne => Ok(truth(a != b)),
        ZipOp::Ge => Ok(truth(a >= b)),
        ZipOp::Gt => Ok(truth(a > b)),
        ZipOp::Le => Ok(truth(a <= b)),
        ZipOp::Lt => Ok(truth(a < b)),
        ZipOp::Max => Ok(if a >= b { a } else { b }),
        ZipOp::Min => Ok(if a <= b { a } else { b }),
    }
}

/// What `op` makes of two elements, as an element of `OT`: a result that `OT` cannot hold is an
/// arithmetic error.
pub open spec fn zip_spec<IT: CType, OT: CType>(op: ZipOp, left: IT, right: IT) -> Result<
    OT,
    ErrorKind,
> {
    match zip_int(op, left.as_int(), right.as_int()) {
        Ok(value) => narrow_spec::<OT>(value),
        Err(kind) => Err(kind),
    }
}

/// What `op` makes of an integer.
pub open spec fn map_int(op: MapOp, a: int) -> int {
    match op {
        MapOp::Abs => if a < 0 {
            -a
        } else {
            a
        },
        MapOp::Round => a,
        MapOp::Not => truth(a == 0),
    }
}

/// What `op` makes of an element, as an element of `OT`: a result that `OT` cannot hold is an
/// arithmetic error.
pub open spec fn map_spec<IT: CType, OT: CType>(op: MapOp, value: IT) -> Result<OT, ErrorKind> {
    narrow_spec::<OT>(map_int(op, value.as_int()))
}

/// The bound of the window in which powers are computed: no element type reaches beyond it.
pub open spec fn window() -> int {
    0x1_0000_0000_0000_0000
}

/// A number outside the window stays outside when it is multiplied by a base of magnitude two or
/// more.
proof fn lemma_escape_step(p: int, base: int)
    requires
        p < -window() || p > window(),
        base <= -2 || base >= 2,
    ensures
        p * base < -window() || p * base > window(),
{
    assert(p * base < -window() || p * base > window()) by (nonlinear_arith)
        requires
            p < -0x1_0000_0000_0000_0000 || p > 0x1_0000_0000_0000_0000,
            base <= -2 || base >= 2,
            window() == 0x1_0000_0000_0000_0000,
    ;
}

/// Once a power of a base of magnitude two or more is outside the window, all higher powers are.
proof fn lemma_escape(base: int, i: nat, e: nat)
    requires
        i <= e,
        base <= -2 || base >= 2,
        pow(base, i) < -window() || pow(base, i) > window(),
    ensures
        pow(base, e) < -window() || pow(base, e) > window(),
    decreases e - i,
{
    if i < e {
        reveal(pow);
        assert(pow(base, (i + 1) as nat) == base * pow(base, i));
        lemma_escape_step(pow(base, i), base);
        assert(pow(base, i) * base == base * pow(base, i)) by (nonlinear_arith);
        lemma_escape(base, (i + 1) as nat, e);
    }
}

/// The powers of 0, 1 and -1.
proof fn lemma_pow_small(base: int, e: nat)
    requires
        -1 <= base <= 1,
    ensures
        base == 0 && e > 0 ==> pow(base, e) == 0,
        base == 1 ==> pow(base, e) == 1,
        base == -1 ==> pow(base, e) == (if e % 2 == 0 { 1int } else { -1int }),
        e == 0 ==> pow(base, e) == 1,
    decreases e,
{
    reveal(pow);
    if e > 0 {
        lemma_pow_small(base, (e - 1) as nat);
        assert(pow(base, e) == base * pow(base, (e - 1) as nat));
    }
}

/// `base` to the power `exp`, where the result lies inside the window.
fn pow_wide(base: i128, exp: i128) -> (r: Option<i128>)
    requires
        -window() <= base <= window(),
        0 <= exp,
    ensures
        -window() <= pow(base as int, exp as nat) <= window() ==> r == Some(
            pow(base as int, exp as nat) as i128,
        ),
        !(-window() <= pow(base as int, exp as nat) <= window()) ==> r is None,
{
    proof {
        lemma_pow_small(if -1 <= base <= 1 { base as int } else { 0 }, exp as nat);
    }
    if exp == 0 {
        proof {
            lemma_pow0(base as int);
        }
        return Some(1);
    }
    if base == 0 || base == 1 {
        return Some(base);
    }
    if base == -1 {
        return Some(if exp % 2 == 0 { 1 } else { -1 });
    }
    let mut acc: i128 = 1;
    let mut i: i128 = 0;
    proof {
        lemma_pow0(base as int);
    }
    while i < exp
        invariant
            0 <= i <= exp,
            base <= -2 || base >= 2,
            -window() <= base <= window(),
            acc == pow(base as int, i as nat),
            -window() <= acc <= window(),
        decreases exp - i,
    {
        let ghost next = pow(base as int, (i + 1) as nat);
        proof {
            reveal(pow);
            assert(next == base * pow(base as int, i as nat));
            assert(next == acc * base) by (nonlinear_arith)
                requires
                    next == base * acc,
            ;
        }
        match acc.checked_mul(base) {
            Some(product) => {
                if product < -0x1_0000_0000_0000_0000 || product > 0x1_0000_0000_0000_0000 {
                    proof {
                        lemma_escape(base as int, (i + 1) as nat, exp as nat);
                    }
                    return None;
                }
                acc = product;
            },
            None => {
                proof {
                    lemma_escape(base as int, (i + 1) as nat, exp as nat);
                }
                return None;
            },
        }
        i = i + 1;
    }
    Some(acc)
}

/// Applies `op` to two elements.
pub fn apply_zip<IT: CType, OT: CType>(op: ZipOp, left: IT, right: IT) -> (r: Result<OT, Error>)
    ensures
        outcome(r) == zip_spec::<IT, OT>(op, left, right),
{
    let a: i128 = left.widen();
    let b: i128 = right.widen();
    proof {
        OT::lemma_limits();
    }
    match op {
        ZipOp::Add => checked_narrow::<OT>(a + b),
        ZipOp::Sub => checked_narrow::<OT>(a - b),
        ZipOp::Mul => match a.checked_mul(b) {
            Some(product) => checked_narrow::<OT>(product),
            None => Err(Error::arithmetic("the product does not fit the element type")),
        },
        ZipOp::Div => match a.checked_div(b) {
            Some(quotient) => checked_narrow::<OT>(quotient),
            None => Err(Error::arithmetic("division by zero")),
        },
        ZipOp::Rem => match a.checked_rem(b) {
            Some(remainder) => checked_narrow::<OT>(remainder),
            None => Err(Error::arithmetic("remainder of a division by zero")),
        },
        ZipOp::Pow => if b < 0 {
            Err(Error::unsupported("a negative exponent of an integer"))
        } else {
            match pow_wide(a, b) {
                Some(power) => checked_narrow::<OT>(power),
                None => Err(Error::arithmetic("the power does not fit the element type")),
            }
        },
        ZipOp::And => checked_narrow::<OT>(if a != 0 && b != 0 { 1 } else { 0 }),
        ZipOp::Or => checked_narrow::<OT>(if a != 0 || b != 0 { 1 } else { 0 }),
        ZipOp::Xor => checked_narrow::<OT>(if (a != 0) != (b != 0) { 1 } else { 0 }),
        ZipOp::Eq => checked_narrow::<OT>(if a == b { 1 } else { 0 }),
        ZipOp::Ne => checked_narrow::<OT>(if a != b { 1 } else { 0 }),
        ZipOp::Ge => checked_narrow::<OT>(if a >= b { 1 } else { 0 }),
        ZipOp::Gt => checked_narrow::<OT>(if a > b { 1 } else { 0 }),
        ZipOp::Le => checked_narrow::<OT>(if a <= b { 1 } else { 0 }),
        ZipOp::Lt => checked_narrow::<OT>(if a < b { 1 } else { 0 }),
        ZipOp::Max => checked_narrow::<OT>(if a >= b { a } else { b }),
        ZipOp::Min => checked_narrow::<OT>(if a <= b { a } else { b }),
    }
}

/// Applies `op` to an element.
pub fn apply_map<IT: CType, OT: CType>(op: MapOp, value: IT) -> (r: Result<OT, Error>)
    ensures
        outcome(r) == map_spec::<IT, OT>(op, value),
{
    let a: i128 = value.widen();
    match op {
        MapOp::Abs => checked_narrow::<OT>(if a < 0 { -a } else { a }),
        MapOp::Round => checked_narrow::<OT>(a),
        MapOp::Not => checked_narrow::<OT>(if a == 0 { 1 } else { 0 }),
    }
}

} // verus!
