//! The error function, and the forms of GELU that are built on it or on its
//! tanh approximation.
//!
//! The error function is Abramowitz and Stegun's approximation 7.1.26, whose
//! error is about 1.5e-7. Constants are given by their binary64 bits.

use core::ops::Neg;
use vstd::prelude::*;

use crate::scalar;
use crate::scalar::{Math, Scalar};

verus! {

/// 0.254829592
pub const ERF_A1: u64 = 0x3FD0_4F20_C6EC_5A7E;

/// -0.284496736
pub const ERF_A2: u64 = 0xBFD2_3531_CC3C_1469;

/// 1.421413741
pub const ERF_A3: u64 = 0x3FF6_BE1C_55BA_E157;

/// -1.453152027
pub const ERF_A4: u64 = 0xBFF7_401C_5701_4C39;

/// 1.061405429
pub const ERF_A5: u64 = 0x3FF0_FB84_4255_A12D;

/// 0.3275911
pub const ERF_P: u64 = 0x3FD4_F740_A93D_7B8C;

/// 0.5
pub const HALF: u64 = 0x3FE0_0000_0000_0000;

/// The square root of 2.
pub const SQRT_2: u64 = 0x3FF6_A09E_667F_3BCD;

/// One over the square root of 2.
pub const INV_SQRT_2: u64 = 0x3FE6_A09E_667F_3BCD;

/// The square root of 2 / pi.
pub const SQRT_2_OVER_PI: u64 = 0x3FE9_8845_33D4_3651;

/// 0.044715
pub const TANH_CUBIC: u64 = 0x3FA6_E4E2_6D48_01F7;

pub open spec fn constant<T, M: Math<T>>(bits: u64) -> T {
    scalar::binary64_of::<T, M>(bits)
}

/// One, with the sign of `x`.
pub open spec fn sign_of<T: Scalar, M: Math<T>>(x: T) -> T {
    if scalar::is_greater::<T, M>(scalar::zero(), x) {
        scalar::negated(scalar::one::<T, M>())
    } else {
        scalar::one::<T, M>()
    }
}

/// `x` without its sign.
pub open spec fn magnitude<T: Scalar, M: Math<T>>(x: T) -> T {
    if scalar::is_greater::<T, M>(scalar::zero(), x) {
        scalar::negated(x)
    } else {
        x
    }
}

/// `((((a5 t + a4) t + a3) t + a2) t + a1) t`
pub open spec fn erf_polynomial<T: Scalar, M: Math<T>>(t: T) -> T {
    let p4 = scalar::plus(scalar::times(constant::<T, M>(ERF_A5), t), constant::<T, M>(ERF_A4));
    let p3 = scalar::plus(scalar::times(p4, t), constant::<T, M>(ERF_A3));
    let p2 = scalar::plus(scalar::times(p3, t), constant::<T, M>(ERF_A2));
    let p1 = scalar::plus(scalar::times(p2, t), constant::<T, M>(ERF_A1));
    scalar::times(p1, t)
}

/// The error function: `sign (1 - polynomial(1 / (1 + p |x|)) exp(-x^2))`.
pub open spec fn erf_of<T: Scalar, M: Math<T>>(x: T) -> T {
    let one = scalar::one::<T, M>();
    let a = magnitude::<T, M>(x);
    let t = scalar::over(one, scalar::plus(one, scalar::times(constant::<T, M>(ERF_P), a)));
    let tail = scalar::exp_of::<T, M>(scalar::times(scalar::negated(a), a));
    scalar::times(
        sign_of::<T, M>(x),
        scalar::minus(one, scalar::times(erf_polynomial::<T, M>(t), tail)),
    )
}

/// The error function.
pub fn erf<T: Scalar, M: Math<T>>(x: T) -> (r: T)
    requires
        scalar::mathematics::<T, M>(),
    ensures
        r == erf_of::<T, M>(x),
{
    let one = M::one();
    let negative = M::greater(T::default(), x);
    let sign = if negative {
        one.neg()
    } else {
        one
    };
    let a = if negative {
        x.neg()
    } else {
        x
    };
    let t = one / (one + M::from_binary64(ERF_P) * a);
    let p4 = M::from_binary64(ERF_A5) * t + M::from_binary64(ERF_A4);
    let p3 = p4 * t + M::from_binary64(ERF_A3);
    let p2 = p3 * t + M::from_binary64(ERF_A2);
    let p1 = p2 * t + M::from_binary64(ERF_A1);
    let tail = M::exp(a.neg() * a);
    sign * (one - (p1 * t) * tail)
}

/// `0.5 x (1 + y)`, the outline of every form of GELU.
pub open spec fn half_gated<T: Scalar, M: Math<T>>(x: T, y: T) -> T {
    scalar::times(
        scalar::times(constant::<T, M>(HALF), x),
        scalar::plus(scalar::one::<T, M>(), y),
    )
}

pub fn gate_half<T: Scalar, M: Math<T>>(x: T, y: T) -> (r: T)
    requires
        scalar::mathematics::<T, M>(),
    ensures
        r == half_gated::<T, M>(x, y),
{
    M::from_binary64(HALF) * x * (M::one() + y)
}

} // verus!
