//! The arithmetic that the kernels are written in.
//!
//! Kernels are generic over the element type `T` and over `M`, which supplies
//! the functions that `std` has no operator for. Contracts speak of the
//! results of these operations through the names defined here.

use core::ops::{Add, Div, Mul, Neg, Sub};
use vstd::prelude::*;
use vstd::std_specs::ops::*;

verus! {

/// An element type with the four operations, negation and a default value,
/// which is its zero.
pub trait Scalar: Copy + Default + Add<Output = Self> + Sub<Output = Self> + Mul<
    Output = Self,
> + Div<Output = Self> + Neg<Output = Self> {

}

impl<T> Scalar for T where
    T: Copy + Default + Add<Output = T> + Sub<Output = T> + Mul<Output = T> + Div<Output = T> + Neg<
        Output = T,
    >,
 {

}

/// Functions of one element, and the few comparisons that kernels make.
pub trait Math<T> {
    /// `e` to the power `x`.
    fn exp(x: T) -> T;

    /// The natural logarithm of `x`.
    fn ln(x: T) -> T;

    /// The square root of `x`.
    fn sqrt(x: T) -> T;

    /// GELU in its tanh form.
    fn gelu(x: T) -> T;

    /// The hyperbolic tangent of `x`.
    fn tanh(x: T) -> T;

    /// `x` times the logistic function of `x`.
    fn silu(x: T) -> T;

    /// The logarithm of one plus `e` to the power `x`.
    fn softplus(x: T) -> T;

    /// `a` to the power `b`.
    fn pow(a: T, b: T) -> T;

    /// The cosine of `x`.
    fn cos(x: T) -> T;

    /// The sine of `x`.
    fn sin(x: T) -> T;

    /// The base frequency of a rotary embedding under dynamic scaling:
    /// `base * factor^(head_dim / (head_dim - 2))`, with both numbers given by
    /// their binary64 bits.
    fn dynamic_base(base: u64, factor: u64, head_dim: usize) -> T;

    /// The larger of two elements.
    fn max(a: T, b: T) -> T;

    /// Whether `a` is greater than `b`.
    fn greater(a: T, b: T) -> bool;

    /// Whether `x` is neither infinite nor undefined.
    fn is_finite(x: T) -> bool;

    /// One.
    fn one() -> T;

    /// An element that no other is below.
    fn lowest() -> T;

    /// The element nearest to a count.
    fn count(n: usize) -> T;

    /// The count that an element is cut down to.
    fn to_count(x: T) -> usize;

    /// The element nearest to a number given by the bits of its IEEE 754
    /// binary64 form.
    fn from_binary64(bits: u64) -> T;
}

pub open spec fn zero<T: Scalar>() -> T {
    choose|z: T| call_ensures(T::default, (), z)
}

pub open spec fn plus<T: Scalar>(a: T, b: T) -> T {
    a.add_spec(b)
}

pub open spec fn minus<T: Scalar>(a: T, b: T) -> T {
    a.sub_spec(b)
}

pub open spec fn times<T: Scalar>(a: T, b: T) -> T {
    a.mul_spec(b)
}

pub open spec fn over<T: Scalar>(a: T, b: T) -> T {
    a.div_spec(b)
}

pub open spec fn negated<T: Scalar>(a: T) -> T {
    a.neg_spec()
}

/// The operators of `T` are functions of their operands, defined everywhere,
/// and its default value is one value.
pub open spec fn arithmetic<T: Scalar>() -> bool {
    &&& <T as AddSpec>::obeys_add_spec()
    &&& <T as SubSpec>::obeys_sub_spec()
    &&& <T as MulSpec>::obeys_mul_spec()
    &&& <T as DivSpec>::obeys_div_spec()
    &&& <T as NegSpec>::obeys_neg_spec()
    &&& forall|a: T, b: T| #[trigger] a.add_req(b)
    &&& forall|a: T, b: T| #[trigger] a.sub_req(b)
    &&& forall|a: T, b: T| #[trigger] a.mul_req(b)
    &&& forall|a: T, b: T| #[trigger] a.div_req(b)
    &&& forall|a: T| #[trigger] a.neg_req()
    &&& forall|z: T| #[trigger] call_ensures(T::default, (), z) ==> z == zero::<T>()
}

pub open spec fn exp_of<T, M: Math<T>>(x: T) -> T {
    choose|y: T| call_ensures(M::exp, (x,), y)
}

pub open spec fn ln_of<T, M: Math<T>>(x: T) -> T {
    choose|y: T| call_ensures(M::ln, (x,), y)
}

pub open spec fn sqrt_of<T, M: Math<T>>(x: T) -> T {
    choose|y: T| call_ensures(M::sqrt, (x,), y)
}

pub open spec fn gelu_of<T, M: Math<T>>(x: T) -> T {
    choose|y: T| call_ensures(M::gelu, (x,), y)
}

pub open spec fn tanh_of<T, M: Math<T>>(x: T) -> T {
    choose|y: T| call_ensures(M::tanh, (x,), y)
}

pub open spec fn silu_of<T, M: Math<T>>(x: T) -> T {
    choose|y: T| call_ensures(M::silu, (x,), y)
}

pub open spec fn softplus_of<T, M: Math<T>>(x: T) -> T {
    choose|y: T| call_ensures(M::softplus, (x,), y)
}

pub open spec fn pow_of<T, M: Math<T>>(a: T, b: T) -> T {
    choose|y: T| call_ensures(M::pow, (a, b), y)
}

pub open spec fn cos_of<T, M: Math<T>>(x: T) -> T {
    choose|y: T| call_ensures(M::cos, (x,), y)
}

pub open spec fn sin_of<T, M: Math<T>>(x: T) -> T {
    choose|y: T| call_ensures(M::sin, (x,), y)
}

pub open spec fn dynamic_base_of<T, M: Math<T>>(base: u64, factor: u64, head_dim: usize) -> T {
    choose|y: T| call_ensures(M::dynamic_base, (base, factor, head_dim), y)
}

pub open spec fn max_of<T, M: Math<T>>(a: T, b: T) -> T {
    choose|y: T| call_ensures(M::max, (a, b), y)
}

pub open spec fn is_greater<T, M: Math<T>>(a: T, b: T) -> bool {
    choose|y: bool| call_ensures(M::greater, (a, b), y)
}

pub open spec fn finite<T, M: Math<T>>(x: T) -> bool {
    choose|y: bool| call_ensures(M::is_finite, (x,), y)
}

pub open spec fn one<T, M: Math<T>>() -> T {
    choose|y: T| call_ensures(M::one, (), y)
}

pub open spec fn lowest<T, M: Math<T>>() -> T {
    choose|y: T| call_ensures(M::lowest, (), y)
}

pub open spec fn count_of<T, M: Math<T>>(n: usize) -> T {
    choose|y: T| call_ensures(M::count, (n,), y)
}

pub open spec fn cut_down<T, M: Math<T>>(x: T) -> usize {
    choose|n: usize| call_ensures(M::to_count, (x,), n)
}

pub open spec fn binary64_of<T, M: Math<T>>(bits: u64) -> T {
    choose|y: T| call_ensures(M::from_binary64, (bits,), y)
}

/// The operators of `T` and the functions of `M` are functions of their
/// operands.
pub open spec fn mathematics<T: Scalar, M: Math<T>>() -> bool {
    &&& arithmetic::<T>()
    &&& forall|x: T, y: T| #[trigger] call_ensures(M::exp, (x,), y) ==> y == exp_of::<T, M>(x)
    &&& forall|x: T, y: T| #[trigger] call_ensures(M::ln, (x,), y) ==> y == ln_of::<T, M>(x)
    &&& forall|x: T, y: T| #[trigger] call_ensures(M::sqrt, (x,), y) ==> y == sqrt_of::<T, M>(x)
    &&& forall|x: T, y: T| #[trigger] call_ensures(M::gelu, (x,), y) ==> y == gelu_of::<T, M>(x)
    &&& forall|x: T, y: T| #[trigger]
        call_ensures(M::tanh, (x,), y) ==> y == tanh_of::<T, M>(x)
    &&& forall|x: T, y: T| #[trigger] call_ensures(M::silu, (x,), y) ==> y == silu_of::<T, M>(x)
    &&& forall|x: T, y: T| #[trigger]
        call_ensures(M::softplus, (x,), y) ==> y == softplus_of::<T, M>(x)
    &&& forall|a: T, b: T, y: T| #[trigger]
        call_ensures(M::pow, (a, b), y) ==> y == pow_of::<T, M>(a, b)
    &&& forall|x: T, y: T| #[trigger] call_ensures(M::cos, (x,), y) ==> y == cos_of::<T, M>(x)
    &&& forall|x: T, y: T| #[trigger] call_ensures(M::sin, (x,), y) ==> y == sin_of::<T, M>(x)
    &&& forall|b: u64, f: u64, d: usize, y: T| #[trigger]
        call_ensures(M::dynamic_base, (b, f, d), y) ==> y == dynamic_base_of::<T, M>(b, f, d)
    &&& forall|a: T, b: T, y: T| #[trigger]
        call_ensures(M::max, (a, b), y) ==> y == max_of::<T, M>(a, b)
    &&& forall|a: T, b: T, y: bool| #[trigger]
        call_ensures(M::greater, (a, b), y) ==> y == is_greater::<T, M>(a, b)
    &&& forall|x: T, y: bool| #[trigger]
        call_ensures(M::is_finite, (x,), y) ==> y == finite::<T, M>(x)
    &&& forall|y: T| #[trigger] call_ensures(M::one, (), y) ==> y == one::<T, M>()
    &&& forall|y: T| #[trigger] call_ensures(M::lowest, (), y) ==> y == lowest::<T, M>()
    &&& forall|n: usize, y: T| #[trigger]
        call_ensures(M::count, (n,), y) ==> y == count_of::<T, M>(n)
    &&& forall|x: T, n: usize| #[trigger]
        call_ensures(M::to_count, (x,), n) ==> n == cut_down::<T, M>(x)
    &&& forall|b: u64, y: T| #[trigger]
        call_ensures(M::from_binary64, (b,), y) ==> y == binary64_of::<T, M>(b)
}

} // verus!
