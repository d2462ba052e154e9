//! The numeric capability layer: a common interface through which the
//! combinatorics layer sees a concrete numeric kind.  Each kind embeds into
//! the mathematical integers (`ival`), within fixed bounds, and offers the
//! arithmetic the algorithms need; `Zero`, `One` and `Pow` add the additive
//! identity, the multiplicative identity and exponentiation.

use vstd::prelude::*;
use crate::arith::{ipow, lemma_ipow_nonneg, lemma_ipow_mono_exp};

verus! {

/// A numeric kind whose values embed into the mathematical integers.
///
/// `ival` gives the value of a number, `imin` and `imax` the bounds of the
/// kind; the executable operations are exact on their stated domains, so
/// every fact proved about `ival`s carries over to the machine values.
pub trait Num: Sized + Copy {
    /// The mathematical value of this number.
    spec fn ival(self) -> int;

    /// The smallest value of the kind.
    spec fn imin() -> int;

    /// The largest value of the kind.
    spec fn imax() -> int;

    /// The bounds span `0` and `1`, so the two identities are
    /// representable and distinct.
    proof fn lemma_bounds()
        ensures
            Self::imin() <= 0 < 1 <= Self::imax(),
    ;

    /// Every value lies within the bounds, the bounds span `0` and `1`
    /// (so the two identities are representable and distinct), and the
    /// embedding is injective: equal values are the same number.
    proof fn lemma_num(self, other: Self)
        ensures
            Self::imin() <= self.ival() <= Self::imax(),
            Self::imin() <= 0 < 1 <= Self::imax(),
            self.ival() == other.ival() ==> self == other,
    ;

    fn plus(self, other: Self) -> (r: Self)
        requires
            Self::imin() <= self.ival() + other.ival() <= Self::imax(),
        ensures
            r.ival() == self.ival() + other.ival(),
    ;

    fn minus(self, other: Self) -> (r: Self)
        requires
            Self::imin() <= self.ival() - other.ival() <= Self::imax(),
        ensures
            r.ival() == self.ival() - other.ival(),
    ;

    fn times(self, other: Self) -> (r: Self)
        requires
            Self::imin() <= self.ival() * other.ival() <= Self::imax(),
        ensures
            r.ival() == self.ival() * other.ival(),
    ;

    fn div_by(self, other: Self) -> (r: Self)
        requires
            0 <= self.ival(),
            0 < other.ival(),
        ensures
            r.ival() == self.ival() / other.ival(),
    ;

    fn succ(self) -> (r: Self)
        requires
            self.ival() + 1 <= Self::imax(),
        ensures
            r.ival() == self.ival() + 1,
    ;

    fn le_val(self, other: Self) -> (r: bool)
        ensures
            r == (self.ival() <= other.ival()),
    ;

    fn lt_val(self, other: Self) -> (r: bool)
        ensures
            r == (self.ival() < other.ival()),
    ;

    fn eq_val(self, other: Self) -> (r: bool)
        ensures
            r == (self.ival() == other.ival()),
    ;

    fn to_u32(self) -> (r: u32)
        requires
            0 <= self.ival() <= u32::MAX,
        ensures
            r == self.ival(),
    ;
}

/// A numeric kind with an additive identity.
pub trait Zero: Num {
    fn zero() -> (r: Self)
        ensures
            r.ival() == 0,
    ;
}

/// A numeric kind with a multiplicative identity.
pub trait One: Num {
    fn one() -> (r: Self)
        ensures
            r.ival() == 1,
    ;
}

/// A numeric kind supporting exponentiation by a non-negative exponent.
pub trait Pow: One {
    fn pow(self, exp: u32) -> (r: Self)
        requires
            0 <= self.ival(),
            ipow(self.ival(), exp as nat) <= Self::imax(),
        ensures
            r.ival() == ipow(self.ival(), exp as nat),
    ;
}

/// Exact conversion from another numeric kind, for values that fit;
/// it lets one result kind serve many input kinds.
pub trait FromNum<T: Num>: Num {
    fn from_num(x: T) -> (r: Self)
        requires
            Self::imin() <= x.ival() <= Self::imax(),
        ensures
            r.ival() == x.ival(),
    ;
}

impl<T: Num> FromNum<T> for T {
    fn from_num(x: T) -> Self {
        x
    }
}

/// A number is determined by its mathematical value.  Every contract of
/// the library pins its result's value to a function of the arguments'
/// values, so with this lemma two calls on equal inputs give identical
/// outputs: the whole library is pure.
pub proof fn lemma_value_determines_num<R: Num>(x: R, y: R)
    requires
        x.ival() == y.ival(),
    ensures
        x == y,
{
    x.lemma_num(y);
}

/// Exponentiation by repeated multiplication, shared by every `Pow` kind.
fn pow_of<R: One>(base: R, exp: u32) -> (r: R)
    requires
        0 <= base.ival(),
        ipow(base.ival(), exp as nat) <= R::imax(),
    ensures
        r.ival() == ipow(base.ival(), exp as nat),
{
    let mut acc = R::one();
    let mut i: u32 = 0;
    while i < exp
        invariant
            0 <= base.ival(),
            ipow(base.ival(), exp as nat) <= R::imax(),
            i <= exp,
            acc.ival() == ipow(base.ival(), i as nat),
        decreases exp - i,
    {
        proof {
            base.lemma_num(base);
            let b = base.ival();
            assert(ipow(b, (i + 1) as nat) == b * ipow(b, i as nat));
            lemma_ipow_nonneg(b, (i + 1) as nat);
            if b >= 1 {
                lemma_ipow_mono_exp(b, (i + 1) as nat, exp as nat);
            } else {
                // base is zero: the next power is zero or one
                assert(b == 0);
                assert(b * ipow(b, i as nat) == 0) by (nonlinear_arith)
                    requires b == 0;
            }
            assert(acc.ival() * b == b * ipow(b, i as nat)) by (nonlinear_arith)
                requires acc.ival() == ipow(b, i as nat);
        }
        acc = acc.times(base);
        i = i + 1;
    }
    acc
}

impl Num for u8 {
    open spec fn ival(self) -> int { self as int }
    open spec fn imin() -> int { 0 }
    open spec fn imax() -> int { u8::MAX as int }
    proof fn lemma_bounds() {}
    proof fn lemma_num(self, other: Self) {}
    fn plus(self, other: Self) -> Self { self + other }
    fn minus(self, other: Self) -> Self { self - other }
    fn times(self, other: Self) -> Self { self * other }
    fn div_by(self, other: Self) -> Self { self / other }
    fn succ(self) -> Self { self + 1 }
    fn le_val(self, other: Self) -> bool { self <= other }
    fn lt_val(self, other: Self) -> bool { self < other }
    fn eq_val(self, other: Self) -> bool { self == other }
    fn to_u32(self) -> u32 { self as u32 }
}

impl Zero for u8 {
    fn zero() -> Self { 0 }
}

impl One for u8 {
    fn one() -> Self { 1 }
}

impl Pow for u8 {
    fn pow(self, exp: u32) -> Self { pow_of(self, exp) }
}

impl Num for u32 {
    open spec fn ival(self) -> int { self as int }
    open spec fn imin() -> int { 0 }
    open spec fn imax() -> int { u32::MAX as int }
    proof fn lemma_bounds() {}
    proof fn lemma_num(self, other: Self) {}
    fn plus(self, other: Self) -> Self { self + other }
    fn minus(self, other: Self) -> Self { self - other }
    fn times(self, other: Self) -> Self { self * other }
    fn div_by(self, other: Self) -> Self { self / other }
    fn succ(self) -> Self { self + 1 }
    fn le_val(self, other: Self) -> bool { self <= other }
    fn lt_val(self, other: Self) -> bool { self < other }
    fn eq_val(self, other: Self) -> bool { self == other }
    fn to_u32(self) -> u32 { self }
}

impl Zero for u32 {
    fn zero() -> Self { 0 }
}

impl One for u32 {
    fn one() -> Self { 1 }
}

impl Pow for u32 {
    fn pow(self, exp: u32) -> Self { pow_of(self, exp) }
}

impl Num for i32 {
    open spec fn ival(self) -> int { self as int }
    open spec fn imin() -> int { i32::MIN as int }
    open spec fn imax() -> int { i32::MAX as int }
    proof fn lemma_bounds() {}
    proof fn lemma_num(self, other: Self) {}
    fn plus(self, other: Self) -> Self { self + other }
    fn minus(self, other: Self) -> Self { self - other }
    fn times(self, other: Self) -> Self { self * other }
    fn div_by(self, other: Self) -> Self { ((self as u32) / (other as u32)) as i32 }
    fn succ(self) -> Self { self + 1 }
    fn le_val(self, other: Self) -> bool { self <= other }
    fn lt_val(self, other: Self) -> bool { self < other }
    fn eq_val(self, other: Self) -> bool { self == other }
    fn to_u32(self) -> u32 { self as u32 }
}

impl Zero for i32 {
    fn zero() -> Self { 0 }
}

impl One for i32 {
    fn one() -> Self { 1 }
}

impl Pow for i32 {
    fn pow(self, exp: u32) -> Self { pow_of(self, exp) }
}

impl FromNum<u8> for u32 {
    fn from_num(x: u8) -> Self { x as u32 }
}

impl FromNum<u8> for i32 {
    fn from_num(x: u8) -> Self { x as i32 }
}


impl Num for u16 {
    open spec fn ival(self) -> int { self as int }
    open spec fn imin() -> int { 0 }
    open spec fn imax() -> int { u16::MAX as int }
    proof fn lemma_bounds() {}
    proof fn lemma_num(self, other: Self) {}
    fn plus(self, other: Self) -> Self { self + other }
    fn minus(self, other: Self) -> Self { self - other }
    fn times(self, other: Self) -> Self { self * other }
    fn div_by(self, other: Self) -> Self { self / other }
    fn succ(self) -> Self { self + 1 }
    fn le_val(self, other: Self) -> bool { self <= other }
    fn lt_val(self, other: Self) -> bool { self < other }
    fn eq_val(self, other: Self) -> bool { self == other }
    fn to_u32(self) -> u32 { self as u32 }
}

impl Zero for u16 {
    fn zero() -> Self { 0 }
}

impl One for u16 {
    fn one() -> Self { 1 }
}

impl Pow for u16 {
    fn pow(self, exp: u32) -> Self { pow_of(self, exp) }
}

impl Num for u64 {
    open spec fn ival(self) -> int { self as int }
    open spec fn imin() -> int { 0 }
    open spec fn imax() -> int { u64::MAX as int }
    proof fn lemma_bounds() {}
    proof fn lemma_num(self, other: Self) {}
    fn plus(self, other: Self) -> Self { self + other }
    fn minus(self, other: Self) -> Self { self - other }
    fn times(self, other: Self) -> Self { self * other }
    fn div_by(self, other: Self) -> Self { self / other }
    fn succ(self) -> Self { self + 1 }
    fn le_val(self, other: Self) -> bool { self <= other }
    fn lt_val(self, other: Self) -> bool { self < other }
    fn eq_val(self, other: Self) -> bool { self == other }
    fn to_u32(self) -> u32 { self as u32 }
}

impl Zero for u64 {
    fn zero() -> Self { 0 }
}

impl One for u64 {
    fn one() -> Self { 1 }
}

impl Pow for u64 {
    fn pow(self, exp: u32) -> Self { pow_of(self, exp) }
}

impl Num for usize {
    open spec fn ival(self) -> int { self as int }
    open spec fn imin() -> int { 0 }
    open spec fn imax() -> int { usize::MAX as int }
    proof fn lemma_bounds() {}
    proof fn lemma_num(self, other: Self) {}
    fn plus(self, other: Self) -> Self { self + other }
    fn minus(self, other: Self) -> Self { self - other }
    fn times(self, other: Self) -> Self { self * other }
    fn div_by(self, other: Self) -> Self { self / other }
    fn succ(self) -> Self { self + 1 }
    fn le_val(self, other: Self) -> bool { self <= other }
    fn lt_val(self, other: Self) -> bool { self < other }
    fn eq_val(self, other: Self) -> bool { self == other }
    fn to_u32(self) -> u32 { self as u32 }
}

impl Zero for usize {
    fn zero() -> Self { 0 }
}

impl One for usize {
    fn one() -> Self { 1 }
}

impl Pow for usize {
    fn pow(self, exp: u32) -> Self { pow_of(self, exp) }
}

impl Num for i8 {
    open spec fn ival(self) -> int { self as int }
    open spec fn imin() -> int { i8::MIN as int }
    open spec fn imax() -> int { i8::MAX as int }
    proof fn lemma_bounds() {}
    proof fn lemma_num(self, other: Self) {}
    fn plus(self, other: Self) -> Self { self + other }
    fn minus(self, other: Self) -> Self { self - other }
    fn times(self, other: Self) -> Self { self * other }
    fn div_by(self, other: Self) -> Self { ((self as u8) / (other as u8)) as i8 }
    fn succ(self) -> Self { self + 1 }
    fn le_val(self, other: Self) -> bool { self <= other }
    fn lt_val(self, other: Self) -> bool { self < other }
    fn eq_val(self, other: Self) -> bool { self == other }
    fn to_u32(self) -> u32 { self as u32 }
}

impl Zero for i8 {
    fn zero() -> Self { 0 }
}

impl One for i8 {
    fn one() -> Self { 1 }
}

impl Pow for i8 {
    fn pow(self, exp: u32) -> Self { pow_of(self, exp) }
}

impl Num for i16 {
    open spec fn ival(self) -> int { self as int }
    open spec fn imin() -> int { i16::MIN as int }
    open spec fn imax() -> int { i16::MAX as int }
    proof fn lemma_bounds() {}
    proof fn lemma_num(self, other: Self) {}
    fn plus(self, other: Self) -> Self { self + other }
    fn minus(self, other: Self) -> Self { self - other }
    fn times(self, other: Self) -> Self { self * other }
    fn div_by(self, other: Self) -> Self { ((self as u16) / (other as u16)) as i16 }
    fn succ(self) -> Self { self + 1 }
    fn le_val(self, other: Self) -> bool { self <= other }
    fn lt_val(self, other: Self) -> bool { self < other }
    fn eq_val(self, other: Self) -> bool { self == other }
    fn to_u32(self) -> u32 { self as u32 }
}

impl Zero for i16 {
    fn zero() -> Self { 0 }
}

impl One for i16 {
    fn one() -> Self { 1 }
}

impl Pow for i16 {
    fn pow(self, exp: u32) -> Self { pow_of(self, exp) }
}

impl Num for i64 {
    open spec fn ival(self) -> int { self as int }
    open spec fn imin() -> int { i64::MIN as int }
    open spec fn imax() -> int { i64::MAX as int }
    proof fn lemma_bounds() {}
    proof fn lemma_num(self, other: Self) {}
    fn plus(self, other: Self) -> Self { self + other }
    fn minus(self, other: Self) -> Self { self - other }
    fn times(self, other: Self) -> Self { self * other }
    fn div_by(self, other: Self) -> Self { ((self as u64) / (other as u64)) as i64 }
    fn succ(self) -> Self { self + 1 }
    fn le_val(self, other: Self) -> bool { self <= other }
    fn lt_val(self, other: Self) -> bool { self < other }
    fn eq_val(self, other: Self) -> bool { self == other }
    fn to_u32(self) -> u32 { self as u32 }
}

impl Zero for i64 {
    fn zero() -> Self { 0 }
}

impl One for i64 {
    fn one() -> Self { 1 }
}

impl Pow for i64 {
    fn pow(self, exp: u32) -> Self { pow_of(self, exp) }
}

impl Num for isize {
    open spec fn ival(self) -> int { self as int }
    open spec fn imin() -> int { isize::MIN as int }
    open spec fn imax() -> int { isize::MAX as int }
    proof fn lemma_bounds() {}
    proof fn lemma_num(self, other: Self) {}
    fn plus(self, other: Self) -> Self { self + other }
    fn minus(self, other: Self) -> Self { self - other }
    fn times(self, other: Self) -> Self { self * other }
    fn div_by(self, other: Self) -> Self { ((self as usize) / (other as usize)) as isize }
    fn succ(self) -> Self { self + 1 }
    fn le_val(self, other: Self) -> bool { self <= other }
    fn lt_val(self, other: Self) -> bool { self < other }
    fn eq_val(self, other: Self) -> bool { self == other }
    fn to_u32(self) -> u32 { self as u32 }
}

impl Zero for isize {
    fn zero() -> Self { 0 }
}

impl One for isize {
    fn one() -> Self { 1 }
}

impl Pow for isize {
    fn pow(self, exp: u32) -> Self { pow_of(self, exp) }
}

impl FromNum<u8> for u16 {
    fn from_num(x: u8) -> Self { x as u16 }
}

impl FromNum<u8> for u64 {
    fn from_num(x: u8) -> Self { x as u64 }
}

impl FromNum<u8> for usize {
    fn from_num(x: u8) -> Self { x as usize }
}

impl FromNum<u8> for i16 {
    fn from_num(x: u8) -> Self { x as i16 }
}

impl FromNum<u8> for i64 {
    fn from_num(x: u8) -> Self { x as i64 }
}

impl FromNum<u8> for isize {
    fn from_num(x: u8) -> Self { x as isize }
}

impl FromNum<u16> for u32 {
    fn from_num(x: u16) -> Self { x as u32 }
}

impl FromNum<u16> for u64 {
    fn from_num(x: u16) -> Self { x as u64 }
}

impl FromNum<u16> for usize {
    fn from_num(x: u16) -> Self { x as usize }
}

impl FromNum<u16> for i32 {
    fn from_num(x: u16) -> Self { x as i32 }
}

impl FromNum<u16> for i64 {
    fn from_num(x: u16) -> Self { x as i64 }
}

impl FromNum<u32> for u64 {
    fn from_num(x: u32) -> Self { x as u64 }
}

impl FromNum<u32> for i64 {
    fn from_num(x: u32) -> Self { x as i64 }
}

impl FromNum<i8> for i16 {
    fn from_num(x: i8) -> Self { x as i16 }
}

impl FromNum<i8> for i32 {
    fn from_num(x: i8) -> Self { x as i32 }
}

impl FromNum<i8> for i64 {
    fn from_num(x: i8) -> Self { x as i64 }
}

impl FromNum<i8> for isize {
    fn from_num(x: i8) -> Self { x as isize }
}

impl FromNum<i16> for i32 {
    fn from_num(x: i16) -> Self { x as i32 }
}

impl FromNum<i16> for i64 {
    fn from_num(x: i16) -> Self { x as i64 }
}

impl FromNum<i16> for isize {
    fn from_num(x: i16) -> Self { x as isize }
}

impl FromNum<i32> for i64 {
    fn from_num(x: i32) -> Self { x as i64 }
}

} // verus!
