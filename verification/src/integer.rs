//! The fixed-width integer types that can be parsed into, described by
//! their range, with the overflow-aware arithmetic the parser needs.
use vstd::prelude::*;
use crate::model::{wrap, lemma_wrap_unique};
use vstd::arithmetic::div_mod::{lemma_fundamental_div_mod, lemma_mod_bound};

verus! {

/// A primitive integer type of fixed width, seen as the integers
/// `[min_int(), min_int() + modulus())`, whose arithmetic wraps modulo
/// `modulus()`.
pub trait Integer: Copy + Sized {
    /// The smallest value of the type.
    spec fn min_int() -> int;

    /// The number of values of the type, a power of two.
    spec fn modulus() -> int;

    /// The number a value stands for.
    spec fn to_int(self) -> int;

    /// The range holds at least the values of a byte, is either unsigned
    /// or symmetric two's complement, and contains every value.
    proof fn lemma_bounds(x: Self)
        ensures
            Self::modulus() >= 0x100,
            Self::min_int() == 0 || 2 * Self::min_int() == -Self::modulus(),
            Self::min_int() <= x.to_int() < Self::min_int() + Self::modulus(),
    ;

    /// The value of a small byte.
    fn from_u8(d: u8) -> (r: Self)
        requires
            d <= 0x7f,
        ensures
            r.to_int() == d,
    ;

    /// The wrapped product, and whether the exact product is out of range.
    fn overflowing_mul(self, rhs: Self) -> (r: (Self, bool))
        ensures
            r.0.to_int() == wrap(self.to_int() * rhs.to_int(), Self::min_int(), Self::modulus()),
            r.1 == !(Self::min_int() <= self.to_int() * rhs.to_int() < Self::min_int() + Self::modulus()),
    ;

    /// The wrapped sum, and whether the exact sum is out of range.
    fn overflowing_add(self, rhs: Self) -> (r: (Self, bool))
        ensures
            r.0.to_int() == wrap(self.to_int() + rhs.to_int(), Self::min_int(), Self::modulus()),
            r.1 == !(Self::min_int() <= self.to_int() + rhs.to_int() < Self::min_int() + Self::modulus()),
    ;

    /// The product, where it is in range.
    fn checked_mul(self, rhs: Self) -> (r: Option<Self>)
        ensures
            r is None <==> !(Self::min_int() <= self.to_int() * rhs.to_int() < Self::min_int() + Self::modulus()),
            r matches Some(v) ==> v.to_int() == self.to_int() * rhs.to_int(),
    ;

    /// The sum, where it is in range.
    fn checked_add(self, rhs: Self) -> (r: Option<Self>)
        ensures
            r is None <==> !(Self::min_int() <= self.to_int() + rhs.to_int() < Self::min_int() + Self::modulus()),
            r matches Some(v) ==> v.to_int() == self.to_int() + rhs.to_int(),
    ;

    /// The wrapped negation.
    fn wrapping_neg(self) -> (r: Self)
        ensures
            r.to_int() == wrap(-self.to_int(), Self::min_int(), Self::modulus()),
    ;
}

/// The largest value of an integer type.
pub open spec fn max_of<T: Integer>() -> int {
    T::min_int() + T::modulus() - 1
}

/// Whether a number is a value of the integer type.
pub open spec fn in_range<T: Integer>(x: int) -> bool {
    T::min_int() <= x <= max_of::<T>()
}

/// The value a number wraps to in the integer type.
pub open spec fn wrap_to<T: Integer>(x: int) -> int {
    wrap(x, T::min_int(), T::modulus())
}

/// An unsigned sum that wraps at most once.
proof fn lemma_unsigned_add(p: int, m: int, r: int)
    requires
        m > 0,
        0 <= p < 2 * m,
        r == (if p >= m { p - m } else { p }),
    ensures
        r == wrap(p, 0, m),
{
    if p >= m {
        lemma_wrap_unique(p, r, -1, 0, m);
    } else {
        lemma_wrap_unique(p, r, 0, 0, m);
    }
}

/// An unsigned difference that wraps at most once.
proof fn lemma_unsigned_sub(p: int, m: int, r: int)
    requires
        m > 0,
        -m < p < m,
        r == (if p < 0 { p + m } else { p }),
    ensures
        r == wrap(p, 0, m),
{
    if p < 0 {
        lemma_wrap_unique(p, r, 1, 0, m);
    } else {
        lemma_wrap_unique(p, r, 0, 0, m);
    }
}

/// A signed sum or difference that wraps at most once.
proof fn lemma_signed_add(p: int, h: int, r: int)
    requires
        h > 0,
        -2 * h <= p < 2 * h,
        r == (if p > h - 1 { p - 2 * h } else if p < -h { p + 2 * h } else { p }),
    ensures
        r == wrap(p, -h, 2 * h),
{
    if p > h - 1 {
        lemma_wrap_unique(p, r, -1, -h, 2 * h);
    } else if p < -h {
        lemma_wrap_unique(p, r, 1, -h, 2 * h);
    } else {
        lemma_wrap_unique(p, r, 0, -h, 2 * h);
    }
}

/// A signed product cropped to its low bits.
proof fn lemma_signed_crop(p: int, h: int, r: int)
    requires
        h > 0,
        r == (if p % (2 * h) > h - 1 { p % (2 * h) - 2 * h } else { p % (2 * h) }),
    ensures
        r == wrap(p, -h, 2 * h),
{
    let m = 2 * h;
    lemma_fundamental_div_mod(p, m);
    lemma_mod_bound(p, m);
    let q = p / m;
    assert(m * q == q * m) by (nonlinear_arith);
    if p % m > h - 1 {
        assert(r == p + (-q - 1) * m) by (nonlinear_arith)
            requires
                r == p % m - m,
                p == m * q + p % m,
                m * q == q * m,
        ;
        lemma_wrap_unique(p, r, -q - 1, -h, m);
    } else {
        assert(r == p + (-q) * m) by (nonlinear_arith)
            requires
                r == p % m,
                p == m * q + p % m,
                m * q == q * m,
        ;
        lemma_wrap_unique(p, r, -q, -h, m);
    }
}

impl Integer for u8 {
    open spec fn min_int() -> int {
        0
    }

    open spec fn modulus() -> int {
        0x100
    }

    open spec fn to_int(self) -> int {
        self as int
    }

    proof fn lemma_bounds(x: Self) {
    }

    fn from_u8(d: u8) -> (r: Self) {
        d
    }

    fn overflowing_mul(self, rhs: Self) -> (r: (Self, bool)) {
        let v = u8::wrapping_mul(self, rhs);
        let o = u8::checked_mul(self, rhs).is_none();
        (v, o)
    }

    fn overflowing_add(self, rhs: Self) -> (r: (Self, bool)) {
        let v = u8::wrapping_add(self, rhs);
        let o = u8::checked_add(self, rhs).is_none();
        proof {
            lemma_unsigned_add(self + rhs, Self::modulus(), v as int);
        }
        (v, o)
    }

    fn checked_mul(self, rhs: Self) -> (r: Option<Self>) {
        u8::checked_mul(self, rhs)
    }

    fn checked_add(self, rhs: Self) -> (r: Option<Self>) {
        u8::checked_add(self, rhs)
    }

    fn wrapping_neg(self) -> (r: Self) {
        let v = u8::wrapping_sub(0, self);
        proof {
            lemma_unsigned_sub(-self, Self::modulus(), v as int);
        }
        v
    }
}

impl Integer for i8 {
    open spec fn min_int() -> int {
        -0x80
    }

    open spec fn modulus() -> int {
        0x100
    }

    open spec fn to_int(self) -> int {
        self as int
    }

    proof fn lemma_bounds(x: Self) {
    }

    fn from_u8(d: u8) -> (r: Self) {
        d as i8
    }

    fn overflowing_mul(self, rhs: Self) -> (r: (Self, bool)) {
        let v = i8::wrapping_mul(self, rhs);
        let o = i8::checked_mul(self, rhs).is_none();
        proof {
            lemma_signed_crop(self * rhs, 0x80, v as int);
        }
        (v, o)
    }

    fn overflowing_add(self, rhs: Self) -> (r: (Self, bool)) {
        let v = i8::wrapping_add(self, rhs);
        let o = i8::checked_add(self, rhs).is_none();
        proof {
            lemma_signed_add(self + rhs, 0x80, v as int);
        }
        (v, o)
    }

    fn checked_mul(self, rhs: Self) -> (r: Option<Self>) {
        i8::checked_mul(self, rhs)
    }

    fn checked_add(self, rhs: Self) -> (r: Option<Self>) {
        i8::checked_add(self, rhs)
    }

    fn wrapping_neg(self) -> (r: Self) {
        let v = i8::wrapping_sub(0, self);
        proof {
            lemma_signed_add(-self, 0x80, v as int);
        }
        v
    }
}

impl Integer for u16 {
    open spec fn min_int() -> int {
        0
    }

    open spec fn modulus() -> int {
        0x1_0000
    }

    open spec fn to_int(self) -> int {
        self as int
    }

    proof fn lemma_bounds(x: Self) {
    }

    fn from_u8(d: u8) -> (r: Self) {
        d as u16
    }

    fn overflowing_mul(self, rhs: Self) -> (r: (Self, bool)) {
        let v = u16::wrapping_mul(self, rhs);
        let o = u16::checked_mul(self, rhs).is_none();
        (v, o)
    }

    fn overflowing_add(self, rhs: Self) -> (r: (Self, bool)) {
        let v = u16::wrapping_add(self, rhs);
        let o = u16::checked_add(self, rhs).is_none();
        proof {
            lemma_unsigned_add(self + rhs, Self::modulus(), v as int);
        }
        (v, o)
    }

    fn checked_mul(self, rhs: Self) -> (r: Option<Self>) {
        u16::checked_mul(self, rhs)
    }

    fn checked_add(self, rhs: Self) -> (r: Option<Self>) {
        u16::checked_add(self, rhs)
    }

    fn wrapping_neg(self) -> (r: Self) {
        let v = u16::wrapping_sub(0, self);
        proof {
            lemma_unsigned_sub(-self, Self::modulus(), v as int);
        }
        v
    }
}

impl Integer for u32 {
    open spec fn min_int() -> int {
        0
    }

    open spec fn modulus() -> int {
        0x1_0000_0000
    }

    open spec fn to_int(self) -> int {
        self as int
    }

    proof fn lemma_bounds(x: Self) {
    }

    fn from_u8(d: u8) -> (r: Self) {
        d as u32
    }

    fn overflowing_mul(self, rhs: Self) -> (r: (Self, bool)) {
        let v = u32::wrapping_mul(self, rhs);
        let o = u32::checked_mul(self, rhs).is_none();
        (v, o)
    }

    fn overflowing_add(self, rhs: Self) -> (r: (Self, bool)) {
        let v = u32::wrapping_add(self, rhs);
        let o = u32::checked_add(self, rhs).is_none();
        proof {
            lemma_unsigned_add(self + rhs, Self::modulus(), v as int);
        }
        (v, o)
    }

    fn checked_mul(self, rhs: Self) -> (r: Option<Self>) {
        u32::checked_mul(self, rhs)
    }

    fn checked_add(self, rhs: Self) -> (r: Option<Self>) {
        u32::checked_add(self, rhs)
    }

    fn wrapping_neg(self) -> (r: Self) {
        let v = u32::wrapping_sub(0, self);
        proof {
            lemma_unsigned_sub(-self, Self::modulus(), v as int);
        }
        v
    }
}

impl Integer for u64 {
    open spec fn min_int() -> int {
        0
    }

    open spec fn modulus() -> int {
        0x1_0000_0000_0000_0000
    }

    open spec fn to_int(self) -> int {
        self as int
    }

    proof fn lemma_bounds(x: Self) {
    }

    fn from_u8(d: u8) -> (r: Self) {
        d as u64
    }

    fn overflowing_mul(self, rhs: Self) -> (r: (Self, bool)) {
        let v = u64::wrapping_mul(self, rhs);
        let o = u64::checked_mul(self, rhs).is_none();
        (v, o)
    }

    fn overflowing_add(self, rhs: Self) -> (r: (Self, bool)) {
        let v = u64::wrapping_add(self, rhs);
        let o = u64::checked_add(self, rhs).is_none();
        proof {
            lemma_unsigned_add(self + rhs, Self::modulus(), v as int);
        }
        (v, o)
    }

    fn checked_mul(self, rhs: Self) -> (r: Option<Self>) {
        u64::checked_mul(self, rhs)
    }

    fn checked_add(self, rhs: Self) -> (r: Option<Self>) {
        u64::checked_add(self, rhs)
    }

    fn wrapping_neg(self) -> (r: Self) {
        let v = u64::wrapping_sub(0, self);
        proof {
            lemma_unsigned_sub(-self, Self::modulus(), v as int);
        }
        v
    }
}

impl Integer for u128 {
    open spec fn min_int() -> int {
        0
    }

    open spec fn modulus() -> int {
        0x1_0000_0000_0000_0000_0000_0000_0000_0000int
    }

    open spec fn to_int(self) -> int {
        self as int
    }

    proof fn lemma_bounds(x: Self) {
    }

    fn from_u8(d: u8) -> (r: Self) {
        d as u128
    }

    fn overflowing_mul(self, rhs: Self) -> (r: (Self, bool)) {
        let v = u128::wrapping_mul(self, rhs);
        let o = u128::checked_mul(self, rhs).is_none();
        (v, o)
    }

    fn overflowing_add(self, rhs: Self) -> (r: (Self, bool)) {
        let v = u128::wrapping_add(self, rhs);
        let o = u128::checked_add(self, rhs).is_none();
        proof {
            lemma_unsigned_add(self + rhs, Self::modulus(), v as int);
        }
        (v, o)
    }

    fn checked_mul(self, rhs: Self) -> (r: Option<Self>) {
        u128::checked_mul(self, rhs)
    }

    fn checked_add(self, rhs: Self) -> (r: Option<Self>) {
        u128::checked_add(self, rhs)
    }

    fn wrapping_neg(self) -> (r: Self) {
        let v = u128::wrapping_sub(0, self);
        proof {
            lemma_unsigned_sub(-self, Self::modulus(), v as int);
        }
        v
    }
}

impl Integer for usize {
    open spec fn min_int() -> int {
        0
    }

    open spec fn modulus() -> int {
        usize::MAX as int + 1
    }

    open spec fn to_int(self) -> int {
        self as int
    }

    proof fn lemma_bounds(x: Self) {
    }

    fn from_u8(d: u8) -> (r: Self) {
        d as usize
    }

    fn overflowing_mul(self, rhs: Self) -> (r: (Self, bool)) {
        let v = usize::wrapping_mul(self, rhs);
        let o = usize::checked_mul(self, rhs).is_none();
        (v, o)
    }

    fn overflowing_add(self, rhs: Self) -> (r: (Self, bool)) {
        let v = usize::wrapping_add(self, rhs);
        let o = usize::checked_add(self, rhs).is_none();
        proof {
            lemma_unsigned_add(self + rhs, Self::modulus(), v as int);
        }
        (v, o)
    }

    fn checked_mul(self, rhs: Self) -> (r: Option<Self>) {
        usize::checked_mul(self, rhs)
    }

    fn checked_add(self, rhs: Self) -> (r: Option<Self>) {
        usize::checked_add(self, rhs)
    }

    fn wrapping_neg(self) -> (r: Self) {
        let v = usize::wrapping_sub(0, self);
        proof {
            lemma_unsigned_sub(-self, Self::modulus(), v as int);
        }
        v
    }
}

impl Integer for i16 {
    open spec fn min_int() -> int {
        -0x8000
    }

    open spec fn modulus() -> int {
        0x1_0000
    }

    open spec fn to_int(self) -> int {
        self as int
    }

    proof fn lemma_bounds(x: Self) {
    }

    fn from_u8(d: u8) -> (r: Self) {
        d as i16
    }

    fn overflowing_mul(self, rhs: Self) -> (r: (Self, bool)) {
        let v = i16::wrapping_mul(self, rhs);
        let o = i16::checked_mul(self, rhs).is_none();
        proof {
            lemma_signed_crop(self * rhs, 0x8000, v as int);
        }
        (v, o)
    }

    fn overflowing_add(self, rhs: Self) -> (r: (Self, bool)) {
        let v = i16::wrapping_add(self, rhs);
        let o = i16::checked_add(self, rhs).is_none();
        proof {
            lemma_signed_add(self + rhs, 0x8000, v as int);
        }
        (v, o)
    }

    fn checked_mul(self, rhs: Self) -> (r: Option<Self>) {
        i16::checked_mul(self, rhs)
    }

    fn checked_add(self, rhs: Self) -> (r: Option<Self>) {
        i16::checked_add(self, rhs)
    }

    fn wrapping_neg(self) -> (r: Self) {
        let v = i16::wrapping_sub(0, self);
        proof {
            lemma_signed_add(-self, 0x8000, v as int);
        }
        v
    }
}

impl Integer for i32 {
    open spec fn min_int() -> int {
        -0x8000_0000
    }

    open spec fn modulus() -> int {
        0x1_0000_0000
    }

    open spec fn to_int(self) -> int {
        self as int
    }

    proof fn lemma_bounds(x: Self) {
    }

    fn from_u8(d: u8) -> (r: Self) {
        d as i32
    }

    fn overflowing_mul(self, rhs: Self) -> (r: (Self, bool)) {
        let v = i32::wrapping_mul(self, rhs);
        let o = i32::checked_mul(self, rhs).is_none();
        proof {
            lemma_signed_crop(self * rhs, 0x8000_0000, v as int);
        }
        (v, o)
    }

    fn overflowing_add(self, rhs: Self) -> (r: (Self, bool)) {
        let v = i32::wrapping_add(self, rhs);
        let o = i32::checked_add(self, rhs).is_none();
        proof {
            lemma_signed_add(self + rhs, 0x8000_0000, v as int);
        }
        (v, o)
    }

    fn checked_mul(self, rhs: Self) -> (r: Option<Self>) {
        i32::checked_mul(self, rhs)
    }

    fn checked_add(self, rhs: Self) -> (r: Option<Self>) {
        i32::checked_add(self, rhs)
    }

    fn wrapping_neg(self) -> (r: Self) {
        let v = i32::wrapping_sub(0, self);
        proof {
            lemma_signed_add(-self, 0x8000_0000, v as int);
        }
        v
    }
}

impl Integer for i64 {
    open spec fn min_int() -> int {
        -0x8000_0000_0000_0000
    }

    open spec fn modulus() -> int {
        0x1_0000_0000_0000_0000
    }

    open spec fn to_int(self) -> int {
        self as int
    }

    proof fn lemma_bounds(x: Self) {
    }

    fn from_u8(d: u8) -> (r: Self) {
        d as i64
    }

    fn overflowing_mul(self, rhs: Self) -> (r: (Self, bool)) {
        let v = i64::wrapping_mul(self, rhs);
        let o = i64::checked_mul(self, rhs).is_none();
        proof {
            lemma_signed_crop(self * rhs, 0x8000_0000_0000_0000, v as int);
        }
        (v, o)
    }

    fn overflowing_add(self, rhs: Self) -> (r: (Self, bool)) {
        let v = i64::wrapping_add(self, rhs);
        let o = i64::checked_add(self, rhs).is_none();
        proof {
            lemma_signed_add(self + rhs, 0x8000_0000_0000_0000, v as int);
        }
        (v, o)
    }

    fn checked_mul(self, rhs: Self) -> (r: Option<Self>) {
        i64::checked_mul(self, rhs)
    }

    fn checked_add(self, rhs: Self) -> (r: Option<Self>) {
        i64::checked_add(self, rhs)
    }

    fn wrapping_neg(self) -> (r: Self) {
        let v = i64::wrapping_sub(0, self);
        proof {
            lemma_signed_add(-self, 0x8000_0000_0000_0000, v as int);
        }
        v
    }
}

impl Integer for i128 {
    open spec fn min_int() -> int {
        -0x8000_0000_0000_0000_0000_0000_0000_0000int
    }

    open spec fn modulus() -> int {
        0x1_0000_0000_0000_0000_0000_0000_0000_0000int
    }

    open spec fn to_int(self) -> int {
        self as int
    }

    proof fn lemma_bounds(x: Self) {
    }

    fn from_u8(d: u8) -> (r: Self) {
        d as i128
    }

    fn overflowing_mul(self, rhs: Self) -> (r: (Self, bool)) {
        let v = i128::wrapping_mul(self, rhs);
        let o = i128::checked_mul(self, rhs).is_none();
        proof {
            lemma_signed_crop(self * rhs, 0x8000_0000_0000_0000_0000_0000_0000_0000int, v as int);
        }
        (v, o)
    }

    fn overflowing_add(self, rhs: Self) -> (r: (Self, bool)) {
        let v = i128::wrapping_add(self, rhs);
        let o = i128::checked_add(self, rhs).is_none();
        proof {
            lemma_signed_add(self + rhs, 0x8000_0000_0000_0000_0000_0000_0000_0000int, v as int);
        }
        (v, o)
    }

    fn checked_mul(self, rhs: Self) -> (r: Option<Self>) {
        i128::checked_mul(self, rhs)
    }

    fn checked_add(self, rhs: Self) -> (r: Option<Self>) {
        i128::checked_add(self, rhs)
    }

    fn wrapping_neg(self) -> (r: Self) {
        let v = i128::wrapping_sub(0, self);
        proof {
            lemma_signed_add(-self, 0x8000_0000_0000_0000_0000_0000_0000_0000int, v as int);
        }
        v
    }
}

impl Integer for isize {
    open spec fn min_int() -> int {
        isize::MIN as int
    }

    open spec fn modulus() -> int {
        usize::MAX as int + 1
    }

    open spec fn to_int(self) -> int {
        self as int
    }

    proof fn lemma_bounds(x: Self) {
    }

    fn from_u8(d: u8) -> (r: Self) {
        d as isize
    }

    fn overflowing_mul(self, rhs: Self) -> (r: (Self, bool)) {
        let v = isize::wrapping_mul(self, rhs);
        let o = isize::checked_mul(self, rhs).is_none();
        proof {
            lemma_signed_crop(self * rhs, isize::MAX as int + 1, v as int);
        }
        (v, o)
    }

    fn overflowing_add(self, rhs: Self) -> (r: (Self, bool)) {
        let v = isize::wrapping_add(self, rhs);
        let o = isize::checked_add(self, rhs).is_none();
        proof {
            lemma_signed_add(self + rhs, isize::MAX as int + 1, v as int);
        }
        (v, o)
    }

    fn checked_mul(self, rhs: Self) -> (r: Option<Self>) {
        isize::checked_mul(self, rhs)
    }

    fn checked_add(self, rhs: Self) -> (r: Option<Self>) {
        isize::checked_add(self, rhs)
    }

    fn wrapping_neg(self) -> (r: Self) {
        let v = isize::wrapping_sub(0, self);
        proof {
            lemma_signed_add(-self, isize::MAX as int + 1, v as int);
        }
        v
    }
}

} // verus!
