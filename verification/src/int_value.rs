//! Integers tagged with their width, with arithmetic that widens as the result needs.

use crate::error::ArithmeticError;
use vstd::prelude::*;

verus! {

/// An integer tagged with its width.
#[derive(Clone, Copy, Debug, PartialEq)]
pub enum IntValue {
    Int8(i8),
    Int16(i16),
    Int32(i32),
    Int64(i64),
}

/// Whether `v` can be held in a signed integer of `bytes` bytes (1, 2, 4 or 8).
pub open spec fn fits(v: int, bytes: int) -> bool {
    if bytes == 1 {
        i8::MIN <= v <= i8::MAX
    } else if bytes == 2 {
        i16::MIN <= v <= i16::MAX
    } else if bytes == 4 {
        i32::MIN <= v <= i32::MAX
    } else {
        bytes == 8 && i64::MIN <= v <= i64::MAX
    }
}

/// The integer `v` under the narrowest tag of at least `from` bytes that holds it;
/// `None` when not even 64 bits hold it.
pub open spec fn widened(v: int, from: int) -> Option<IntValue> {
    if from <= 1 && fits(v, 1) {
        Some(IntValue::Int8(v as i8))
    } else if from <= 2 && fits(v, 2) {
        Some(IntValue::Int16(v as i16))
    } else if from <= 4 && fits(v, 4) {
        Some(IntValue::Int32(v as i32))
    } else if fits(v, 8) {
        Some(IntValue::Int64(v as i64))
    } else {
        None
    }
}

/// What an arithmetic operation with the exact result `v`, carried out at `from` bytes, returns.
pub open spec fn arith(v: int, from: int) -> Result<IntValue, ArithmeticError> {
    match widened(v, from) {
        Some(r) => Ok(r),
        None => Err(ArithmeticError::Overflow),
    }
}

/// The quotient of `x` by `d` rounded toward zero (`d` is not zero).
pub open spec fn trunc_div(x: int, d: int) -> int {
    if x >= 0 && d > 0 {
        x / d
    } else if x < 0 && d < 0 {
        (-x) / (-d)
    } else if x < 0 {
        -((-x) / d)
    } else {
        -(x / (-d))
    }
}

/// What a division of `x` by `d`, carried out at `from` bytes, returns.
pub open spec fn quotient(x: int, d: int, from: int) -> Result<IntValue, ArithmeticError> {
    if d == 0 {
        Err(ArithmeticError::DivisionByZero)
    } else {
        arith(trunc_div(x, d), from)
    }
}

/// The larger of two widths.
pub open spec fn max_bytes(a: int, b: int) -> int {
    if a > b {
        a
    } else {
        b
    }
}

impl IntValue {
    /// The integer held, whatever the tag.
    pub open spec fn value(self) -> int {
        match self {
            IntValue::Int8(i) => i as int,
            IntValue::Int16(i) => i as int,
            IntValue::Int32(i) => i as int,
            IntValue::Int64(i) => i as int,
        }
    }

    /// The width of the tag in bytes.
    pub open spec fn byte_size(self) -> int {
        match self {
            IntValue::Int8(_) => 1,
            IntValue::Int16(_) => 2,
            IntValue::Int32(_) => 4,
            IntValue::Int64(_) => 8,
        }
    }

    /// The value cut down to 8 bits.
    pub fn as_i8(&self) -> (r: i8)
        ensures
            r == self.value() as i8,
            fits(self.value(), 1) ==> r == self.value(),
    {
        match self {
            IntValue::Int8(i) => *i,
            IntValue::Int16(i) => #[verifier::truncate] (*i as i8),
            IntValue::Int32(i) => #[verifier::truncate] (*i as i8),
            IntValue::Int64(i) => #[verifier::truncate] (*i as i8),
        }
    }

    /// The value at 16 bits, cut down where the tag is wider.
    pub fn as_i16(&self) -> (r: i16)
        ensures
            r == self.value() as i16,
            fits(self.value(), 2) ==> r == self.value(),
    {
        match self {
            IntValue::Int8(i) => *i as i16,
            IntValue::Int16(i) => *i,
            IntValue::Int32(i) => #[verifier::truncate] (*i as i16),
            IntValue::Int64(i) => #[verifier::truncate] (*i as i16),
        }
    }

    /// The value at 32 bits, cut down where the tag is wider.
    pub fn as_i32(&self) -> (r: i32)
        ensures
            r == self.value() as i32,
            fits(self.value(), 4) ==> r == self.value(),
    {
        match self {
            IntValue::Int8(i) => *i as i32,
            IntValue::Int16(i) => *i as i32,
            IntValue::Int32(i) => *i,
            IntValue::Int64(i) => #[verifier::truncate] (*i as i32),
        }
    }

    /// The value at 64 bits: every tag fits.
    pub fn as_i64(&self) -> (r: i64)
        ensures
            r == self.value(),
    {
        match self {
            IntValue::Int8(i) => *i as i64,
            IntValue::Int16(i) => *i as i64,
            IntValue::Int32(i) => *i as i64,
            IntValue::Int64(i) => *i,
        }
    }

    /// The width of the tag in bytes: 1, 2, 4 or 8.
    pub fn get_byte_size(&self) -> (r: usize)
        ensures
            r == self.byte_size(),
    {
        match self {
            IntValue::Int8(_) => 1,
            IntValue::Int16(_) => 2,
            IntValue::Int32(_) => 4,
            IntValue::Int64(_) => 8,
        }
    }

    /// The width at which an operation on `self` and `other` is carried out: the wider of the two.
    pub fn use_size_of_biggest(&self, other: &Self) -> (r: usize)
        ensures
            r == max_bytes(self.byte_size(), other.byte_size()),
    {
        if self.get_byte_size() > other.get_byte_size() {
            self.get_byte_size()
        } else {
            other.get_byte_size()
        }
    }

    /// The sum at 8 bits, or at 16 where 8 do not hold it.
    pub fn add_8(lhs: i8, rhs: i8) -> (r: IntValue)
        ensures
            Some(r) == widened(lhs + rhs, 1),
    {
        match lhs.checked_add(rhs) {
            Some(r) => IntValue::Int8(r),
            None => Self::add_16(lhs as i16, rhs as i16),
        }
    }

    /// The sum at 16 bits, or at 32 where 16 do not hold it.
    pub fn add_16(lhs: i16, rhs: i16) -> (r: IntValue)
        ensures
            Some(r) == widened(lhs + rhs, 2),
    {
        match lhs.checked_add(rhs) {
            Some(r) => IntValue::Int16(r),
            None => Self::add_32(lhs as i32, rhs as i32),
        }
    }

    /// The sum at 32 bits, or at 64 where 32 do not hold it.
    pub fn add_32(lhs: i32, rhs: i32) -> (r: IntValue)
        ensures
            Some(r) == widened(lhs + rhs, 4),
    {
        proof {
            lemma_add_bounds(lhs as int, rhs as int);
        }
        match lhs.checked_add(rhs) {
            Some(r) => IntValue::Int32(r),
            None => IntValue::Int64(lhs as i64 + rhs as i64),
        }
    }

    /// The sum at 64 bits; an error where 64 bits do not hold it.
    pub fn add_64(lhs: i64, rhs: i64) -> (r: Result<IntValue, ArithmeticError>)
        ensures
            r == arith(lhs + rhs, 8),
    {
        match lhs.checked_add(rhs) {
            Some(r) => Ok(IntValue::Int64(r)),
            None => Err(ArithmeticError::Overflow),
        }
    }

    /// The sum of two tagged integers, carried out at the wider of the two tags and
    /// widened as far as the result needs.
    pub fn add(self, other: Self) -> (r: Result<IntValue, ArithmeticError>)
        ensures
            r == arith(
                self.value() + other.value(),
                max_bytes(self.byte_size(), other.byte_size()),
            ),
    {
        let size: usize = self.use_size_of_biggest(&other);
        if size == 1 {
            Ok(Self::add_8(self.as_i8(), other.as_i8()))
        } else if size == 2 {
            Ok(Self::add_16(self.as_i16(), other.as_i16()))
        } else if size == 4 {
            Ok(Self::add_32(self.as_i32(), other.as_i32()))
        } else {
            Self::add_64(self.as_i64(), other.as_i64())
        }
    }

    /// The difference at 8 bits, or at 16 where 8 do not hold it.
    pub fn sub_8(lhs: i8, rhs: i8) -> (r: IntValue)
        ensures
            Some(r) == widened(lhs - rhs, 1),
    {
        match lhs.checked_sub(rhs) {
            Some(r) => IntValue::Int8(r),
            None => Self::sub_16(lhs as i16, rhs as i16),
        }
    }

    /// The difference at 16 bits, or at 32 where 16 do not hold it.
    pub fn sub_16(lhs: i16, rhs: i16) -> (r: IntValue)
        ensures
            Some(r) == widened(lhs - rhs, 2),
    {
        match lhs.checked_sub(rhs) {
            Some(r) => IntValue::Int16(r),
            None => Self::sub_32(lhs as i32, rhs as i32),
        }
    }

    /// The difference at 32 bits, or at 64 where 32 do not hold it.
    pub fn sub_32(lhs: i32, rhs: i32) -> (r: IntValue)
        ensures
            Some(r) == widened(lhs - rhs, 4),
    {
        proof {
            lemma_sub_bounds(lhs as int, rhs as int);
        }
        match lhs.checked_sub(rhs) {
            Some(r) => IntValue::Int32(r),
            None => IntValue::Int64(lhs as i64 - rhs as i64),
        }
    }

    /// The difference at 64 bits; an error where 64 bits do not hold it.
    pub fn sub_64(lhs: i64, rhs: i64) -> (r: Result<IntValue, ArithmeticError>)
        ensures
            r == arith(lhs - rhs, 8),
    {
        match lhs.checked_sub(rhs) {
            Some(r) => Ok(IntValue::Int64(r)),
            None => Err(ArithmeticError::Overflow),
        }
    }

    /// The difference of two tagged integers, carried out at the wider of the two tags and
    /// widened as far as the result needs.
    pub fn sub(self, other: Self) -> (r: Result<IntValue, ArithmeticError>)
        ensures
            r == arith(
                self.value() - other.value(),
                max_bytes(self.byte_size(), other.byte_size()),
            ),
    {
        let size: usize = self.use_size_of_biggest(&other);
        if size == 1 {
            Ok(Self::sub_8(self.as_i8(), other.as_i8()))
        } else if size == 2 {
            Ok(Self::sub_16(self.as_i16(), other.as_i16()))
        } else if size == 4 {
            Ok(Self::sub_32(self.as_i32(), other.as_i32()))
        } else {
            Self::sub_64(self.as_i64(), other.as_i64())
        }
    }

    /// The product at 8 bits, or at 16 where 8 do not hold it.
    pub fn mul_8(lhs: i8, rhs: i8) -> (r: IntValue)
        ensures
            Some(r) == widened(lhs * rhs, 1),
    {
        proof {
            lemma_mul_bounds(lhs as int, rhs as int);
        }
        match lhs.checked_mul(rhs) {
            Some(r) => IntValue::Int8(r),
            None => Self::mul_16(lhs as i16, rhs as i16),
        }
    }

    /// The product at 16 bits, or at 32 where 16 do not hold it.
    pub fn mul_16(lhs: i16, rhs: i16) -> (r: IntValue)
        ensures
            Some(r) == widened(lhs * rhs, 2),
    {
        proof {
            lemma_mul_bounds(lhs as int, rhs as int);
        }
        match lhs.checked_mul(rhs) {
            Some(r) => IntValue::Int16(r),
            None => Self::mul_32(lhs as i32, rhs as i32),
        }
    }

    /// The product at 32 bits, or at 64 where 32 do not hold it.
    pub fn mul_32(lhs: i32, rhs: i32) -> (r: IntValue)
        ensures
            Some(r) == widened(lhs * rhs, 4),
    {
        proof {
            lemma_mul_bounds(lhs as int, rhs as int);
        }
        match lhs.checked_mul(rhs) {
            Some(r) => IntValue::Int32(r),
            None => IntValue::Int64(lhs as i64 * rhs as i64),
        }
    }

    /// The product at 64 bits; an error where 64 bits do not hold it.
    pub fn mul_64(lhs: i64, rhs: i64) -> (r: Result<IntValue, ArithmeticError>)
        ensures
            r == arith(lhs * rhs, 8),
    {
        match lhs.checked_mul(rhs) {
            Some(r) => Ok(IntValue::Int64(r)),
            None => Err(ArithmeticError::Overflow),
        }
    }

    /// The product of two tagged integers, carried out at the wider of the two tags and
    /// widened as far as the result needs.
    pub fn mul(self, other: Self) -> (r: Result<IntValue, ArithmeticError>)
        ensures
            r == arith(
                self.value() * other.value(),
                max_bytes(self.byte_size(), other.byte_size()),
            ),
    {
        let size: usize = self.use_size_of_biggest(&other);
        if size == 1 {
            Ok(Self::mul_8(self.as_i8(), other.as_i8()))
        } else if size == 2 {
            Ok(Self::mul_16(self.as_i16(), other.as_i16()))
        } else if size == 4 {
            Ok(Self::mul_32(self.as_i32(), other.as_i32()))
        } else {
            Self::mul_64(self.as_i64(), other.as_i64())
        }
    }

    /// The quotient at 8 bits, or at 16 where 8 do not hold it; an error where `rhs` is zero.
    pub fn div_8(lhs: i8, rhs: i8) -> (r: Result<IntValue, ArithmeticError>)
        ensures
            r == quotient(lhs as int, rhs as int, 1),
    {
        proof {
            if rhs != 0 {
                lemma_trunc_div_bounds(lhs as int, rhs as int);
            }
        }
        match lhs.checked_div(rhs) {
            Some(r) => Ok(IntValue::Int8(r)),
            None => Self::div_16(lhs as i16, rhs as i16),
        }
    }

    /// The quotient at 16 bits, or at 32 where 16 do not hold it; an error where `rhs` is zero.
    pub fn div_16(lhs: i16, rhs: i16) -> (r: Result<IntValue, ArithmeticError>)
        ensures
            r == quotient(lhs as int, rhs as int, 2),
    {
        proof {
            if rhs != 0 {
                lemma_trunc_div_bounds(lhs as int, rhs as int);
            }
        }
        match lhs.checked_div(rhs) {
            Some(r) => Ok(IntValue::Int16(r)),
            None => Self::div_32(lhs as i32, rhs as i32),
        }
    }

    /// The quotient at 32 bits, or at 64 where 32 do not hold it; an error where `rhs` is zero.
    pub fn div_32(lhs: i32, rhs: i32) -> (r: Result<IntValue, ArithmeticError>)
        ensures
            r == quotient(lhs as int, rhs as int, 4),
    {
        proof {
            if rhs != 0 {
                lemma_trunc_div_bounds(lhs as int, rhs as int);
            }
        }
        match lhs.checked_div(rhs) {
            Some(r) => Ok(IntValue::Int32(r)),
            None => Self::div_64(lhs as i64, rhs as i64),
        }
    }

    /// The quotient at 64 bits; an error where `rhs` is zero or 64 bits do not hold the quotient.
    pub fn div_64(lhs: i64, rhs: i64) -> (r: Result<IntValue, ArithmeticError>)
        ensures
            r == quotient(lhs as int, rhs as int, 8),
    {
        proof {
            if rhs != 0 {
                lemma_trunc_div_bounds(lhs as int, rhs as int);
            }
        }
        if rhs == 0 {
            return Err(ArithmeticError::DivisionByZero);
        }
        match lhs.checked_div(rhs) {
            Some(r) => Ok(IntValue::Int64(r)),
            None => Err(ArithmeticError::Overflow),
        }
    }

    /// The quotient of two tagged integers, rounded toward zero, carried out at the wider of
    /// the two tags and widened as far as the result needs.
    pub fn div(self, other: Self) -> (r: Result<IntValue, ArithmeticError>)
        ensures
            r == quotient(
                self.value(),
                other.value(),
                max_bytes(self.byte_size(), other.byte_size()),
            ),
    {
        let size: usize = self.use_size_of_biggest(&other);
        if size == 1 {
            Self::div_8(self.as_i8(), other.as_i8())
        } else if size == 2 {
            Self::div_16(self.as_i16(), other.as_i16())
        } else if size == 4 {
            Self::div_32(self.as_i32(), other.as_i32())
        } else {
            Self::div_64(self.as_i64(), other.as_i64())
        }
    }

    /// Whether `self` equals `other`, as integers: the tags play no part.
    pub fn eq(self, other: Self) -> (r: bool)
        ensures
            r == (self.value() == other.value()),
    {
        let size: usize = self.use_size_of_biggest(&other);
        if size == 1 {
            self.as_i8() == other.as_i8()
        } else if size == 2 {
            self.as_i16() == other.as_i16()
        } else if size == 4 {
            self.as_i32() == other.as_i32()
        } else {
            self.as_i64() == other.as_i64()
        }
    }

    /// Whether `self` differs from `other`, as integers: the tags play no part.
    pub fn ne(self, other: Self) -> (r: bool)
        ensures
            r == (self.value() != other.value()),
    {
        let size: usize = self.use_size_of_biggest(&other);
        if size == 1 {
            self.as_i8() != other.as_i8()
        } else if size == 2 {
            self.as_i16() != other.as_i16()
        } else if size == 4 {
            self.as_i32() != other.as_i32()
        } else {
            self.as_i64() != other.as_i64()
        }
    }

    /// Whether `self` is less than `other`, as integers: the tags play no part.
    pub fn lt(self, other: Self) -> (r: bool)
        ensures
            r == (self.value() < other.value()),
    {
        let size: usize = self.use_size_of_biggest(&other);
        if size == 1 {
            self.as_i8() < other.as_i8()
        } else if size == 2 {
            self.as_i16() < other.as_i16()
        } else if size == 4 {
            self.as_i32() < other.as_i32()
        } else {
            self.as_i64() < other.as_i64()
        }
    }

    /// Whether `self` is at most `other`, as integers: the tags play no part.
    pub fn le(self, other: Self) -> (r: bool)
        ensures
            r == (self.value() <= other.value()),
    {
        let size: usize = self.use_size_of_biggest(&other);
        if size == 1 {
            self.as_i8() <= other.as_i8()
        } else if size == 2 {
            self.as_i16() <= other.as_i16()
        } else if size == 4 {
            self.as_i32() <= other.as_i32()
        } else {
            self.as_i64() <= other.as_i64()
        }
    }

    /// Whether `self` is greater than `other`, as integers: the tags play no part.
    pub fn gt(self, other: Self) -> (r: bool)
        ensures
            r == (self.value() > other.value()),
    {
        let size: usize = self.use_size_of_biggest(&other);
        if size == 1 {
            self.as_i8() > other.as_i8()
        } else if size == 2 {
            self.as_i16() > other.as_i16()
        } else if size == 4 {
            self.as_i32() > other.as_i32()
        } else {
            self.as_i64() > other.as_i64()
        }
    }

    /// Whether `self` is at least `other`, as integers: the tags play no part.
    pub fn ge(self, other: Self) -> (r: bool)
        ensures
            r == (self.value() >= other.value()),
    {
        let size: usize = self.use_size_of_biggest(&other);
        if size == 1 {
            self.as_i8() >= other.as_i8()
        } else if size == 2 {
            self.as_i16() >= other.as_i16()
        } else if size == 4 {
            self.as_i32() >= other.as_i32()
        } else {
            self.as_i64() >= other.as_i64()
        }
    }

} // impl IntValue

/// The sum of two 32-bit integers fits in 64 bits.
pub proof fn lemma_add_bounds(a: int, b: int)
    requires
        fits(a, 4),
        fits(b, 4),
    ensures
        fits(a + b, 8),
{
}

/// The difference of two 32-bit integers fits in 64 bits.
pub proof fn lemma_sub_bounds(a: int, b: int)
    requires
        fits(a, 4),
        fits(b, 4),
    ensures
        fits(a - b, 8),
{
}

/// The product of two integers of one width fits in twice that width.
pub proof fn lemma_mul_bounds(a: int, b: int)
    ensures
        fits(a, 1) && fits(b, 1) ==> fits(a * b, 2),
        fits(a, 2) && fits(b, 2) ==> fits(a * b, 4),
        fits(a, 4) && fits(b, 4) ==> fits(a * b, 8),
{
    if fits(a, 1) && fits(b, 1) {
        assert(-0x4000 <= a * b <= 0x4000) by (nonlinear_arith)
            requires
                -0x80 <= a <= 0x80,
                -0x80 <= b <= 0x80,
        ;
    }
    if fits(a, 2) && fits(b, 2) {
        assert(-0x4000_0000 <= a * b <= 0x4000_0000) by (nonlinear_arith)
            requires
                -0x8000 <= a <= 0x8000,
                -0x8000 <= b <= 0x8000,
        ;
    }
    if fits(a, 4) && fits(b, 4) {
        assert(-0x4000_0000_0000_0000 <= a * b <= 0x4000_0000_0000_0000) by (nonlinear_arith)
            requires
                -0x8000_0000 <= a <= 0x8000_0000,
                -0x8000_0000 <= b <= 0x8000_0000,
        ;
    }
}

/// A quotient rounded toward zero is no larger in magnitude than the dividend.
pub proof fn lemma_trunc_div_bounds(x: int, d: int)
    requires
        d != 0,
    ensures
        x >= 0 ==> -x <= trunc_div(x, d) <= x,
        x < 0 ==> x <= trunc_div(x, d) <= -x,
        x == 0 ==> trunc_div(x, d) == 0,
{
    let ax = if x < 0 { -x } else { x };
    let ad = if d < 0 { -d } else { d };
    assert(0 <= ax / ad <= ax) by (nonlinear_arith)
        requires
            ax >= 0,
            ad > 0,
    ;
}



/// The narrowest width, in bytes, that holds `v`; 16 where 64 bits do not hold it.
pub open spec fn smallest_width(v: int) -> int {
    if fits(v, 1) {
        1
    } else if fits(v, 2) {
        2
    } else if fits(v, 4) {
        4
    } else if fits(v, 8) {
        8
    } else {
        16
    }
}

/// The tag of an arithmetic result: the result is exact, and its tag is the narrowest that
/// holds it among those at least as wide as the wider operand. There is no result exactly
/// where 64 bits do not hold the exact one.
pub proof fn law_result_width(v: int, from: int)
    requires
        from == 1 || from == 2 || from == 4 || from == 8,
    ensures
        match arith(v, from) {
            Ok(r) => r.value() == v && r.byte_size() == max_bytes(from, smallest_width(v)),
            Err(e) => e == ArithmeticError::Overflow && !fits(v, 8),
        },
{
}

/// Where the exact result of an operation needs at least the width of the wider operand,
/// the tag of the result is the narrowest width that holds it.
pub proof fn law_result_width_is_smallest(a: IntValue, b: IntValue, v: int)
    requires
        v == a.value() + b.value() || v == a.value() - b.value() || v == a.value() * b.value()
            || (b.value() != 0 && v == trunc_div(a.value(), b.value())),
        smallest_width(v) >= max_bytes(a.byte_size(), b.byte_size()),
    ensures
        match arith(v, max_bytes(a.byte_size(), b.byte_size())) {
            Ok(r) => r.value() == v && r.byte_size() == smallest_width(v),
            Err(e) => !fits(v, 8),
        },
{
    law_result_width(v, max_bytes(a.byte_size(), b.byte_size()));
}

} // verus!
