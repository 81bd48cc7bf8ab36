//! Parsing byte slices into each primitive integer type.
//!
//! The `ato*_slice` functions return the parsed value, wrapping on
//! overflow.  The `try_ato*_slice` functions return the same value
//! together with an error that says whether the whole slice was a number
//! and whether it fit the type.
use vstd::prelude::*;
use crate::model::{lemma_wrap_neg, is_negative, magnitude, parse_end, signed_magnitude};
use crate::integer::{Integer, max_of, wrap_to};
use crate::atoi::{Algorithm, parsed_value, unsigned, signed};

verus! {

/// What went wrong in a parse.
#[derive(Clone, Copy, Debug, PartialEq, Eq)]
pub enum ErrorCode {
    /// The whole input was a number that fit the type.
    Success,
    /// The number did not fit the type; the value wrapped.
    Overflow,
    /// A byte that is no digit ended the number before the input did.
    InvalidDigit,
}

/// The outcome of a parse, with the index of the offending byte for
/// `InvalidDigit` and 0 otherwise.
#[derive(Clone, Copy, Debug, PartialEq, Eq)]
pub struct Error {
    pub code: ErrorCode,
    pub index: usize,
}

/// A parsed value together with the outcome of the parse.
#[derive(Debug, PartialEq, Eq)]
pub struct ParseResult<T> {
    pub value: T,
    pub error: Error,
}

/// A successful parse of `value`.
pub fn success<T>(value: T) -> (r: ParseResult<T>)
    ensures
        r.value == value,
        r.error == (Error { code: ErrorCode::Success, index: 0 }),
{
    ParseResult { value, error: Error { code: ErrorCode::Success, index: 0 } }
}

/// A parse whose number overflowed to `value`.
pub fn overflow_error<T>(value: T) -> (r: ParseResult<T>)
    ensures
        r.value == value,
        r.error == (Error { code: ErrorCode::Overflow, index: 0 }),
{
    ParseResult { value, error: Error { code: ErrorCode::Overflow, index: 0 } }
}

/// A parse that read `value` and stopped at a byte that is no digit, at
/// `index`.
pub fn invalid_digit_error<T>(value: T, index: usize) -> (r: ParseResult<T>)
    ensures
        r.value == value,
        r.error == (Error { code: ErrorCode::InvalidDigit, index }),
{
    ParseResult { value, error: Error { code: ErrorCode::InvalidDigit, index } }
}

/// Whether a buffer overflows an unsigned type: its digits do not fit, or
/// it is negative.
pub open spec fn unsigned_overflow<T: Integer>(s: Seq<u8>, radix: int) -> bool {
    is_negative(s) || magnitude(s, radix) > max_of::<T>()
}

/// Whether a buffer overflows a signed type: its digits do not fit.
pub open spec fn signed_overflow<T: Integer>(s: Seq<u8>, radix: int) -> bool {
    magnitude(s, radix) > max_of::<T>()
}

/// The outcome of parsing a buffer: an overflow first; otherwise success
/// when the buffer is a non-empty number to its end; otherwise an invalid
/// digit where parsing stopped.
pub open spec fn parse_error(s: Seq<u8>, radix: int, overflow: bool) -> Error {
    if overflow {
        Error { code: ErrorCode::Overflow, index: 0 }
    } else if s.len() > 0 && parse_end(s, radix) == s.len() {
        Error { code: ErrorCode::Success, index: 0 }
    } else {
        Error { code: ErrorCode::InvalidDigit, index: parse_end(s, radix) as usize }
    }
}

/// With wrapping accumulation, a buffer parses to its signed number
/// wrapped into the type.
pub proof fn lemma_unchecked_value<T: Integer>(s: Seq<u8>, radix: int)
    ensures
        parsed_value::<T>(s, radix, Algorithm::Unchecked) == wrap_to::<T>(signed_magnitude(s, radix)),
{
    T::lemma_bounds(arbitrary());
    lemma_wrap_neg(magnitude(s, radix), T::min_int(), T::modulus());
}

/// Turn the value, the stop index and the overflow flag of a parse into
/// its outcome.
fn to_result<T>(value: T, end: usize, overflow: bool, len: usize) -> (r: ParseResult<T>)
    ensures
        r.value == value,
        r.error == (if overflow {
            Error { code: ErrorCode::Overflow, index: 0 }
        } else if len > 0 && end == len {
            Error { code: ErrorCode::Success, index: 0 }
        } else {
            Error { code: ErrorCode::InvalidDigit, index: end }
        }),
{
    if overflow {
        overflow_error(value)
    } else if len > 0 && end == len {
        success(value)
    } else {
        invalid_digit_error(value, end)
    }
}

/// Parse a byte slice into a `u8`, wrapping on overflow.
pub fn atou8_slice(radix: u8, bytes: &[u8]) -> (r: u8)
    requires
        2 <= radix <= 36,
    ensures
        r as int == wrap_to::<u8>(signed_magnitude(bytes@, radix as int)),
{
    let (value, _, _) = unsigned::<u8>(radix as u32, bytes, Algorithm::Unchecked);
    proof {
        lemma_unchecked_value::<u8>(bytes@, radix as int);
    }
    value
}

/// Parse a byte slice into a `u8`, wrapping on overflow, and report
/// whether the slice was a number to its end and whether it fit.
pub fn try_atou8_slice(radix: u8, bytes: &[u8]) -> (r: ParseResult<u8>)
    requires
        2 <= radix <= 36,
    ensures
        r.value as int == wrap_to::<u8>(signed_magnitude(bytes@, radix as int)),
        r.error == parse_error(bytes@, radix as int, unsigned_overflow::<u8>(bytes@, radix as int)),
{
    let (value, end, overflow) = unsigned::<u8>(radix as u32, bytes, Algorithm::Unchecked);
    proof {
        lemma_unchecked_value::<u8>(bytes@, radix as int);
    }
    to_result(value, end, overflow, bytes.len())
}

/// Parse a byte slice into a `u16`, wrapping on overflow.
pub fn atou16_slice(radix: u8, bytes: &[u8]) -> (r: u16)
    requires
        2 <= radix <= 36,
    ensures
        r as int == wrap_to::<u16>(signed_magnitude(bytes@, radix as int)),
{
    let (value, _, _) = unsigned::<u16>(radix as u32, bytes, Algorithm::Unchecked);
    proof {
        lemma_unchecked_value::<u16>(bytes@, radix as int);
    }
    value
}

/// Parse a byte slice into a `u16`, wrapping on overflow, and report
/// whether the slice was a number to its end and whether it fit.
pub fn try_atou16_slice(radix: u8, bytes: &[u8]) -> (r: ParseResult<u16>)
    requires
        2 <= radix <= 36,
    ensures
        r.value as int == wrap_to::<u16>(signed_magnitude(bytes@, radix as int)),
        r.error == parse_error(bytes@, radix as int, unsigned_overflow::<u16>(bytes@, radix as int)),
{
    let (value, end, overflow) = unsigned::<u16>(radix as u32, bytes, Algorithm::Unchecked);
    proof {
        lemma_unchecked_value::<u16>(bytes@, radix as int);
    }
    to_result(value, end, overflow, bytes.len())
}

/// Parse a byte slice into a `u32`, wrapping on overflow.
pub fn atou32_slice(radix: u8, bytes: &[u8]) -> (r: u32)
    requires
        2 <= radix <= 36,
    ensures
        r as int == wrap_to::<u32>(signed_magnitude(bytes@, radix as int)),
{
    let (value, _, _) = unsigned::<u32>(radix as u32, bytes, Algorithm::Unchecked);
    proof {
        lemma_unchecked_value::<u32>(bytes@, radix as int);
    }
    value
}

/// Parse a byte slice into a `u32`, wrapping on overflow, and report
/// whether the slice was a number to its end and whether it fit.
pub fn try_atou32_slice(radix: u8, bytes: &[u8]) -> (r: ParseResult<u32>)
    requires
        2 <= radix <= 36,
    ensures
        r.value as int == wrap_to::<u32>(signed_magnitude(bytes@, radix as int)),
        r.error == parse_error(bytes@, radix as int, unsigned_overflow::<u32>(bytes@, radix as int)),
{
    let (value, end, overflow) = unsigned::<u32>(radix as u32, bytes, Algorithm::Unchecked);
    proof {
        lemma_unchecked_value::<u32>(bytes@, radix as int);
    }
    to_result(value, end, overflow, bytes.len())
}

/// Parse a byte slice into a `u64`, wrapping on overflow.
pub fn atou64_slice(radix: u8, bytes: &[u8]) -> (r: u64)
    requires
        2 <= radix <= 36,
    ensures
        r as int == wrap_to::<u64>(signed_magnitude(bytes@, radix as int)),
{
    let (value, _, _) = unsigned::<u64>(radix as u32, bytes, Algorithm::Unchecked);
    proof {
        lemma_unchecked_value::<u64>(bytes@, radix as int);
    }
    value
}

/// Parse a byte slice into a `u64`, wrapping on overflow, and report
/// whether the slice was a number to its end and whether it fit.
pub fn try_atou64_slice(radix: u8, bytes: &[u8]) -> (r: ParseResult<u64>)
    requires
        2 <= radix <= 36,
    ensures
        r.value as int == wrap_to::<u64>(signed_magnitude(bytes@, radix as int)),
        r.error == parse_error(bytes@, radix as int, unsigned_overflow::<u64>(bytes@, radix as int)),
{
    let (value, end, overflow) = unsigned::<u64>(radix as u32, bytes, Algorithm::Unchecked);
    proof {
        lemma_unchecked_value::<u64>(bytes@, radix as int);
    }
    to_result(value, end, overflow, bytes.len())
}

/// Parse a byte slice into a `u128`, wrapping on overflow.
pub fn atou128_slice(radix: u8, bytes: &[u8]) -> (r: u128)
    requires
        2 <= radix <= 36,
    ensures
        r as int == wrap_to::<u128>(signed_magnitude(bytes@, radix as int)),
{
    let (value, _, _) = unsigned::<u128>(radix as u32, bytes, Algorithm::Unchecked);
    proof {
        lemma_unchecked_value::<u128>(bytes@, radix as int);
    }
    value
}

/// Parse a byte slice into a `u128`, wrapping on overflow, and report
/// whether the slice was a number to its end and whether it fit.
pub fn try_atou128_slice(radix: u8, bytes: &[u8]) -> (r: ParseResult<u128>)
    requires
        2 <= radix <= 36,
    ensures
        r.value as int == wrap_to::<u128>(signed_magnitude(bytes@, radix as int)),
        r.error == parse_error(bytes@, radix as int, unsigned_overflow::<u128>(bytes@, radix as int)),
{
    let (value, end, overflow) = unsigned::<u128>(radix as u32, bytes, Algorithm::Unchecked);
    proof {
        lemma_unchecked_value::<u128>(bytes@, radix as int);
    }
    to_result(value, end, overflow, bytes.len())
}

/// Parse a byte slice into a `usize`, wrapping on overflow.
pub fn atousize_slice(radix: u8, bytes: &[u8]) -> (r: usize)
    requires
        2 <= radix <= 36,
    ensures
        r as int == wrap_to::<usize>(signed_magnitude(bytes@, radix as int)),
{
    let (value, _, _) = unsigned::<usize>(radix as u32, bytes, Algorithm::Unchecked);
    proof {
        lemma_unchecked_value::<usize>(bytes@, radix as int);
    }
    value
}

/// Parse a byte slice into a `usize`, wrapping on overflow, and report
/// whether the slice was a number to its end and whether it fit.
pub fn try_atousize_slice(radix: u8, bytes: &[u8]) -> (r: ParseResult<usize>)
    requires
        2 <= radix <= 36,
    ensures
        r.value as int == wrap_to::<usize>(signed_magnitude(bytes@, radix as int)),
        r.error == parse_error(bytes@, radix as int, unsigned_overflow::<usize>(bytes@, radix as int)),
{
    let (value, end, overflow) = unsigned::<usize>(radix as u32, bytes, Algorithm::Unchecked);
    proof {
        lemma_unchecked_value::<usize>(bytes@, radix as int);
    }
    to_result(value, end, overflow, bytes.len())
}

/// Parse a byte slice into a `i8`, wrapping on overflow.
pub fn atoi8_slice(radix: u8, bytes: &[u8]) -> (r: i8)
    requires
        2 <= radix <= 36,
    ensures
        r as int == wrap_to::<i8>(signed_magnitude(bytes@, radix as int)),
{
    let (value, _, _) = signed::<i8>(radix as u32, bytes, Algorithm::Unchecked);
    proof {
        lemma_unchecked_value::<i8>(bytes@, radix as int);
    }
    value
}

/// Parse a byte slice into a `i8`, wrapping on overflow, and report
/// whether the slice was a number to its end and whether it fit.
pub fn try_atoi8_slice(radix: u8, bytes: &[u8]) -> (r: ParseResult<i8>)
    requires
        2 <= radix <= 36,
    ensures
        r.value as int == wrap_to::<i8>(signed_magnitude(bytes@, radix as int)),
        r.error == parse_error(bytes@, radix as int, signed_overflow::<i8>(bytes@, radix as int)),
{
    let (value, end, overflow) = signed::<i8>(radix as u32, bytes, Algorithm::Unchecked);
    proof {
        lemma_unchecked_value::<i8>(bytes@, radix as int);
    }
    to_result(value, end, overflow, bytes.len())
}

/// Parse a byte slice into a `i16`, wrapping on overflow.
pub fn atoi16_slice(radix: u8, bytes: &[u8]) -> (r: i16)
    requires
        2 <= radix <= 36,
    ensures
        r as int == wrap_to::<i16>(signed_magnitude(bytes@, radix as int)),
{
    let (value, _, _) = signed::<i16>(radix as u32, bytes, Algorithm::Unchecked);
    proof {
        lemma_unchecked_value::<i16>(bytes@, radix as int);
    }
    value
}

/// Parse a byte slice into a `i16`, wrapping on overflow, and report
/// whether the slice was a number to its end and whether it fit.
pub fn try_atoi16_slice(radix: u8, bytes: &[u8]) -> (r: ParseResult<i16>)
    requires
        2 <= radix <= 36,
    ensures
        r.value as int == wrap_to::<i16>(signed_magnitude(bytes@, radix as int)),
        r.error == parse_error(bytes@, radix as int, signed_overflow::<i16>(bytes@, radix as int)),
{
    let (value, end, overflow) = signed::<i16>(radix as u32, bytes, Algorithm::Unchecked);
    proof {
        lemma_unchecked_value::<i16>(bytes@, radix as int);
    }
    to_result(value, end, overflow, bytes.len())
}

/// Parse a byte slice into a `i32`, wrapping on overflow.
pub fn atoi32_slice(radix: u8, bytes: &[u8]) -> (r: i32)
    requires
        2 <= radix <= 36,
    ensures
        r as int == wrap_to::<i32>(signed_magnitude(bytes@, radix as int)),
{
    let (value, _, _) = signed::<i32>(radix as u32, bytes, Algorithm::Unchecked);
    proof {
        lemma_unchecked_value::<i32>(bytes@, radix as int);
    }
    value
}

/// Parse a byte slice into a `i32`, wrapping on overflow, and report
/// whether the slice was a number to its end and whether it fit.
pub fn try_atoi32_slice(radix: u8, bytes: &[u8]) -> (r: ParseResult<i32>)
    requires
        2 <= radix <= 36,
    ensures
        r.value as int == wrap_to::<i32>(signed_magnitude(bytes@, radix as int)),
        r.error == parse_error(bytes@, radix as int, signed_overflow::<i32>(bytes@, radix as int)),
{
    let (value, end, overflow) = signed::<i32>(radix as u32, bytes, Algorithm::Unchecked);
    proof {
        lemma_unchecked_value::<i32>(bytes@, radix as int);
    }
    to_result(value, end, overflow, bytes.len())
}

/// Parse a byte slice into a `i64`, wrapping on overflow.
pub fn atoi64_slice(radix: u8, bytes: &[u8]) -> (r: i64)
    requires
        2 <= radix <= 36,
    ensures
        r as int == wrap_to::<i64>(signed_magnitude(bytes@, radix as int)),
{
    let (value, _, _) = signed::<i64>(radix as u32, bytes, Algorithm::Unchecked);
    proof {
        lemma_unchecked_value::<i64>(bytes@, radix as int);
    }
    value
}

/// Parse a byte slice into a `i64`, wrapping on overflow, and report
/// whether the slice was a number to its end and whether it fit.
pub fn try_atoi64_slice(radix: u8, bytes: &[u8]) -> (r: ParseResult<i64>)
    requires
        2 <= radix <= 36,
    ensures
        r.value as int == wrap_to::<i64>(signed_magnitude(bytes@, radix as int)),
        r.error == parse_error(bytes@, radix as int, signed_overflow::<i64>(bytes@, radix as int)),
{
    let (value, end, overflow) = signed::<i64>(radix as u32, bytes, Algorithm::Unchecked);
    proof {
        lemma_unchecked_value::<i64>(bytes@, radix as int);
    }
    to_result(value, end, overflow, bytes.len())
}

/// Parse a byte slice into a `i128`, wrapping on overflow.
pub fn atoi128_slice(radix: u8, bytes: &[u8]) -> (r: i128)
    requires
        2 <= radix <= 36,
    ensures
        r as int == wrap_to::<i128>(signed_magnitude(bytes@, radix as int)),
{
    let (value, _, _) = signed::<i128>(radix as u32, bytes, Algorithm::Unchecked);
    proof {
        lemma_unchecked_value::<i128>(bytes@, radix as int);
    }
    value
}

/// Parse a byte slice into a `i128`, wrapping on overflow, and report
/// whether the slice was a number to its end and whether it fit.
pub fn try_atoi128_slice(radix: u8, bytes: &[u8]) -> (r: ParseResult<i128>)
    requires
        2 <= radix <= 36,
    ensures
        r.value as int == wrap_to::<i128>(signed_magnitude(bytes@, radix as int)),
        r.error == parse_error(bytes@, radix as int, signed_overflow::<i128>(bytes@, radix as int)),
{
    let (value, end, overflow) = signed::<i128>(radix as u32, bytes, Algorithm::Unchecked);
    proof {
        lemma_unchecked_value::<i128>(bytes@, radix as int);
    }
    to_result(value, end, overflow, bytes.len())
}

/// Parse a byte slice into a `isize`, wrapping on overflow.
pub fn atoisize_slice(radix: u8, bytes: &[u8]) -> (r: isize)
    requires
        2 <= radix <= 36,
    ensures
        r as int == wrap_to::<isize>(signed_magnitude(bytes@, radix as int)),
{
    let (value, _, _) = signed::<isize>(radix as u32, bytes, Algorithm::Unchecked);
    proof {
        lemma_unchecked_value::<isize>(bytes@, radix as int);
    }
    value
}

/// Parse a byte slice into a `isize`, wrapping on overflow, and report
/// whether the slice was a number to its end and whether it fit.
pub fn try_atoisize_slice(radix: u8, bytes: &[u8]) -> (r: ParseResult<isize>)
    requires
        2 <= radix <= 36,
    ensures
        r.value as int == wrap_to::<isize>(signed_magnitude(bytes@, radix as int)),
        r.error == parse_error(bytes@, radix as int, signed_overflow::<isize>(bytes@, radix as int)),
{
    let (value, end, overflow) = signed::<isize>(radix as u32, bytes, Algorithm::Unchecked);
    proof {
        lemma_unchecked_value::<isize>(bytes@, radix as int);
    }
    to_result(value, end, overflow, bytes.len())
}

} // verus!
