use lib::api::{
    atoi128_slice, atoi16_slice, atoi32_slice, atoi8_slice, atoisize_slice, atou128_slice,
    atou16_slice, atou32_slice, atou8_slice, atousize_slice, invalid_digit_error,
    overflow_error, success, try_atoi128_slice, try_atoi8_slice, try_atoisize_slice,
    try_atou128_slice, try_atou8_slice, try_atousize_slice, Error, ErrorCode, ParseResult,
};
use lib::atoi::{
    char_to_digit, checked, filter_sign, parse_digit, signed, unchecked, unsigned, value,
    Algorithm,
};
use lib::integer::Integer;
use lib::state::ParseState;

#[test]
fn char_to_digit_values() {
    assert_eq!(char_to_digit(b'0'), 0);
    assert_eq!(char_to_digit(b'9'), 9);
    assert_eq!(char_to_digit(b'a'), 10);
    assert_eq!(char_to_digit(b'A'), 10);
    assert_eq!(char_to_digit(b'z'), 35);
    assert_eq!(char_to_digit(b'Z'), 35);
    assert_eq!(char_to_digit(b'+'), 36);
    assert_eq!(char_to_digit(b'/'), 36);
    assert_eq!(char_to_digit(b':'), 36);
    assert_eq!(char_to_digit(b'@'), 36);
    assert_eq!(char_to_digit(b'['), 36);
    assert_eq!(char_to_digit(b'`'), 36);
    assert_eq!(char_to_digit(b'{'), 36);
    assert_eq!(char_to_digit(0xff), 36);
}

#[test]
fn parse_digit_respects_radix() {
    assert_eq!(parse_digit(b'1', 2), Some(1));
    assert_eq!(parse_digit(b'2', 2), None);
    assert_eq!(parse_digit(b'f', 16), Some(15));
    assert_eq!(parse_digit(b'G', 16), None);
    assert_eq!(parse_digit(b'z', 36), Some(35));
    assert_eq!(parse_digit(b'-', 36), None);
}

#[test]
fn parse_state_methods() {
    let mut state = ParseState::new(3);
    assert_eq!(state.curr, 3);
    assert!(!state.is_truncated());
    assert_eq!(state.truncated_bytes(), 0);
    state.increment();
    assert_eq!(state.curr, 4);
    state.trunc = Some(2);
    assert!(state.is_truncated());
    assert_eq!(state.truncated_bytes(), 2);
    let mut zeros = ParseState::new(1);
    zeros.ltrim_char(b"-00012", b'0');
    assert_eq!(zeros.curr, 4);
    let mut none = ParseState::new(0);
    none.ltrim_char(b"12", b'0');
    assert_eq!(none.curr, 0);
}

#[test]
fn integer_trait_arithmetic() {
    assert_eq!(200u8.overflowing_mul(2), (144, true));
    assert_eq!(100u8.overflowing_mul(2), (200, false));
    assert_eq!(250u8.overflowing_add(10), (4, true));
    assert_eq!(100i8.overflowing_mul(2), (-56, true));
    assert_eq!(120i8.overflowing_add(10), (-126, true));
    assert_eq!(Integer::checked_mul(100i8, 2i8), None);
    assert_eq!(Integer::checked_add(100u8, 100u8), Some(200));
    assert_eq!(Integer::wrapping_neg(5u8), 251);
    assert_eq!(Integer::wrapping_neg(-128i8), -128);
    assert_eq!(Integer::wrapping_neg(7i64), -7);
    assert_eq!(<u32 as Integer>::from_u8(36), 36);
    assert_eq!(<isize as Integer>::from_u8(10), 10);
}

#[test]
fn unchecked_wraps_and_records_overflow_position() {
    // 300 = 256 + 44; the third digit is the first that overflows a u8.
    let mut value: u8 = 0;
    let mut state = ParseState::new(0);
    unchecked(&mut value, &mut state, 10, b"300x");
    assert_eq!(value, 44);
    assert_eq!(state.curr, 3);
    assert_eq!(state.trunc, Some(2));
    assert_eq!(state.truncated_bytes(), 1);
}

#[test]
fn checked_keeps_longest_fitting_prefix() {
    let mut value: u8 = 0;
    let mut state = ParseState::new(0);
    checked(&mut value, &mut state, 10, b"3000");
    assert_eq!(value, 30);
    assert_eq!(state.curr, 4);
    assert_eq!(state.trunc, Some(2));
    assert_eq!(state.truncated_bytes(), 2);
}

#[test]
fn loops_keep_an_earlier_overflow() {
    let mut value: u8 = 7;
    let mut state = ParseState { curr: 1, trunc: Some(0) };
    checked(&mut value, &mut state, 10, b"x99");
    assert_eq!(value, 7);
    assert_eq!(state.curr, 3);
    assert_eq!(state.trunc, Some(0));
    let mut value: u8 = 7;
    let mut state = ParseState { curr: 1, trunc: Some(0) };
    unchecked(&mut value, &mut state, 10, b"x99");
    assert_eq!(value, 799u32 as u8);
    assert_eq!(state.trunc, Some(0));
}

#[test]
fn value_skips_leading_zeros() {
    let mut state = ParseState::new(1);
    let v: u16 = value(&mut state, 10, b"+000120z", Algorithm::Unchecked);
    assert_eq!(v, 120);
    assert_eq!(state.curr, 7);
    assert!(!state.is_truncated());
}

#[test]
fn filter_sign_reports_the_sign() {
    let mut state = ParseState::new(0);
    let (v, sign): (i32, i32) = filter_sign(&mut state, 10, b"-42", Algorithm::Unchecked);
    assert_eq!((v, sign), (42, -1));
    assert_eq!(state.curr, 3);
    let mut state = ParseState::new(0);
    let (v, sign): (i32, i32) = filter_sign(&mut state, 10, b"+42", Algorithm::Checked);
    assert_eq!((v, sign), (42, 1));
    let mut state = ParseState::new(2);
    let (v, sign): (i32, i32) = filter_sign(&mut state, 10, b"42", Algorithm::Unchecked);
    assert_eq!((v, sign), (0, 1));
    assert_eq!(state.curr, 2);
}

#[test]
fn unsigned_and_signed_report_stop_and_overflow() {
    assert_eq!(unsigned::<u8>(10, b"", Algorithm::Unchecked), (0, 0, false));
    assert_eq!(unsigned::<u8>(10, b"25x", Algorithm::Unchecked), (25, 2, false));
    assert_eq!(unsigned::<u8>(10, b"-0", Algorithm::Unchecked), (0, 2, true));
    assert_eq!(unsigned::<u8>(10, b"-2", Algorithm::Unchecked), (254, 2, true));
    assert_eq!(unsigned::<u8>(10, b"999", Algorithm::Checked), (99, 3, true));
    assert_eq!(unsigned::<u8>(10, b"999", Algorithm::Unchecked), (231, 3, true));
    assert_eq!(signed::<i8>(10, b"-128", Algorithm::Unchecked), (-128, 4, true));
    assert_eq!(signed::<i8>(10, b"-127", Algorithm::Unchecked), (-127, 4, false));
    assert_eq!(signed::<i8>(10, b"-999", Algorithm::Checked), (-99, 4, true));
    assert_eq!(signed::<i8>(16, b"7f", Algorithm::Checked), (127, 2, false));
}

#[test]
fn plus_sign_changes_nothing() {
    assert_eq!(atoi32_slice(10, b"+1234"), atoi32_slice(10, b"1234"));
    assert_eq!(try_atou8_slice(10, b"+12"), success(12));
    assert_eq!(try_atou8_slice(10, b"+"), success(0));
}

#[test]
fn minus_sign_negates_with_wrapping() {
    assert_eq!(atoi32_slice(10, b"-1234"), atoi32_slice(10, b"1234").wrapping_neg());
    assert_eq!(atou16_slice(10, b"-1234"), atou16_slice(10, b"1234").wrapping_neg());
    assert_eq!(try_atou8_slice(10, b"-0"), overflow_error(0));
    assert_eq!(try_atoi8_slice(10, b"-127"), success(-127));
}

#[test]
fn leading_zeros_change_nothing() {
    assert_eq!(atou32_slice(10, b"0000042"), 42);
    assert_eq!(atoi16_slice(10, b"-0000042"), -42);
    assert_eq!(try_atou8_slice(10, b"000255"), success(255));
    assert_eq!(atou8_slice(10, b"000"), 0);
}

#[test]
fn trailing_bytes_after_a_non_digit_change_nothing() {
    assert_eq!(try_atou8_slice(10, b"12x"), invalid_digit_error(12, 2));
    assert_eq!(try_atou8_slice(10, b"12x99999"), invalid_digit_error(12, 2));
    assert_eq!(try_atou8_slice(10, b"-"), overflow_error(0));
    assert_eq!(try_atoi8_slice(10, b"x"), invalid_digit_error(0, 0));
}

#[test]
fn overflow_takes_precedence_over_invalid_digits() {
    assert_eq!(try_atou8_slice(10, b"256x"), overflow_error(0));
    assert_eq!(try_atoi8_slice(10, b"-129?"), overflow_error(127));
}

#[test]
fn negating_the_minimum_overflows_to_itself() {
    assert_eq!(atoi8_slice(10, b"-128"), i8::MIN);
    assert_eq!(try_atoi8_slice(10, b"-128"), overflow_error(i8::MIN));
    assert_eq!(atoi128_slice(10, b"-170141183460469231731687303715884105728"), i128::MIN);
}

#[test]
fn exact_when_no_overflow() {
    assert_eq!(try_atoi16_slice_exact(b"-32767"), -32767);
    assert_eq!(try_atou128_slice(10, b"340282366920938463463374607431768211455"), success(u128::MAX));
    assert_eq!(try_atoi128_slice(10, b"170141183460469231731687303715884105727"), success(i128::MAX));
    assert_eq!(try_atousize_slice(10, b"4096"), success(4096));
    assert_eq!(try_atoisize_slice(10, b"-4096"), success(-4096));
}

fn try_atoi16_slice_exact(bytes: &[u8]) -> i16 {
    let r = lib::api::try_atoi16_slice(10, bytes);
    assert_eq!(r.error.code, ErrorCode::Success);
    r.value
}

#[test]
fn wide_types_wrap() {
    assert_eq!(atou128_slice(10, b"340282366920938463463374607431768211456"), 0);
    assert_eq!(atoi128_slice(10, b"170141183460469231731687303715884105728"), i128::MIN);
    assert_eq!(atousize_slice(10, b"-1"), usize::MAX);
    assert_eq!(atoisize_slice(10, b"-1"), -1);
    assert_eq!(try_atou128_slice(10, b"-1"), overflow_error(u128::MAX));
}

#[test]
fn radix_digits() {
    assert_eq!(atou32_slice(16, b"ff"), 255);
    assert_eq!(atou32_slice(16, b"FF"), 255);
    assert_eq!(atou32_slice(2, b"1012"), 5);
    assert_eq!(atou32_slice(36, b"zz"), 1295);
    assert_eq!(try_atou8_slice(2, b"102"), invalid_digit_error(2, 2));
}

#[test]
fn error_constructors() {
    let r: ParseResult<u8> = invalid_digit_error(3, 4);
    assert_eq!(r.error, Error { code: ErrorCode::InvalidDigit, index: 4 });
    assert_eq!(r.value, 3);
    assert_eq!(success(5u8).error, Error { code: ErrorCode::Success, index: 0 });
    assert_eq!(overflow_error(6u8).error, Error { code: ErrorCode::Overflow, index: 0 });
}


#[test]
fn negative_accumulator_steps() {
    // -13 * 10 leaves the range of i8 even though -13 * 10 + 5 would not.
    let mut value: i8 = -13;
    let mut state = ParseState::new(0);
    unchecked(&mut value, &mut state, 10, b"5");
    assert_eq!(value, -125);
    assert_eq!(state.trunc, Some(0));
    let mut value: i8 = -13;
    let mut state = ParseState::new(0);
    checked(&mut value, &mut state, 10, b"5");
    assert_eq!(value, -13);
    assert_eq!(state.trunc, Some(0));
    let mut value: i8 = -1;
    let mut state = ParseState::new(0);
    checked(&mut value, &mut state, 10, b"2");
    assert_eq!(value, -8);
    assert_eq!(state.trunc, None);
}

#[test]
fn algorithms_agree_when_digits_fit() {
    for input in [&b"0"[..], b"255", b"-17", b"+0099x", b""] {
        let wrapping = unsigned::<u8>(10, input, Algorithm::Unchecked);
        let stopping = unsigned::<u8>(10, input, Algorithm::Checked);
        assert_eq!(wrapping, stopping);
        let wrapping = signed::<i64>(10, input, Algorithm::Unchecked);
        let stopping = signed::<i64>(10, input, Algorithm::Checked);
        assert_eq!(wrapping, stopping);
    }
    // They differ only in the value once the digits overflow.
    assert_eq!(unsigned::<u8>(10, b"1000", Algorithm::Checked), (100, 4, true));
    assert_eq!(unsigned::<u8>(10, b"1000", Algorithm::Unchecked), (232, 4, true));
}
