use lib::api::{
    atoi128_slice, atoi16_slice, atoi32_slice, atoi64_slice, atoi8_slice, atoisize_slice,
    atou128_slice, atou16_slice, atou32_slice, atou64_slice, atou8_slice, atousize_slice,
    invalid_digit_error, overflow_error, success, try_atoi128_slice, try_atoi16_slice,
    try_atoi32_slice, try_atoi64_slice, try_atoi8_slice, try_atoisize_slice, try_atou128_slice,
    try_atou16_slice, try_atou32_slice, try_atou64_slice, try_atou8_slice, try_atousize_slice,
    ErrorCode,
};
use lib::atoi::{checked, unchecked};
use lib::state::ParseState;

#[test]
fn checked_test() {
    let s = b"1234567891234567890123";
    let mut value: u64 = 0;
    let mut state = ParseState::new(0);
    checked(&mut value, &mut state, 10, s);
    // check it doesn't overflow
    assert_eq!(value, 12345678912345678901);
    assert_eq!(state.curr, s.len());
    assert_eq!(state.truncated_bytes(), 2);
}

#[test]
fn unchecked_test() {
    let s = b"1234567891234567890123";
    let mut value: u64 = 0;
    let mut state = ParseState::new(0);
    unchecked(&mut value, &mut state, 10, s);
    // check it does overflow
    assert_eq!(value, 17082782369737483467);
    assert_eq!(state.curr, s.len());
    assert_eq!(state.truncated_bytes(), 2);
}

#[test]
fn atou8_base10_test() {
    assert_eq!(0, atou8_slice(10, b"0"));
    assert_eq!(127, atou8_slice(10, b"127"));
    assert_eq!(128, atou8_slice(10, b"128"));
    assert_eq!(255, atou8_slice(10, b"255"));
    assert_eq!(255, atou8_slice(10, b"-1"));
    assert_eq!(1, atou8_slice(10, b"1a"));
}

#[test]
fn atou8_basen_test() {
    let data: [(u8, &str); 35] = [
        (2, "100101"),
        (3, "1101"),
        (4, "211"),
        (5, "122"),
        (6, "101"),
        (7, "52"),
        (8, "45"),
        (9, "41"),
        (10, "37"),
        (11, "34"),
        (12, "31"),
        (13, "2B"),
        (14, "29"),
        (15, "27"),
        (16, "25"),
        (17, "23"),
        (18, "21"),
        (19, "1I"),
        (20, "1H"),
        (21, "1G"),
        (22, "1F"),
        (23, "1E"),
        (24, "1D"),
        (25, "1C"),
        (26, "1B"),
        (27, "1A"),
        (28, "19"),
        (29, "18"),
        (30, "17"),
        (31, "16"),
        (32, "15"),
        (33, "14"),
        (34, "13"),
        (35, "12"),
        (36, "11"),
    ];
    for (b, s) in data.iter() {
        assert_eq!(atou8_slice(*b, s.as_bytes()), 37);
    }
}

#[test]
fn atoi8_base10_test() {
    assert_eq!(0, atoi8_slice(10, b"0"));
    assert_eq!(127, atoi8_slice(10, b"127"));
    assert_eq!(-128, atoi8_slice(10, b"128"));
    assert_eq!(-1, atoi8_slice(10, b"255"));
    assert_eq!(-1, atoi8_slice(10, b"-1"));
    assert_eq!(1, atoi8_slice(10, b"1a"));
}

#[test]
fn atou16_base10_test() {
    assert_eq!(0, atou16_slice(10, b"0"));
    assert_eq!(32767, atou16_slice(10, b"32767"));
    assert_eq!(32768, atou16_slice(10, b"32768"));
    assert_eq!(65535, atou16_slice(10, b"65535"));
    assert_eq!(65535, atou16_slice(10, b"-1"));
    assert_eq!(1, atou16_slice(10, b"1a"));
}

#[test]
fn atoi16_base10_test() {
    assert_eq!(0, atoi16_slice(10, b"0"));
    assert_eq!(32767, atoi16_slice(10, b"32767"));
    assert_eq!(-32768, atoi16_slice(10, b"32768"));
    assert_eq!(-1, atoi16_slice(10, b"65535"));
    assert_eq!(-1, atoi16_slice(10, b"-1"));
    assert_eq!(1, atoi16_slice(10, b"1a"));
}

#[test]
fn atoi16_basen_test() {
    assert_eq!(atoi16_slice(36, b"YA"), 1234);
}

#[test]
fn atou32_base10_test() {
    assert_eq!(0, atou32_slice(10, b"0"));
    assert_eq!(2147483647, atou32_slice(10, b"2147483647"));
    assert_eq!(2147483648, atou32_slice(10, b"2147483648"));
    assert_eq!(4294967295, atou32_slice(10, b"4294967295"));
    assert_eq!(4294967295, atou32_slice(10, b"-1"));
    assert_eq!(1, atou32_slice(10, b"1a"));
}

#[test]
fn atoi32_base10_test() {
    assert_eq!(0, atoi32_slice(10, b"0"));
    assert_eq!(2147483647, atoi32_slice(10, b"2147483647"));
    assert_eq!(-2147483648, atoi32_slice(10, b"2147483648"));
    assert_eq!(-1, atoi32_slice(10, b"4294967295"));
    assert_eq!(-1, atoi32_slice(10, b"-1"));
    assert_eq!(1, atoi32_slice(10, b"1a"));
}

#[test]
fn atou64_base10_test() {
    assert_eq!(0, atou64_slice(10, b"0"));
    assert_eq!(9223372036854775807, atou64_slice(10, b"9223372036854775807"));
    assert_eq!(9223372036854775808, atou64_slice(10, b"9223372036854775808"));
    assert_eq!(18446744073709551615, atou64_slice(10, b"18446744073709551615"));
    assert_eq!(18446744073709551615, atou64_slice(10, b"-1"));
    assert_eq!(1, atou64_slice(10, b"1a"));
}

#[test]
fn atoi64_base10_test() {
    assert_eq!(0, atoi64_slice(10, b"0"));
    assert_eq!(9223372036854775807, atoi64_slice(10, b"9223372036854775807"));
    assert_eq!(-9223372036854775808, atoi64_slice(10, b"9223372036854775808"));
    assert_eq!(-1, atoi64_slice(10, b"18446744073709551615"));
    assert_eq!(-1, atoi64_slice(10, b"-1"));
    assert_eq!(1, atoi64_slice(10, b"1a"));

    // Add tests discovered via fuzzing.
    assert_eq!(2090691195633139712, atoi64_slice(10, b"406260572150672006000066000000060060007667760000000000000000000+00000006766767766666767665670000000000000000000000666"));
}
#[test]
fn try_atou8_base10_test() {
    assert_eq!(invalid_digit_error(0, 0), try_atou8_slice(10, b""));
    assert_eq!(success(0), try_atou8_slice(10, b"0"));
    assert_eq!(invalid_digit_error(1, 1), try_atou8_slice(10, b"1a"));
    assert_eq!(overflow_error(0), try_atou8_slice(10, b"256"));
}

#[test]
fn try_atoi8_base10_test() {
    assert_eq!(invalid_digit_error(0, 0), try_atoi8_slice(10, b""));
    assert_eq!(success(0), try_atoi8_slice(10, b"0"));
    assert_eq!(invalid_digit_error(1, 1), try_atoi8_slice(10, b"1a"));
    assert_eq!(overflow_error(-128), try_atoi8_slice(10, b"128"));
}

#[test]
fn try_atou16_base10_test() {
    assert_eq!(invalid_digit_error(0, 0), try_atou16_slice(10, b""));
    assert_eq!(success(0), try_atou16_slice(10, b"0"));
    assert_eq!(invalid_digit_error(1, 1), try_atou16_slice(10, b"1a"));
    assert_eq!(overflow_error(0), try_atou16_slice(10, b"65536"));
}

#[test]
fn try_atoi16_base10_test() {
    assert_eq!(invalid_digit_error(0, 0), try_atoi16_slice(10, b""));
    assert_eq!(success(0), try_atoi16_slice(10, b"0"));
    assert_eq!(invalid_digit_error(1, 1), try_atoi16_slice(10, b"1a"));
    assert_eq!(overflow_error(-32768), try_atoi16_slice(10, b"32768"));
}

#[test]
fn try_atou32_base10_test() {
    assert_eq!(invalid_digit_error(0, 0), try_atou32_slice(10, b""));
    assert_eq!(success(0), try_atou32_slice(10, b"0"));
    assert_eq!(invalid_digit_error(1, 1), try_atou32_slice(10, b"1a"));
    assert_eq!(overflow_error(0), try_atou32_slice(10, b"4294967296"));
}

#[test]
fn try_atoi32_base10_test() {
    assert_eq!(invalid_digit_error(0, 0), try_atoi32_slice(10, b""));
    assert_eq!(success(0), try_atoi32_slice(10, b"0"));
    assert_eq!(invalid_digit_error(1, 1), try_atoi32_slice(10, b"1a"));
    assert_eq!(overflow_error(-2147483648), try_atoi32_slice(10, b"2147483648"));
}

#[test]
fn try_atou64_base10_test() {
    assert_eq!(invalid_digit_error(0, 0), try_atou64_slice(10, b""));
    assert_eq!(success(0), try_atou64_slice(10, b"0"));
    assert_eq!(invalid_digit_error(1, 1), try_atou64_slice(10, b"1a"));
    assert_eq!(overflow_error(0), try_atou64_slice(10, b"18446744073709551616"));
}

#[test]
fn try_atoi64_base10_test() {
    assert_eq!(invalid_digit_error(0, 0), try_atoi64_slice(10, b""));
    assert_eq!(success(0), try_atoi64_slice(10, b"0"));
    assert_eq!(invalid_digit_error(1, 1), try_atoi64_slice(10, b"1a"));
    assert_eq!(overflow_error(-9223372036854775808), try_atoi64_slice(10, b"9223372036854775808"));

    // Add tests discovered via fuzzing.
    assert_eq!(overflow_error(-9223372036854775808), try_atoi64_slice(10, b"-000000000000000000000000066000000000000000000000000000000000000000000695092744062605721500000000695092744062600000000000000000000000000000000000000000000000000000000000000?0000000000000000000000000000000000000000000000000\x100000000006666600000000006000000066666666000766776676677000676766509274406260572150000000069509274406260572150000000000000000000000000000000000066000000000000000000000000000000000000000000600000950927440626057215000000006950927440062600057215000000666600666666666600001000000676766766766770000666000766776676000000000000000000000000006950927440626666676676676676660066666000000000060000000600000000000000000000000000000000000+?676677000695092744"));
    assert_eq!(overflow_error(2090691195633139712), try_atoi64_slice(10, b"406260572150672006000066000000060060007667760000000000000000000+00000006766767766666767665670000000000000000000000666"));
    assert_eq!(overflow_error(7125759012462002176), try_atoi64_slice(10, b"6260572000000000000000-3*+\x006666600099000066006660066665?666666666599990000666"));
}
