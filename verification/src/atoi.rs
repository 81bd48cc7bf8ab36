//! The digit loops and the sign handling of integer parsing.
use vstd::prelude::*;
use crate::model::{
    PLUS, MINUS, ZERO,
    char_digit, digits_end, first_overflow, fold_digits, is_digit, lemma_digits_end,
    lemma_first_overflow_nonneg, lemma_wrap_in_range, lemma_wrap_mul_add, skip_char,
    lemma_skip_char, sign_end, minus_at, is_negative, digits_start, parse_end, magnitude,
    step_overflows, lemma_parse_bounds,
};
use crate::integer::{Integer, max_of, wrap_to};
use crate::state::ParseState;

verus! {

/// How digits are accumulated once the value no longer fits the type.
#[derive(Clone, Copy, Debug, PartialEq, Eq)]
pub enum Algorithm {
    /// Keep multiplying and adding with wrapping arithmetic.
    Unchecked,
    /// Keep the last value that fit, and only step over further digits.
    Checked,
}

/// The digit a byte stands for, 36 for a byte that is no digit.
pub fn char_to_digit(c: u8) -> (r: u8)
    ensures
        r == char_digit(c),
{
    if ZERO <= c && c <= 57 {
        // `0` to `9`
        c - ZERO
    } else if 65 <= c && c <= 90 {
        // `A` to `Z`
        c - 55
    } else if 97 <= c && c <= 122 {
        // `a` to `z`
        c - 87
    } else {
        36
    }
}

/// The digit a byte stands for in the radix, if it is one.
pub fn parse_digit(c: u8, radix: u32) -> (r: Option<u8>)
    requires
        2 <= radix <= 36,
    ensures
        r is Some <==> is_digit(c, radix as int),
        r matches Some(d) ==> d == char_digit(c),
{
    let d = char_to_digit(c);
    if (d as u32) < radix {
        Some(d)
    } else {
        None
    }
}

/// The first digit at which a digit loop that started at `start` with
/// the accumulator `acc`, and stopped at `end`, overflows the type; `end`
/// when it never does.
pub open spec fn overflow_at<T: Integer>(acc: int, s: Seq<u8>, start: int, end: int, radix: int) -> int {
    first_overflow(acc, s, start, start, end, radix, T::min_int(), max_of::<T>())
}

/// How a digit loop that started at `start`, with the overflow position
/// `before` and the accumulator `acc`, leaves the overflow position in
/// `after`: an earlier overflow is kept, and otherwise the first digit at
/// which a step leaves the type's range is recorded.
pub open spec fn records_overflow<T: Integer>(
    before: Option<usize>,
    start: int,
    after: ParseState,
    acc: int,
    s: Seq<u8>,
    radix: int,
) -> bool {
    match before {
        Some(t) => after.trunc == Some(t),
        None => {
            let f = overflow_at::<T>(acc, s, start, after.curr as int, radix);
            after.trunc == (if f < after.curr {
                Some(f as usize)
            } else {
                None::<usize>
            })
        },
    }
}

/// The value a checked digit loop leaves: the accumulator unchanged when
/// an overflow was already recorded, and otherwise the number read up to
/// the first digit whose step overflows.
pub open spec fn checked_result<T: Integer>(
    before: Option<usize>,
    start: int,
    end: int,
    acc: int,
    s: Seq<u8>,
    radix: int,
) -> int {
    match before {
        Some(_) => acc,
        None => fold_digits(acc, s, start, overflow_at::<T>(acc, s, start, end, radix), radix),
    }
}

/// The overflow position stays at or before the current position.
pub open spec fn trunc_behind(state: ParseState) -> bool {
    state.trunc matches Some(t) ==> t <= state.curr
}

/// Read digits of the radix from the current position, accumulating them
/// into `value` with wrapping arithmetic, and record in `state` the first
/// digit whose step leaves the type's range.
pub fn unchecked<T: Integer>(value: &mut T, state: &mut ParseState, radix: u32, bytes: &[u8])
    requires
        2 <= radix <= 36,
        old(state).curr <= bytes.len(),
    ensures
        final(state).curr == digits_end(bytes@, old(state).curr as int, radix as int),
        trunc_behind(*old(state)) ==> trunc_behind(*final(state)),
        final(value).to_int() == wrap_to::<T>(
            fold_digits(
                old(value).to_int(),
                bytes@,
                old(state).curr as int,
                final(state).curr as int,
                radix as int,
            ),
        ),
        records_overflow::<T>(
            old(state).trunc,
            old(state).curr as int,
            *final(state),
            old(value).to_int(),
            bytes@,
            radix as int,
        ),
{
    let ghost s = bytes@;
    let ghost r = radix as int;
    let ghost start = state.curr as int;
    let ghost before = state.trunc;
    let ghost behind = trunc_behind(*state);
    let ghost acc = value.to_int();
    let ghost end = digits_end(s, start, r);
    let ghost min = T::min_int();
    let ghost max = max_of::<T>();
    let rt: T = T::from_u8(radix as u8);
    proof {
        T::lemma_bounds(*value);
        lemma_wrap_in_range(acc, min, T::modulus());
    }
    loop
        invariant
            s == bytes@,
            r == radix,
            2 <= radix <= 36,
            rt.to_int() == r,
            start <= state.curr <= bytes.len(),
            digits_end(s, state.curr as int, r) == end,
            min == T::min_int(),
            max == max_of::<T>(),
            behind == trunc_behind(*old(state)),
            behind ==> trunc_behind(*state),
            value.to_int() == wrap_to::<T>(fold_digits(acc, s, start, state.curr as int, r)),
            before matches Some(t) ==> state.trunc == Some(t),
            before is None && state.trunc is None ==> first_overflow(acc, s, start, start, end, r, min, max)
                == first_overflow(acc, s, start, state.curr as int, end, r, min, max) && min
                <= fold_digits(acc, s, start, state.curr as int, r) <= max,
            before is None ==> (state.trunc matches Some(t) ==> t < state.curr && t == first_overflow(
                acc,
                s,
                start,
                start,
                end,
                r,
                min,
                max,
            )),
        ensures
            state.curr == end,
        decreases bytes.len() - state.curr,
    {
        if state.curr >= bytes.len() {
            break;
        }
        let parsed = parse_digit(bytes[state.curr], radix);
        if parsed.is_none() {
            break;
        }
        let digit: T = T::from_u8(parsed.unwrap());
        let ghost n = fold_digits(acc, s, start, state.curr as int, r);
        let ghost d = digit.to_int();
        let current: T = *value;
        let (v, o1) = current.overflowing_mul(rt);
        let (v, o2) = v.overflowing_add(digit);
        proof {
            T::lemma_bounds(current);
            lemma_digits_end(s, state.curr as int + 1, r);
            lemma_wrap_mul_add(n, r, 0, min, T::modulus());
            lemma_wrap_mul_add(n * r, 1, d, min, T::modulus());
            assert(wrap_to::<T>(n) * r + 0 == current.to_int() * rt.to_int());
            assert(n * r * 1 + d == n * r + d);
            if state.trunc is None && before is None {
                lemma_wrap_in_range(n, min, T::modulus());
                if !o1 {
                    lemma_wrap_in_range(n * r, min, T::modulus());
                }
                assert((o1 || o2) == step_overflows(n, r, d, min, max));
            }
            assert(fold_digits(acc, s, start, state.curr + 1, r) == n * r + d);
        }
        *value = v;
        if state.trunc.is_none() && (o1 || o2) {
            state.trunc = Some(state.curr);
        }
        state.increment();
    }
}

/// Read digits of the radix from the current position, accumulating them
/// into `value` only until a step would leave the type's range, and
/// record in `state` the digit of that step.  Digits after it are stepped
/// over.
pub fn checked<T: Integer>(value: &mut T, state: &mut ParseState, radix: u32, bytes: &[u8])
    requires
        2 <= radix <= 36,
        old(state).curr <= bytes.len(),
    ensures
        final(state).curr == digits_end(bytes@, old(state).curr as int, radix as int),
        trunc_behind(*old(state)) ==> trunc_behind(*final(state)),
        final(value).to_int() == checked_result::<T>(
            old(state).trunc,
            old(state).curr as int,
            final(state).curr as int,
            old(value).to_int(),
            bytes@,
            radix as int,
        ),
        records_overflow::<T>(
            old(state).trunc,
            old(state).curr as int,
            *final(state),
            old(value).to_int(),
            bytes@,
            radix as int,
        ),
{
    let ghost s = bytes@;
    let ghost r = radix as int;
    let ghost start = state.curr as int;
    let ghost before = state.trunc;
    let ghost behind = trunc_behind(*state);
    let ghost acc = value.to_int();
    let ghost end = digits_end(s, start, r);
    let ghost min = T::min_int();
    let ghost max = max_of::<T>();
    let rt: T = T::from_u8(radix as u8);
    proof {
        T::lemma_bounds(*value);
    }
    loop
        invariant
            s == bytes@,
            r == radix,
            2 <= radix <= 36,
            rt.to_int() == r,
            start <= state.curr <= bytes.len(),
            digits_end(s, state.curr as int, r) == end,
            min == T::min_int(),
            max == max_of::<T>(),
            behind == trunc_behind(*old(state)),
            behind ==> trunc_behind(*state),
            before is Some ==> state.trunc == before && value.to_int() == acc,
            before is None && state.trunc is None ==> first_overflow(acc, s, start, start, end, r, min, max)
                == first_overflow(acc, s, start, state.curr as int, end, r, min, max)
                && value.to_int() == fold_digits(acc, s, start, state.curr as int, r),
            before is None ==> (state.trunc matches Some(t) ==> t < state.curr && t == first_overflow(
                acc,
                s,
                start,
                start,
                end,
                r,
                min,
                max,
            ) && value.to_int() == fold_digits(acc, s, start, t as int, r)),
        ensures
            state.curr == end,
        decreases bytes.len() - state.curr,
    {
        if state.curr >= bytes.len() {
            break;
        }
        let parsed = parse_digit(bytes[state.curr], radix);
        if parsed.is_none() {
            break;
        }
        let digit: T = T::from_u8(parsed.unwrap());
        proof {
            lemma_digits_end(s, state.curr as int + 1, r);
            assert(fold_digits(acc, s, start, state.curr + 1, r) == fold_digits(
                acc,
                s,
                start,
                state.curr as int,
                r,
            ) * r + digit.to_int());
        }
        if state.trunc.is_none() {
            let current: T = *value;
            proof {
                T::lemma_bounds(current);
            }
            match current.checked_mul(rt) {
                Some(m) => match m.checked_add(digit) {
                    Some(v) => {
                        *value = v;
                    },
                    None => {
                        state.trunc = Some(state.curr);
                    },
                },
                None => {
                    state.trunc = Some(state.curr);
                },
            }
        }
        state.increment();
    }
}

/// The value a digit loop of the given algorithm leaves.
pub open spec fn loop_result<T: Integer>(
    algorithm: Algorithm,
    before: Option<usize>,
    start: int,
    end: int,
    acc: int,
    s: Seq<u8>,
    radix: int,
) -> int {
    match algorithm {
        Algorithm::Unchecked => wrap_to::<T>(fold_digits(acc, s, start, end, radix)),
        Algorithm::Checked => checked_result::<T>(before, start, end, acc, s, radix),
    }
}

/// The value the digits of a buffer accumulate to, ignoring the sign.
pub open spec fn accumulated<T: Integer>(s: Seq<u8>, radix: int, algorithm: Algorithm) -> int {
    loop_result::<T>(algorithm, None, digits_start(s), parse_end(s, radix), 0, s, radix)
}

/// The value a buffer parses to: the accumulated digits, negated with
/// wrapping after a `-`.
pub open spec fn parsed_value<T: Integer>(s: Seq<u8>, radix: int, algorithm: Algorithm) -> int {
    if is_negative(s) {
        wrap_to::<T>(-accumulated::<T>(s, radix, algorithm))
    } else {
        accumulated::<T>(s, radix, algorithm)
    }
}

/// Skip the leading zeros at the current position, then read the digits
/// that follow with the given algorithm, starting from zero.
pub fn value<T: Integer>(state: &mut ParseState, radix: u32, bytes: &[u8], algorithm: Algorithm) -> (r: T)
    requires
        2 <= radix <= 36,
        old(state).curr <= bytes.len(),
    ensures
        final(state).curr == digits_end(
            bytes@,
            skip_char(bytes@, old(state).curr as int, ZERO),
            radix as int,
        ),
        trunc_behind(*old(state)) ==> trunc_behind(*final(state)),
        records_overflow::<T>(
            old(state).trunc,
            skip_char(bytes@, old(state).curr as int, ZERO),
            *final(state),
            0,
            bytes@,
            radix as int,
        ),
        r.to_int() == loop_result::<T>(
            algorithm,
            old(state).trunc,
            skip_char(bytes@, old(state).curr as int, ZERO),
            final(state).curr as int,
            0,
            bytes@,
            radix as int,
        ),
{
    state.ltrim_char(bytes, ZERO);
    proof {
        lemma_skip_char(bytes@, old(state).curr as int, ZERO);
    }
    let mut value: T = T::from_u8(0);
    match algorithm {
        Algorithm::Unchecked => unchecked(&mut value, state, radix, bytes),
        Algorithm::Checked => checked(&mut value, state, radix, bytes),
    }
    value
}

/// Read an optional sign at the current position, then the value after
/// it.  The second component is -1 after a `-` and 1 otherwise.
pub fn filter_sign<T: Integer>(state: &mut ParseState, radix: u32, bytes: &[u8], algorithm: Algorithm) -> (r: (T, i32))
    requires
        2 <= radix <= 36,
        old(state).curr <= bytes.len(),
    ensures
        r.1 == (if minus_at(bytes@, old(state).curr as int) { -1i32 } else { 1i32 }),
        final(state).curr == digits_end(
            bytes@,
            skip_char(bytes@, sign_end(bytes@, old(state).curr as int), ZERO),
            radix as int,
        ),
        trunc_behind(*old(state)) ==> trunc_behind(*final(state)),
        records_overflow::<T>(
            old(state).trunc,
            skip_char(bytes@, sign_end(bytes@, old(state).curr as int), ZERO),
            *final(state),
            0,
            bytes@,
            radix as int,
        ),
        r.0.to_int() == loop_result::<T>(
            algorithm,
            old(state).trunc,
            skip_char(bytes@, sign_end(bytes@, old(state).curr as int), ZERO),
            final(state).curr as int,
            0,
            bytes@,
            radix as int,
        ),
{
    if state.curr == bytes.len() {
        let zero: T = T::from_u8(0);
        proof {
            let s = bytes@;
            let c = state.curr as int;
            assert(skip_char(s, sign_end(s, c), ZERO) == c);
            assert(digits_end(s, c, radix as int) == c);
            assert(fold_digits(0, s, c, c, radix as int) == 0);
            T::lemma_bounds(zero);
            lemma_wrap_in_range(0, T::min_int(), T::modulus());
        }
        (zero, 1)
    } else if bytes[state.curr] == PLUS {
        state.increment();
        let value = value::<T>(state, radix, bytes, algorithm);
        (value, 1)
    } else if bytes[state.curr] == MINUS {
        state.increment();
        let value = value::<T>(state, radix, bytes, algorithm);
        (value, -1)
    } else {
        let value = value::<T>(state, radix, bytes, algorithm);
        (value, 1)
    }
}

/// Parse a buffer into an unsigned type: the value, the index at which
/// parsing stopped, and whether the value overflowed.  A negative number
/// is negated with wrapping and always counts as an overflow.
pub fn unsigned<T: Integer>(radix: u32, bytes: &[u8], algorithm: Algorithm) -> (r: (T, usize, bool))
    requires
        2 <= radix <= 36,
    ensures
        r.0.to_int() == parsed_value::<T>(bytes@, radix as int, algorithm),
        r.1 == parse_end(bytes@, radix as int),
        r.2 == (is_negative(bytes@) || magnitude(bytes@, radix as int) > max_of::<T>()),
{
    if bytes.len() == 0 {
        let zero: T = T::from_u8(0);
        proof {
            empty_parse::<T>(bytes@, radix as int, algorithm);
        }
        (zero, 0, false)
    } else {
        let mut state = ParseState::new(0);
        let (value, sign) = filter_sign::<T>(&mut state, radix, bytes, algorithm);
        proof {
            lemma_overflow_flag::<T>(bytes@, radix as int);
        }
        if sign == -1 {
            (value.wrapping_neg(), state.curr, true)
        } else {
            (value, state.curr, state.is_truncated())
        }
    }
}

/// Parse a buffer into a signed type: the value, the index at which
/// parsing stopped, and whether the digits overflowed.  A negative number
/// is the wrapping negation of its digits' value.
pub fn signed<T: Integer>(radix: u32, bytes: &[u8], algorithm: Algorithm) -> (r: (T, usize, bool))
    requires
        2 <= radix <= 36,
    ensures
        r.0.to_int() == parsed_value::<T>(bytes@, radix as int, algorithm),
        r.1 == parse_end(bytes@, radix as int),
        r.2 == (magnitude(bytes@, radix as int) > max_of::<T>()),
{
    if bytes.len() == 0 {
        let zero: T = T::from_u8(0);
        proof {
            empty_parse::<T>(bytes@, radix as int, algorithm);
        }
        (zero, 0, false)
    } else {
        let mut state = ParseState::new(0);
        let (value, sign) = filter_sign::<T>(&mut state, radix, bytes, algorithm);
        proof {
            lemma_overflow_flag::<T>(bytes@, radix as int);
        }
        if sign == -1 {
            (value.wrapping_neg(), state.curr, state.is_truncated())
        } else {
            (value, state.curr, state.is_truncated())
        }
    }
}

/// An empty buffer parses to zero, stops at once and does not overflow.
proof fn empty_parse<T: Integer>(s: Seq<u8>, radix: int, algorithm: Algorithm)
    requires
        s.len() == 0,
    ensures
        parsed_value::<T>(s, radix, algorithm) == 0,
        parse_end(s, radix) == 0,
        magnitude(s, radix) == 0 <= max_of::<T>(),
        !is_negative(s),
{
    assert(digits_start(s) == 0);
    assert(parse_end(s, radix) == 0);
    T::lemma_bounds(arbitrary());
    lemma_wrap_in_range(0, T::min_int(), T::modulus());
}

/// Parsing from a fresh state records an overflow exactly when the
/// digits' number exceeds the type's maximum.
proof fn lemma_overflow_flag<T: Integer>(s: Seq<u8>, radix: int)
    requires
        radix >= 1,
    ensures
        (overflow_at::<T>(0, s, digits_start(s), parse_end(s, radix), radix) < parse_end(s, radix))
            == (magnitude(s, radix) > max_of::<T>()),
{
    T::lemma_bounds(arbitrary());
    lemma_parse_bounds(s, radix);
    lemma_first_overflow_nonneg(
        0,
        s,
        digits_start(s),
        digits_start(s),
        parse_end(s, radix),
        radix,
        T::min_int(),
        max_of::<T>(),
    );
}

} // verus!
