//! Properties of parsing that relate several inputs or both algorithms.
use vstd::prelude::*;
use crate::model::{
    PLUS, MINUS, ZERO,
    digits_start, first_overflow, lemma_first_overflow_nonneg, is_negative, lemma_digits_end,
    lemma_digits_end_extend, lemma_digits_end_shift, lemma_fold_digits_extend,
    lemma_fold_digits_monotone, lemma_fold_digits_shift, lemma_parse_bounds, lemma_skip_char, lemma_skip_char_extend,
    lemma_skip_char_shift, lemma_wrap_in_range, lemma_wrap_neg, magnitude, parse_end, sign_end,
    signed_magnitude, skip_char,
};
use crate::integer::{Integer, max_of, wrap_to};
use crate::atoi::{Algorithm, accumulated};
use crate::api::{signed_overflow, unsigned_overflow};

verus! {

/// A sign or a zero in front of an unsigned-looking buffer shifts where
/// parsing stops by one and leaves the digits' value alone.
proof fn lemma_prefix_byte(x: u8, s: Seq<u8>, radix: int)
    requires
        x == PLUS || x == MINUS || x == ZERO,
        sign_end(s, 0) == 0,
    ensures
        digits_start(seq![x] + s) == digits_start(s) + 1,
        parse_end(seq![x] + s, radix) == parse_end(s, radix) + 1,
        magnitude(seq![x] + s, radix) == magnitude(s, radix),
        is_negative(seq![x] + s) == (x == MINUS),
{
    let t = seq![x] + s;
    assert(t[0] == x);
    lemma_skip_char_shift(x, s, 0, ZERO);
    if x == ZERO {
        assert(sign_end(t, 0) == 0);
        assert(skip_char(t, 0, ZERO) == skip_char(t, 1, ZERO));
    } else {
        assert(sign_end(t, 0) == 1);
    }
    lemma_skip_char(s, 0, ZERO);
    lemma_digits_end_shift(x, s, digits_start(s), radix);
    lemma_digits_end(s, digits_start(s), radix);
    lemma_fold_digits_shift(0, x, s, digits_start(s), parse_end(s, radix), radix);
}

/// A `+` in front of a buffer without a sign changes nothing but where
/// parsing stops.
pub proof fn lemma_plus_sign(s: Seq<u8>, radix: int)
    requires
        sign_end(s, 0) == 0,
    ensures
        parse_end(seq![PLUS] + s, radix) == parse_end(s, radix) + 1,
        signed_magnitude(seq![PLUS] + s, radix) == signed_magnitude(s, radix),
{
    lemma_prefix_byte(PLUS, s, radix);
}

/// A `-` in front of a buffer without a sign negates the number; in a
/// fixed-width type the parse is the wrapping negation of the unsigned
/// parse, the digits overflow a signed type exactly when they did before,
/// and an unsigned type always reports an overflow.
pub proof fn lemma_minus_sign<T: Integer>(s: Seq<u8>, radix: int)
    requires
        sign_end(s, 0) == 0,
    ensures
        parse_end(seq![MINUS] + s, radix) == parse_end(s, radix) + 1,
        signed_magnitude(seq![MINUS] + s, radix) == -signed_magnitude(s, radix),
        wrap_to::<T>(signed_magnitude(seq![MINUS] + s, radix)) == wrap_to::<T>(
            -wrap_to::<T>(signed_magnitude(s, radix)),
        ),
        signed_overflow::<T>(seq![MINUS] + s, radix) == signed_overflow::<T>(s, radix),
        unsigned_overflow::<T>(seq![MINUS] + s, radix),
{
    lemma_prefix_byte(MINUS, s, radix);
    T::lemma_bounds(arbitrary());
    lemma_wrap_neg(signed_magnitude(s, radix), T::min_int(), T::modulus());
}

/// A leading zero in front of a buffer without a sign changes nothing but
/// where parsing stops.
pub proof fn lemma_leading_zero(s: Seq<u8>, radix: int)
    requires
        sign_end(s, 0) == 0,
    ensures
        parse_end(seq![ZERO] + s, radix) == parse_end(s, radix) + 1,
        signed_magnitude(seq![ZERO] + s, radix) == signed_magnitude(s, radix),
{
    lemma_prefix_byte(ZERO, s, radix);
}

/// Parsing stops at the first byte that is no digit: whatever follows it
/// changes neither the number nor where parsing stops.
pub proof fn lemma_stops_at_non_digit(s: Seq<u8>, v: Seq<u8>, radix: int)
    requires
        parse_end(s, radix) < s.len(),
    ensures
        parse_end(s + v, radix) == parse_end(s, radix),
        signed_magnitude(s + v, radix) == signed_magnitude(s, radix),
{
    let u = s + v;
    assert(u[0] == s[0]);
    assert(sign_end(u, 0) == sign_end(s, 0));
    lemma_skip_char(s, sign_end(s, 0), ZERO);
    lemma_digits_end(s, digits_start(s), radix);
    lemma_skip_char_extend(s, v, sign_end(s, 0), ZERO);
    lemma_digits_end_extend(s, v, digits_start(s), radix);
    lemma_fold_digits_extend(0, s, v, digits_start(s), parse_end(s, radix), radix);
}

/// When a buffer does not overflow an unsigned parse, the parsed value is
/// its number exactly.
pub proof fn lemma_exact_unsigned<T: Integer>(s: Seq<u8>, radix: int)
    requires
        radix >= 1,
        !unsigned_overflow::<T>(s, radix),
    ensures
        wrap_to::<T>(signed_magnitude(s, radix)) == signed_magnitude(s, radix),
        signed_magnitude(s, radix) == magnitude(s, radix),
{
    T::lemma_bounds(arbitrary());
    lemma_parse_bounds(s, radix);
    lemma_wrap_in_range(magnitude(s, radix), T::min_int(), T::modulus());
}

/// When the digits of a buffer fit a signed type, the parsed value is its
/// signed number exactly.
pub proof fn lemma_exact_signed<T: Integer>(s: Seq<u8>, radix: int)
    requires
        radix >= 1,
        T::min_int() < 0,
        !signed_overflow::<T>(s, radix),
    ensures
        wrap_to::<T>(signed_magnitude(s, radix)) == signed_magnitude(s, radix),
{
    T::lemma_bounds(arbitrary());
    lemma_parse_bounds(s, radix);
    lemma_wrap_in_range(signed_magnitude(s, radix), T::min_int(), T::modulus());
}

/// In a signed type, negating a value overflows only for the minimum,
/// which negates to itself.
pub proof fn lemma_neg_overflow_only_at_min<T: Integer>(v: int)
    requires
        T::min_int() < 0,
        T::min_int() <= v <= max_of::<T>(),
    ensures
        (wrap_to::<T>(-v) != -v) <==> v == T::min_int(),
        wrap_to::<T>(-T::min_int()) == T::min_int(),
{
    T::lemma_bounds(arbitrary());
    let m = T::modulus();
    let min = T::min_int();
    if v == min {
        crate::model::lemma_wrap_unique(-v, min, -1, min, m);
        assert(-v + (-1) * m == min);
    } else {
        lemma_wrap_in_range(-v, min, m);
    }
    crate::model::lemma_wrap_unique(-min, min, -1, min, m);
}

/// Both algorithms read the same digits; when they fit the type, both
/// accumulate the number they denote, and the checked one never leaves
/// the type's non-negative range.
pub proof fn lemma_algorithms_agree<T: Integer>(s: Seq<u8>, radix: int)
    requires
        radix >= 1,
    ensures
        0 <= accumulated::<T>(s, radix, Algorithm::Checked) <= max_of::<T>(),
        magnitude(s, radix) <= max_of::<T>() ==> accumulated::<T>(s, radix, Algorithm::Checked)
            == magnitude(s, radix),
        magnitude(s, radix) <= max_of::<T>() ==> accumulated::<T>(s, radix, Algorithm::Unchecked)
            == magnitude(s, radix),
{
    T::lemma_bounds(arbitrary());
    lemma_parse_bounds(s, radix);
    let lo = digits_start(s);
    let hi = parse_end(s, radix);
    let max = max_of::<T>();
    lemma_first_overflow_nonneg(0, s, lo, lo, hi, radix, T::min_int(), max);
    let f = first_overflow(0, s, lo, lo, hi, radix, T::min_int(), max);
    lemma_fold_digits_monotone(0, s, lo, f, f, radix);
    if magnitude(s, radix) <= max {
        lemma_wrap_in_range(magnitude(s, radix), T::min_int(), T::modulus());
    }
}

} // verus!
