//! Mathematical model of integer parsing: digit values, the extent of a
//! run of digits, the value a run of digits denotes, and two's-complement
//! wrapping.
use vstd::prelude::*;
use vstd::arithmetic::div_mod::{
    lemma_fundamental_div_mod, lemma_mod_multiples_vanish, lemma_small_mod,
};

verus! {

/// The byte `+`.
pub const PLUS: u8 = 43;

/// The byte `-`.
pub const MINUS: u8 = 45;

/// The byte `0`.
pub const ZERO: u8 = 48;

/// The value `x` takes in a fixed-width integer whose smallest value is
/// `min` and which holds `m` distinct values: the unique number in
/// `[min, min + m)` congruent to `x` modulo `m`.
pub open spec fn wrap(x: int, min: int, m: int) -> int {
    min + (x - min) % m
}

/// Adding a multiple of the modulus does not change the wrapped value.
pub proof fn lemma_wrap_congruent(x: int, k: int, min: int, m: int)
    requires
        m > 0,
    ensures
        wrap(x + k * m, min, m) == wrap(x, min, m),
{
    assert(x + k * m - min == m * k + (x - min)) by (nonlinear_arith);
    lemma_mod_multiples_vanish(k, x - min, m);
}

/// A value already in range wraps to itself.
pub proof fn lemma_wrap_in_range(x: int, min: int, m: int)
    requires
        m > 0,
        min <= x < min + m,
    ensures
        wrap(x, min, m) == x,
{
    lemma_small_mod((x - min) as nat, m as nat);
}

/// The wrapped value differs from `x` by a multiple of the modulus.
pub proof fn lemma_wrap_offset(x: int, min: int, m: int)
    requires
        m > 0,
    ensures
        wrap(x, min, m) == x - ((x - min) / m) * m,
{
    lemma_fundamental_div_mod(x - min, m);
    assert(m * ((x - min) / m) == ((x - min) / m) * m) by (nonlinear_arith);
}

/// A number in range that differs from `x` by a multiple of the modulus
/// is the wrapped value of `x`.
pub proof fn lemma_wrap_unique(x: int, y: int, k: int, min: int, m: int)
    requires
        m > 0,
        min <= y < min + m,
        y == x + k * m,
    ensures
        wrap(x, min, m) == y,
{
    lemma_wrap_congruent(x, k, min, m);
    lemma_wrap_in_range(y, min, m);
}

/// Wrapping an operand of `x * r + d` before the operation does not
/// change the wrapped result.
pub proof fn lemma_wrap_mul_add(x: int, r: int, d: int, min: int, m: int)
    requires
        m > 0,
    ensures
        wrap(wrap(x, min, m) * r + d, min, m) == wrap(x * r + d, min, m),
{
    let q = (x - min) / m;
    lemma_wrap_offset(x, min, m);
    let w = wrap(x, min, m);
    assert(x * r + d == (w * r + d) + (q * r) * m) by (nonlinear_arith)
        requires
            w == x - q * m,
    ;
    lemma_wrap_congruent(w * r + d, q * r, min, m);
}

/// Wrapping the operand of a negation does not change the wrapped result.
pub proof fn lemma_wrap_neg(x: int, min: int, m: int)
    requires
        m > 0,
    ensures
        wrap(-wrap(x, min, m), min, m) == wrap(-x, min, m),
{
    lemma_wrap_mul_add(x, -1, 0, min, m);
    assert(wrap(x, min, m) * -1 + 0 == -wrap(x, min, m));
    assert(x * -1 + 0 == -x);
}


/// The digit a byte stands for: `0`-`9` are 0 to 9, and letters of either
/// case are 10 to 35.  Every other byte maps to 36, which is no digit in
/// any radix this library accepts.
pub open spec fn char_digit(c: u8) -> nat {
    if ZERO <= c <= 57 {
        // `0` to `9`
        (c - ZERO) as nat
    } else if 65 <= c <= 90 {
        // `A` to `Z`
        (c - 55) as nat
    } else if 97 <= c <= 122 {
        // `a` to `z`
        (c - 87) as nat
    } else {
        36
    }
}

/// Whether a byte is a digit in the given radix.
pub open spec fn is_digit(c: u8, radix: int) -> bool {
    char_digit(c) < radix
}

/// The first index at or after `i` that does not hold the byte `c`.
pub open spec fn skip_char(s: Seq<u8>, i: int, c: u8) -> int
    decreases s.len() - i,
{
    if 0 <= i < s.len() && s[i] == c {
        skip_char(s, i + 1, c)
    } else {
        i
    }
}

/// The first index at or after `i` that does not hold a digit of the radix.
pub open spec fn digits_end(s: Seq<u8>, i: int, radix: int) -> int
    decreases s.len() - i,
{
    if 0 <= i < s.len() && is_digit(s[i], radix) {
        digits_end(s, i + 1, radix)
    } else {
        i
    }
}

/// The number denoted by the digits `s[lo..hi]` read after an
/// accumulator that already holds `acc`: each digit multiplies the
/// accumulator by the radix and adds itself.
pub open spec fn fold_digits(acc: int, s: Seq<u8>, lo: int, hi: int, radix: int) -> int
    decreases hi - lo,
{
    if hi <= lo {
        acc
    } else {
        fold_digits(acc, s, lo, hi - 1, radix) * radix + char_digit(s[hi - 1])
    }
}

/// `skip_char` stops within the buffer, after a run of `c`.
pub proof fn lemma_skip_char(s: Seq<u8>, i: int, c: u8)
    requires
        0 <= i <= s.len(),
    ensures
        i <= skip_char(s, i, c) <= s.len(),
        forall|k: int| i <= k < skip_char(s, i, c) ==> s[k] == c,
        skip_char(s, i, c) < s.len() ==> s[skip_char(s, i, c)] != c,
    decreases s.len() - i,
{
    if i < s.len() && s[i] == c {
        lemma_skip_char(s, i + 1, c);
    }
}

/// `digits_end` stops within the buffer, after a run of digits.
pub proof fn lemma_digits_end(s: Seq<u8>, i: int, radix: int)
    requires
        0 <= i <= s.len(),
    ensures
        i <= digits_end(s, i, radix) <= s.len(),
        forall|k: int| i <= k < digits_end(s, i, radix) ==> is_digit(#[trigger] s[k], radix),
        digits_end(s, i, radix) < s.len() ==> !is_digit(s[digits_end(s, i, radix)], radix),
    decreases s.len() - i,
{
    if i < s.len() && is_digit(s[i], radix) {
        lemma_digits_end(s, i + 1, radix);
    }
}

/// Reading more digits never decreases a non-negative accumulator.
pub proof fn lemma_fold_digits_monotone(acc: int, s: Seq<u8>, lo: int, j: int, k: int, radix: int)
    requires
        acc >= 0,
        radix >= 1,
        lo <= j <= k,
    ensures
        0 <= acc <= fold_digits(acc, s, lo, j, radix) <= fold_digits(acc, s, lo, k, radix),
    decreases k - lo,
{
    if k > j {
        lemma_fold_digits_monotone(acc, s, lo, j, k - 1, radix);
        let v = fold_digits(acc, s, lo, k - 1, radix);
        assert(v <= v * radix) by (nonlinear_arith)
            requires
                v >= 0,
                radix >= 1,
        ;
    } else if j > lo {
        lemma_fold_digits_monotone(acc, s, lo, j - 1, j - 1, radix);
        let v = fold_digits(acc, s, lo, j - 1, radix);
        assert(v <= v * radix) by (nonlinear_arith)
            requires
                v >= 0,
                radix >= 1,
        ;
    }
}

/// Whether one digit step, multiplying `n` by the radix and adding `d`,
/// leaves the range `[min, max]` in either of its two operations.
pub open spec fn step_overflows(n: int, radix: int, d: int, min: int, max: int) -> bool {
    !(min <= n * radix <= max) || !(min <= n * radix + d <= max)
}

/// The index of the first digit of `s[k..hi]` whose step overflows, when
/// the digits `s[lo..]` are read after an accumulator that holds `acc`;
/// `hi` when no step does.
pub open spec fn first_overflow(
    acc: int,
    s: Seq<u8>,
    lo: int,
    k: int,
    hi: int,
    radix: int,
    min: int,
    max: int,
) -> int
    decreases hi - k,
{
    if k >= hi {
        hi
    } else if step_overflows(fold_digits(acc, s, lo, k, radix), radix, char_digit(s[k]) as int, min, max) {
        k
    } else {
        first_overflow(acc, s, lo, k + 1, hi, radix, min, max)
    }
}

/// From a non-negative accumulator that fits, a step overflows exactly when
/// the number read so far exceeds the maximum: the first overflowing step
/// ends the longest run of digits whose number fits, and there is one
/// exactly when the whole run does not fit.
pub proof fn lemma_first_overflow_nonneg(
    acc: int,
    s: Seq<u8>,
    lo: int,
    k: int,
    hi: int,
    radix: int,
    min: int,
    max: int,
)
    requires
        acc >= 0,
        radix >= 1,
        min <= 0,
        lo <= k <= hi,
        fold_digits(acc, s, lo, k, radix) <= max,
    ensures
        ({
            let f = first_overflow(acc, s, lo, k, hi, radix, min, max);
            &&& k <= f <= hi
            &&& fold_digits(acc, s, lo, f, radix) <= max
            &&& f == hi <==> fold_digits(acc, s, lo, hi, radix) <= max
            &&& f < hi ==> fold_digits(acc, s, lo, f + 1, radix) > max
        }),
    decreases hi - k,
{
    if k < hi {
        let n = fold_digits(acc, s, lo, k, radix);
        let d = char_digit(s[k]) as int;
        lemma_fold_digits_monotone(acc, s, lo, k, k, radix);
        assert(0 <= n * radix <= n * radix + d) by (nonlinear_arith)
            requires
                n >= 0,
                radix >= 1,
                d >= 0,
        ;
        assert(fold_digits(acc, s, lo, k + 1, radix) == n * radix + d);
        if step_overflows(n, radix, d, min, max) {
            lemma_fold_digits_monotone(acc, s, lo, k + 1, hi, radix);
        } else {
            lemma_first_overflow_nonneg(acc, s, lo, k + 1, hi, radix, min, max);
        }
    }
}

/// The index after an optional `+` or `-` at index `c`.
pub open spec fn sign_end(s: Seq<u8>, c: int) -> int {
    if 0 <= c < s.len() && (s[c] == PLUS || s[c] == MINUS) {
        c + 1
    } else {
        c
    }
}

/// Whether the byte at index `c` is a `-`.
pub open spec fn minus_at(s: Seq<u8>, c: int) -> bool {
    0 <= c < s.len() && s[c] == MINUS
}

/// Whether a buffer starts with a `-`.
pub open spec fn is_negative(s: Seq<u8>) -> bool {
    minus_at(s, 0)
}

/// Where the digits of a buffer begin: after the sign and leading zeros.
pub open spec fn digits_start(s: Seq<u8>) -> int {
    skip_char(s, sign_end(s, 0), ZERO)
}

/// Where parsing a buffer stops: after the sign, leading zeros and digits.
pub open spec fn parse_end(s: Seq<u8>, radix: int) -> int {
    digits_end(s, digits_start(s), radix)
}

/// The number the digits of a buffer denote, ignoring the sign.
pub open spec fn magnitude(s: Seq<u8>, radix: int) -> int {
    fold_digits(0, s, digits_start(s), parse_end(s, radix), radix)
}

/// The number a buffer denotes, with its sign.
pub open spec fn signed_magnitude(s: Seq<u8>, radix: int) -> int {
    if is_negative(s) {
        -magnitude(s, radix)
    } else {
        magnitude(s, radix)
    }
}

/// Reading past one more leading byte shifts where a run of `c` ends.
pub proof fn lemma_skip_char_shift(x: u8, s: Seq<u8>, i: int, c: u8)
    requires
        0 <= i <= s.len(),
    ensures
        skip_char(seq![x] + s, i + 1, c) == skip_char(s, i, c) + 1,
    decreases s.len() - i,
{
    let t = seq![x] + s;
    if i < s.len() {
        assert(t[i + 1] == s[i]);
        if s[i] == c {
            lemma_skip_char_shift(x, s, i + 1, c);
        }
    }
}

/// Reading past one more leading byte shifts where a run of digits ends.
pub proof fn lemma_digits_end_shift(x: u8, s: Seq<u8>, i: int, radix: int)
    requires
        0 <= i <= s.len(),
    ensures
        digits_end(seq![x] + s, i + 1, radix) == digits_end(s, i, radix) + 1,
    decreases s.len() - i,
{
    let t = seq![x] + s;
    if i < s.len() {
        assert(t[i + 1] == s[i]);
        if is_digit(s[i], radix) {
            lemma_digits_end_shift(x, s, i + 1, radix);
        }
    }
}

/// A run of digits denotes the same number after one more leading byte.
pub proof fn lemma_fold_digits_shift(acc: int, x: u8, s: Seq<u8>, lo: int, hi: int, radix: int)
    requires
        0 <= lo,
        hi <= s.len(),
    ensures
        fold_digits(acc, seq![x] + s, lo + 1, hi + 1, radix) == fold_digits(acc, s, lo, hi, radix),
    decreases hi - lo,
{
    if hi > lo {
        assert((seq![x] + s)[hi] == s[hi - 1]);
        lemma_fold_digits_shift(acc, x, s, lo, hi - 1, radix);
    }
}

/// A run of `c` that ends inside `s` ends at the same place in `s + v`.
pub proof fn lemma_skip_char_extend(s: Seq<u8>, v: Seq<u8>, i: int, c: u8)
    requires
        0 <= i <= s.len(),
        skip_char(s, i, c) < s.len(),
    ensures
        skip_char(s + v, i, c) == skip_char(s, i, c),
    decreases s.len() - i,
{
    assert((s + v)[i] == s[i]);
    if s[i] == c {
        lemma_skip_char_extend(s, v, i + 1, c);
    }
}

/// A run of digits that ends inside `s` ends at the same place in `s + v`.
pub proof fn lemma_digits_end_extend(s: Seq<u8>, v: Seq<u8>, i: int, radix: int)
    requires
        0 <= i <= s.len(),
        digits_end(s, i, radix) < s.len(),
    ensures
        digits_end(s + v, i, radix) == digits_end(s, i, radix),
    decreases s.len() - i,
{
    assert((s + v)[i] == s[i]);
    if is_digit(s[i], radix) {
        lemma_digits_end_extend(s, v, i + 1, radix);
    }
}

/// Digits inside `s` denote the same number in `s + v`.
pub proof fn lemma_fold_digits_extend(acc: int, s: Seq<u8>, v: Seq<u8>, lo: int, hi: int, radix: int)
    requires
        0 <= lo,
        hi <= s.len(),
    ensures
        fold_digits(acc, s + v, lo, hi, radix) == fold_digits(acc, s, lo, hi, radix),
    decreases hi - lo,
{
    if hi > lo {
        assert((s + v)[hi - 1] == s[hi - 1]);
        lemma_fold_digits_extend(acc, s, v, lo, hi - 1, radix);
    }
}

/// Parsing stops inside the buffer, after the digits begin, and the
/// digits denote a non-negative number.
pub proof fn lemma_parse_bounds(s: Seq<u8>, radix: int)
    requires
        radix >= 1,
    ensures
        0 <= sign_end(s, 0) <= digits_start(s) <= parse_end(s, radix) <= s.len(),
        magnitude(s, radix) >= 0,
{
    if s.len() == 0 {
        assert(sign_end(s, 0) == 0);
    }
    lemma_skip_char(s, sign_end(s, 0), ZERO);
    lemma_digits_end(s, digits_start(s), radix);
    lemma_fold_digits_monotone(0, s, digits_start(s), digits_start(s), parse_end(s, radix), radix);
}

} // verus!
