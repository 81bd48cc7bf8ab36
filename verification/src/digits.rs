//! The digits of every radix, written out as a table, and what parsing
//! does with them: each table byte stands for its position, every other
//! byte is no digit, and writing a number in the table's digits and
//! parsing it back gives the number.
use vstd::prelude::*;
use crate::model::{
    char_digit, digits_end, digits_start, fold_digits, is_digit, is_negative,
    lemma_fold_digits_extend, magnitude, parse_end, sign_end, signed_magnitude, skip_char, MINUS,
    PLUS, ZERO,
};
use crate::integer::{Integer, max_of, wrap_to};
use crate::api::{parse_error, signed_overflow, unsigned_overflow, Error, ErrorCode};
use crate::laws::{lemma_exact_unsigned, lemma_minus_sign};
use crate::model::lemma_wrap_in_range;
use vstd::arithmetic::div_mod::{lemma_div_decreases, lemma_fundamental_div_mod, lemma_div_pos_is_pos};

verus! {

/// The byte that writes the digit `d` in lowercase: `0` to `9`, then
/// `a` to `z`.
pub open spec fn lower_digit(d: int) -> u8 {
    if d == 0 {
        '0' as u8
    } else if d == 1 {
        '1' as u8
    } else if d == 2 {
        '2' as u8
    } else if d == 3 {
        '3' as u8
    } else if d == 4 {
        '4' as u8
    } else if d == 5 {
        '5' as u8
    } else if d == 6 {
        '6' as u8
    } else if d == 7 {
        '7' as u8
    } else if d == 8 {
        '8' as u8
    } else if d == 9 {
        '9' as u8
    } else if d == 10 {
        'a' as u8
    } else if d == 11 {
        'b' as u8
    } else if d == 12 {
        'c' as u8
    } else if d == 13 {
        'd' as u8
    } else if d == 14 {
        'e' as u8
    } else if d == 15 {
        'f' as u8
    } else if d == 16 {
        'g' as u8
    } else if d == 17 {
        'h' as u8
    } else if d == 18 {
        'i' as u8
    } else if d == 19 {
        'j' as u8
    } else if d == 20 {
        'k' as u8
    } else if d == 21 {
        'l' as u8
    } else if d == 22 {
        'm' as u8
    } else if d == 23 {
        'n' as u8
    } else if d == 24 {
        'o' as u8
    } else if d == 25 {
        'p' as u8
    } else if d == 26 {
        'q' as u8
    } else if d == 27 {
        'r' as u8
    } else if d == 28 {
        's' as u8
    } else if d == 29 {
        't' as u8
    } else if d == 30 {
        'u' as u8
    } else if d == 31 {
        'v' as u8
    } else if d == 32 {
        'w' as u8
    } else if d == 33 {
        'x' as u8
    } else if d == 34 {
        'y' as u8
    } else if d == 35 {
        'z' as u8
    } else {
        ' ' as u8
    }
}

/// The byte that writes the digit `d` in uppercase: `0` to `9`, then
/// `A` to `Z`.
pub open spec fn upper_digit(d: int) -> u8 {
    if d == 0 {
        '0' as u8
    } else if d == 1 {
        '1' as u8
    } else if d == 2 {
        '2' as u8
    } else if d == 3 {
        '3' as u8
    } else if d == 4 {
        '4' as u8
    } else if d == 5 {
        '5' as u8
    } else if d == 6 {
        '6' as u8
    } else if d == 7 {
        '7' as u8
    } else if d == 8 {
        '8' as u8
    } else if d == 9 {
        '9' as u8
    } else if d == 10 {
        'A' as u8
    } else if d == 11 {
        'B' as u8
    } else if d == 12 {
        'C' as u8
    } else if d == 13 {
        'D' as u8
    } else if d == 14 {
        'E' as u8
    } else if d == 15 {
        'F' as u8
    } else if d == 16 {
        'G' as u8
    } else if d == 17 {
        'H' as u8
    } else if d == 18 {
        'I' as u8
    } else if d == 19 {
        'J' as u8
    } else if d == 20 {
        'K' as u8
    } else if d == 21 {
        'L' as u8
    } else if d == 22 {
        'M' as u8
    } else if d == 23 {
        'N' as u8
    } else if d == 24 {
        'O' as u8
    } else if d == 25 {
        'P' as u8
    } else if d == 26 {
        'Q' as u8
    } else if d == 27 {
        'R' as u8
    } else if d == 28 {
        'S' as u8
    } else if d == 29 {
        'T' as u8
    } else if d == 30 {
        'U' as u8
    } else if d == 31 {
        'V' as u8
    } else if d == 32 {
        'W' as u8
    } else if d == 33 {
        'X' as u8
    } else if d == 34 {
        'Y' as u8
    } else if d == 35 {
        'Z' as u8
    } else {
        ' ' as u8
    }
}

/// Whether `c` writes a digit below `radix`, in either case.
pub open spec fn in_digit_table(c: u8, radix: int) -> bool {
    exists|d: int| 0 <= d < radix && (c == #[trigger] lower_digit(d) || c == upper_digit(d))
}

/// Each table byte stands for its position in the table, in either case.
pub proof fn lemma_table_digit_values(d: int)
    requires
        0 <= d < 36,
    ensures
        char_digit(lower_digit(d)) == d,
        char_digit(upper_digit(d)) == d,
{
}

/// A byte is a digit of a radix exactly when the table writes a digit
/// below the radix with it, and then it stands for that digit.
pub proof fn lemma_digit_table(c: u8, radix: int)
    requires
        2 <= radix <= 36,
    ensures
        is_digit(c, radix) <==> in_digit_table(c, radix),
        forall|d: int|
            0 <= d < radix && (c == #[trigger] lower_digit(d) || c == upper_digit(d))
                ==> char_digit(c) == d,
{
    assert forall|d: int| 0 <= d < radix && (c == #[trigger] lower_digit(d) || c == upper_digit(d))
        implies char_digit(c) == d by {
        lemma_table_digit_values(d);
    }
    if is_digit(c, radix) {
        let d = char_digit(c) as int;
        assert(c == lower_digit(d) || c == upper_digit(d));
    }
}

/// The digit `d` written in the chosen case.
pub open spec fn digit_byte(d: int, upper: bool) -> u8 {
    if upper {
        upper_digit(d)
    } else {
        lower_digit(d)
    }
}

/// `n` written in the radix with the table's digits, most significant
/// first and without leading zeros; zero is written `0`.
pub open spec fn render(n: nat, radix: nat, upper: bool) -> Seq<u8>
    decreases n,
{
    if radix < 2 || n < radix {
        seq![digit_byte(n as int, upper)]
    } else {
        proof {
            lemma_div_decreases(n as int, radix as int);
        }
        render(n / radix, radix, upper).push(digit_byte((n % radix) as int, upper))
    }
}

/// A written number is a run of digits of its radix, starting with no
/// sign and, unless it is zero, with no leading zero, and the digits
/// denote the number.
proof fn lemma_render(n: nat, radix: nat, upper: bool)
    requires
        2 <= radix <= 36,
    ensures
        ({
            let s = render(n, radix, upper);
            &&& s.len() >= 1
            &&& forall|k: int| 0 <= k < s.len() ==> is_digit(#[trigger] s[k], radix as int)
            &&& s[0] != PLUS && s[0] != MINUS
            &&& n >= 1 ==> s[0] != ZERO
            &&& n == 0 ==> s == seq![ZERO]
            &&& fold_digits(0, s, 0, s.len() as int, radix as int) == n
        }),
    decreases n,
{
    let s = render(n, radix, upper);
    let r = radix as int;
    assert(char_digit(PLUS) == 36 && char_digit(MINUS) == 36 && char_digit(ZERO) == 0);
    if n < radix {
        lemma_table_digit_values(n as int);
        let c = digit_byte(n as int, upper);
        assert(s == seq![c]);
        assert(char_digit(c) == n);
        if n == 0 {
            assert(c == ZERO);
        }
        assert(fold_digits(0, s, 0, 0, r) == 0);
    } else {
        lemma_div_decreases(n as int, r);
        lemma_div_pos_is_pos(n as int, r);
        let q = (n / radix) as nat;
        let d = (n % radix) as int;
        lemma_render(q, radix, upper);
        lemma_table_digit_values(d);
        let p = render(q, radix, upper);
        let c = digit_byte(d, upper);
        assert(s == p.push(c));
        assert(s == p + seq![c]);
        assert forall|k: int| 0 <= k < s.len() implies is_digit(#[trigger] s[k], r) by {
            if k < p.len() {
                assert(s[k] == p[k]);
            }
        }
        assert(s[0] == p[0]);
        lemma_fold_digits_extend(0, p, seq![c], 0, p.len() as int, r);
        assert(s[s.len() - 1] == c);
        assert(fold_digits(0, s, 0, s.len() as int, r) == fold_digits(0, s, 0, p.len() as int, r) * r
            + char_digit(c));
        lemma_fundamental_div_mod(n as int, r);
        assert(q * r == r * q) by (nonlinear_arith);
    }
}

/// A run of digits reaching the end of the buffer ends there.
proof fn lemma_digits_end_all(s: Seq<u8>, i: int, radix: int)
    requires
        0 <= i <= s.len(),
        forall|k: int| i <= k < s.len() ==> is_digit(#[trigger] s[k], radix),
    ensures
        digits_end(s, i, radix) == s.len(),
    decreases s.len() - i,
{
    if i < s.len() {
        lemma_digits_end_all(s, i + 1, radix);
    }
}

/// Writing a number in the table's digits, in either case, and parsing it
/// gives the number back, read to the end of the buffer.
pub proof fn lemma_render_parses(n: nat, radix: int, upper: bool)
    requires
        2 <= radix <= 36,
    ensures
        parse_end(render(n, radix as nat, upper), radix) == render(n, radix as nat, upper).len(),
        signed_magnitude(render(n, radix as nat, upper), radix) == n,
        !is_negative(render(n, radix as nat, upper)),
{
    let s = render(n, radix as nat, upper);
    lemma_render(n, radix as nat, upper);
    assert(sign_end(s, 0) == 0);
    if n == 0 {
        assert(s.len() == 1);
        assert(skip_char(s, 1, ZERO) == 1);
        assert(digits_start(s) == 1);
        assert(digits_end(s, 1, radix) == 1);
    } else {
        assert(digits_start(s) == 0);
        lemma_digits_end_all(s, 0, radix);
    }
}

/// A number that fits a type, written in the table's digits in either
/// case, parses back to itself in that type, signed or unsigned, and the
/// parse reports success.
pub proof fn lemma_render_roundtrip<T: Integer>(n: nat, radix: int, upper: bool)
    requires
        2 <= radix <= 36,
        n <= max_of::<T>(),
    ensures
        wrap_to::<T>(signed_magnitude(render(n, radix as nat, upper), radix)) == n,
        parse_error(
            render(n, radix as nat, upper),
            radix,
            unsigned_overflow::<T>(render(n, radix as nat, upper), radix),
        ) == (Error { code: ErrorCode::Success, index: 0 }),
        parse_error(
            render(n, radix as nat, upper),
            radix,
            signed_overflow::<T>(render(n, radix as nat, upper), radix),
        ) == (Error { code: ErrorCode::Success, index: 0 }),
{
    let s = render(n, radix as nat, upper);
    lemma_render_parses(n, radix, upper);
    lemma_render(n, radix as nat, upper);
    assert(magnitude(s, radix) == n);
    lemma_exact_unsigned::<T>(s, radix);
}

/// Skipping a byte stops before an appended byte that is a different one.
proof fn lemma_skip_char_push(s: Seq<u8>, x: u8, i: int, z: u8)
    requires
        0 <= i <= s.len(),
        x != z,
    ensures
        skip_char(s.push(x), i, z) == skip_char(s, i, z),
    decreases s.len() - i,
{
    let t = s.push(x);
    if i < s.len() {
        assert(t[i] == s[i]);
        if s[i] == z {
            lemma_skip_char_push(s, x, i + 1, z);
        }
    } else {
        assert(t[i] == x);
    }
}

/// A run of digits stops before an appended byte that is no digit.
proof fn lemma_digits_end_push(s: Seq<u8>, x: u8, i: int, radix: int)
    requires
        0 <= i <= s.len(),
        !is_digit(x, radix),
    ensures
        digits_end(s.push(x), i, radix) == digits_end(s, i, radix),
    decreases s.len() - i,
{
    let t = s.push(x);
    if i < s.len() {
        assert(t[i] == s[i]);
        if is_digit(s[i], radix) {
            lemma_digits_end_push(s, x, i + 1, radix);
        }
    } else {
        assert(t[i] == x);
    }
}

/// Appending a byte that the table does not write as a digit of the radix
/// to a buffer that is a number to its end stops the parse at that byte:
/// the number and the overflow are unchanged, and without an overflow the
/// parse reports an invalid digit at the appended byte.
pub proof fn lemma_non_digit_stops<T: Integer>(s: Seq<u8>, c: u8, radix: int)
    requires
        2 <= radix <= 36,
        s.len() > 0,
        parse_end(s, radix) == s.len(),
        !in_digit_table(c, radix),
    ensures
        parse_end(s.push(c), radix) == s.len(),
        signed_magnitude(s.push(c), radix) == signed_magnitude(s, radix),
        unsigned_overflow::<T>(s.push(c), radix) == unsigned_overflow::<T>(s, radix),
        signed_overflow::<T>(s.push(c), radix) == signed_overflow::<T>(s, radix),
        !unsigned_overflow::<T>(s, radix) ==> parse_error(
            s.push(c),
            radix,
            unsigned_overflow::<T>(s.push(c), radix),
        ) == (Error { code: ErrorCode::InvalidDigit, index: s.len() as usize }),
        !signed_overflow::<T>(s, radix) ==> parse_error(
            s.push(c),
            radix,
            signed_overflow::<T>(s.push(c), radix),
        ) == (Error { code: ErrorCode::InvalidDigit, index: s.len() as usize }),
{
    let t = s.push(c);
    lemma_digit_table(c, radix);
    lemma_table_digit_values(0);
    assert(lower_digit(0) == ZERO);
    assert(c != ZERO);
    assert(t[0] == s[0]);
    assert(sign_end(t, 0) == sign_end(s, 0));
    crate::model::lemma_parse_bounds(s, radix);
    lemma_skip_char_push(s, c, sign_end(s, 0), ZERO);
    lemma_digits_end_push(s, c, digits_start(s), radix);
    assert(s.push(c) == s + seq![c]);
    lemma_fold_digits_extend(0, s, seq![c], digits_start(s), parse_end(s, radix), radix);
}

/// A buffer that starts with a byte that is neither a sign nor a digit the
/// table writes for the radix is no number: parsing stops at once and
/// reads zero.
pub proof fn lemma_leading_non_digit(c: u8, v: Seq<u8>, radix: int)
    requires
        2 <= radix <= 36,
        c != PLUS,
        c != MINUS,
        !in_digit_table(c, radix),
    ensures
        parse_end(seq![c] + v, radix) == 0,
        signed_magnitude(seq![c] + v, radix) == 0,
{
    let t = seq![c] + v;
    lemma_digit_table(c, radix);
    assert(lower_digit(0) == ZERO);
    assert(t[0] == c);
    assert(sign_end(t, 0) == 0);
    assert(skip_char(t, 0, ZERO) == 0);
    assert(digits_end(t, 0, radix) == 0);
}

/// A number down to the minimum of a signed type, written with a `-` in
/// front of the table's digits, parses back to its negation.
pub proof fn lemma_render_negative_roundtrip<T: Integer>(n: nat, radix: int, upper: bool)
    requires
        2 <= radix <= 36,
        T::min_int() < 0,
        n <= -T::min_int(),
    ensures
        wrap_to::<T>(signed_magnitude(seq![MINUS] + render(n, radix as nat, upper), radix)) == -n,
{
    let s = render(n, radix as nat, upper);
    lemma_render(n, radix as nat, upper);
    lemma_render_parses(n, radix, upper);
    assert(sign_end(s, 0) == 0);
    lemma_minus_sign::<T>(s, radix);
    T::lemma_bounds(arbitrary());
    lemma_wrap_in_range(-n, T::min_int(), T::modulus());
}

} // verus!
