//! What holds of costs: writing one down and reading it back, and arithmetic in millionths.

use crate::cost::{
    authoritative, decimal_fixed, decimal_text, difference, exact_difference, fits, fixed_text, fraction,
    is_plain, joint_scale, limit, parsed, plain_value, pow10, scaled, scan, selected_cost, shortened, signed_cost, six_places, subtracts_exactly,
    unsigned_cost, unsigned_part, whole_text, Cost,
};
use crate::error::Failure;
use crate::text::{decimal_digits, digit_char, trimmed};
use vstd::arithmetic::div_mod::{
    lemma_div_denominator, lemma_div_multiples_vanish, lemma_div_pos_is_pos,
    lemma_div_nonincreasing, lemma_fundamental_div_mod,
    lemma_fundamental_div_mod_converse, lemma_hoist_over_denominator, lemma_mod_bound, lemma_mod_breakdown,
    lemma_mod_multiples_basic, lemma_small_mod,
};
use vstd::prelude::*;

verus! {

/// Powers of ten are positive.
pub proof fn lemma_pow10_positive(n: nat)
    ensures
        pow10(n) > 0,
    decreases n,
{
    if n > 0 {
        lemma_pow10_positive((n - 1) as nat);
    }
}

/// Powers of ten are multiplied by adding the exponents.
pub proof fn lemma_pow10_add(a: nat, b: nat)
    ensures
        pow10(a + b) == pow10(a) * pow10(b),
    decreases a,
{
    if a > 0 {
        lemma_pow10_add((a - 1) as nat, b);
        let (p, q) = (pow10((a - 1) as nat), pow10(b));
        assert(pow10(a + b) == 10 * pow10((a - 1 + b) as nat));
        assert(10 * (p * q) == (10 * p) * q) by (nonlinear_arith);
    } else {
        assert(1 * pow10(b) == pow10(b));
    }
}

proof fn lemma_digit_char(d: nat)
    requires
        d < 10,
    ensures
        '0' <= digit_char(d) <= '9',
        (digit_char(d) as u32 - 48) as nat == d,
{
}

/// Reading one more character.
proof fn lemma_scan_push(prefix: Seq<char>, c: char)
    ensures
        scan(prefix.push(c)) == match scan(prefix) {
            None => None,
            Some((value, places, point)) => if '0' <= c <= '9' {
                Some((value * 10 + (c as u32 - 48) as nat, if point {
                    places + 1
                } else {
                    0
                }, point))
            } else if c == '.' && !point && prefix.len() > 0 {
                Some((value, 0nat, true))
            } else {
                None
            },
        },
{
    assert(prefix.push(c).drop_last() =~= prefix);
}

/// The decimal digits of a number read back as the number.
pub proof fn lemma_scan_digits(n: nat)
    ensures
        scan(decimal_digits(n)) == Some((n, 0nat, false)),
        decimal_digits(n).len() > 0,
        '0' <= decimal_digits(n)[0] <= '9',
        '0' <= decimal_digits(n).last() <= '9',
    decreases n,
{
    if n < 10 {
        lemma_digit_char(n);
        lemma_scan_push(Seq::empty(), digit_char(n));
        assert(decimal_digits(n) =~= Seq::<char>::empty().push(digit_char(n)));
    } else {
        lemma_scan_digits(n / 10);
        lemma_digit_char(n % 10);
        lemma_scan_push(decimal_digits(n / 10), digit_char(n % 10));
    }
}

/// Digits after the decimal point extend the number that stands before them.
proof fn lemma_scan_fixed(prefix: Seq<char>, value: nat, places: nat, n: nat, width: nat)
    requires
        scan(prefix) == Some((value, places, true)),
    ensures
        scan(prefix + decimal_fixed(n, width)) == Some(
            ((value * pow10(width) + n % pow10(width)) as nat, places + width, true),
        ),
        decimal_fixed(n, width).len() == width,
        width > 0 ==> '0' <= decimal_fixed(n, width).last() <= '9',
    decreases width,
{
    if width == 0 {
        assert(prefix + decimal_fixed(n, width) =~= prefix);
        assert(pow10(width) == 1);
        assert(value * 1 + n % 1 == value);
    } else {
        let w = (width - 1) as nat;
        lemma_scan_fixed(prefix, value, places, n / 10, w);
        lemma_digit_char(n % 10);
        let before = prefix + decimal_fixed(n / 10, w);
        lemma_scan_push(before, digit_char(n % 10));
        assert(prefix + decimal_fixed(n, width) =~= before.push(digit_char(n % 10)));
        let p = pow10(w);
        lemma_pow10_positive(w);
        lemma_mod_breakdown(n as int, 10, p as int);
        let m = (n / 10) % p;
        assert((value * p + m) * 10 + n % 10 == value * (10 * p) + (10 * m + n % 10))
            by (nonlinear_arith);
    }
}

/// A digit or a minus sign is no white space.
proof fn lemma_no_white_space(text: Seq<char>)
    requires
        text.len() > 0,
        text[0] == '-' || '0' <= text[0] <= '9',
        '0' <= text.last() <= '9',
    ensures
        trimmed(text) == text,
{
}

/// Sign and digits, then a decimal point and `width` decimal places, read back as written.
proof fn lemma_plain(negative: bool, whole: nat, n: nat, width: nat)
    requires
        n < pow10(width),
        whole * pow10(width) + n < limit(),
        width <= 28,
    ensures
        ({
            let front = if negative {
                seq!['-'] + decimal_digits(whole)
            } else {
                decimal_digits(whole)
            };
            let text = if width == 0 {
                front
            } else {
                front.push('.') + decimal_fixed(n, width)
            };
            &&& trimmed(text) == text
            &&& parsed(text) == Ok::<Cost, Seq<char>>(
                Cost {
                    negative: negative && whole * pow10(width) + n > 0,
                    magnitude: (whole * pow10(width) + n) as u128,
                    scale: width as u32,
                },
            )
        }),
{
    let digits = decimal_digits(whole);
    let front = if negative {
        seq!['-'] + digits
    } else {
        digits
    };
    lemma_scan_digits(whole);
    if width == 0 {
        assert(front.drop_first() =~= digits || !negative);
        assert(unsigned_part(front) =~= digits);
        assert(front.last() == digits.last());
        assert(pow10(0) == 1);
        assert(whole * 1 + n == whole) by (nonlinear_arith)
            requires
                n == 0,
        ;
        lemma_no_white_space(front);
    } else {
        let text = front.push('.') + decimal_fixed(n, width);
        lemma_scan_push(digits, '.');
        lemma_scan_fixed(digits.push('.'), whole, 0, n, width);
        assert(n % pow10(width) == n) by {
            lemma_small_mod(n, pow10(width));
        }
        assert(unsigned_part(text) =~= digits.push('.') + decimal_fixed(n, width));
        assert(text.last() == decimal_fixed(n, width).last());
        lemma_no_white_space(text);
    }
}

/// A cost that was written with all its decimal places reads back as the same cost.
pub proof fn lemma_cost_text_reads_back(c: Cost, name: Seq<char>)
    requires
        c.valid(),
    ensures
        signed_cost(decimal_text(c), name) == Ok::<Cost, Failure>(c.normal()),
        c.mantissa() >= 0 ==> unsigned_cost(decimal_text(c), name) == Ok::<Cost, Failure>(
            c.normal(),
        ),
{
    let s = c.scale as nat;
    let m = c.magnitude as int;
    lemma_pow10_positive(s);
    lemma_fundamental_div_mod(m, pow10(s) as int);
    lemma_mod_bound(m, pow10(s) as int);
    let whole = c.magnitude as nat / pow10(s);
    assert(whole * pow10(s) == pow10(s) * whole) by (nonlinear_arith);
    lemma_plain(c.negative, whole, fraction(c), s);
}

/// A value at a smaller unit is reached by one more multiplication.
pub proof fn lemma_at_scale(c: Cost, s: nat, t: nat)
    requires
        c.scale <= s <= t,
    ensures
        c.at_scale(t) == c.at_scale(s) * pow10((t - s) as nat),
{
    lemma_pow10_add((s - c.scale) as nat, (t - s) as nat);
    let (m, p, q) = (
        c.mantissa(),
        pow10((s - c.scale) as nat) as int,
        pow10((t - s) as nat) as int,
    );
    assert(m * (p * q) == (m * p) * q) by (nonlinear_arith);
}

/// Multiplying and dividing by the same number cancel.
proof fn lemma_multiple(x: int, q: int)
    requires
        q > 0,
    ensures
        (x * q) % q == 0,
        (x * q) / q == x,
{
    lemma_mod_multiples_basic(x, q);
    lemma_div_multiples_vanish(x, q);
    assert(x * q == q * x) by (nonlinear_arith);
}

/// A cost with at most six decimal places is a whole number of millionths.
pub proof fn lemma_few_places(c: Cost)
    requires
        c.scale <= 6,
    ensures
        c.at_scale(28) % (pow10(22) as int) == 0,
        c.micros() == c.at_scale(6),
{
    lemma_at_scale(c, 6, 28);
    lemma_pow10_positive(22);
    lemma_multiple(c.at_scale(6), pow10(22) as int);
}

/// The millionths of a cost with more than six decimal places.
proof fn lemma_many_places(c: Cost)
    requires
        6 < c.scale <= 28,
        c.mantissa() >= 0,
    ensures
        c.micros() == c.mantissa() / (pow10((c.scale - 6) as nat) as int),
{
    let (a, b) = ((28 - c.scale) as nat, (c.scale - 6) as nat);
    lemma_pow10_add(a, b);
    lemma_pow10_positive(a);
    lemma_pow10_positive(b);
    let (m, p, q) = (c.mantissa(), pow10(a) as int, pow10(b) as int);
    assert(m * p >= 0) by (nonlinear_arith)
        requires
            m >= 0,
            p > 0,
    ;
    lemma_div_denominator(m * p, p, q);
    lemma_multiple(m, p);
}

/// The digits before the decimal point and the six behind it are the millionths of a cost.
pub proof fn lemma_six_places(c: Cost)
    requires
        c.valid(),
        c.mantissa() >= 0,
    ensures
        (c.magnitude as nat / pow10(c.scale as nat)) * pow10(6) + six_places(c) == c.micros(),
        six_places(c) < pow10(6),
        c.negative ==> c.micros() == 0,
{
    let s = c.scale as nat;
    let m = c.magnitude as int;
    let p = pow10(s) as int;
    lemma_pow10_positive(s);
    lemma_fundamental_div_mod(m, p);
    lemma_mod_bound(m, p);
    let (w, f) = (m / p, m % p);
    if c.scale <= 6 {
        let q = pow10((6 - s) as nat) as int;
        lemma_few_places(c);
        lemma_pow10_positive((6 - s) as nat);
        lemma_pow10_add(s, (6 - s) as nat);
        assert(pow10(6) == p * q);
        assert(0 <= f * q < p * q) by (nonlinear_arith)
            requires
                0 <= f < p,
                q > 0,
        ;
        assert(w * (p * q) + f * q == m * q) by (nonlinear_arith)
            requires
                m == p * w + f,
        ;
    } else {
        let q = pow10((s - 6) as nat) as int;
        let z = pow10(6) as int;
        lemma_many_places(c);
        lemma_pow10_positive((s - 6) as nat);
        lemma_pow10_positive(6);
        lemma_pow10_add(6, (s - 6) as nat);
        assert(p == z * q);
        assert(m == (w * z) * q + f) by (nonlinear_arith)
            requires
                m == (z * q) * w + f,
        ;
        lemma_hoist_over_denominator(f, w * z, q as nat);
        lemma_multiply_divide_lt(f, q, z);
        lemma_div_pos_is_pos(f, q);
    }
    assert(w * pow10(6) + six_places(c) == c.micros());
    if c.negative {
        assert(m == 0);
    }
}

/// A cost of whole millionths that was written with six decimal places reads back with the same
/// value and exactly six decimal places.
pub proof fn lemma_fixed_text_reads_back(c: Cost, name: Seq<char>)
    requires
        c.in_micros(),
        c.mantissa() >= 0,
    ensures
        unsigned_cost(fixed_text(c), name) == Ok::<Cost, Failure>(scaled(c.micros(), 6)),
{
    lemma_six_places(c);
    let w = c.magnitude as nat / pow10(c.scale as nat);
    lemma_plain(c.negative, w, six_places(c), 6);
}

/// Costs of the same number of millionths are written alike with six decimal places.
pub proof fn lemma_fixed_text_of_micros(a: Cost, b: Cost)
    requires
        a.valid(),
        b.valid(),
        !a.negative,
        !b.negative,
        a.micros() == b.micros(),
    ensures
        fixed_text(a) == fixed_text(b),
{
    lemma_six_places(a);
    lemma_six_places(b);
    let (v, w) = (
        a.magnitude as nat / pow10(a.scale as nat),
        b.magnitude as nat / pow10(b.scale as nat),
    );
    let z = pow10(6) as int;
    lemma_pow10_positive(6);
    assert(v as int * z == v * pow10(6)) by (nonlinear_arith)
        requires
            z == pow10(6),
    ;
    assert(w as int * z == w * pow10(6)) by (nonlinear_arith)
        requires
            z == pow10(6),
    ;
    lemma_fundamental_div_mod_converse(a.micros(), z, v as int, six_places(a) as int);
    lemma_fundamental_div_mod_converse(b.micros(), z, w as int, six_places(b) as int);
}

/// The number fits in 96 bits once some zeros at its end, at most so many, are left off.
spec fn fits_without_zeros(total: nat, zeros: nat) -> bool
    decreases zeros,
{
    total < limit() || (zeros > 0 && total % 10 == 0 && fits_without_zeros(
        total / 10,
        (zeros - 1) as nat,
    ))
}

/// A number that fits does so too with zeros added and left off again.
proof fn lemma_fits_without_zeros(m: nat, added: nat, zeros: nat)
    requires
        m < limit(),
        added <= zeros,
    ensures
        fits_without_zeros(m * pow10(added), zeros),
    decreases added,
{
    if added > 0 {
        let p = pow10((added - 1) as nat);
        lemma_fits_without_zeros(m, (added - 1) as nat, (zeros - 1) as nat);
        assert(m * (10 * p) == (m * p) * 10) by (nonlinear_arith);
        assert(((m * p) * 10) % 10 == 0 && ((m * p) * 10) / 10 == m * p);
    } else {
        assert(m * 1 == m);
    }
}

/// The number that a text of sign, digits, decimal point and `width` decimal places writes down is
/// read, though zeros at its end may have to be left off.
proof fn lemma_shortened(negative: bool, whole: nat, n: nat, width: nat)
    requires
        n < pow10(width),
        whole < limit(),
        width <= 28,
        fits_without_zeros(whole * pow10(width) + n, width),
    ensures
        ({
            let front = if negative {
                seq!['-'] + decimal_digits(whole)
            } else {
                decimal_digits(whole)
            };
            let text = front.push('.') + decimal_fixed(n, width);
            let total = whole * pow10(width) + n;
            &&& is_plain(shortened(text))
            &&& plain_value(shortened(text)).valid()
            &&& plain_value(shortened(text)).scale <= width
            &&& plain_value(shortened(text)).negative == (negative && total > 0)
            &&& plain_value(shortened(text)).magnitude * pow10(
                (28 - plain_value(shortened(text)).scale) as nat,
            ) == total * pow10((28 - width) as nat)
        }),
    decreases width,
{
    let digits = decimal_digits(whole);
    let front = if negative {
        seq!['-'] + digits
    } else {
        digits
    };
    let text = front.push('.') + decimal_fixed(n, width);
    let total = (whole * pow10(width) + n) as nat;
    lemma_scan_digits(whole);
    lemma_scan_push(digits, '.');
    lemma_scan_fixed(digits.push('.'), whole, 0, n, width);
    lemma_small_mod(n, pow10(width));
    assert(unsigned_part(text) =~= digits.push('.') + decimal_fixed(n, width));
    assert(scan(unsigned_part(text)) == Some((total, width, true)));
    if total < limit() {
        assert(shortened(text) == text);
    } else {
        if width == 0 {
            assert(whole * 1 == whole);
        }
        let w = (width - 1) as nat;
        let p = pow10(w);
        assert(whole * (10 * p) == (whole * p) * 10) by (nonlinear_arith);
        assert(n % 10 == 0 && n / 10 < p);
        assert(total / 10 == whole * p + n / 10);
        lemma_shortened(negative, whole, n / 10, w);
        assert(text.drop_last() =~= front.push('.') + decimal_fixed(n / 10, w));
        assert(text.last() == '0');
        assert(shortened(text) == shortened(text.drop_last()));
        let q = pow10((28 - width) as nat);
        let half = total / 10;
        assert(pow10((28 - w) as nat) == 10 * q);
        assert(half * (10 * q) == (half * 10) * q) by (nonlinear_arith);
    }
}

/// A cost of whole millionths that was written with six decimal places reads back with the same
/// value, whether or not all six of them fit.
pub proof fn lemma_fixed_text_keeps_value(c: Cost, name: Seq<char>)
    requires
        c.valid(),
        c.mantissa() >= 0,
        c.at_scale(28) % (pow10(22) as int) == 0,
    ensures
        unsigned_cost(fixed_text(c), name) is Ok,
        unsigned_cost(fixed_text(c), name)->Ok_0.non_negative(),
        unsigned_cost(fixed_text(c), name)->Ok_0.at_scale(28) == c.at_scale(28),
{
    let s = c.scale as nat;
    let m = c.magnitude as nat;
    lemma_six_places(c);
    let w = m / pow10(s);
    let n = six_places(c);
    let total = (w * pow10(6) + n) as nat;
    lemma_pow10_positive(s);
    lemma_div_is_smaller(m, pow10(s));
    if c.scale <= 6 {
        lemma_few_places(c);
        lemma_fits_without_zeros(m, (6 - s) as nat, 6);
    } else {
        lemma_many_places(c);
        lemma_pow10_positive((s - 6) as nat);
        lemma_div_is_smaller(m, pow10((s - 6) as nat));
    }
    lemma_shortened(c.negative, w, n, 6);
    let text = fixed_text(c);
    let front = whole_text(c);
    lemma_scan_digits(w);
    lemma_scan_push(decimal_digits(w), '.');
    lemma_scan_fixed(decimal_digits(w).push('.'), w, 0, n, 6);
    assert(text.last() == decimal_fixed(n, 6).last());
    assert(text[0] == front[0]);
    lemma_no_white_space(text);
    lemma_pow10_positive(22);
    lemma_fundamental_div_mod(c.at_scale(28), pow10(22) as int);
    let k = plain_value(shortened(text));
    assert(total * pow10(22) == pow10(22) * total) by (nonlinear_arith);
    if c.negative {
        assert(m == 0);
        assert(total == 0) by {
            lemma_pow10_positive((28 - c.scale) as nat);
            assert(0 * pow10((28 - c.scale) as nat) == 0);
        }
    }
}

/// A quotient is at most the dividend.
proof fn lemma_div_is_smaller(x: nat, d: nat)
    requires
        d > 0,
    ensures
        x / d <= x,
{
    lemma_div_nonincreasing(x as int, d as int);
}

/// A number of millionths with exactly six decimal places.
pub proof fn lemma_scaled_micros(x: int)
    requires
        fits(x),
    ensures
        scaled(x, 6).in_micros(),
        scaled(x, 6).micros() == x,
        scaled(x, 6).mantissa() == x,
{
    let c = scaled(x, 6);
    lemma_few_places(c);
    assert(pow10(0) == 1);
    assert(c.at_scale(6) == c.mantissa() * 1);
}

/// Where subtraction is exact, the value of the difference is the difference of the values.
pub proof fn lemma_difference_is_exact(a: Cost, b: Cost)
    requires
        a.valid(),
        b.valid(),
        subtracts_exactly(a, b),
    ensures
        difference(a, b) is Some,
        difference(a, b)->0.valid(),
        difference(a, b)->0.at_scale(28) == a.at_scale(28) - b.at_scale(28),
{
    let s = joint_scale(a, b);
    let d = exact_difference(a, b);
    if a.magnitude == 0 {
        assert(0 * pow10((28 - a.scale) as nat) == 0);
        let r = pow10((28 - b.scale) as nat) as int;
        assert((-b.mantissa()) * r == -(b.mantissa() * r)) by (nonlinear_arith);
        assert(d.mantissa() == -b.mantissa());
    } else if b.magnitude == 0 {
        assert(0 * pow10((28 - b.scale) as nat) == 0);
    } else {
        let (x, y, q) = (a.at_scale(s), b.at_scale(s), pow10((28 - s) as nat) as int);
        lemma_at_scale(a, s, 28);
        lemma_at_scale(b, s, 28);
        assert(d == scaled(x - y, s));
        assert(d.mantissa() == x - y);
        assert((x - y) * q == x * q - y * q) by (nonlinear_arith);
    }
}

/// The difference of two costs of whole millionths, where it is exact, is their difference in
/// millionths.
pub proof fn lemma_difference_in_micros(a: Cost, b: Cost)
    requires
        a.in_micros(),
        b.in_micros(),
        fits(a.micros() - b.micros()),
        subtracts_exactly(a, b),
    ensures
        difference(a, b) is Some,
        difference(a, b)->0.in_micros(),
        difference(a, b)->0.micros() == a.micros() - b.micros(),
{
    lemma_difference_is_exact(a, b);
    let q = pow10(22) as int;
    lemma_pow10_positive(22);
    lemma_fundamental_div_mod(a.at_scale(28), q);
    lemma_fundamental_div_mod(b.at_scale(28), q);
    let (x, y) = (a.micros(), b.micros());
    assert(q * x - q * y == (x - y) * q) by (nonlinear_arith);
    lemma_multiple(x - y, q);
}

/// Two costs of the same value are subtracted exactly.
pub proof fn lemma_same_value_subtracts(a: Cost, b: Cost)
    requires
        a.valid(),
        b.valid(),
        a.at_scale(28) == b.at_scale(28),
    ensures
        subtracts_exactly(a, b),
{
    let s = joint_scale(a, b);
    let q = pow10((28 - s) as nat) as int;
    let (x, y) = (a.at_scale(s), b.at_scale(s));
    lemma_at_scale(a, s, 28);
    lemma_at_scale(b, s, 28);
    lemma_pow10_positive((28 - s) as nat);
    assert(x == y) by (nonlinear_arith)
        requires
            x * q == y * q,
            q > 0,
    ;
    assert(pow10(0) == 1);
    if a.scale == s {
        assert(x == a.mantissa() * 1);
    } else {
        assert(y == b.mantissa() * 1);
    }
}

/// Whole millionths written with at most six decimal places are subtracted exactly, where the
/// difference fits.
pub proof fn lemma_few_places_subtract(a: Cost, b: Cost)
    requires
        a.in_micros(),
        b.in_micros(),
        a.scale <= 6,
        b.scale <= 6,
        fits(a.micros() - b.micros()),
    ensures
        subtracts_exactly(a, b),
{
    let s = joint_scale(a, b);
    let q = pow10((6 - s) as nat) as int;
    let (x, y) = (a.at_scale(s), b.at_scale(s));
    lemma_few_places(a);
    lemma_few_places(b);
    lemma_pow10_positive((6 - s) as nat);
    lemma_at_scale(a, s, 6);
    lemma_at_scale(b, s, 6);
    assert((x - y) * q == x * q - y * q) by (nonlinear_arith);
    lemma_shrinks(x, q);
    lemma_shrinks(y, q);
    lemma_shrinks(x - y, q);
}

/// Costs of whole millionths with the same number of them have the same value.
pub proof fn lemma_same_micros(a: Cost, b: Cost)
    requires
        a.in_micros(),
        b.in_micros(),
        a.micros() == b.micros(),
    ensures
        a.at_scale(28) == b.at_scale(28),
{
    lemma_pow10_positive(22);
    lemma_fundamental_div_mod(a.at_scale(28), pow10(22) as int);
    lemma_fundamental_div_mod(b.at_scale(28), pow10(22) as int);
}

/// The sign of a cost is that of its value at any unit.
pub proof fn lemma_sign(c: Cost)
    ensures
        c.scale <= 28 ==> (c.mantissa() > 0 <==> c.at_scale(28) > 0) && (c.mantissa() < 0
            <==> c.at_scale(28) < 0),
        c.in_micros() ==> (c.mantissa() > 0 <==> c.micros() > 0) && (c.mantissa() < 0
            <==> c.micros() < 0),
{
    if c.scale <= 28 {
        let (m, q, p) = (c.mantissa(), pow10((28 - c.scale) as nat) as int, pow10(22) as int);
        lemma_pow10_positive((28 - c.scale) as nat);
        lemma_pow10_positive(22);
        assert((m > 0 <==> m * q > 0) && (m < 0 <==> m * q < 0)) by (nonlinear_arith)
            requires
                q > 0,
        ;
        lemma_fundamental_div_mod(m * q, p);
        let x = c.micros();
        assert((x > 0 <==> p * x > 0) && (x < 0 <==> p * x < 0)) by (nonlinear_arith)
            requires
                p > 0,
        ;
    }
}

/// What is subtracted exactly is so too once it has exactly six decimal places.
pub proof fn lemma_subtracts_with_six_places(a: Cost, b: Cost)
    requires
        a.in_micros(),
        b.in_micros(),
        a.mantissa() >= 0,
        b.mantissa() >= 0,
        subtracts_exactly(a, b),
    ensures
        subtracts_exactly(a, scaled(b.micros(), 6)),
{
    let k = scaled(b.micros(), 6);
    lemma_sign(a);
    lemma_sign(b);
    lemma_scaled_micros(b.micros());
    if a.scale <= 6 {
        lemma_few_places_subtract(a, k);
    } else if a.magnitude != 0 && b.magnitude != 0 {
        let (t, s) = (a.scale as nat, joint_scale(a, b));
        let (q, r) = (pow10((s - t) as nat) as int, pow10((28 - s) as nat) as int);
        let (x, y) = (k.at_scale(t), b.at_scale(s));
        lemma_pow10_positive((s - t) as nat);
        lemma_pow10_positive((28 - s) as nat);
        lemma_same_micros(k, b);
        lemma_at_scale(k, t, s);
        lemma_at_scale(k, s, 28);
        lemma_at_scale(b, s, 28);
        assert(x * q == y) by (nonlinear_arith)
            requires
                (x * q) * r == y * r,
                r > 0,
        ;
        lemma_shrinks(x, q);
        assert(pow10(0) == 1);
        assert(a.at_scale(t) == a.mantissa() * 1);
        lemma_sign(k);
        lemma_at_scale(k, 6, t);
        let z = pow10((t - 6) as nat) as int;
        lemma_pow10_positive((t - 6) as nat);
        assert(k.at_scale(6) == k.mantissa() * 1);
        assert(x >= 0) by (nonlinear_arith)
            requires
                x == k.mantissa() * z,
                k.mantissa() >= 0,
                z > 0,
        ;
    }
}

/// A quotient is below any number whose product with the divisor exceeds the dividend.
proof fn lemma_multiply_divide_lt(x: int, q: int, z: int)
    requires
        0 <= x < z * q,
        q > 0,
    ensures
        x / q < z,
{
    lemma_fundamental_div_mod(x, q);
    lemma_mod_bound(x, q);
    let w = x / q;
    assert(w < z) by (nonlinear_arith)
        requires
            q * w <= x,
            x < z * q,
            q > 0,
    ;
}

/// A factor of a number that fits also fits.
proof fn lemma_shrinks(x: int, q: int)
    requires
        q > 0,
    ensures
        fits(x * q) ==> fits(x),
{
    if x >= 0 {
        assert(x * q >= x) by (nonlinear_arith)
            requires
                x >= 0,
                q >= 1,
        ;
    } else {
        assert(x * q <= x) by (nonlinear_arith)
            requires
                x < 0,
                q >= 1,
        ;
    }
}

/// The cost that counts is the actual cost, the estimate or zero; the two are never added, and where
/// the actual cost counts the estimate has no part in it.
pub proof fn law_costs_are_never_added(
    estimated: Option<Cost>,
    other_estimate: Option<Cost>,
    actual: Option<Cost>,
    status: Option<Seq<char>>,
)
    ensures
        ({
            let (cost, kind) = selected_cost(estimated, actual, status);
            ||| actual == Some(cost) && status is Some && authoritative(status->0) && selected_cost(
                other_estimate,
                actual,
                status,
            ) == (cost, kind)
            ||| estimated == Some(cost)
            ||| cost == Cost::nothing()
        }),
{
}

} // verus!
