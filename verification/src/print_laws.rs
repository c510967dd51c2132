//! What holds of costs that are written down: which digits stand before and behind the decimal point.

use crate::cost::{
    decimal_fixed, decimal_text, fixed_text, fraction, pow10, six_places, whole_text, Cost,
};
use crate::cost_laws::{lemma_pow10_add, lemma_pow10_positive};
use crate::text::{decimal_digits, digit_char};
use crate::text_laws::{digit_value, digits_value, law_digits_write_the_number, only_digits};
use vstd::arithmetic::div_mod::{lemma_fundamental_div_mod, lemma_mod_bound};
use vstd::prelude::*;

verus! {

/// So many decimal digits of a number behind others add them to that number moved to the left.
proof fn lemma_fixed_value(before: Seq<char>, n: nat, width: nat)
    requires
        n < pow10(width),
    ensures
        decimal_fixed(n, width).len() == width,
        forall|i: int| 0 <= i < width ==> '0' <= (#[trigger] decimal_fixed(n, width)[i]) <= '9',
        digits_value(before + decimal_fixed(n, width), 10) == digits_value(before, 10) * pow10(
            width,
        ) + n,
    decreases width,
{
    let s = decimal_fixed(n, width);
    if width == 0 {
        assert(before + s =~= before);
        assert(digits_value(before, 10) * 1 == digits_value(before, 10));
    } else {
        let w = (width - 1) as nat;
        lemma_fixed_value(before, n / 10, w);
        let t = decimal_fixed(n / 10, w);
        assert((before + s).drop_last() =~= before + t);
        assert((before + s).last() == digit_char(n % 10));
        assert(digit_value(digit_char(n % 10)) == n % 10);
        let (v, p) = (digits_value(before, 10), pow10(w) as int);
        assert((v * p + n / 10) * 10 == v * (10 * p) + 10 * (n / 10)) by (nonlinear_arith);
        assert forall|i: int| 0 <= i < width implies '0' <= (#[trigger] s[i]) <= '9' by {
            if i < w {
                assert(s[i] == t[i]);
            }
        }
    }
}

/// The sign of a cost as it is written down.
pub open spec fn sign_text(c: Cost) -> Seq<char> {
    if c.negative {
        seq!['-']
    } else {
        Seq::empty()
    }
}

/// A cost with all its decimal places is its sign, the digits before the point and as many digits behind it
/// as its scale; without decimal places there is no point. Together the digits are its magnitude.
pub proof fn law_all_places_are_written(c: Cost) -> (r: (Seq<char>, Seq<char>))
    ensures
        only_digits(r.0),
        r.1.len() == c.scale,
        forall|i: int| 0 <= i < r.1.len() ==> '0' <= (#[trigger] r.1[i]) <= '9',
        c.scale > 0 ==> decimal_text(c) == sign_text(c) + r.0 + seq!['.'] + r.1,
        c.scale == 0 ==> decimal_text(c) == sign_text(c) + r.0,
        digits_value(r.0 + r.1, 10) == c.magnitude,
{
    let (m, p) = (c.magnitude as nat, pow10(c.scale as nat));
    lemma_pow10_positive(c.scale as nat);
    let whole = decimal_digits(m / p);
    let places = decimal_fixed(fraction(c), c.scale as nat);
    law_digits_write_the_number(m / p);
    assert(0 <= m % p < p && m == p * (m / p) + m % p) by {
        lemma_fundamental_div_mod(m as int, p as int);
        lemma_mod_bound(m as int, p as int);
    }
    lemma_fixed_value(whole, fraction(c), c.scale as nat);
    assert((m / p) * p == p * (m / p)) by (nonlinear_arith);
    assert(whole_text(c) =~= sign_text(c) + whole);
    if c.scale > 0 {
        assert(decimal_text(c) =~= sign_text(c) + whole + seq!['.'] + places);
    }
    (whole, places)
}

/// A cost with six decimal places is its sign, the digits before the point and six digits behind it; what
/// does not fit in six places is cut off, never rounded up.
pub proof fn law_six_places_are_written(c: Cost) -> (r: (Seq<char>, Seq<char>))
    ensures
        only_digits(r.0),
        only_digits(r.1),
        r.1.len() == 6,
        fixed_text(c) == sign_text(c) + r.0 + seq!['.'] + r.1,
        digits_value(r.0 + r.1, 10) * pow10(c.scale as nat) <= c.magnitude * pow10(6),
        c.magnitude * pow10(6) < (digits_value(r.0 + r.1, 10) + 1) * pow10(c.scale as nat),
{
    let (m, p, q) = (c.magnitude as int, pow10(c.scale as nat) as int, pow10(6) as int);
    lemma_pow10_positive(c.scale as nat);
    lemma_pow10_positive(6);
    let (w, f, six) = (m / p, fraction(c) as int, six_places(c) as int);
    assert(0 <= f < p && m == p * w + f) by {
        lemma_fundamental_div_mod(m, p);
        lemma_mod_bound(m, p);
    }
    let whole = decimal_digits(w as nat);
    law_digits_write_the_number(w as nat);
    let d = w * q + six;
    if c.scale <= 6 {
        let k = pow10((6 - c.scale) as nat) as int;
        lemma_pow10_add(c.scale as nat, (6 - c.scale) as nat);
        assert(q == p * k);
        assert(six == f * k);
        assert(six < q) by (nonlinear_arith)
            requires
                six == f * k,
                0 <= f < p,
                q == p * k,
                k > 0 || q > 0,
                p > 0,
        ;
        assert(d * p == m * q) by (nonlinear_arith)
            requires
                d == w * q + six,
                six == f * k,
                q == p * k,
                m == p * w + f,
        ;
        assert((d + 1) * p == d * p + p) by (nonlinear_arith);
    } else {
        let k = pow10((c.scale - 6) as nat) as int;
        lemma_pow10_positive((c.scale - 6) as nat);
        lemma_pow10_add(6, (c.scale - 6) as nat);
        assert(p == q * k);
        assert(six == f / k);
        lemma_fundamental_div_mod(f, k);
        lemma_mod_bound(f, k);
        let rest = f % k;
        assert(f == k * six + rest && 0 <= rest < k);
        assert(six < q) by (nonlinear_arith)
            requires
                f == k * six + rest,
                0 <= rest,
                f < p,
                p == q * k,
                k > 0,
        ;
        assert(m * q == d * p + rest * q) by (nonlinear_arith)
            requires
                d == w * q + six,
                m == p * w + f,
                f == k * six + rest,
                p == q * k,
        ;
        assert(0 <= rest * q < p) by (nonlinear_arith)
            requires
                0 <= rest < k,
                p == q * k,
                q > 0,
        ;
        assert((d + 1) * p == d * p + p) by (nonlinear_arith);
    }
    let places = decimal_fixed(six as nat, 6);
    lemma_fixed_value(whole, six as nat, 6);
    assert(whole_text(c) =~= sign_text(c) + whole);
    assert(fixed_text(c) =~= sign_text(c) + whole + seq!['.'] + places);
    assert(digits_value(whole + places, 10) == d);
    (whole, places)
}

} // verus!
