//! Decimal amounts of money. The arithmetic, parsing and printing are those of `rust_decimal`;
//! a [`Cost`] holds in plain integers what one of its `Decimal` values holds.

use crate::cost_laws::lemma_pow10_positive;
use crate::error::{detailed_failure, field_failure, viewed, AppError, Failure};
use crate::text::{
    ascii_lowercase, ascii_lowered, decimal_digits, digit_char, same_text, trim_text, trimmed,
};
use rust_decimal::Decimal;
use vstd::pervasive::unreached;
use vstd::prelude::*;
use vstd::string::*;

verus! {

/// A decimal number: `magnitude / 10^scale`, with a sign.
#[derive(Debug, Clone, Copy, PartialEq, Eq, Structural)]
pub struct Cost {
    pub negative: bool,
    pub magnitude: u128,
    pub scale: u32,
}

/// Ten to the power of `n`.
pub open spec fn pow10(n: nat) -> nat
    decreases n,
{
    if n == 0 {
        1
    } else {
        10 * pow10((n - 1) as nat)
    }
}

/// The magnitudes of 96 bits.
pub open spec fn limit() -> int {
    0x1_0000_0000_0000_0000_0000_0000
}

impl Cost {
    /// A value that `Decimal` can hold: 96 bits of magnitude and at most 28 decimal places.
    pub open spec fn valid(self) -> bool {
        self.magnitude < limit() && self.scale <= 28
    }

    /// The magnitude with its sign.
    pub open spec fn mantissa(self) -> int {
        if self.negative {
            -(self.magnitude as int)
        } else {
            self.magnitude as int
        }
    }

    /// The value in units of `10^-scale`.
    pub open spec fn at_scale(self, scale: nat) -> int
        recommends
            self.scale <= scale,
    {
        self.mantissa() * pow10((scale - self.scale) as nat)
    }

    /// A valid value that is not below zero.
    pub open spec fn non_negative(self) -> bool {
        self.valid() && self.mantissa() >= 0
    }

    /// Zero, with no decimal places.
    pub open spec fn nothing() -> Cost {
        Cost { negative: false, magnitude: 0, scale: 0 }
    }

    /// The same value; zero has no sign.
    pub open spec fn normal(self) -> Cost {
        Cost { negative: self.negative && self.magnitude > 0, ..self }
    }

    /// Fewer than 26 digits stand before the decimal point, as many as the printer's buffer can
    /// take beside six decimal places.
    pub open spec fn printable(self) -> bool {
        self.scale >= 4 || self.magnitude < pow10((25 + self.scale) as nat)
    }

    /// A whole number of millionths that still fits in 96 bits: what six decimal places keep.
    pub open spec fn in_micros(self) -> bool {
        &&& self.valid()
        &&& self.at_scale(28) % (pow10(22) as int) == 0
        &&& -limit() < self.micros() < limit()
    }

    /// The value in millionths.
    pub open spec fn micros(self) -> int {
        self.at_scale(28) / (pow10(22) as int)
    }

    /// Zero, with no decimal places.
    pub fn zero() -> (r: Cost)
        ensures
            r == Cost::nothing(),
            r.non_negative(),
            r.printable(),
    {
        proof {
            lemma_pow10_positive(25);
        }
        Cost { negative: false, magnitude: 0, scale: 0 }
    }

    /// `num / 10^scale`.
    pub fn new(num: i64, scale: u32) -> (r: Cost)
        requires
            scale <= 28,
        ensures
            r.valid(),
            r.mantissa() == num,
            r.scale == scale,
            r.magnitude == 0 ==> !r.negative,
    {
        if num < 0 {
            Cost { negative: true, magnitude: (-(num as i128)) as u128, scale }
        } else {
            Cost { negative: false, magnitude: num as u128, scale }
        }
    }

    /// Whether the value is above zero.
    pub fn is_positive(&self) -> (r: bool)
        ensures
            r == (self.mantissa() > 0),
    {
        self.magnitude != 0 && !self.negative
    }

    /// Whether the value is below zero.
    pub fn is_negative(&self) -> (r: bool)
        ensures
            r == (self.mantissa() < 0),
    {
        self.magnitude != 0 && self.negative
    }

    /// Whether the value can be printed with six decimal places.
    pub fn can_print(&self) -> (r: bool)
        requires
            self.valid(),
        ensures
            r == self.printable(),
    {
        assert(pow10(25) == 10_000_000_000_000_000_000_000_000 && pow10(26)
            == 100_000_000_000_000_000_000_000_000 && pow10(27)
            == 1_000_000_000_000_000_000_000_000_000 && pow10(28)
            == 10_000_000_000_000_000_000_000_000_000) by {
            reveal_with_fuel(pow10, 29);
        }
        let bound: u128 = if self.scale == 0 {
            10_000_000_000_000_000_000_000_000
        } else if self.scale == 1 {
            100_000_000_000_000_000_000_000_000
        } else if self.scale == 2 {
            1_000_000_000_000_000_000_000_000_000
        } else {
            10_000_000_000_000_000_000_000_000_000
        };
        self.scale >= 4 || self.magnitude < bound
    }
}

/// The larger of two numbers of decimal places.
pub open spec fn joint_scale(a: Cost, b: Cost) -> nat {
    if a.scale >= b.scale {
        a.scale as nat
    } else {
        b.scale as nat
    }
}

/// A number of 96 bits or fewer, of either sign.
pub open spec fn fits(x: int) -> bool {
    -limit() < x < limit()
}

/// `x / 10^scale`.
pub open spec fn scaled(x: int, scale: nat) -> Cost {
    Cost {
        negative: x < 0,
        magnitude: (if x < 0 {
            -x
        } else {
            x
        }) as u128,
        scale: scale as u32,
    }
}

/// What `Decimal` subtraction gives where the operands or the result need more than 96 bits at
/// their common scale, so that it rounds or overflows.
pub uninterp spec fn rounded_difference(lhs: Cost, rhs: Cost) -> Option<Cost>;

/// What `Decimal` addition gives where the operands or the result need more than 96 bits at
/// their common scale, so that it rounds or overflows.
pub uninterp spec fn rounded_sum(lhs: Cost, rhs: Cost) -> Option<Cost>;

/// The two operands fit in 96 bits at their common scale, and so does `result` at that scale.
pub open spec fn aligned(lhs: Cost, rhs: Cost, result: int) -> bool {
    let s = joint_scale(lhs, rhs);
    fits(lhs.at_scale(s)) && fits(rhs.at_scale(s)) && fits(result)
}

/// `lhs - rhs` is exact: an operand is zero, or everything fits in 96 bits at the larger scale.
pub open spec fn subtracts_exactly(lhs: Cost, rhs: Cost) -> bool {
    let s = joint_scale(lhs, rhs);
    lhs.magnitude == 0 || rhs.magnitude == 0 || aligned(lhs, rhs, lhs.at_scale(s) - rhs.at_scale(s))
}

/// `lhs - rhs` where it is exact: with the larger number of decimal places; an operand of zero
/// leaves the scale of the other.
pub open spec fn exact_difference(lhs: Cost, rhs: Cost) -> Cost {
    let s = joint_scale(lhs, rhs);
    if lhs.magnitude == 0 && rhs.magnitude == 0 {
        rhs
    } else if lhs.magnitude == 0 {
        Cost { negative: !rhs.negative, ..rhs }
    } else if rhs.magnitude == 0 {
        lhs
    } else {
        scaled(lhs.at_scale(s) - rhs.at_scale(s), s)
    }
}

/// `lhs - rhs`, `None` where it overflows.
pub open spec fn difference(lhs: Cost, rhs: Cost) -> Option<Cost> {
    if subtracts_exactly(lhs, rhs) {
        Some(exact_difference(lhs, rhs))
    } else {
        rounded_difference(lhs, rhs)
    }
}

/// `lhs + rhs` is exact: an operand is zero, or everything fits in 96 bits at the larger scale.
pub open spec fn adds_exactly(lhs: Cost, rhs: Cost) -> bool {
    let s = joint_scale(lhs, rhs);
    lhs.magnitude == 0 || rhs.magnitude == 0 || aligned(lhs, rhs, lhs.at_scale(s) + rhs.at_scale(s))
}

/// `lhs + rhs` where it is exact: with the larger number of decimal places; an operand of zero
/// leaves the other as it is.
pub open spec fn exact_sum(lhs: Cost, rhs: Cost) -> Cost {
    let s = joint_scale(lhs, rhs);
    if lhs.magnitude == 0 {
        rhs
    } else if rhs.magnitude == 0 {
        lhs
    } else {
        scaled(lhs.at_scale(s) + rhs.at_scale(s), s)
    }
}

/// `lhs + rhs`, `None` where it overflows.
pub open spec fn sum(lhs: Cost, rhs: Cost) -> Option<Cost> {
    if adds_exactly(lhs, rhs) {
        Some(exact_sum(lhs, rhs))
    } else {
        rounded_sum(lhs, rhs)
    }
}

/// `r` is a value that lies between `-rhs` and `lhs`.
pub open spec fn lies_between(lhs: Cost, rhs: Cost, r: Option<Cost>) -> bool {
    r is Some && -rhs.at_scale(28) <= r->0.at_scale(28) <= lhs.at_scale(28)
}

/// `Decimal::checked_sub` of `rust_decimal`: the difference of two values, `None` where it
/// overflows. It is exact wherever it fits in 96 bits at the larger scale. Of two values that are
/// not negative it never overflows, and rounding does not carry the result past either operand.
#[verifier::external_body]
fn decimal_checked_sub(lhs: Cost, rhs: Cost) -> (r: Option<Cost>)
    requires
        lhs.valid(),
        rhs.valid(),
    ensures
        subtracts_exactly(lhs, rhs) ==> r == Some(exact_difference(lhs, rhs)),
        !subtracts_exactly(lhs, rhs) ==> r == rounded_difference(lhs, rhs),
        r is Some ==> r->0.valid(),
        lhs.non_negative() && rhs.non_negative() ==> lies_between(lhs, rhs, r),
{
    let mut a = Decimal::from_i128_with_scale(lhs.magnitude as i128, lhs.scale);
    a.set_sign_negative(lhs.negative);
    let mut b = Decimal::from_i128_with_scale(rhs.magnitude as i128, rhs.scale);
    b.set_sign_negative(rhs.negative);
    a.checked_sub(b).map(
        |d|
            Cost {
                negative: d.is_sign_negative(),
                magnitude: d.mantissa().unsigned_abs(),
                scale: d.scale(),
            },
    )
}

/// `Decimal::checked_add` of `rust_decimal`: the sum of two values, `None` where it overflows. It
/// is exact wherever it fits in 96 bits at the larger scale.
#[verifier::external_body]
fn decimal_checked_add(lhs: Cost, rhs: Cost) -> (r: Option<Cost>)
    requires
        lhs.valid(),
        rhs.valid(),
    ensures
        adds_exactly(lhs, rhs) ==> r == Some(exact_sum(lhs, rhs)),
        !adds_exactly(lhs, rhs) ==> r == rounded_sum(lhs, rhs),
        r is Some ==> r->0.valid(),
{
    let mut a = Decimal::from_i128_with_scale(lhs.magnitude as i128, lhs.scale);
    a.set_sign_negative(lhs.negative);
    let mut b = Decimal::from_i128_with_scale(rhs.magnitude as i128, rhs.scale);
    b.set_sign_negative(rhs.negative);
    a.checked_add(b).map(
        |d|
            Cost {
                negative: d.is_sign_negative(),
                magnitude: d.mantissa().unsigned_abs(),
                scale: d.scale(),
            },
    )
}

/// The `width` lowest decimal digits of a number, zeros in front included.
pub open spec fn decimal_fixed(n: nat, width: nat) -> Seq<char>
    decreases width,
{
    if width == 0 {
        Seq::empty()
    } else {
        decimal_fixed(n / 10, (width - 1) as nat).push(digit_char(n % 10))
    }
}

/// The sign and the digits before the decimal point.
pub open spec fn whole_text(c: Cost) -> Seq<char> {
    let whole = decimal_digits(c.magnitude as nat / pow10(c.scale as nat));
    if c.negative {
        seq!['-'] + whole
    } else {
        whole
    }
}

/// The digits after the decimal point, as a number of `scale` digits.
pub open spec fn fraction(c: Cost) -> nat {
    c.magnitude as nat % pow10(c.scale as nat)
}

/// A value as text, with as many decimal places as its scale.
pub open spec fn decimal_text(c: Cost) -> Seq<char> {
    if c.scale == 0 {
        whole_text(c)
    } else {
        whole_text(c).push('.') + decimal_fixed(fraction(c), c.scale as nat)
    }
}

/// The first six digits after the decimal point: further ones are cut off, missing ones are zero.
pub open spec fn six_places(c: Cost) -> nat {
    if c.scale <= 6 {
        fraction(c) * pow10((6 - c.scale) as nat)
    } else {
        fraction(c) / pow10((c.scale - 6) as nat)
    }
}

/// A value as text with six decimal places.
pub open spec fn fixed_text(c: Cost) -> Seq<char> {
    whole_text(c).push('.') + decimal_fixed(six_places(c), 6)
}

/// `Display` of `rust_decimal::Decimal`: sign, digits, and as many decimal places as the scale.
#[verifier::external_body]
fn decimal_to_string(c: Cost) -> (r: String)
    requires
        c.valid(),
    ensures
        r@ == decimal_text(c),
{
    let mut d = Decimal::from_i128_with_scale(c.magnitude as i128, c.scale);
    d.set_sign_negative(c.negative);
    d.to_string()
}

/// `Display` of `rust_decimal::Decimal` with a precision of six: the decimal places after the sixth
/// are cut off without rounding. The printer's buffer holds 32 characters, so the value may have
/// at most 25 digits before the decimal point.
#[verifier::external_body]
fn decimal_to_fixed_string(c: Cost) -> (r: String)
    requires
        c.valid(),
        c.printable(),
    ensures
        r@ == fixed_text(c),
{
    let mut d = Decimal::from_i128_with_scale(c.magnitude as i128, c.scale);
    d.set_sign_negative(c.negative);
    format!("{d:.6}")
}

/// The digits of a number read from left to right: its value without the decimal point, how many
/// digits follow the point, and whether there is one. `None` where the text holds anything else,
/// or no digit before the point.
pub open spec fn scan(text: Seq<char>) -> Option<(nat, nat, bool)>
    decreases text.len(),
{
    if text.len() == 0 {
        Some((0, 0, false))
    } else {
        match scan(text.drop_last()) {
            None => None,
            Some((value, places, point)) => {
                let c = text.last();
                if '0' <= c <= '9' {
                    Some((value * 10 + (c as u32 - 48) as nat, if point {
                        places + 1
                    } else {
                        0
                    }, point))
                } else if c == '.' && !point && text.len() > 1 {
                    Some((value, 0, true))
                } else {
                    None
                }
            },
        }
    }
}

/// The text is a plain number: a minus sign or none, digits, and a decimal point followed by
/// digits or none, of at most 96 bits and 28 decimal places.
pub open spec fn is_plain(text: Seq<char>) -> bool {
    let digits = unsigned_part(text);
    &&& digits.len() > 0
    &&& scan(digits) matches Some((value, places, _point))
    &&& value < limit()
    &&& places <= 28
}

/// A text without the minus sign in front of it.
pub open spec fn unsigned_part(text: Seq<char>) -> Seq<char> {
    if text.len() > 0 && text[0] == '-' {
        text.drop_first()
    } else {
        text
    }
}

/// The number that a plain text writes down. Zero has no sign.
pub open spec fn plain_value(text: Seq<char>) -> Cost {
    let (value, places, _point) = scan(unsigned_part(text))->0;
    Cost {
        negative: text.len() > 0 && text[0] == '-' && value > 0,
        magnitude: value as u128,
        scale: places as u32,
    }
}

/// A number without the zeros at the end of its decimal places that 96 bits or 28 decimal places
/// cannot hold.
pub open spec fn shortened(text: Seq<char>) -> Seq<char>
    decreases text.len(),
{
    let scanned = scan(unsigned_part(text));
    if is_plain(text) || text.len() == 0 || text.last() != '0' || scanned is None
        || !(scanned->0).2 {
        text
    } else {
        shortened(text.drop_last())
    }
}

/// What parsing makes of a text that is no plain number, however it is shortened (such as one with
/// an exponent, with separators or with too many digits): a value, or the message of the error.
pub uninterp spec fn parsed_otherwise(text: Seq<char>) -> Result<Cost, Seq<char>>;

/// What parsing makes of a text: a value, or the message of the error.
pub open spec fn parsed(text: Seq<char>) -> Result<Cost, Seq<char>> {
    if is_plain(shortened(text)) {
        Ok(plain_value(shortened(text)))
    } else {
        parsed_otherwise(text)
    }
}

/// The same outcome with the message as its characters.
pub open spec fn outcome(r: Result<Cost, String>) -> Result<Cost, Seq<char>> {
    match r {
        Ok(c) => Ok(c),
        Err(message) => Err(message@),
    }
}

/// `<Decimal as FromStr>::from_str` of `rust_decimal`, with `Display` of its error: a plain number
/// is read as it is written, once the zeros at the end of its decimal places are left off that do
/// not fit; what becomes of any other text depends on the text alone.
#[verifier::external_body]
fn decimal_from_str(text: &str) -> (r: Result<Cost, String>)
    ensures
        is_plain(shortened(text@)) ==> r is Ok && r->Ok_0 == plain_value(shortened(text@)),
        !is_plain(shortened(text@)) ==> outcome(r) == parsed_otherwise(text@),
        r is Ok ==> r->Ok_0.valid(),
{
    match <Decimal as std::str::FromStr>::from_str(text) {
        Ok(d) => Ok(
            Cost {
                negative: d.is_sign_negative(),
                magnitude: d.mantissa().unsigned_abs(),
                scale: d.scale(),
            },
        ),
        Err(error) => Err(error.to_string()),
    }
}

/// The failure of a cost that cannot be parsed.
pub open spec fn cost_failure(name: Seq<char>, message: Seq<char>) -> Failure {
    Failure::Database("Hermes "@ + name + (" 不是有效成本: "@ + message))
}

/// The failure of a cost that is below zero.
pub open spec fn negative_cost_failure(name: Seq<char>) -> Failure {
    Failure::Database("Hermes "@ + name + " 不能为负数"@)
}

/// What a stored or reported cost is read as; it may be negative.
pub open spec fn signed_cost(value: Seq<char>, name: Seq<char>) -> Result<Cost, Failure> {
    match parsed(trimmed(value)) {
        Ok(c) => Ok(c),
        Err(message) => Err(cost_failure(name, message)),
    }
}

/// What a stored or reported cost is read as where it must not be negative.
pub open spec fn unsigned_cost(value: Seq<char>, name: Seq<char>) -> Result<Cost, Failure> {
    match signed_cost(value, name) {
        Ok(c) => if c.mantissa() < 0 {
            Err(negative_cost_failure(name))
        } else {
            Ok(c)
        },
        Err(e) => Err(e),
    }
}

/// Reads a cost of either sign.
pub fn parse_signed_decimal(value: &str, name: &str) -> (r: Result<Cost, AppError>)
    ensures
        viewed(r) == signed_cost(value@, name@),
        r is Ok ==> r->Ok_0.valid(),
{
    match decimal_from_str(trim_text(value)) {
        Ok(c) => Ok(c),
        Err(message) => Err(detailed_failure(name, " 不是有效成本: ", message.as_str())),
    }
}

/// Reads a cost that must not be negative.
pub fn parse_decimal(value: &str, name: &str) -> (r: Result<Cost, AppError>)
    ensures
        viewed(r) == unsigned_cost(value@, name@),
        r is Ok ==> r->Ok_0.non_negative(),
{
    let c: Cost = match parse_signed_decimal(value, name) {
        Ok(c) => c,
        Err(e) => {
            return Err(e);
        },
    };
    if c.is_negative() {
        return Err(field_failure("Hermes ", name, " 不能为负数"));
    }
    Ok(c)
}

/// Writes a cost with six decimal places.
pub fn format_cost(value: &Cost) -> (r: String)
    requires
        value.valid(),
        value.printable(),
    ensures
        r@ == fixed_text(*value),
{
    decimal_to_fixed_string(*value)
}

/// Writes an aggregated cost for display, with six decimal places.
pub fn aggregate_cost_string(value: &Cost) -> (r: String)
    requires
        value.valid(),
        value.printable(),
    ensures
        r@ == fixed_text(*value),
{
    format_cost(value)
}

/// Writes a cost with all its decimal places.
pub fn cost_string(value: &Cost) -> (r: String)
    requires
        value.valid(),
    ensures
        r@ == decimal_text(*value),
{
    decimal_to_string(*value)
}

/// `lhs - rhs` of two costs that are not negative.
pub fn subtract(lhs: Cost, rhs: Cost) -> (r: Cost)
    requires
        lhs.non_negative(),
        rhs.non_negative(),
    ensures
        difference(lhs, rhs) == Some(r),
        r.valid(),
        -rhs.at_scale(28) <= r.at_scale(28) <= lhs.at_scale(28),
{
    match decimal_checked_sub(lhs, rhs) {
        Some(d) => d,
        None => unreached(),
    }
}

/// `lhs + rhs`, `None` where it overflows.
pub fn add_costs(lhs: Cost, rhs: Cost) -> (r: Option<Cost>)
    requires
        lhs.valid(),
        rhs.valid(),
    ensures
        r == sum(lhs, rhs),
        r is Some ==> r->0.valid(),
{
    decimal_checked_add(lhs, rhs)
}

/// The statuses, trimmed and in lower case, under which the actual cost is authoritative.
pub open spec fn authoritative(status: Seq<char>) -> bool {
    let s = ascii_lowered(trimmed(status));
    s == "actual"@ || s == "final"@ || s == "settled"@ || s == "complete"@
}

/// The cumulative cost that counts, and what kind of cost it is.
pub open spec fn selected_cost(
    estimated: Option<Cost>,
    actual: Option<Cost>,
    status: Option<Seq<char>>,
) -> (Cost, Seq<char>) {
    if actual is Some && status is Some && authoritative(status->0) {
        (actual->0, "actual"@)
    } else if estimated is Some {
        (estimated->0, "estimated"@)
    } else {
        (Cost::nothing(), "none"@)
    }
}

/// What an optional string slice holds.
pub open spec fn optional_text(s: Option<&str>) -> Option<Seq<char>> {
    match s {
        Some(t) => Some(t@),
        None => None,
    }
}

/// Picks the cost that counts: the cumulative actual cost where the status says that it is
/// authoritative, else the cumulative estimate. The two are never added, so that a change from
/// the one to the other counts nothing twice.
pub fn select_source_cost(
    estimated_cost_usd: Option<Cost>,
    actual_cost_usd: Option<Cost>,
    cost_status: Option<&str>,
) -> (r: (Cost, &'static str))
    ensures
        (r.0, r.1@) == selected_cost(
            estimated_cost_usd,
            actual_cost_usd,
            optional_text(cost_status),
        ),
{
    let actual_is_authoritative: bool = match cost_status {
        Some(status) => {
            let normalized = ascii_lowercase(trim_text(status));
            let s: &str = normalized.as_str();
            same_text(s, "actual") || same_text(s, "final") || same_text(s, "settled")
                || same_text(s, "complete")
        },
        None => false,
    };
    if actual_is_authoritative {
        if let Some(actual) = actual_cost_usd {
            return (actual, "actual");
        }
    }
    if let Some(estimated) = estimated_cost_usd {
        return (estimated, "estimated");
    }
    (Cost::zero(), "none")
}

} // verus!
