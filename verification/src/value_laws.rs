//! What holds of the values of a source database: which text, which counter and which cost each
//! of them is read as.

use crate::cost::{
    decimal_text, is_plain, parsed, plain_value, pow10, scan, shortened, signed_cost,
    unsigned_cost, Cost,
};
use crate::cost_laws::lemma_cost_text_reads_back;
use crate::digest::{hex_text, sha256};
use crate::error::Failure;
use crate::text::{decimal_digits, int_text, trimmed, white_space};
use crate::text_laws::{
    bare, blank, digits_value, law_digits_write_the_number, law_trimmed_lies_inside,
    law_trimming_takes_off_the_ends, only_digits,
};
use crate::value::{
    counter_value, optional_cost, required_value, text_value, u64_error_text, u64_value,
    utf8_error_text, ValueView,
};
use vstd::prelude::*;
use vstd::string::*;
use vstd::utf8::*;

verus! {

/// Stored text is read as the very text that was encoded, whatever it holds; a missing value is no
/// text, and the empty text is one.
pub proof fn law_text_reads_back(text: Seq<char>)
    ensures
        text_value(ValueView::Text(encode_utf8(text))) == Ok::<Option<Seq<char>>, Failure>(
            Some(text),
        ),
        required_value(ValueView::Text(encode_utf8(text))) == Ok::<Seq<char>, Failure>(text),
        text_value(ValueView::Null) == Ok::<Option<Seq<char>>, Failure>(None),
        required_value(ValueView::Null) == Ok::<Seq<char>, Failure>(Seq::empty()),
{
    encode_utf8_valid_utf8(text);
    encode_utf8_decode_utf8(text);
}

/// What is no text is read as one all the same: a whole number by its digits, any other number as it
/// is written, bytes by their digest. Only text that is no UTF-8 cannot be read.
pub proof fn law_other_values_read_as_text(
    number: i64,
    written: Seq<char>,
    whole: Option<i128>,
    bytes: Seq<u8>,
    value: ValueView,
)
    ensures
        text_value(ValueView::Integer(number)) == Ok::<Option<Seq<char>>, Failure>(
            Some(int_text(number as int)),
        ),
        text_value(ValueView::Real(written, whole)) == Ok::<Option<Seq<char>>, Failure>(
            Some(written),
        ),
        text_value(ValueView::Blob(bytes)) == Ok::<Option<Seq<char>>, Failure>(
            Some(hex_text(sha256(bytes))),
        ),
        text_value(value) is Err <==> value is Text && !valid_utf8(value->Text_0),
        text_value(value) is Err ==> text_value(value)->Err_0 == Failure::Database(
            "Hermes 文本字段不是 UTF-8: "@ + utf8_error_text(value->Text_0),
        ),
        required_value(value) is Err ==> required_value(value)->Err_0 == text_value(value)->Err_0,
        text_value(value) == Ok::<Option<Seq<char>>, Failure>(None) <==> value == ValueView::Null,
        required_value(value) is Err <==> text_value(value) is Err,
        text_value(value) is Ok && text_value(value)->Ok_0 is Some ==> required_value(value) == Ok::<
            Seq<char>,
            Failure,
        >(text_value(value)->Ok_0->0),
{
}

proof fn lemma_scan_is_value(text: Seq<char>)
    requires
        scan(text) is Some,
        !(scan(text)->0).2,
    ensures
        (scan(text)->0).0 == digits_value(text, 10),
        forall|i: int| 0 <= i < text.len() ==> '0' <= (#[trigger] text[i]) <= '9',
    decreases text.len(),
{
    if text.len() > 0 {
        lemma_scan_is_value(text.drop_last());
        assert forall|i: int| 0 <= i < text.len() implies '0' <= (#[trigger] text[i]) <= '9' by {
            if i < text.len() - 1 {
                assert(text[i] == text.drop_last()[i]);
            }
        }
    }
}

proof fn lemma_digits_scan(text: Seq<char>)
    requires
        forall|i: int| 0 <= i < text.len() ==> '0' <= (#[trigger] text[i]) <= '9',
    ensures
        scan(text) is Some,
        !(scan(text)->0).2,
        (scan(text)->0).1 == 0,
        (scan(text)->0).0 == digits_value(text, 10),
    decreases text.len(),
{
    if text.len() > 0 {
        assert forall|i: int| 0 <= i < text.drop_last().len() implies '0' <= (
        #[trigger] text.drop_last()[i]) <= '9' by {
            assert(text.drop_last()[i] == text[i]);
        }
        lemma_digits_scan(text.drop_last());
        assert('0' <= text[text.len() - 1] <= '9');
    }
}

/// The text writes down the number in decimal digits, behind a plus sign or none.
pub open spec fn writes(text: Seq<char>, n: int) -> bool {
    ||| only_digits(text) && digits_value(text, 10) == n
    ||| text.len() > 0 && text[0] == '+' && only_digits(text.drop_first()) && digits_value(
        text.drop_first(),
        10,
    ) == n
}

proof fn lemma_u64_value(text: Seq<char>, n: int)
    ensures
        0 <= n <= u64::MAX ==> (u64_value(text) == Some(n as u64) <==> writes(text, n)),
        u64_value(text) is Some ==> writes(text, u64_value(text)->0 as int),
{
    let digits = if text.len() > 0 && text[0] == '+' {
        text.drop_first()
    } else {
        text
    };
    if u64_value(text) is Some {
        lemma_scan_is_value(digits);
        assert(only_digits(digits));
    }
    if 0 <= n <= u64::MAX && writes(text, n) {
        assert(only_digits(digits) && digits_value(digits, 10) == n) by {
            if text.len() > 0 && text[0] == '+' {
                assert(!only_digits(text));
            }
        }
        lemma_digits_scan(digits);
    }
}

/// The value is the counter: nothing for zero, the whole number itself, a float that is whole, or
/// text that writes the number down, with white space around it or none. The float two to the power
/// of 63 stands for the largest counter.
pub open spec fn is_counter(value: ValueView, n: i64) -> bool {
    &&& n >= 0
    &&& match value {
        ValueView::Null => n == 0,
        ValueView::Integer(i) => n == i,
        ValueView::Real(_text, Some(w)) => n == w || (n == i64::MAX && w
            == 0x8000_0000_0000_0000),
        ValueView::Text(bytes) => valid_utf8(bytes) && writes(
            trimmed(decode_utf8(bytes)),
            n as int,
        ),
        _ => false,
    }
}

/// A value is read as a counter exactly where it is one, and as that one; under whatever name.
pub proof fn law_counter_reads_as_itself(value: ValueView, name: Seq<char>, n: i64)
    ensures
        counter_value(value, name) == Ok::<i64, Failure>(n) <==> is_counter(value, n),
{
    if let ValueView::Text(bytes) = value {
        if valid_utf8(bytes) {
            let text = trimmed(decode_utf8(bytes));
            lemma_u64_value(text, n as int);
            if let Some(v) = u64_value(text) {
                lemma_u64_value(text, v as int);
            }
        }
    }
}

proof fn lemma_digits_are_bare(s: Seq<char>)
    requires
        only_digits(s),
    ensures
        bare(s),
{
    assert('0' <= s[0] <= '9');
    assert('0' <= s[s.len() - 1] <= '9');
}

/// A counter that was stored as text is read back, zeros in front and white space around it
/// included.
pub proof fn law_counter_text_reads_back(
    before: Seq<char>,
    digits: Seq<char>,
    after: Seq<char>,
    name: Seq<char>,
)
    requires
        blank(before),
        blank(after),
        only_digits(digits),
        digits_value(digits, 10) <= i64::MAX,
    ensures
        counter_value(ValueView::Text(encode_utf8(before + digits + after)), name) == Ok::<
            i64,
            Failure,
        >(digits_value(digits, 10) as i64),
{
    let text = before + digits + after;
    encode_utf8_valid_utf8(text);
    encode_utf8_decode_utf8(text);
    lemma_digits_are_bare(digits);
    law_trimming_takes_off_the_ends(before, digits, after);
    lemma_digits_scan(digits);
    assert(digits_value(digits, 10) >= 0);
    lemma_u64_value(digits, digits_value(digits, 10));
}

/// A value is no cost where it is missing or blank, and else the cost that its text writes down,
/// white space around it left off; one below zero is refused.
pub proof fn law_cost_reads_as_itself(value: ValueView, name: Seq<char>)
    ensures
        optional_cost(value, name) == Ok::<Option<Cost>, Failure>(None) <==> {
            ||| value == ValueView::Null
            ||| text_value(value) is Ok && blank(text_value(value)->Ok_0->0)
        },
        optional_cost(value, name) is Ok && optional_cost(value, name)->Ok_0 is Some ==> {
            let cost = optional_cost(value, name)->Ok_0->0;
            &&& cost.mantissa() >= 0
            &&& signed_cost(text_value(value)->Ok_0->0, name) == Ok::<Cost, Failure>(cost)
        },
        text_value(value) is Ok && text_value(value)->Ok_0 is Some && !blank(
            text_value(value)->Ok_0->0,
        ) ==> {
            let read = signed_cost(text_value(value)->Ok_0->0, name);
            &&& read is Ok && read->Ok_0.mantissa() >= 0 ==> optional_cost(value, name) == Ok::<
                Option<Cost>,
                Failure,
            >(Some(read->Ok_0))
            &&& read is Err || read->Ok_0.mantissa() < 0 ==> optional_cost(value, name) is Err
        },
        text_value(value) is Err ==> optional_cost(value, name) is Err,
{
    if text_value(value) is Ok && text_value(value)->Ok_0 is Some {
        let text = text_value(value)->Ok_0->0;
        lemma_blank_trims_away(text);
    }
}

proof fn lemma_blank_trims_away(text: Seq<char>)
    ensures
        trimmed(text).len() == 0 <==> blank(text),
{
    let (a, b) = law_trimmed_lies_inside(text);
    if trimmed(text).len() == 0 {
        assert forall|i: int| 0 <= i < text.len() implies white_space(#[trigger] text[i]) by {
            if i < a.len() {
                assert(text[i] == a[i]);
            } else {
                assert(text[i] == b[i - a.len()]);
            }
        }
    }
    if blank(text) && trimmed(text).len() > 0 {
        assert(text[a.len() as int] == trimmed(text)[0]);
        assert(white_space(text[a.len() as int]));
    }
}

/// White space around a cost does not change what it is read as.
pub proof fn law_cost_ignores_white_space(
    before: Seq<char>,
    text: Seq<char>,
    after: Seq<char>,
    name: Seq<char>,
)
    requires
        blank(before),
        blank(after),
        bare(text),
    ensures
        signed_cost(before + text + after, name) == signed_cost(text, name),
{
    law_trimming_takes_off_the_ends(before, text, after);
    law_trimming_takes_off_the_ends(Seq::empty(), text, Seq::empty());
    assert(Seq::<char>::empty() + text + Seq::<char>::empty() =~= text);
}

/// A cost that is not negative and was stored as text is read back as it was.
pub proof fn law_cost_text_reads_back(cost: Cost, name: Seq<char>)
    requires
        cost.non_negative(),
    ensures
        optional_cost(ValueView::Text(encode_utf8(decimal_text(cost))), name) == Ok::<
            Option<Cost>,
            Failure,
        >(Some(cost.normal())),
{
    let text = decimal_text(cost);
    encode_utf8_valid_utf8(text);
    encode_utf8_decode_utf8(text);
    lemma_cost_text_reads_back(cost, name);
    let whole = decimal_digits(cost.magnitude as nat / pow10(cost.scale as nat));
    law_digits_write_the_number(cost.magnitude as nat / pow10(cost.scale as nat));
    assert('0' <= whole[0] <= '9');
    assert(text[0] == whole[0] || text[0] == '-');
    lemma_blank_trims_away(text);
    assert(!blank(text)) by {
        assert(!white_space(text[0]));
    }
}

/// Digits, with a point between them or none, are read as the number that they write down: the
/// digits as one number, divided by ten for each digit behind the point, and below zero behind a
/// minus sign.
pub proof fn law_plain_number_reads_as_written(
    minus: bool,
    whole: Seq<char>,
    places: Seq<char>,
    name: Seq<char>,
)
    requires
        only_digits(whole),
        only_digits(places),
        places.len() <= 28,
        digits_value(whole + places, 10) < 0x1_0000_0000_0000_0000_0000_0000,
    ensures
        ({
            let sign: Seq<char> = if minus {
                seq!['-']
            } else {
                Seq::empty()
            };
            let magnitude = digits_value(whole + places, 10);
            let with_point = signed_cost(sign + whole.push('.') + places, name);
            let without = signed_cost(sign + whole, name);
            &&& with_point is Ok
            &&& with_point->Ok_0.scale == places.len()
            &&& with_point->Ok_0.mantissa() == if minus {
                -magnitude
            } else {
                magnitude
            }
            &&& without is Ok
            &&& without->Ok_0.scale == 0
            &&& without->Ok_0.mantissa() == if minus {
                -digits_value(whole, 10)
            } else {
                digits_value(whole, 10)
            }
        }),
{
    let sign: Seq<char> = if minus {
        seq!['-']
    } else {
        Seq::empty()
    };
    lemma_more_digits(whole, places);
    lemma_scan_places(whole, places);
    lemma_digits_scan(whole);
    lemma_reads(minus, whole.push('.') + places, name);
    lemma_reads(minus, whole, name);
    assert(sign + (whole.push('.') + places) =~= sign + whole.push('.') + places);
}

/// Digits behind others do not make the number smaller.
proof fn lemma_more_digits(whole: Seq<char>, places: Seq<char>)
    requires
        only_digits(whole),
        forall|i: int| 0 <= i < places.len() ==> '0' <= (#[trigger] places[i]) <= '9',
    ensures
        0 <= digits_value(whole, 10) <= digits_value(whole + places, 10),
    decreases places.len(),
{
    lemma_digits_scan(whole);
    if places.len() == 0 {
        assert(whole + places =~= whole);
    } else {
        assert forall|i: int| 0 <= i < places.drop_last().len() implies '0' <= (
        #[trigger] places.drop_last()[i]) <= '9' by {
            assert(places.drop_last()[i] == places[i]);
        }
        lemma_more_digits(whole, places.drop_last());
        assert((whole + places).drop_last() =~= whole + places.drop_last());
        assert((whole + places).last() == places[places.len() - 1]);
    }
}

proof fn lemma_scan_places(whole: Seq<char>, places: Seq<char>)
    requires
        only_digits(whole),
        forall|i: int| 0 <= i < places.len() ==> '0' <= (#[trigger] places[i]) <= '9',
    ensures
        scan(whole.push('.') + places) is Some,
        (scan(whole.push('.') + places)->0).0 == digits_value(whole + places, 10),
        (scan(whole.push('.') + places)->0).1 == places.len(),
        (scan(whole.push('.') + places)->0).2,
    decreases places.len(),
{
    let text = whole.push('.') + places;
    if places.len() == 0 {
        assert(text =~= whole.push('.'));
        assert(text.drop_last() =~= whole);
        assert(whole + places =~= whole);
        lemma_digits_scan(whole);
        assert(text.last() == '.');
    } else {
        assert forall|i: int| 0 <= i < places.drop_last().len() implies '0' <= (
        #[trigger] places.drop_last()[i]) <= '9' by {
            assert(places.drop_last()[i] == places[i]);
        }
        lemma_scan_places(whole, places.drop_last());
        assert(text.drop_last() =~= whole.push('.') + places.drop_last());
        assert((whole + places).drop_last() =~= whole + places.drop_last());
        assert((whole + places).last() == places[places.len() - 1]);
        assert(text.last() == places[places.len() - 1]);
    }
}

/// A number within the limits is read as its scan says.
proof fn lemma_reads(minus: bool, digits: Seq<char>, name: Seq<char>)
    requires
        digits.len() > 0,
        '0' <= digits[0] <= '9',
        '0' <= digits.last() <= '9',
        scan(digits) is Some,
        (scan(digits)->0).0 < 0x1_0000_0000_0000_0000_0000_0000,
        (scan(digits)->0).1 <= 28,
    ensures
        ({
            let text: Seq<char> = if minus {
                seq!['-'] + digits
            } else {
                Seq::<char>::empty() + digits
            };
            let read = signed_cost(text, name);
            &&& read is Ok
            &&& read->Ok_0.scale == (scan(digits)->0).1
            &&& read->Ok_0.mantissa() == if minus {
                -((scan(digits)->0).0 as int)
            } else {
                (scan(digits)->0).0 as int
            }
        }),
{
    let text: Seq<char> = if minus {
        seq!['-'] + digits
    } else {
        Seq::<char>::empty() + digits
    };
    assert(text.last() == digits.last());
    assert(!white_space(text[0]) && !white_space(text.last()));
    assert(trimmed(text) == text);
    if minus {
        assert(text.drop_first() =~= digits);
    } else {
        assert(text =~= digits);
    }
    assert(is_plain(text));
    assert(shortened(text) == text);
    assert(parsed(text) == Ok::<Cost, Seq<char>>(plain_value(text)));
}

/// Why a value is no counter: it is below zero, it is a float outside the range, its text is no UTF-8, no
/// number or too large a one, or it is of another kind. The failure names the column.
pub proof fn law_failures_name_the_column(value: ValueView, name: Seq<char>)
    requires
        counter_value(value, name) is Err,
    ensures
        ({
            let message = "Hermes "@ + name;
            let failure = counter_value(value, name)->Err_0;
            match value {
                ValueView::Null => false,
                ValueView::Integer(i) => i < 0 && failure == Failure::Database(
                    message + " 不能为负数"@,
                ),
                ValueView::Real(_text, Some(w)) => !(0 <= w <= 0x8000_0000_0000_0000) && failure
                    == Failure::Database(message + " 超出非负整数范围"@),
                ValueView::Real(_text, None) => failure == Failure::Database(
                    message + " 不是非负整数"@,
                ),
                ValueView::Blob(_bytes) => failure == Failure::Database(message + " 不是非负整数"@),
                ValueView::Text(bytes) => if !valid_utf8(bytes) {
                    failure == Failure::Database(
                        message + (" 不是有效文本: "@ + utf8_error_text(bytes)),
                    )
                } else if exists|n: u64| writes(trimmed(decode_utf8(bytes)), n as int) {
                    failure == Failure::Database(message + " 超出 SQLite INTEGER 范围"@)
                } else {
                    failure == Failure::Database(
                        message + (" 不是非负整数: "@ + u64_error_text(trimmed(decode_utf8(bytes)))),
                    )
                },
            }
        }),
{
    if let ValueView::Text(bytes) = value {
        if valid_utf8(bytes) {
            let text = trimmed(decode_utf8(bytes));
            if let Some(v) = u64_value(text) {
                lemma_u64_value(text, v as int);
                assert(writes(text, v as int));
            } else if exists|n: u64| writes(text, n as int) {
                let n: u64 = choose|n: u64| writes(text, n as int);
                lemma_u64_value(text, n as int);
            }
        }
    }
}

/// Why a cost cannot be read: its text is no number, or it is below zero where it must not be. The failure
/// names the column.
pub proof fn law_cost_failures_name_the_column(text: Seq<char>, name: Seq<char>)
    ensures
        signed_cost(text, name) is Err <==> parsed(trimmed(text)) is Err,
        signed_cost(text, name) is Err ==> signed_cost(text, name)->Err_0 == Failure::Database(
            "Hermes "@ + name + (" 不是有效成本: "@ + parsed(trimmed(text))->Err_0),
        ),
        signed_cost(text, name) is Ok ==> signed_cost(text, name)->Ok_0
            == parsed(trimmed(text))->Ok_0,
        unsigned_cost(text, name) is Ok <==> signed_cost(text, name) is Ok && signed_cost(
            text,
            name,
        )->Ok_0.mantissa() >= 0,
        unsigned_cost(text, name) is Ok ==> unsigned_cost(text, name) == signed_cost(text, name),
        signed_cost(text, name) is Err ==> unsigned_cost(text, name) == signed_cost(text, name),
        signed_cost(text, name) is Ok && unsigned_cost(text, name) is Err ==> unsigned_cost(
            text,
            name,
        )->Err_0 == Failure::Database("Hermes "@ + name + " 不能为负数"@),
{
}

} // verus!
