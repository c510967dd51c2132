//! The values that a Hermes database hands out, and how text, counters and costs are read from
//! them. The database types its values one by one, so any column may hold any kind of value.

use crate::cost::{parse_decimal, scan, unsigned_cost, Cost};
use crate::counter::{negative_failure, non_negative_i64};
use crate::digest::{digest_value, hex_text, sha256};
use crate::error::{detailed_failure, field_failure, viewed, AppError, Failure};
use crate::text::{int_text, integer_text, trim_text, trimmed};
use vstd::prelude::*;
use vstd::string::*;
use vstd::utf8::{decode_utf8, valid_utf8};

verus! {

/// One value of a database row.
#[derive(Debug)]
pub enum SourceValue {
    Null,
    Integer(i64),
    /// A floating-point number: how it is written, and its value where it is a whole number. One
    /// beyond the range of `i128` has the nearest value in that range.
    Real(String, Option<i128>),
    Text(Vec<u8>),
    Blob(Vec<u8>),
}

/// What a [`SourceValue`] holds.
pub enum ValueView {
    Null,
    Integer(i64),
    Real(Seq<char>, Option<i128>),
    Text(Seq<u8>),
    Blob(Seq<u8>),
}

impl View for SourceValue {
    type V = ValueView;

    open spec fn view(&self) -> ValueView {
        match self {
            SourceValue::Null => ValueView::Null,
            SourceValue::Integer(i) => ValueView::Integer(*i),
            SourceValue::Real(text, whole) => ValueView::Real(text@, *whole),
            SourceValue::Text(bytes) => ValueView::Text(bytes@),
            SourceValue::Blob(bytes) => ValueView::Blob(bytes@),
        }
    }
}

impl SourceValue {
    /// Whether the value is missing.
    pub fn is_missing(&self) -> (r: bool)
        ensures
            r == (self@ == ValueView::Null),
    {
        match self {
            SourceValue::Null => true,
            _ => false,
        }
    }
}

/// What `Utf8Error` says of bytes that are no UTF-8.
pub uninterp spec fn utf8_error_text(bytes: Seq<u8>) -> Seq<char>;

/// What `ParseIntError` says of a text that is no `u64`.
pub uninterp spec fn u64_error_text(text: Seq<char>) -> Seq<char>;

/// `std::str::from_utf8`, with `Display` of its error: it accepts exactly the valid encodings.
#[verifier::external_body]
fn text_from_utf8(bytes: &[u8]) -> (r: Result<String, String>)
    ensures
        valid_utf8(bytes@) ==> r is Ok && r->Ok_0@ == decode_utf8(bytes@),
        !valid_utf8(bytes@) ==> r is Err && r->Err_0@ == utf8_error_text(bytes@),
{
    match std::str::from_utf8(bytes) {
        Ok(text) => Ok(text.to_string()),
        Err(error) => Err(error.to_string()),
    }
}

/// The number that a text writes down: a plus sign or none, then digits only, within `u64`.
pub open spec fn u64_value(text: Seq<char>) -> Option<u64> {
    let digits = if text.len() > 0 && text[0] == '+' {
        text.drop_first()
    } else {
        text
    };
    match scan(digits) {
        Some((value, _places, false)) => if digits.len() > 0 && value <= u64::MAX {
            Some(value as u64)
        } else {
            None
        },
        _ => None,
    }
}

/// `<u64 as FromStr>::from_str`, with `Display` of its error: it accepts an optional plus sign
/// followed by digits only, as long as the number fits.
#[verifier::external_body]
fn u64_from_str(text: &str) -> (r: Result<u64, String>)
    ensures
        u64_value(text@) is Some ==> r is Ok && r->Ok_0 == u64_value(text@)->0,
        u64_value(text@) is None ==> r is Err && r->Err_0@ == u64_error_text(text@),
{
    match text.parse::<u64>() {
        Ok(value) => Ok(value),
        Err(error) => Err(error.to_string()),
    }
}

/// What a value is read as where text is expected. A missing value is no text; of a blob only the
/// digest is kept, so that the text is stable and the bytes stay private.
pub open spec fn text_value(value: ValueView) -> Result<Option<Seq<char>>, Failure> {
    match value {
        ValueView::Null => Ok(None),
        ValueView::Integer(i) => Ok(Some(int_text(i as int))),
        ValueView::Real(text, _whole) => Ok(Some(text)),
        ValueView::Text(bytes) => if valid_utf8(bytes) {
            Ok(Some(decode_utf8(bytes)))
        } else {
            Err(Failure::Database("Hermes 文本字段不是 UTF-8: "@ + utf8_error_text(bytes)))
        },
        ValueView::Blob(bytes) => Ok(Some(hex_text(sha256(bytes)))),
    }
}

/// An optional text as its characters.
pub open spec fn some_text(s: Option<String>) -> Option<Seq<char>> {
    match s {
        Some(text) => Some(text@),
        None => None,
    }
}

/// An outcome with its text as characters and its error as what the error says.
pub open spec fn viewed_optional(r: Result<Option<String>, AppError>) -> Result<
    Option<Seq<char>>,
    Failure,
> {
    match r {
        Ok(s) => Ok(some_text(s)),
        Err(e) => Err(e@),
    }
}

/// An outcome with its text as characters and its error as what the error says.
pub open spec fn viewed_text(r: Result<String, AppError>) -> Result<Seq<char>, Failure> {
    match r {
        Ok(s) => Ok(s@),
        Err(e) => Err(e@),
    }
}

/// Reads a value as text.
pub fn read_optional_text(value: &SourceValue) -> (r: Result<Option<String>, AppError>)
    ensures
        viewed_optional(r) == text_value(value@),
{
    match value {
        SourceValue::Null => Ok(None),
        SourceValue::Integer(i) => Ok(Some(integer_text(*i))),
        SourceValue::Real(text, _whole) => Ok(Some(text.clone())),
        SourceValue::Text(bytes) => match text_from_utf8(bytes.as_slice()) {
            Ok(text) => Ok(Some(text)),
            Err(error) => {
                let mut message = "Hermes 文本字段不是 UTF-8: ".to_owned();
                message.append(error.as_str());
                Err(AppError::Database(message))
            },
        },
        SourceValue::Blob(bytes) => Ok(Some(digest_value(bytes.as_slice()))),
    }
}

/// What a value is read as where a dimension is expected: a missing one is empty.
pub open spec fn required_value(value: ValueView) -> Result<Seq<char>, Failure> {
    match text_value(value) {
        Ok(Some(text)) => Ok(text),
        Ok(None) => Ok(Seq::empty()),
        Err(e) => Err(e),
    }
}

/// Reads a value as a dimension of a row; a missing one counts as empty.
pub fn read_required_text(value: &SourceValue) -> (r: Result<String, AppError>)
    ensures
        viewed_text(r) == required_value(value@),
{
    match read_optional_text(value) {
        Ok(Some(text)) => Ok(text),
        Ok(None) => Ok(String::new()),
        Err(e) => Err(e),
    }
}

/// What a value is read as where a counter is expected: a whole number that is not negative and
/// fits in `i64`. A missing one is zero.
pub open spec fn counter_value(value: ValueView, name: Seq<char>) -> Result<i64, Failure> {
    let hermes = "Hermes "@ + name;
    match value {
        ValueView::Null => Ok(0),
        ValueView::Integer(i) => if i < 0 {
            Err(negative_failure(name))
        } else {
            Ok(i)
        },
        // Two to the power of 63 is the float nearest to the largest `i64`, which it stands for.
        ValueView::Real(_text, Some(w)) => if w < 0 || w > i64::MAX + 1 {
            Err(Failure::Database(hermes + " 超出非负整数范围"@))
        } else if w > i64::MAX {
            Ok(i64::MAX)
        } else {
            Ok(w as i64)
        },
        ValueView::Text(bytes) => if !valid_utf8(bytes) {
            Err(Failure::Database(hermes + (" 不是有效文本: "@ + utf8_error_text(bytes))))
        } else {
            let text = trimmed(decode_utf8(bytes));
            match u64_value(text) {
                None => Err(Failure::Database(hermes + (" 不是非负整数: "@ + u64_error_text(text)))),
                Some(v) => if v > i64::MAX {
                    Err(Failure::Database(hermes + " 超出 SQLite INTEGER 范围"@))
                } else {
                    Ok(v as i64)
                },
            }
        },
        _ => Err(Failure::Database(hermes + " 不是非负整数"@)),
    }
}

/// Reads a value as a counter.
pub fn read_counter(value: &SourceValue, name: &str) -> (r: Result<i64, AppError>)
    ensures
        viewed(r) == counter_value(value@, name@),
        r is Ok ==> r->Ok_0 >= 0,
{
    match value {
        SourceValue::Null => Ok(0),
        SourceValue::Integer(i) => non_negative_i64(*i, name),
        SourceValue::Real(_text, Some(whole)) => {
            let w: i128 = *whole;
            if w < 0 || w > 9_223_372_036_854_775_808 {
                Err(field_failure("Hermes ", name, " 超出非负整数范围"))
            } else if w > i64::MAX as i128 {
                Ok(i64::MAX)
            } else {
                Ok(w as i64)
            }
        },
        SourceValue::Text(bytes) => match text_from_utf8(bytes.as_slice()) {
            Ok(text) => match u64_from_str(trim_text(text.as_str())) {
                Ok(v) => if v > i64::MAX as u64 {
                    Err(field_failure("Hermes ", name, " 超出 SQLite INTEGER 范围"))
                } else {
                    Ok(v as i64)
                },
                Err(error) => Err(detailed_failure(name, " 不是非负整数: ", error.as_str())),
            },
            Err(error) => Err(detailed_failure(name, " 不是有效文本: ", error.as_str())),
        },
        _ => Err(field_failure("Hermes ", name, " 不是非负整数")),
    }
}

/// What a value is read as where a cost is expected: nothing where it is missing or blank.
pub open spec fn optional_cost(value: ValueView, name: Seq<char>) -> Result<Option<Cost>, Failure> {
    match text_value(value) {
        Ok(Some(text)) => if trimmed(text).len() == 0 {
            Ok(None)
        } else {
            match unsigned_cost(text, name) {
                Ok(c) => Ok(Some(c)),
                Err(e) => Err(e),
            }
        },
        Ok(None) => Ok(None),
        Err(e) => Err(e),
    }
}

/// Reads a value as a cost that must not be negative; a missing or blank one is no cost.
pub fn read_optional_decimal(value: &SourceValue, name: &str) -> (r: Result<Option<Cost>, AppError>)
    ensures
        viewed(r) == optional_cost(value@, name@),
        r is Ok && r->Ok_0 is Some ==> r->Ok_0->0.non_negative(),
{
    match read_optional_text(value) {
        Ok(Some(text)) => {
            if trim_text(text.as_str()).is_empty() {
                return Ok(None);
            }
            match parse_decimal(text.as_str(), name) {
                Ok(c) => Ok(Some(c)),
                Err(e) => Err(e),
            }
        },
        Ok(None) => Ok(None),
        Err(e) => Err(e),
    }
}

} // verus!
