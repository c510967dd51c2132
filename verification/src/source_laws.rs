//! What holds of a usage record that is read: each column of the row comes from the column of the
//! same name, and from no other.

use crate::cost::{authoritative, selected_cost, Cost};
use crate::digest::digest_of;
use crate::error::Failure;
use crate::source::{parsed_row, RecordView};
use crate::text::{ascii_lowered, trimmed};
use crate::text_laws::{law_lower_case_ignores_case, same_letters};
use crate::value::{counter_value, optional_cost, required_value, text_value, ValueView};
use crate::value_laws::{is_counter, law_counter_reads_as_itself};
use vstd::prelude::*;
use vstd::string::*;
use vstd::utf8::*;

verus! {

/// Each counter of a row is the value of the column of the same name: a whole number stands for
/// itself, a missing value for zero, and any other value for the counter that it is.
pub proof fn law_counters_keep_their_columns(record: RecordView)
    requires
        parsed_row(record) is Ok,
    ensures
        ({
            let row = parsed_row(record)->Ok_0;
            &&& is_counter(record.api_call_count, row.api_call_count)
            &&& is_counter(record.input_tokens, row.input_tokens)
            &&& is_counter(record.output_tokens, row.output_tokens)
            &&& is_counter(record.cache_read_tokens, row.cache_read_tokens)
            &&& is_counter(record.cache_write_tokens, row.cache_write_tokens)
            &&& is_counter(record.reasoning_tokens, row.reasoning_tokens)
            &&& record.api_call_count is Integer ==> row.api_call_count == record.api_call_count->Integer_0
            &&& record.input_tokens is Integer ==> row.input_tokens == record.input_tokens->Integer_0
            &&& record.output_tokens is Integer ==> row.output_tokens == record.output_tokens->Integer_0
            &&& record.cache_read_tokens is Integer ==> row.cache_read_tokens == record.cache_read_tokens->Integer_0
            &&& record.cache_write_tokens is Integer ==> row.cache_write_tokens == record.cache_write_tokens->Integer_0
            &&& record.reasoning_tokens is Integer ==> row.reasoning_tokens == record.reasoning_tokens->Integer_0
            &&& record.api_call_count is Null ==> row.api_call_count == 0
            &&& record.input_tokens is Null ==> row.input_tokens == 0
            &&& record.output_tokens is Null ==> row.output_tokens == 0
            &&& record.cache_read_tokens is Null ==> row.cache_read_tokens == 0
            &&& record.cache_write_tokens is Null ==> row.cache_write_tokens == 0
            &&& record.reasoning_tokens is Null ==> row.reasoning_tokens == 0
        }),
{
    let row = parsed_row(record)->Ok_0;
    law_counter_reads_as_itself(record.api_call_count, "api_call_count"@, row.api_call_count);
    law_counter_reads_as_itself(record.input_tokens, "input_tokens"@, row.input_tokens);
    law_counter_reads_as_itself(record.output_tokens, "output_tokens"@, row.output_tokens);
    law_counter_reads_as_itself(record.cache_read_tokens, "cache_read_tokens"@, row.cache_read_tokens);
    law_counter_reads_as_itself(record.cache_write_tokens, "cache_write_tokens"@, row.cache_write_tokens);
    law_counter_reads_as_itself(record.reasoning_tokens, "reasoning_tokens"@, row.reasoning_tokens);
}

/// A dimension of a row is the text of a column: a missing one is empty, and stored text is read as
/// it was encoded.
pub open spec fn is_dimension(value: ValueView, text: Seq<char>) -> bool {
    match value {
        ValueView::Null => text == Seq::<char>::empty(),
        ValueView::Text(bytes) => valid_utf8(bytes) && encode_utf8(text) == bytes,
        _ => text_value(value) == Ok::<Option<Seq<char>>, Failure>(Some(text)),
    }
}

proof fn lemma_dimension(value: ValueView)
    requires
        required_value(value) is Ok,
    ensures
        is_dimension(value, required_value(value)->Ok_0),
{
    if let ValueView::Text(bytes) = value {
        decode_utf8_encode_utf8(bytes);
    }
}

/// An optional text of a row is that of a column: a missing one is none.
pub open spec fn is_optional(value: ValueView, text: Option<Seq<char>>) -> bool {
    match text {
        None => value == ValueView::Null,
        Some(text) => value != ValueView::Null && is_dimension(value, text),
    }
}

proof fn lemma_optional(value: ValueView)
    requires
        text_value(value) is Ok,
    ensures
        is_optional(value, text_value(value)->Ok_0),
{
    if let ValueView::Text(bytes) = value {
        decode_utf8_encode_utf8(bytes);
    }
}

/// Each text of a row is that of the column of the same name. The endpoint is kept only as the digest
/// of its text, a missing one as that of the empty text.
pub proof fn law_texts_keep_their_columns(record: RecordView)
    requires
        parsed_row(record) is Ok,
    ensures
        ({
            let row = parsed_row(record)->Ok_0;
            &&& is_dimension(record.session_id, row.session_id)
            &&& is_dimension(record.model, row.model)
            &&& is_dimension(record.billing_provider, row.billing_provider)
            &&& is_dimension(record.billing_mode, row.billing_mode)
            &&& is_dimension(record.task, row.task)
            &&& is_optional(record.cost_status, row.cost_status)
            &&& is_optional(record.cost_source, row.cost_source)
            &&& is_optional(record.first_seen, row.first_seen)
            &&& is_optional(record.last_seen, row.last_seen)
            &&& exists|url: Seq<char>|
                #[trigger] is_dimension(record.billing_base_url, url)
                    && row.billing_base_url_digest == digest_of(seq![url])
        }),
{
    lemma_dimension(record.session_id);
    lemma_dimension(record.model);
    lemma_dimension(record.billing_provider);
    lemma_dimension(record.billing_mode);
    lemma_dimension(record.task);
    lemma_optional(record.cost_status);
    lemma_optional(record.cost_source);
    lemma_optional(record.first_seen);
    lemma_optional(record.last_seen);
    lemma_dimension(record.billing_base_url);
    let url = required_value(record.billing_base_url)->Ok_0;
    assert(is_dimension(record.billing_base_url, url));
}

/// The two reported costs of a row are those of their columns. The cost that counts is the actual one
/// where the status says so, else the estimate, else nothing; the status is compared without regard
/// to white space around it and to the case of ASCII letters.
pub proof fn law_costs_keep_their_columns(record: RecordView)
    requires
        parsed_row(record) is Ok,
    ensures
        ({
            let row = parsed_row(record)->Ok_0;
            &&& optional_cost(record.estimated_cost_usd, "estimated_cost_usd"@) == Ok::<
                Option<Cost>,
                Failure,
            >(row.estimated_cost_usd)
            &&& optional_cost(record.actual_cost_usd, "actual_cost_usd"@) == Ok::<
                Option<Cost>,
                Failure,
            >(row.actual_cost_usd)
            &&& counts_as_actual(row.actual_cost_usd, row.cost_status) ==> row.selected_cost_usd
                == row.actual_cost_usd->0 && row.selected_cost_kind == "actual"@
            &&& !counts_as_actual(row.actual_cost_usd, row.cost_status)
                && row.estimated_cost_usd is Some ==> row.selected_cost_usd
                == row.estimated_cost_usd->0 && row.selected_cost_kind == "estimated"@
            &&& !counts_as_actual(row.actual_cost_usd, row.cost_status)
                && row.estimated_cost_usd is None ==> row.selected_cost_usd.mantissa() == 0
                && row.selected_cost_kind == "none"@
        }),
{
    let row = parsed_row(record)->Ok_0;
    law_cost_that_counts(row.estimated_cost_usd, row.actual_cost_usd, row.cost_status);
}

/// The status says that the actual cost is settled.
pub open spec fn is_settled(status: Seq<char>) -> bool {
    let text = trimmed(status);
    ||| same_letters(text, "actual"@)
    ||| same_letters(text, "final"@)
    ||| same_letters(text, "settled"@)
    ||| same_letters(text, "complete"@)
}

/// There is an actual cost, and the status says that it is settled.
pub open spec fn counts_as_actual(actual: Option<Cost>, status: Option<Seq<char>>) -> bool {
    actual is Some && status is Some && is_settled(status->0)
}

/// Of the reported costs exactly one counts: the actual one where it is there and settled, else the
/// estimate, else nothing.
pub proof fn law_cost_that_counts(
    estimated: Option<Cost>,
    actual: Option<Cost>,
    status: Option<Seq<char>>,
)
    ensures
        counts_as_actual(actual, status) ==> selected_cost(estimated, actual, status) == (
            actual->0,
            "actual"@,
        ),
        !counts_as_actual(actual, status) && estimated is Some ==> selected_cost(
            estimated,
            actual,
            status,
        ) == (estimated->0, "estimated"@),
        !counts_as_actual(actual, status) && estimated is None ==> selected_cost(
            estimated,
            actual,
            status,
        ) == (Cost { negative: false, magnitude: 0, scale: 0 }, "none"@),
{
    if status is Some {
        lemma_settled(status->0);
    }
}

proof fn lemma_settled(status: Seq<char>)
    ensures
        authoritative(status) <==> is_settled(status),
{
    let text = trimmed(status);
    reveal_strlit("actual");
    reveal_strlit("final");
    reveal_strlit("settled");
    reveal_strlit("complete");
    law_lower_case_ignores_case(text, "actual"@);
    law_lower_case_ignores_case(text, "final"@);
    law_lower_case_ignores_case(text, "settled"@);
    law_lower_case_ignores_case(text, "complete"@);
    assert(ascii_lowered("actual"@) =~= "actual"@);
    assert(ascii_lowered("final"@) =~= "final"@);
    assert(ascii_lowered("settled"@) =~= "settled"@);
    assert(ascii_lowered("complete"@) =~= "complete"@);
}

/// The key of a row is the digest of its six dimensions, in this order, the endpoint by its digest;
/// nothing else of the row enters it.
pub proof fn law_key_covers_the_dimensions(record: RecordView)
    requires
        parsed_row(record) is Ok,
    ensures
        ({
            let row = parsed_row(record)->Ok_0;
            row.row_key == digest_of(
                seq![
                    row.session_id,
                    row.model,
                    row.billing_provider,
                    row.billing_base_url_digest,
                    row.billing_mode,
                    row.task,
                ],
            )
        }),
{
}

/// Every column of the record can be read: no text is invalid, every counter is one, and no cost is
/// negative or no number.
pub open spec fn readable(record: RecordView) -> bool {
    &&& text_value(record.session_id) is Ok
    &&& text_value(record.model) is Ok
    &&& text_value(record.billing_provider) is Ok
    &&& text_value(record.billing_mode) is Ok
    &&& text_value(record.task) is Ok
    &&& text_value(record.billing_base_url) is Ok
    &&& text_value(record.cost_status) is Ok
    &&& text_value(record.cost_source) is Ok
    &&& text_value(record.first_seen) is Ok
    &&& text_value(record.last_seen) is Ok
    &&& exists|n: i64| is_counter(record.api_call_count, n)
    &&& exists|n: i64| is_counter(record.input_tokens, n)
    &&& exists|n: i64| is_counter(record.output_tokens, n)
    &&& exists|n: i64| is_counter(record.cache_read_tokens, n)
    &&& exists|n: i64| is_counter(record.cache_write_tokens, n)
    &&& exists|n: i64| is_counter(record.reasoning_tokens, n)
    &&& optional_cost(record.estimated_cost_usd, "estimated_cost_usd"@) is Ok
    &&& optional_cost(record.actual_cost_usd, "actual_cost_usd"@) is Ok
}

proof fn lemma_some_counter(value: ValueView, name: Seq<char>)
    ensures
        counter_value(value, name) is Ok <==> exists|n: i64| is_counter(value, n),
{
    if counter_value(value, name) is Ok {
        law_counter_reads_as_itself(value, name, counter_value(value, name)->Ok_0);
        assert(is_counter(value, counter_value(value, name)->Ok_0));
    }
    if exists|n: i64| is_counter(value, n) {
        let n: i64 = choose|n: i64| is_counter(value, n);
        law_counter_reads_as_itself(value, name, n);
    }
}

/// A record is read exactly where each of its columns can be read.
pub proof fn law_record_is_read_where_its_columns_are(record: RecordView)
    ensures
        parsed_row(record) is Ok <==> readable(record),
{
    lemma_some_counter(record.api_call_count, "api_call_count"@);
    lemma_some_counter(record.input_tokens, "input_tokens"@);
    lemma_some_counter(record.output_tokens, "output_tokens"@);
    lemma_some_counter(record.cache_read_tokens, "cache_read_tokens"@);
    lemma_some_counter(record.cache_write_tokens, "cache_write_tokens"@);
    lemma_some_counter(record.reasoning_tokens, "reasoning_tokens"@);
}

} // verus!
