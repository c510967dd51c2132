//! What holds of a query as a whole: which stored deltas it gives, and what their totals are.

use crate::cost::{adds_exactly, joint_scale, limit, pow10, signed_cost, sum, Cost};
use crate::cost_laws::{lemma_at_scale, lemma_pow10_positive};
use crate::error::Failure;
use crate::query::{
    accepted, aggregated, delta_row, delta_rows, placed, query_summable, query_totals, summable,
    DeltaRowView, FiltersView,
};
use crate::query_laws::{
    cost_sum, counter_at, counter_sum, law_total_cost_is_sum, law_totals_are_sums,
    lemma_sum_is_exact, sums_exactly, total_at,
};
use crate::store::DeltaView;
use crate::text_laws::{law_lower_case_ignores_case, same_letters};
use vstd::prelude::*;
use vstd::string::*;

verus! {

/// A delta that was imported from Hermes and that each filter that is set asks for: the window ends
/// no earlier than the first date and starts no later than the last one, provider, profile and task
/// are the wanted ones, and so is the model but for the case of ASCII letters.
pub open spec fn wanted(filters: FiltersView, delta: DeltaView) -> bool {
    &&& delta.data_source == "hermes_session"@
    &&& delta.precision == "aggregate_delta"@
    &&& match filters.start_date {
        Some(date) => date <= delta.sync_window_end,
        None => true,
    }
    &&& match filters.end_date {
        Some(date) => delta.sync_window_start <= date,
        None => true,
    }
    &&& match filters.provider {
        Some(provider) => delta.provider == provider,
        None => true,
    }
    &&& match filters.model {
        Some(model) => same_letters(delta.model, model),
        None => true,
    }
    &&& match filters.profile_name {
        Some(profile_name) => delta.profile_name == profile_name,
        None => true,
    }
    &&& match filters.task {
        Some(task) => delta.task == task,
        None => true,
    }
}

/// A delta is accepted exactly where it satisfies each filter that is set, together with all others.
pub proof fn law_every_filter_counts(filters: FiltersView, delta: DeltaView)
    ensures
        filters.accepts(delta) <==> wanted(filters, delta),
{
    if filters.model is Some {
        law_lower_case_ignores_case(delta.model, filters.model->0);
    }
}

/// Without a filter every delta is accepted that was imported from Hermes, and no other.
pub proof fn law_without_filters_all_are_accepted(delta: DeltaView)
    ensures
        FiltersView::all().accepts(delta) <==> delta.data_source == "hermes_session"@
            && delta.precision == "aggregate_delta"@,
{
}

/// Setting one more filter leaves exactly those of the accepted deltas whose dimension matches.
pub proof fn law_one_more_filter_narrows(
    filters: FiltersView,
    delta: DeltaView,
    text: Seq<char>,
    date: i64,
)
    ensures
        filters.provider is None ==> ((FiltersView { provider: Some(text), ..filters }).accepts(delta)
            <==> filters.accepts(delta) && delta.provider == text),
        filters.model is None ==> ((FiltersView { model: Some(text), ..filters }).accepts(delta)
            <==> filters.accepts(delta) && same_letters(delta.model, text)),
        filters.profile_name is None ==> ((FiltersView {
            profile_name: Some(text),
            ..filters
        }).accepts(delta) <==> filters.accepts(delta) && delta.profile_name == text),
        filters.task is None ==> ((FiltersView { task: Some(text), ..filters }).accepts(delta)
            <==> filters.accepts(delta) && delta.task == text),
        filters.start_date is None ==> ((FiltersView {
            start_date: Some(date),
            ..filters
        }).accepts(delta) <==> filters.accepts(delta) && delta.sync_window_end >= date),
        filters.end_date is None ==> ((FiltersView { end_date: Some(date), ..filters }).accepts(delta)
            <==> filters.accepts(delta) && delta.sync_window_start <= date),
{
    law_lower_case_ignores_case(delta.model, text);
}

/// The sum of a measure over a list of deltas.
pub open spec fn sum_over(deltas: Seq<DeltaView>, measure: spec_fn(DeltaView) -> int) -> int
    decreases deltas.len(),
{
    if deltas.len() == 0 {
        0
    } else {
        sum_over(deltas.drop_last(), measure) + measure(deltas.last())
    }
}

/// The sum of a measure over those deltas of a list that the filters want.
pub open spec fn sum_wanted(
    deltas: Seq<DeltaView>,
    filters: FiltersView,
    measure: spec_fn(DeltaView) -> int,
) -> int
    decreases deltas.len(),
{
    if deltas.len() == 0 {
        0
    } else {
        sum_wanted(deltas.drop_first(), filters, measure) + if wanted(filters, deltas[0]) {
            measure(deltas[0])
        } else {
            0
        }
    }
}

proof fn lemma_sum_placed(
    ordered: Seq<DeltaView>,
    delta: DeltaView,
    measure: spec_fn(DeltaView) -> int,
)
    ensures
        sum_over(placed(ordered, delta), measure) == sum_over(ordered, measure) + measure(delta),
    decreases ordered.len(),
{
    if ordered.len() == 0 || ordered.last().sync_window_end <= delta.sync_window_end {
        assert(ordered.push(delta).drop_last() =~= ordered);
    } else {
        lemma_sum_placed(ordered.drop_last(), delta, measure);
        let p = placed(ordered.drop_last(), delta);
        assert(p.push(ordered.last()).drop_last() =~= p);
    }
}

proof fn lemma_sum_wanted_push(
    deltas: Seq<DeltaView>,
    delta: DeltaView,
    filters: FiltersView,
    measure: spec_fn(DeltaView) -> int,
)
    ensures
        sum_wanted(deltas.push(delta), filters, measure) == sum_wanted(deltas, filters, measure)
            + if wanted(filters, delta) {
            measure(delta)
        } else {
            0
        },
    decreases deltas.len(),
{
    if deltas.len() == 0 {
        assert(deltas.push(delta).drop_first() =~= deltas);
    } else {
        assert(deltas.push(delta).drop_first() =~= deltas.drop_first().push(delta));
        lemma_sum_wanted_push(deltas.drop_first(), delta, filters, measure);
    }
}

/// A query gives each stored delta that the filters want as often as it is stored, and no other:
/// every measure sums up to the same over what it gives as over all that is wanted of what is stored.
pub proof fn law_query_gives_all_that_is_wanted(
    deltas: Seq<DeltaView>,
    filters: FiltersView,
    measure: spec_fn(DeltaView) -> int,
)
    ensures
        sum_over(accepted(deltas, filters), measure) == sum_wanted(deltas, filters, measure),
    decreases deltas.len(),
{
    if deltas.len() > 0 {
        let (first, last) = (deltas.drop_last(), deltas.last());
        law_query_gives_all_that_is_wanted(first, filters, measure);
        law_every_filter_counts(filters, last);
        assert(deltas =~= first.push(last));
        lemma_sum_wanted_push(first, last, filters, measure);
        if filters.accepts(last) {
            lemma_sum_placed(accepted(first, filters), last, measure);
        }
    }
}

proof fn lemma_placed_contains(ordered: Seq<DeltaView>, delta: DeltaView, d: DeltaView)
    ensures
        placed(ordered, delta).contains(d) <==> ordered.contains(d) || d == delta,
    decreases ordered.len(),
{
    if ordered.len() == 0 || ordered.last().sync_window_end <= delta.sync_window_end {
        lemma_push_contains(ordered, delta, d);
    } else {
        let first = ordered.drop_last();
        lemma_placed_contains(first, delta, d);
        lemma_push_contains(placed(first, delta), ordered.last(), d);
        lemma_push_contains(first, ordered.last(), d);
        assert(ordered =~= first.push(ordered.last()));
    }
}

proof fn lemma_push_contains(deltas: Seq<DeltaView>, delta: DeltaView, d: DeltaView)
    ensures
        deltas.push(delta).contains(d) <==> deltas.contains(d) || d == delta,
{
    let more = deltas.push(delta);
    if deltas.contains(d) {
        let i = choose|i: int| 0 <= i < deltas.len() && deltas[i] == d;
        assert(more[i] == d);
    }
    if d == delta {
        assert(more[deltas.len() as int] == d);
    }
    if more.contains(d) {
        let i = choose|i: int| 0 <= i < more.len() && more[i] == d;
        if i < deltas.len() {
            assert(deltas[i] == d);
        }
    }
}

/// A query gives a delta exactly where it is stored and each filter that is set wants it.
pub proof fn law_query_gives_what_is_stored_and_wanted(
    deltas: Seq<DeltaView>,
    filters: FiltersView,
    delta: DeltaView,
)
    ensures
        accepted(deltas, filters).contains(delta) <==> deltas.contains(delta) && wanted(
            filters,
            delta,
        ),
    decreases deltas.len(),
{
    if deltas.len() > 0 {
        let (first, last) = (deltas.drop_last(), deltas.last());
        law_query_gives_what_is_stored_and_wanted(first, filters, delta);
        law_every_filter_counts(filters, last);
        lemma_push_contains(first, last, delta);
        assert(deltas =~= first.push(last));
        if filters.accepts(last) {
            lemma_placed_contains(accepted(first, filters), last, delta);
        }
    }
}

/// The row shows the delta: its provider, its model, the end of its window, its counters and the cost
/// that its text writes down.
pub open spec fn shows(row: DeltaRowView, delta: DeltaView) -> bool {
    &&& row.provider == delta.provider
    &&& row.model == delta.model
    &&& row.sync_window_end == delta.sync_window_end
    &&& row.api_call_count == delta.api_call_count
    &&& row.input_tokens == delta.input_tokens
    &&& row.output_tokens == delta.output_tokens
    &&& row.cache_read_tokens == delta.cache_read_tokens
    &&& row.cache_write_tokens == delta.cache_write_tokens
    &&& row.reasoning_tokens == delta.reasoning_tokens
    &&& signed_cost(delta.cost_usd, "cost_usd"@) == Ok::<Cost, Failure>(row.cost_usd)
}

/// The delta can be shown: no counter is negative, and the cost is a number.
pub open spec fn can_be_shown(delta: DeltaView) -> bool {
    &&& delta.api_call_count >= 0
    &&& delta.input_tokens >= 0
    &&& delta.output_tokens >= 0
    &&& delta.cache_read_tokens >= 0
    &&& delta.cache_write_tokens >= 0
    &&& delta.reasoning_tokens >= 0
    &&& signed_cost(delta.cost_usd, "cost_usd"@) is Ok
}

/// Each delta can be shown.
pub open spec fn all_can_be_shown(deltas: Seq<DeltaView>) -> bool {
    forall|i: int| 0 <= i < deltas.len() ==> can_be_shown(#[trigger] deltas[i])
}

/// Deltas are given as rows exactly where each of them can be shown; then there is one row for each,
/// in the same order, which shows it.
pub proof fn law_rows_show_their_deltas(deltas: Seq<DeltaView>)
    ensures
        delta_rows(deltas) is Ok <==> all_can_be_shown(deltas),
        delta_rows(deltas) is Ok ==> {
            let rows = delta_rows(deltas)->Ok_0;
            &&& rows.len() == deltas.len()
            &&& forall|i: int| 0 <= i < deltas.len() ==> shows(#[trigger] rows[i], deltas[i])
        },
    decreases deltas.len(),
{
    if deltas.len() > 0 {
        let (first, last) = (deltas.drop_last(), deltas.last());
        law_rows_show_their_deltas(first);
        assert(last == deltas[deltas.len() - 1]);
        if delta_rows(first) is Ok && can_be_shown(last) {
            let rows = delta_rows(first)->Ok_0;
            let row = delta_row(last)->Ok_0;
            assert forall|i: int| 0 <= i < deltas.len() implies can_be_shown(
                #[trigger] deltas[i],
            ) by {
                if i < first.len() {
                    assert(can_be_shown(first[i]));
                    assert(first[i] == deltas[i]);
                }
            }
            assert forall|i: int| 0 <= i < deltas.len() implies shows(
                #[trigger] rows.push(row)[i],
                deltas[i],
            ) by {
                if i < first.len() {
                    assert(rows.push(row)[i] == rows[i]);
                    assert(shows(rows[i], first[i]));
                    assert(first[i] == deltas[i]);
                }
            }
        }
        if all_can_be_shown(deltas) {
            assert forall|i: int| 0 <= i < first.len() implies can_be_shown(
                #[trigger] first[i],
            ) by {
                assert(first[i] == deltas[i]);
            }
        }
    }
}

/// The six counters of a stored delta, by their place.
pub open spec fn column_at(delta: DeltaView, place: nat) -> int {
    if place == 0 {
        delta.api_call_count as int
    } else if place == 1 {
        delta.input_tokens as int
    } else if place == 2 {
        delta.output_tokens as int
    } else if place == 3 {
        delta.cache_read_tokens as int
    } else if place == 4 {
        delta.cache_write_tokens as int
    } else {
        delta.reasoning_tokens as int
    }
}

/// The measure of a counter.
pub open spec fn column(place: nat) -> spec_fn(DeltaView) -> int {
    |delta: DeltaView| column_at(delta, place)
}

proof fn lemma_counter_sums(deltas: Seq<DeltaView>, place: nat)
    requires
        delta_rows(deltas) is Ok,
        place < 6,
    ensures
        counter_sum(delta_rows(deltas)->Ok_0, place) == sum_over(deltas, column(place)),
    decreases deltas.len(),
{
    if deltas.len() > 0 {
        let (first, last) = (deltas.drop_last(), deltas.last());
        lemma_counter_sums(first, place);
        let rows = delta_rows(first)->Ok_0;
        let row = delta_row(last)->Ok_0;
        assert(rows.push(row).drop_last() =~= rows);
        assert(counter_at(row, place) == column_at(last, place));
    }
}

/// The sum of a counter over all stored deltas that the filters want.
pub open spec fn wanted_total(deltas: Seq<DeltaView>, filters: FiltersView, place: nat) -> int {
    sum_wanted(deltas, filters, column(place))
}

proof fn lemma_query_counters(deltas: Seq<DeltaView>, filters: FiltersView, place: nat)
    requires
        delta_rows(accepted(deltas, filters)) is Ok,
        place < 6,
    ensures
        counter_sum(delta_rows(accepted(deltas, filters))->Ok_0, place) == wanted_total(
            deltas,
            filters,
            place,
        ),
{
    lemma_counter_sums(accepted(deltas, filters), place);
    law_query_gives_all_that_is_wanted(deltas, filters, column(place));
}

/// Where the totals of a query are given, each of the six counters is the sum of that counter over
/// all stored deltas that the filters want.
pub proof fn law_query_totals_cover_all(deltas: Seq<DeltaView>, filters: FiltersView)
    requires
        query_totals(deltas, filters) is Ok,
    ensures
        ({
            let total = query_totals(deltas, filters)->Ok_0;
            &&& total.request_count == sum_wanted(
                deltas,
                filters,
                |d: DeltaView| d.api_call_count as int,
            )
            &&& total.input_tokens == sum_wanted(
                deltas,
                filters,
                |d: DeltaView| d.input_tokens as int,
            )
            &&& total.output_tokens == sum_wanted(
                deltas,
                filters,
                |d: DeltaView| d.output_tokens as int,
            )
            &&& total.cache_read_tokens == sum_wanted(
                deltas,
                filters,
                |d: DeltaView| d.cache_read_tokens as int,
            )
            &&& total.cache_write_tokens == sum_wanted(
                deltas,
                filters,
                |d: DeltaView| d.cache_write_tokens as int,
            )
            &&& total.reasoning_tokens == sum_wanted(
                deltas,
                filters,
                |d: DeltaView| d.reasoning_tokens as int,
            )
        }),
{
    let total = query_totals(deltas, filters)->Ok_0;
    let rows = delta_rows(accepted(deltas, filters))->Ok_0;
    law_totals_are_sums(rows);
    assert forall|place: nat| place < 6 implies #[trigger] total_at(total, place) == wanted_total(
        deltas,
        filters,
        place,
    ) by {
        lemma_query_counters(deltas, filters, place);
    }
    assert(column(0) =~= (|d: DeltaView| d.api_call_count as int));
    assert(column(1) =~= (|d: DeltaView| d.input_tokens as int));
    assert(column(2) =~= (|d: DeltaView| d.output_tokens as int));
    assert(column(3) =~= (|d: DeltaView| d.cache_read_tokens as int));
    assert(column(4) =~= (|d: DeltaView| d.cache_write_tokens as int));
    assert(column(5) =~= (|d: DeltaView| d.reasoning_tokens as int));
    assert(total_at(total, 0) == wanted_total(deltas, filters, 0));
    assert(total_at(total, 1) == wanted_total(deltas, filters, 1));
    assert(total_at(total, 2) == wanted_total(deltas, filters, 2));
    assert(total_at(total, 3) == wanted_total(deltas, filters, 3));
    assert(total_at(total, 4) == wanted_total(deltas, filters, 4));
    assert(total_at(total, 5) == wanted_total(deltas, filters, 5));
}

/// Each stored delta that the filters want can be shown.
pub open spec fn wanted_can_be_shown(deltas: Seq<DeltaView>, filters: FiltersView) -> bool {
    forall|i: int|
        0 <= i < deltas.len() && wanted(filters, #[trigger] deltas[i]) ==> can_be_shown(deltas[i])
}

/// The totals of a query are given exactly where each delta that the filters want can be shown and
/// each of the six sums fits in 64 bits.
pub proof fn law_query_totals_are_given(deltas: Seq<DeltaView>, filters: FiltersView)
    ensures
        query_totals(deltas, filters) is Ok <==> {
            &&& wanted_can_be_shown(deltas, filters)
            &&& forall|place: nat|
                place < 6 ==> #[trigger] wanted_total(deltas, filters, place) <= u64::MAX
        },
{
    let given = accepted(deltas, filters);
    law_rows_show_their_deltas(given);
    assert(all_can_be_shown(given) <==> wanted_can_be_shown(deltas, filters)) by {
        if all_can_be_shown(given) {
            assert forall|i: int|
                0 <= i < deltas.len() && wanted(
                    filters,
                    #[trigger] deltas[i],
                ) implies can_be_shown(deltas[i]) by {
                law_query_gives_what_is_stored_and_wanted(deltas, filters, deltas[i]);
                let j = choose|j: int| 0 <= j < given.len() && given[j] == deltas[i];
                assert(can_be_shown(given[j]));
            }
        }
        if wanted_can_be_shown(deltas, filters) {
            assert forall|j: int| 0 <= j < given.len() implies can_be_shown(
                #[trigger] given[j],
            ) by {
                law_query_gives_what_is_stored_and_wanted(deltas, filters, given[j]);
                let i = choose|i: int| 0 <= i < deltas.len() && deltas[i] == given[j];
                assert(wanted(filters, deltas[i]));
            }
        }
    }
    if delta_rows(given) is Ok {
        let rows = delta_rows(given)->Ok_0;
        law_totals_are_sums(rows);
        assert forall|place: nat| place < 6 implies #[trigger] wanted_total(
            deltas,
            filters,
            place,
        ) == counter_sum(rows, place) by {
            lemma_query_counters(deltas, filters, place);
        }
        if query_totals(deltas, filters) is Err {
            let place = choose|place: nat|
                place < 6 && #[trigger] counter_sum(rows, place) > u64::MAX;
            assert(wanted_total(deltas, filters, place) > u64::MAX);
        } else {
            assert forall|place: nat| place < 6 implies #[trigger] wanted_total(
                deltas,
                filters,
                place,
            ) <= u64::MAX by {
                assert(counter_sum(rows, place) <= u64::MAX);
            }
        }
    }
}

/// The cost that a stored delta writes down, in units of `10^-scale`.
pub open spec fn stored_cost(delta: DeltaView, scale: nat) -> int {
    signed_cost(delta.cost_usd, "cost_usd"@)->Ok_0.at_scale(scale)
}

/// The measure of the cost.
pub open spec fn cost_column(scale: nat) -> spec_fn(DeltaView) -> int {
    |delta: DeltaView| stored_cost(delta, scale)
}

/// The measure of the cost without its sign.
pub open spec fn size_column(scale: nat) -> spec_fn(DeltaView) -> int {
    |delta: DeltaView|
        if stored_cost(delta, scale) < 0 {
            -stored_cost(delta, scale)
        } else {
            stored_cost(delta, scale)
        }
}

/// The costs of the deltas that the filters want have no more decimal places than `scale`, and
/// together, signs left off, they fit in 96 bits with so many.
pub open spec fn costs_fit(deltas: Seq<DeltaView>, filters: FiltersView, scale: nat) -> bool {
    &&& scale <= 28
    &&& forall|i: int|
        0 <= i < deltas.len() && wanted(filters, #[trigger] deltas[i]) ==> has_places(
            deltas[i],
            scale,
        )
    &&& sum_wanted(deltas, filters, size_column(scale)) < 0x1_0000_0000_0000_0000_0000_0000
}

/// The cost of the delta is a number that `Decimal` can hold, of no more decimal places than `scale`.
pub open spec fn has_places(delta: DeltaView, scale: nat) -> bool {
    let cost = signed_cost(delta.cost_usd, "cost_usd"@);
    cost is Ok && cost->Ok_0.valid() && cost->Ok_0.scale <= scale
}

/// A value at a smaller scale is no larger.
proof fn lemma_smaller_scale(c: Cost, s: nat, t: nat)
    requires
        c.scale <= s <= t,
    ensures
        c.at_scale(t) == c.at_scale(s) * pow10((t - s) as nat),
        c.at_scale(s) >= 0 ==> 0 <= c.at_scale(s) <= c.at_scale(t),
        c.at_scale(s) < 0 ==> c.at_scale(t) <= c.at_scale(s) < 0,
{
    lemma_at_scale(c, s, t);
    lemma_pow10_positive((t - s) as nat);
    let (x, q) = (c.at_scale(s), pow10((t - s) as nat) as int);
    assert(x >= 0 ==> x <= x * q) by (nonlinear_arith)
        requires
            q >= 1,
    ;
    assert(x < 0 ==> x * q <= x) by (nonlinear_arith)
        requires
            q >= 1,
    ;
}

proof fn lemma_costs_add_up(deltas: Seq<DeltaView>, scale: nat)
    requires
        scale <= 28,
        delta_rows(deltas) is Ok,
        forall|i: int| 0 <= i < deltas.len() ==> has_places(#[trigger] deltas[i], scale),
        sum_over(deltas, size_column(scale)) < limit(),
    ensures
        sum_over(deltas, size_column(scale)) >= 0,
        sums_exactly(delta_rows(deltas)->Ok_0),
        summable(delta_rows(deltas)->Ok_0),
        cost_sum(delta_rows(deltas)->Ok_0) == sum_over(deltas, cost_column(28)),
        aggregated(delta_rows(deltas)->Ok_0) is Ok ==> {
            let total = aggregated(delta_rows(deltas)->Ok_0)->Ok_0.cost_usd;
            &&& total.valid()
            &&& total.scale <= scale
            &&& -sum_over(deltas, size_column(scale)) <= total.at_scale(scale) <= sum_over(
                deltas,
                size_column(scale),
            )
        },
    decreases deltas.len(),
{
    if deltas.len() == 0 {
        assert(0 * pow10(scale) == 0);
    } else {
        let (first, last) = (deltas.drop_last(), deltas.last());
        assert forall|i: int| 0 <= i < first.len() implies has_places(
            #[trigger] first[i],
            scale,
        ) by {
            assert(first[i] == deltas[i]);
        }
        assert(has_places(deltas[deltas.len() - 1], scale));
        let size = size_column(scale)(last);
        assert(size >= 0);
        assert(sum_over(deltas, size_column(scale)) == sum_over(first, size_column(scale)) + size);
        lemma_costs_add_up(first, scale);
        let rows = delta_rows(first)->Ok_0;
        let row = delta_row(last)->Ok_0;
        assert(rows.push(row).drop_last() =~= rows);
        assert(rows.push(row).last() == row);
        assert(cost_column(28)(last) == row.cost_usd.at_scale(28));
        if aggregated(rows) is Ok {
            let total = aggregated(rows)->Ok_0.cost_usd;
            lemma_one_more_cost(total, row.cost_usd, scale);
        }
    }
}

proof fn lemma_one_more_cost(total: Cost, cost: Cost, scale: nat)
    requires
        scale <= 28,
        total.valid(),
        cost.valid(),
        total.scale <= scale,
        cost.scale <= scale,
        -limit() < total.at_scale(scale) < limit(),
        -limit() < cost.at_scale(scale) < limit(),
        -limit() < total.at_scale(scale) + cost.at_scale(scale) < limit(),
    ensures
        adds_exactly(total, cost),
        sum(total, cost) is Some,
        sum(total, cost)->0.scale <= scale,
        sum(total, cost)->0.at_scale(scale) == total.at_scale(scale) + cost.at_scale(scale),
{
    let j = joint_scale(total, cost);
    lemma_smaller_scale(total, j, scale);
    lemma_smaller_scale(cost, j, scale);
    let (x, y, q) = (total.at_scale(j), cost.at_scale(j), pow10((scale - j) as nat) as int);
    lemma_pow10_positive((scale - j) as nat);
    assert((x + y) * q == x * q + y * q) by (nonlinear_arith);
    assert(-limit() < x + y < limit()) by {
        let z = x + y;
        assert(z >= 0 ==> z <= z * q) by (nonlinear_arith)
            requires
                q >= 1,
        ;
        assert(z < 0 ==> z * q <= z) by (nonlinear_arith)
            requires
                q >= 1,
        ;
    }
    lemma_sum_is_exact(total, cost);
    let s = sum(total, cost)->0;
    if total.magnitude == 0 {
        assert(0 * pow10((scale - total.scale) as nat) == 0);
    } else if cost.magnitude == 0 {
        assert(0 * pow10((scale - cost.scale) as nat) == 0);
    } else {
        assert(s.mantissa() == x + y);
        assert(s.scale == j);
    }
}

/// Where the totals of a query are given, the cost is the sum of the costs of all stored deltas that
/// the filters want, wherever these costs together fit in 96 bits; they can then always be added.
pub proof fn law_query_total_cost_covers_all(
    deltas: Seq<DeltaView>,
    filters: FiltersView,
    scale: nat,
)
    requires
        costs_fit(deltas, filters, scale),
    ensures
        query_summable(deltas, filters),
        query_totals(deltas, filters) is Ok ==> {
            let total = query_totals(deltas, filters)->Ok_0;
            &&& total.cost_usd.valid()
            &&& total.cost_usd.at_scale(28) == sum_wanted(
                deltas,
                filters,
                |d: DeltaView| signed_cost(d.cost_usd, "cost_usd"@)->Ok_0.at_scale(28),
            )
        },
{
    let given = accepted(deltas, filters);
    law_query_gives_all_that_is_wanted(deltas, filters, size_column(scale));
    law_query_gives_all_that_is_wanted(deltas, filters, cost_column(28));
    assert(cost_column(28) =~= (|d: DeltaView|
        signed_cost(d.cost_usd, "cost_usd"@)->Ok_0.at_scale(28)));
    assert forall|j: int| 0 <= j < given.len() implies has_places(#[trigger] given[j], scale) by {
        law_query_gives_what_is_stored_and_wanted(deltas, filters, given[j]);
        let i = choose|i: int| 0 <= i < deltas.len() && deltas[i] == given[j];
        assert(wanted(filters, deltas[i]));
    }
    if delta_rows(given) is Ok {
        lemma_costs_add_up(given, scale);
        if aggregated(delta_rows(given)->Ok_0) is Ok {
            law_total_cost_is_sum(delta_rows(given)->Ok_0);
        }
    }
}

} // verus!
