//! What holds of queries: their order, what they read back of an import, and their totals.

use crate::cost::{adds_exactly, exact_sum, joint_scale, pow10, scaled, sum, Cost};
use crate::cost_laws::{lemma_at_scale, lemma_cost_text_reads_back};
use crate::error::Failure;
use crate::import::{delta_of, OriginView};
use crate::query::{
    accepted, additions, aggregated, delta_row, placed, DeltaRowView, FiltersView, HermesAggregate,
};
use crate::snapshot::HermesSnapshotDelta;
use crate::source::RowView;
use crate::store::DeltaView;
use vstd::prelude::*;
use vstd::string::*;

verus! {

/// A list is ordered by window end.
pub open spec fn ordered_by_end(deltas: Seq<DeltaView>) -> bool {
    forall|i: int, j: int|
        0 <= i <= j < deltas.len() ==> (#[trigger] deltas[i]).sync_window_end <= (
        #[trigger] deltas[j]).sync_window_end
}

/// The deltas of a list whose window ends at a given time, in their order.
pub open spec fn ending_at(deltas: Seq<DeltaView>, end: i64) -> Seq<DeltaView>
    decreases deltas.len(),
{
    if deltas.len() == 0 {
        Seq::empty()
    } else if deltas.last().sync_window_end == end {
        ending_at(deltas.drop_last(), end).push(deltas.last())
    } else {
        ending_at(deltas.drop_last(), end)
    }
}

/// The deltas of a list that the filters accept, in the order of the list.
pub open spec fn passing(deltas: Seq<DeltaView>, filters: FiltersView) -> Seq<DeltaView>
    decreases deltas.len(),
{
    if deltas.len() == 0 {
        Seq::empty()
    } else if filters.accepts(deltas.last()) {
        passing(deltas.drop_last(), filters).push(deltas.last())
    } else {
        passing(deltas.drop_last(), filters)
    }
}

proof fn lemma_placed(ordered: Seq<DeltaView>, delta: DeltaView, end: i64)
    requires
        ordered_by_end(ordered),
    ensures
        ordered_by_end(placed(ordered, delta)),
        placed(ordered, delta).len() == ordered.len() + 1,
        ordered.len() > 0 && delta.sync_window_end < ordered.last().sync_window_end
            ==> placed(ordered, delta).last() == ordered.last(),
        placed(ordered, delta).last().sync_window_end >= delta.sync_window_end,
        ending_at(placed(ordered, delta), end) == ending_at(ordered.push(delta), end),
    decreases ordered.len(),
{
    assert(ordered.push(delta).drop_last() =~= ordered);
    if ordered.len() > 0 && ordered.last().sync_window_end > delta.sync_window_end {
        let first = ordered.drop_last();
        let last = ordered.last();
        assert(ordered_by_end(first)) by {
            assert forall|i: int, j: int| 0 <= i <= j < first.len() implies (
            #[trigger] first[i]).sync_window_end <= (#[trigger] first[j]).sync_window_end by {
                assert(ordered[i].sync_window_end <= ordered[j].sync_window_end);
            }
        }
        lemma_placed(first, delta, end);
        let p = placed(first, delta);
        assert(p.push(last).drop_last() =~= p);
        assert(first.push(delta).drop_last() =~= first);
        reveal_with_fuel(ending_at, 3);
        assert(ending_at(ordered, end) == if last.sync_window_end == end {
            ending_at(first, end).push(last)
        } else {
            ending_at(first, end)
        });
        assert forall|i: int, j: int| 0 <= i <= j < p.push(last).len() implies (
        #[trigger] p.push(last)[i]).sync_window_end <= (#[trigger] p.push(
            last,
        )[j]).sync_window_end by {
            if j == p.len() && i < p.len() {
                assert(p[i].sync_window_end <= p[p.len() - 1].sync_window_end);
                if first.len() > 0 && delta.sync_window_end < first.last().sync_window_end {
                    assert(ordered[first.len() - 1].sync_window_end <= ordered[ordered.len()
                        - 1].sync_window_end);
                } else {
                    assert(p.last() == delta);
                }
            }
        }
    } else {
        assert forall|i: int, j: int| 0 <= i <= j < ordered.push(delta).len() implies (
        #[trigger] ordered.push(delta)[i]).sync_window_end <= (#[trigger] ordered.push(
            delta,
        )[j]).sync_window_end by {
            if j == ordered.len() && i < ordered.len() {
                assert(ordered[i].sync_window_end <= ordered[ordered.len() - 1].sync_window_end);
            }
        }
    }
}

/// A query gives the deltas that its filters accept, all of them and no others, ordered by window
/// end; those that end together keep the order in which they were stored.
pub proof fn law_query_orders_by_window_end(
    deltas: Seq<DeltaView>,
    filters: FiltersView,
    end: i64,
)
    ensures
        ordered_by_end(accepted(deltas, filters)),
        accepted(deltas, filters).len() == passing(deltas, filters).len(),
        ending_at(accepted(deltas, filters), end) == ending_at(passing(deltas, filters), end),
    decreases deltas.len(),
{
    if deltas.len() > 0 {
        law_query_orders_by_window_end(deltas.drop_last(), filters, end);
        if filters.accepts(deltas.last()) {
            let before = accepted(deltas.drop_last(), filters);
            let rest = passing(deltas.drop_last(), filters);
            lemma_placed(before, deltas.last(), end);
            assert(before.push(deltas.last()).drop_last() =~= before);
            assert(rest.push(deltas.last()).drop_last() =~= rest);
        }
    }
}

/// A time lies in an interval.
pub open spec fn lies_in(t: i64, start: i64, end: i64) -> bool {
    start <= t <= end
}

/// A range of dates accepts a window if and only if some time lies in both.
pub proof fn law_dates_accept_overlap(filters: FiltersView, delta: DeltaView)
    requires
        filters.start_date is Some,
        filters.end_date is Some,
        filters.start_date->0 <= filters.end_date->0,
        delta.sync_window_start <= delta.sync_window_end,
    ensures
        filters.accepts(delta) <==> {
            &&& (FiltersView { start_date: None, end_date: None, ..filters }).accepts(delta)
            &&& exists|t: i64| #[trigger]
                lies_in(t, filters.start_date->0, filters.end_date->0) && lies_in(
                    t,
                    delta.sync_window_start,
                    delta.sync_window_end,
                )
        },
{
    let (start, end) = (filters.start_date->0, filters.end_date->0);
    let t = if start >= delta.sync_window_start {
        start
    } else {
        delta.sync_window_start
    };
    if delta.sync_window_end >= start && delta.sync_window_start <= end {
        assert(lies_in(t, start, end));
    }
}

/// What an import stores a query gives back: the dimensions, the end of the window, the counters
/// and the cost, digit for digit.
pub proof fn law_delta_reads_back(
    origin: OriginView,
    row: RowView,
    delta: HermesSnapshotDelta,
    sync_window_start: i64,
    sync_window_end: i64,
)
    requires
        delta.api_call_count >= 0,
        delta.input_tokens >= 0,
        delta.output_tokens >= 0,
        delta.cache_read_tokens >= 0,
        delta.cache_write_tokens >= 0,
        delta.reasoning_tokens >= 0,
        delta.cost_usd.valid(),
    ensures
        ({
            let stored = delta_of(origin, row, delta, sync_window_start, sync_window_end);
            &&& FiltersView::all().accepts(stored)
            &&& delta_row(stored) == Ok::<DeltaRowView, Failure>(
                DeltaRowView {
                    provider: row.billing_provider,
                    model: row.model,
                    sync_window_end,
                    api_call_count: delta.api_call_count as u64,
                    input_tokens: delta.input_tokens as u64,
                    output_tokens: delta.output_tokens as u64,
                    cache_read_tokens: delta.cache_read_tokens as u64,
                    cache_write_tokens: delta.cache_write_tokens as u64,
                    reasoning_tokens: delta.reasoning_tokens as u64,
                    cost_usd: delta.cost_usd.normal(),
                },
            )
        }),
{
    lemma_cost_text_reads_back(delta.cost_usd, "cost_usd"@);
}

/// The six counters of a row, by their place.
pub open spec fn counter_at(row: DeltaRowView, place: nat) -> u64 {
    if place == 0 {
        row.api_call_count
    } else if place == 1 {
        row.input_tokens
    } else if place == 2 {
        row.output_tokens
    } else if place == 3 {
        row.cache_read_tokens
    } else if place == 4 {
        row.cache_write_tokens
    } else {
        row.reasoning_tokens
    }
}

/// The six counters of some totals, by their place.
pub open spec fn total_at(total: HermesAggregate, place: nat) -> u64 {
    if place == 0 {
        total.request_count
    } else if place == 1 {
        total.input_tokens
    } else if place == 2 {
        total.output_tokens
    } else if place == 3 {
        total.cache_read_tokens
    } else if place == 4 {
        total.cache_write_tokens
    } else {
        total.reasoning_tokens
    }
}

/// The sum of one counter over some rows.
pub open spec fn counter_sum(rows: Seq<DeltaRowView>, place: nat) -> nat
    decreases rows.len(),
{
    if rows.len() == 0 {
        0
    } else {
        counter_sum(rows.drop_last(), place) + counter_at(rows.last(), place) as nat
    }
}

/// The totals are the sums of the counters, and they are given if and only if each of the six fits
/// in 64 bits.
pub proof fn law_totals_are_sums(rows: Seq<DeltaRowView>)
    ensures
        aggregated(rows) is Ok <==> forall|place: nat|
            place < 6 ==> #[trigger] counter_sum(rows, place) <= u64::MAX,
        aggregated(rows) is Ok ==> forall|place: nat|
            place < 6 ==> #[trigger] total_at(aggregated(rows)->Ok_0, place) == counter_sum(
                rows,
                place,
            ),
    decreases rows.len(),
{
    if rows.len() > 0 {
        let (first, last) = (rows.drop_last(), rows.last());
        law_totals_are_sums(first);
        assert forall|place: nat| place < 6 implies #[trigger] counter_sum(rows, place)
            == counter_sum(first, place) + counter_at(last, place) by {}
        if aggregated(first) is Ok {
            let total = aggregated(first)->Ok_0;
            assert forall|place: nat| place < 6 implies #[trigger] counter_sum(rows, place)
                == total_at(total, place) + counter_at(last, place) by {
                assert(total_at(total, place) == counter_sum(first, place));
            }
            assert(counter_sum(rows, 0) == total.request_count + last.api_call_count);
            assert(counter_sum(rows, 1) == total.input_tokens + last.input_tokens);
            assert(counter_sum(rows, 2) == total.output_tokens + last.output_tokens);
            assert(counter_sum(rows, 3) == total.cache_read_tokens + last.cache_read_tokens);
            assert(counter_sum(rows, 4) == total.cache_write_tokens + last.cache_write_tokens);
            assert(counter_sum(rows, 5) == total.reasoning_tokens + last.reasoning_tokens);
            if additions(total, last) == 6 {
                let after = total.with(last);
                assert forall|place: nat| place < 6 implies #[trigger] total_at(after, place)
                    == counter_sum(rows, place) by {}
            } else {
                assert(counter_sum(rows, additions(total, last)) > u64::MAX);
            }
        } else {
            let place = choose|place: nat|
                place < 6 && #[trigger] counter_sum(first, place) > u64::MAX;
            assert(counter_sum(rows, place) > u64::MAX);
        }
    }
}

/// Every cost of the rows is added to the totals exactly.
pub open spec fn sums_exactly(rows: Seq<DeltaRowView>) -> bool
    decreases rows.len(),
{
    if rows.len() == 0 {
        true
    } else {
        &&& sums_exactly(rows.drop_last())
        &&& rows.last().cost_usd.valid()
        &&& aggregated(rows.drop_last()) is Ok ==> adds_exactly(
            aggregated(rows.drop_last())->Ok_0.cost_usd,
            rows.last().cost_usd,
        )
    }
}

/// The sum of the costs of some rows, in units of `10^-28`.
pub open spec fn cost_sum(rows: Seq<DeltaRowView>) -> int
    decreases rows.len(),
{
    if rows.len() == 0 {
        0
    } else {
        cost_sum(rows.drop_last()) + rows.last().cost_usd.at_scale(28)
    }
}

/// Where addition is exact, the value of the sum is the sum of the values.
pub proof fn lemma_sum_is_exact(a: Cost, b: Cost)
    requires
        a.valid(),
        b.valid(),
        adds_exactly(a, b),
    ensures
        sum(a, b) is Some,
        sum(a, b)->0.valid(),
        sum(a, b)->0.at_scale(28) == a.at_scale(28) + b.at_scale(28),
{
    let s = joint_scale(a, b);
    let d = exact_sum(a, b);
    if a.magnitude == 0 {
        assert(0 * pow10((28 - a.scale) as nat) == 0);
    } else if b.magnitude == 0 {
        assert(0 * pow10((28 - b.scale) as nat) == 0);
    } else {
        let (x, y, q) = (a.at_scale(s), b.at_scale(s), pow10((28 - s) as nat) as int);
        lemma_at_scale(a, s, 28);
        lemma_at_scale(b, s, 28);
        assert(d == scaled(x + y, s));
        assert(d.mantissa() == x + y);
        assert((x + y) * q == x * q + y * q) by (nonlinear_arith);
    }
}

/// The total cost is the sum of the costs, wherever 96 bits hold each sum.
pub proof fn law_total_cost_is_sum(rows: Seq<DeltaRowView>)
    requires
        sums_exactly(rows),
        aggregated(rows) is Ok,
    ensures
        aggregated(rows)->Ok_0.cost_usd.valid(),
        aggregated(rows)->Ok_0.cost_usd.at_scale(28) == cost_sum(rows),
    decreases rows.len(),
{
    if rows.len() == 0 {
        assert(0 * pow10(28) == 0);
    } else {
        law_total_cost_is_sum(rows.drop_last());
        lemma_sum_is_exact(aggregated(rows.drop_last())->Ok_0.cost_usd, rows.last().cost_usd);
    }
}

/// Adding a delta to totals adds its counters one after the other, up to the first sum that does not fit
/// in 64 bits, which the failure names; where all six fit, the cost is added too.
pub proof fn law_one_more_delta_is_added(total: HermesAggregate, row: DeltaRowView)
    ensures
        ({
            let done = additions(total, row);
            let after = total.with(row);
            &&& done <= 6
            &&& forall|place: nat|
                place < done ==> {
                    &&& #[trigger] total_at(total, place) + counter_at(row, place) <= u64::MAX
                    &&& total_at(after, place) == total_at(total, place) + counter_at(row, place)
                }
            &&& forall|place: nat|
                done <= place < 6 ==> #[trigger] total_at(after, place) == total_at(total, place)
            &&& done < 6 ==> total_at(total, done) + counter_at(row, done) > u64::MAX
            &&& done < 6 ==> after.cost_usd == total.cost_usd
            &&& done == 6 ==> after.cost_usd == sum(total.cost_usd, row.cost_usd)->0
            &&& total.can_take(row) <==> done < 6 || sum(total.cost_usd, row.cost_usd) is Some
        }),
{
}

/// The totals of no deltas are zero; one more delta is added to the totals of the others, and fails them
/// all where one of its counters cannot be added.
pub proof fn law_deltas_are_added_one_by_one(rows: Seq<DeltaRowView>, row: DeltaRowView)
    ensures
        ({
            let before = aggregated(rows);
            let after = aggregated(rows.push(row));
            &&& forall|place: nat|
                place < 6 ==> #[trigger] total_at(aggregated(Seq::empty())->Ok_0, place) == 0
            &&& aggregated(Seq::empty())->Ok_0.cost_usd.mantissa() == 0
            &&& before is Err ==> after is Err && after->Err_0 == before->Err_0
            &&& before is Ok && additions(before->Ok_0, row) == 6 ==> after is Ok && after->Ok_0
                == before->Ok_0.with(row)
            &&& before is Ok && additions(before->Ok_0, row) < 6 ==> after is Err && after->Err_0
                == Failure::Database(
                "汇总 Hermes "@ + counter_label(additions(before->Ok_0, row)) + " 溢出"@,
            )
        }),
{
    assert(rows.push(row).drop_last() =~= rows);
}

/// How the failure of a sum calls the counters, by their place.
pub open spec fn counter_label(place: nat) -> Seq<char> {
    if place == 0 {
        "请求数"@
    } else if place == 1 {
        "输入 token"@
    } else if place == 2 {
        "输出 token"@
    } else if place == 3 {
        "缓存读取 token"@
    } else if place == 4 {
        "缓存写入 token"@
    } else {
        "推理 token"@
    }
}

} // verus!
