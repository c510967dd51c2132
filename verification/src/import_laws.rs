//! What holds of imports: what a snapshot reads back as, what an unchanged row gives, and how the
//! imported cost follows the source.

use crate::cost::{
    difference, limit, pow10, scaled, signed_cost, subtracts_exactly, Cost,
};
use crate::cost_laws::{
    lemma_cost_text_reads_back, lemma_difference_in_micros, lemma_difference_is_exact,
    lemma_few_places, lemma_fixed_text_keeps_value, lemma_fixed_text_of_micros,
    lemma_fixed_text_reads_back, lemma_pow10_add, lemma_pow10_positive, lemma_same_micros, lemma_same_value_subtracts, lemma_scaled_micros, lemma_sign, lemma_subtracts_with_six_places,
};
use crate::error::Failure;
use crate::import::{
    baseline_snapshot, effect_storable, imported_row, imported_rows, loaded, reading_of,
    row_effect, rows_storable, snapshot_of, state_of, OriginView,
};
use crate::reader::all_valid;
use crate::snapshot::{balance_above, delta_between, regressed, HermesSnapshotState};
use crate::source::RowView;
use crate::store::{DeltaView, SnapshotView, StoreView};
use vstd::prelude::*;

verus! {

/// The state that a snapshot of the row describes.
pub open spec fn kept_state(
    row: RowView,
    baseline: Cost,
    balance: Cost,
    observed_at: i64,
) -> HermesSnapshotState {
    HermesSnapshotState {
        selected_cost_usd: row.selected_cost_usd.normal(),
        cost_baseline_usd: scaled(baseline.micros(), 6),
        emitted_cost_balance_usd: scaled(balance.micros(), 6),
        ..reading_of(row, observed_at)
    }
}

/// A cost that is not negative and that six decimal places keep.
pub open spec fn keepable(c: Cost) -> bool {
    c.in_micros() && c.mantissa() >= 0
}

/// What was written of a row reads back: the counters and the time as they were, the selected cost
/// digit for digit, and baseline and balance with the same value and exactly six decimal places.
pub proof fn law_snapshot_reads_back(
    origin: OriginView,
    row: RowView,
    baseline: Cost,
    balance: Cost,
    observed_at: i64,
)
    requires
        row.selected_cost_usd.non_negative(),
        keepable(baseline),
        keepable(balance),
    ensures
        state_of(snapshot_of(origin, row, baseline, balance, observed_at)) == Ok::<
            HermesSnapshotState,
            Failure,
        >(kept_state(row, baseline, balance, observed_at)),
{
    lemma_cost_text_reads_back(row.selected_cost_usd, "selected_cost_usd"@);
    lemma_fixed_text_reads_back(baseline, "cost_baseline_usd"@);
    lemma_fixed_text_reads_back(balance, "emitted_cost_balance_usd"@);
}

/// The store after some more snapshots were written, one after the other.
pub open spec fn after_writes(store: StoreView, writes: Seq<SnapshotView>) -> StoreView
    decreases writes.len(),
{
    if writes.len() == 0 {
        store
    } else {
        after_writes(store, writes.drop_last()).put(writes.last())
    }
}

/// No snapshot of the list is of the source row.
pub open spec fn not_written(writes: Seq<SnapshotView>, key: (Seq<char>, Seq<char>)) -> bool {
    forall|i: int| 0 <= i < writes.len() ==> (#[trigger] writes[i]).key() != key
}

proof fn lemma_other_writes(
    store: StoreView,
    writes: Seq<SnapshotView>,
    key: (Seq<char>, Seq<char>),
)
    requires
        not_written(writes, key),
    ensures
        after_writes(store, writes).snapshots.contains_key(key) == store.snapshots.contains_key(
            key,
        ),
        store.snapshots.contains_key(key) ==> after_writes(store, writes).snapshots[key]
            == store.snapshots[key],
    decreases writes.len(),
{
    if writes.len() > 0 {
        assert forall|i: int| 0 <= i < writes.drop_last().len() implies (
        #[trigger] writes.drop_last()[i]).key() != key by {
            assert(writes[i].key() != key);
        }
        lemma_other_writes(store, writes.drop_last(), key);
        assert(writes[writes.len() - 1].key() != key);
    }
}

/// Not negative, and without digits behind the sixth decimal place.
pub open spec fn six_places_at_most(c: Cost) -> bool {
    c.non_negative() && c.at_scale(28) % (pow10(22) as int) == 0
}

/// What is written of a row is loaded until the row is written again: its counters, the selected
/// cost digit for digit, baseline and balance with the same value, and the time of observation.
pub proof fn law_written_snapshot_is_loaded(
    store: StoreView,
    origin: OriginView,
    row: RowView,
    baseline: Cost,
    balance: Cost,
    observed_at: i64,
    writes: Seq<SnapshotView>,
)
    requires
        row.selected_cost_usd.non_negative(),
        six_places_at_most(baseline),
        six_places_at_most(balance),
        not_written(writes, (origin.source_id, row.row_key)),
    ensures
        ({
            let written = store.put(snapshot_of(origin, row, baseline, balance, observed_at));
            let known = loaded(after_writes(written, writes), origin.source_id, row.row_key);
            let state = known->Ok_0->0;
            &&& known is Ok
            &&& known->Ok_0 is Some
            &&& state == HermesSnapshotState {
                selected_cost_usd: row.selected_cost_usd.normal(),
                cost_baseline_usd: state.cost_baseline_usd,
                emitted_cost_balance_usd: state.emitted_cost_balance_usd,
                ..reading_of(row, observed_at)
            }
            &&& state.cost_baseline_usd.non_negative()
            &&& state.cost_baseline_usd.at_scale(28) == baseline.at_scale(28)
            &&& state.emitted_cost_balance_usd.non_negative()
            &&& state.emitted_cost_balance_usd.at_scale(28) == balance.at_scale(28)
        }),
{
    let written = store.put(snapshot_of(origin, row, baseline, balance, observed_at));
    lemma_other_writes(written, writes, (origin.source_id, row.row_key));
    lemma_cost_text_reads_back(row.selected_cost_usd, "selected_cost_usd"@);
    lemma_fixed_text_keeps_value(baseline, "cost_baseline_usd"@);
    lemma_fixed_text_keeps_value(balance, "emitted_cost_balance_usd"@);
}

/// Of a row that was never written nothing is loaded.
pub proof fn law_unwritten_row_is_not_loaded(
    store: StoreView,
    source_id: Seq<char>,
    row_key: Seq<char>,
    writes: Seq<SnapshotView>,
)
    requires
        !store.snapshots.contains_key((source_id, row_key)),
        not_written(writes, (source_id, row_key)),
    ensures
        loaded(after_writes(store, writes), source_id, row_key) == Ok::<
            Option<HermesSnapshotState>,
            Failure,
        >(None),
{
    lemma_other_writes(store, writes, (source_id, row_key));
}

/// A row that was not seen before only sets its baseline: no delta is stored, whatever its counters
/// and its cost are.
pub proof fn law_first_sighting_imports_nothing(
    store: StoreView,
    origin: OriginView,
    row: RowView,
    observed_at: i64,
)
    requires
        !store.snapshots.contains_key((origin.source_id, row.row_key)),
    ensures
        imported_row(store, origin, row, observed_at) == Ok::<(StoreView, bool), Failure>(
            (store.put(baseline_snapshot(origin, row, observed_at)), false),
        ),
        store.put(baseline_snapshot(origin, row, observed_at)).deltas == store.deltas,
{
}

/// A row one of whose counters went down only sets a new baseline: no delta is stored.
pub proof fn law_reset_imports_nothing(
    store: StoreView,
    origin: OriginView,
    row: RowView,
    observed_at: i64,
)
    requires
        loaded(store, origin.source_id, row.row_key) is Ok,
        loaded(store, origin.source_id, row.row_key)->Ok_0 is Some,
        regressed(
            loaded(store, origin.source_id, row.row_key)->Ok_0->0,
            reading_of(row, observed_at),
        ),
    ensures
        imported_row(store, origin, row, observed_at) == Ok::<(StoreView, bool), Failure>(
            (store.put(baseline_snapshot(origin, row, observed_at)), false),
        ),
        store.put(baseline_snapshot(origin, row, observed_at)).deltas == store.deltas,
{
}

/// No counter of a stored delta is negative, and some counter or the cost is not zero.
pub proof fn law_deltas_show_usage(
    previous: Option<HermesSnapshotState>,
    origin: OriginView,
    row: RowView,
    observed_at: i64,
)
    ensures
        match row_effect(previous, origin, row, observed_at) {
            Ok((_, Some(delta))) => {
                &&& delta.api_call_count >= 0
                &&& delta.input_tokens >= 0
                &&& delta.output_tokens >= 0
                &&& delta.cache_read_tokens >= 0
                &&& delta.cache_write_tokens >= 0
                &&& delta.reasoning_tokens >= 0
                &&& delta_between(previous->0, reading_of(row, observed_at))->Ok_0.shows_usage()
            },
            _ => true,
        },
{
}

/// The imported counters follow the source: what is stored of a row are its counters as they stand,
/// and the delta carries exactly their growth since the last reading. No delta means no growth.
pub proof fn law_counters_follow_source(
    previous: HermesSnapshotState,
    origin: OriginView,
    row: RowView,
    observed_at: i64,
)
    requires
        !regressed(previous, reading_of(row, observed_at)),
        row_effect(Some(previous), origin, row, observed_at) is Ok,
    ensures
        ({
            let (snapshot, delta) = row_effect(Some(previous), origin, row, observed_at)->Ok_0;
            &&& snapshot.api_call_count == row.api_call_count
            &&& snapshot.input_tokens == row.input_tokens
            &&& snapshot.output_tokens == row.output_tokens
            &&& snapshot.cache_read_tokens == row.cache_read_tokens
            &&& snapshot.cache_write_tokens == row.cache_write_tokens
            &&& snapshot.reasoning_tokens == row.reasoning_tokens
            &&& match delta {
                Some(delta) => {
                    &&& delta.api_call_count == row.api_call_count - previous.api_call_count
                    &&& delta.input_tokens == row.input_tokens - previous.input_tokens
                    &&& delta.output_tokens == row.output_tokens - previous.output_tokens
                    &&& delta.cache_read_tokens == row.cache_read_tokens
                        - previous.cache_read_tokens
                    &&& delta.cache_write_tokens == row.cache_write_tokens
                        - previous.cache_write_tokens
                    &&& delta.reasoning_tokens == row.reasoning_tokens - previous.reasoning_tokens
                },
                None => {
                    &&& row.api_call_count == previous.api_call_count
                    &&& row.input_tokens == previous.input_tokens
                    &&& row.output_tokens == previous.output_tokens
                    &&& row.cache_read_tokens == previous.cache_read_tokens
                    &&& row.cache_write_tokens == previous.cache_write_tokens
                    &&& row.reasoning_tokens == previous.reasoning_tokens
                },
            }
        }),
{
}

/// The costs of a row and of its last known state are such that six decimal places keep them and
/// that the part above the baseline is worked out exactly.
pub open spec fn exact_above_baseline(
    previous: Option<HermesSnapshotState>,
    row: RowView,
    observed_at: i64,
) -> bool {
    &&& keepable(row.selected_cost_usd)
    &&& previous is Some && !regressed(previous->0, reading_of(row, observed_at)) ==> {
        &&& keepable(previous->0.cost_baseline_usd)
        &&& subtracts_exactly(row.selected_cost_usd, previous->0.cost_baseline_usd)
    }
}

/// The part of a cost above the baseline, in millionths.
pub open spec fn micros_above(selected: Cost, baseline: Cost) -> int {
    if selected.micros() > baseline.micros() {
        selected.micros() - baseline.micros()
    } else {
        0
    }
}

/// The balance is the part of the cost above the baseline, in millionths.
pub proof fn lemma_balance(selected: Cost, baseline: Cost)
    requires
        keepable(selected),
        keepable(baseline),
        subtracts_exactly(selected, baseline),
    ensures
        keepable(balance_above(selected, baseline)),
        balance_above(selected, baseline).micros() == micros_above(selected, baseline),
{
    lemma_sign(selected);
    lemma_sign(baseline);
    lemma_difference_in_micros(selected, baseline);
    lemma_sign(difference(selected, baseline)->0);
    lemma_zero();
}

/// Zero is no millionths.
pub proof fn lemma_zero()
    ensures
        keepable(Cost::nothing()),
        Cost::nothing().micros() == 0,
{
    lemma_few_places(Cost::nothing());
    assert(0 * pow10(6) == 0);
}

/// Against a state that its own import left, an unchanged row shows no usage.
proof fn lemma_unchanged(row: RowView, baseline: Cost, balance: Cost, earlier: i64, later: i64)
    requires
        row.valid(),
        keepable(row.selected_cost_usd),
        keepable(baseline),
        keepable(balance),
        subtracts_exactly(row.selected_cost_usd, scaled(baseline.micros(), 6)),
        balance.micros() == micros_above(row.selected_cost_usd, baseline),
    ensures
        ({
            let state = kept_state(row, baseline, balance, earlier);
            let delta = delta_between(state, reading_of(row, later));
            &&& !regressed(state, reading_of(row, later))
            &&& delta is Ok
            &&& !delta->Ok_0.shows_usage()
            &&& keepable(delta->Ok_0.emitted_cost_balance_usd)
            &&& delta->Ok_0.emitted_cost_balance_usd.micros() == balance.micros()
        }),
{
    let k = scaled(baseline.micros(), 6);
    let e = scaled(balance.micros(), 6);
    lemma_sign(baseline);
    lemma_sign(balance);
    lemma_scaled_micros(baseline.micros());
    lemma_scaled_micros(balance.micros());
    lemma_balance(row.selected_cost_usd, k);
    let b = balance_above(row.selected_cost_usd, k);
    lemma_same_micros(b, e);
    lemma_same_value_subtracts(b, e);
    lemma_difference_is_exact(b, e);
    lemma_sign(difference(b, e)->0);
}

/// The same snapshot, observed at another time.
pub open spec fn retimed(snapshot: SnapshotView, observed_at: i64) -> SnapshotView {
    SnapshotView { observed_at, ..snapshot }
}

/// Neither the cost of the row nor the baseline that it keeps is a zero with a minus sign.
pub open spec fn no_negative_zero(
    previous: Option<HermesSnapshotState>,
    row: RowView,
    observed_at: i64,
) -> bool {
    &&& !row.selected_cost_usd.negative
    &&& previous is Some && !regressed(previous->0, reading_of(row, observed_at))
        ==> !previous->0.cost_baseline_usd.negative
}

/// A number of 32 digits does not fit in 96 bits.
proof fn lemma_beyond_limit()
    ensures
        pow10(31) > limit(),
{
    assert(pow10(8) == 100_000_000 && pow10(7) == 10_000_000) by {
        reveal_with_fuel(pow10, 9);
    }
    lemma_pow10_add(8, 8);
    lemma_pow10_add(8, 7);
    lemma_pow10_add(16, 15);
    assert(pow10(16) == 100_000_000 * 100_000_000);
    assert(pow10(15) == 100_000_000 * 10_000_000);
    assert(pow10(31) == 10_000_000_000_000_000 * 1_000_000_000_000_000);
}

/// What six decimal places keep can be written with them.
pub proof fn lemma_keepable_is_printable(c: Cost)
    requires
        keepable(c),
    ensures
        c.printable(),
{
    if c.scale < 4 {
        let s = c.scale as nat;
        let (m, p, q) = (
            c.magnitude as int,
            pow10((25 + s) as nat) as int,
            pow10((6 - s) as nat) as int,
        );
        lemma_few_places(c);
        lemma_pow10_add((25 + s) as nat, (6 - s) as nat);
        lemma_pow10_positive((6 - s) as nat);
        lemma_beyond_limit();
        if m >= p {
            assert(m * q >= p * q) by (nonlinear_arith)
                requires
                    m >= p,
                    q > 0,
            ;
        }
    }
}

/// Importing a row a second time, unchanged, stores no delta, and its state stays as it is but for
/// the time of observation. So does what is stored of it, letter for letter.
pub proof fn law_unchanged_row_imports_nothing(
    previous: Option<HermesSnapshotState>,
    origin: OriginView,
    row: RowView,
    observed_at: i64,
    later: i64,
)
    requires
        row.valid(),
        exact_above_baseline(previous, row, observed_at),
        row_effect(previous, origin, row, observed_at) is Ok,
    ensures
        ({
            let state = state_of(row_effect(previous, origin, row, observed_at)->Ok_0.0);
            let again = row_effect(Some(state->Ok_0), origin, row, later);
            &&& state is Ok
            &&& again is Ok
            &&& again->Ok_0.1 is None
            &&& state_of(again->Ok_0.0) == Ok::<HermesSnapshotState, Failure>(
                HermesSnapshotState { observed_at: later, ..state->Ok_0 },
            )
            &&& exact_above_baseline(Some(state->Ok_0), row, later)
            &&& effect_storable(Some(state->Ok_0), row, later)
            &&& no_negative_zero(previous, row, observed_at) ==> again->Ok_0.0 == retimed(
                row_effect(previous, origin, row, observed_at)->Ok_0.0,
                later,
            )
        }),
{
    let selected = row.selected_cost_usd;
    let (baseline, balance) = if previous is None || regressed(
        previous->0,
        reading_of(row, observed_at),
    ) {
        lemma_zero();
        (selected, Cost::nothing())
    } else {
        lemma_balance(selected, previous->0.cost_baseline_usd);
        (
            previous->0.cost_baseline_usd,
            balance_above(selected, previous->0.cost_baseline_usd),
        )
    };
    let (k, e) = (scaled(baseline.micros(), 6), scaled(balance.micros(), 6));
    lemma_sign(baseline);
    lemma_sign(balance);
    lemma_scaled_micros(baseline.micros());
    lemma_scaled_micros(balance.micros());
    if baseline == selected {
        lemma_same_micros(selected, k);
        lemma_same_value_subtracts(selected, k);
    } else {
        lemma_subtracts_with_six_places(selected, baseline);
    }
    law_snapshot_reads_back(origin, row, baseline, balance, observed_at);
    lemma_unchanged(row, baseline, balance, observed_at, later);
    let state = kept_state(row, baseline, balance, observed_at);
    let b = delta_between(state, reading_of(row, later))->Ok_0.emitted_cost_balance_usd;
    law_snapshot_reads_back(origin, row, k, b, later);
    lemma_keepable_is_printable(k);
    lemma_keepable_is_printable(b);
    if no_negative_zero(previous, row, observed_at) {
        lemma_fixed_text_of_micros(baseline, k);
        lemma_fixed_text_of_micros(balance, b);
    }
}

/// The costs of a row and of its last known state are such that its whole adjustment is worked out
/// exactly.
pub open spec fn exact_adjustment(
    previous: Option<HermesSnapshotState>,
    row: RowView,
    observed_at: i64,
) -> bool {
    &&& exact_above_baseline(previous, row, observed_at)
    &&& previous is Some && !regressed(previous->0, reading_of(row, observed_at)) ==> {
        &&& keepable(previous->0.emitted_cost_balance_usd)
        &&& subtracts_exactly(
            balance_above(row.selected_cost_usd, previous->0.cost_baseline_usd),
            previous->0.emitted_cost_balance_usd,
        )
    }
}

/// The cost of a stored delta in millionths.
pub open spec fn delta_micros(delta: DeltaView) -> int {
    signed_cost(delta.cost_usd, "cost_usd"@)->Ok_0.micros()
}

/// The cost of an optional delta in millionths.
pub open spec fn emitted_by(delta: Option<DeltaView>) -> int {
    match delta {
        Some(delta) => delta_micros(delta),
        None => 0,
    }
}

/// The imported cost follows the source: after each import the balance is the part of the selected
/// cost above the baseline, and the delta carries exactly the change of the balance. So a change
/// from an estimate to an actual cost counts once, and a correction takes back what was imported
/// and never any of the baseline.
pub proof fn law_cost_follows_source(
    previous: HermesSnapshotState,
    origin: OriginView,
    row: RowView,
    observed_at: i64,
)
    requires
        row.valid(),
        !regressed(previous, reading_of(row, observed_at)),
        exact_adjustment(Some(previous), row, observed_at),
        row_effect(Some(previous), origin, row, observed_at) is Ok,
    ensures
        ({
            let (snapshot, delta) = row_effect(Some(previous), origin, row, observed_at)->Ok_0;
            let state = state_of(snapshot)->Ok_0;
            &&& state_of(snapshot) is Ok
            &&& keepable(state.emitted_cost_balance_usd)
            &&& keepable(state.cost_baseline_usd)
            &&& state.cost_baseline_usd.micros() == previous.cost_baseline_usd.micros()
            &&& state.emitted_cost_balance_usd.micros() == micros_above(
                row.selected_cost_usd,
                previous.cost_baseline_usd,
            )
            &&& emitted_by(delta) == state.emitted_cost_balance_usd.micros()
                - previous.emitted_cost_balance_usd.micros()
        }),
{
    let baseline = previous.cost_baseline_usd;
    let balance = balance_above(row.selected_cost_usd, baseline);
    let emitted = previous.emitted_cost_balance_usd;
    lemma_sign(baseline);
    lemma_balance(row.selected_cost_usd, baseline);
    lemma_sign(balance);
    lemma_sign(emitted);
    lemma_scaled_micros(baseline.micros());
    lemma_scaled_micros(balance.micros());
    lemma_difference_in_micros(balance, emitted);
    let cost = difference(balance, emitted)->0;
    lemma_sign(cost);
    lemma_cost_text_reads_back(cost, "cost_usd"@);
    assert(cost.normal().mantissa() == cost.mantissa());
    law_snapshot_reads_back(origin, row, baseline, balance, observed_at);
}

/// What the stored deltas of one source row cost in all, in millionths.
pub open spec fn emitted_cost(deltas: Seq<DeltaView>, key: (Seq<char>, Seq<char>)) -> int
    decreases deltas.len(),
{
    if deltas.len() == 0 {
        0
    } else {
        emitted_cost(deltas.drop_last(), key) + if (deltas.last().source_id, deltas.last().row_key)
            == key {
            delta_micros(deltas.last())
        } else {
            0
        }
    }
}

/// The balance that is kept of one source row, in millionths.
pub open spec fn balance_of(store: StoreView, key: (Seq<char>, Seq<char>)) -> int {
    if store.snapshots.contains_key(key) {
        state_of(store.snapshots[key])->Ok_0.emitted_cost_balance_usd.micros()
    } else {
        0
    }
}

/// The stored deltas of every source row cost at least its balance, which is not negative.
pub open spec fn ledger_covers_balances(store: StoreView) -> bool {
    forall|key: (Seq<char>, Seq<char>)|
        emitted_cost(store.deltas, key) >= #[trigger] balance_of(store, key) >= 0
}

/// The exactness of the next import of a row.
pub open spec fn row_exact(
    store: StoreView,
    origin: OriginView,
    row: RowView,
    observed_at: i64,
) -> bool {
    match loaded(store, origin.source_id, row.row_key) {
        Err(e) => true,
        Ok(previous) => exact_adjustment(previous, row, observed_at),
    }
}

/// What is imported of a source row never falls below its balance, so that no correction takes the
/// total below zero: cost that was there before the first import is never taken back.
pub proof fn law_ledger_covers_balances(
    store: StoreView,
    origin: OriginView,
    row: RowView,
    observed_at: i64,
)
    requires
        row.valid(),
        ledger_covers_balances(store),
        row_exact(store, origin, row, observed_at),
        imported_row(store, origin, row, observed_at) is Ok,
    ensures
        ledger_covers_balances(imported_row(store, origin, row, observed_at)->Ok_0.0),
{
    let own = (origin.source_id, row.row_key);
    let after = imported_row(store, origin, row, observed_at)->Ok_0.0;
    let previous = loaded(store, origin.source_id, row.row_key)->Ok_0;
    let (snapshot, delta) = row_effect(previous, origin, row, observed_at)->Ok_0;
    assert(snapshot.key() == own);
    if previous is Some && !regressed(previous->0, reading_of(row, observed_at)) {
        law_cost_follows_source(previous->0, origin, row, observed_at);
        lemma_sign(state_of(snapshot)->Ok_0.emitted_cost_balance_usd);
    } else {
        lemma_zero();
        lemma_scaled_micros(0);
        law_snapshot_reads_back(
            origin,
            row,
            row.selected_cost_usd,
            Cost::nothing(),
            observed_at,
        );
    }
    assert forall|key: (Seq<char>, Seq<char>)| emitted_cost(after.deltas, key)
        >= #[trigger] balance_of(after, key) >= 0 by {
        assert(emitted_cost(store.deltas, key) >= balance_of(store, key) >= 0);
        if delta is Some {
            assert(after.deltas.drop_last() =~= store.deltas);
            assert(after.deltas.last() == delta->0);
        }
    }
}

/// A store without snapshots and deltas covers its balances.
pub proof fn law_empty_ledger(store: StoreView)
    requires
        store.snapshots == Map::<(Seq<char>, Seq<char>), SnapshotView>::empty(),
        store.deltas.len() == 0,
    ensures
        ledger_covers_balances(store),
{
}

/// No two rows have the same key.
pub open spec fn distinct_keys(rows: Seq<RowView>) -> bool {
    forall|i: int, j: int|
        0 <= i < rows.len() && 0 <= j < rows.len() && (#[trigger] rows[i]).row_key == (
        #[trigger] rows[j]).row_key ==> i == j
}

/// An import adds to the deltas and takes none away; what it adds belongs to its own source, and so
/// do the snapshots that it changes. Every row gives a delta or is skipped.
pub proof fn law_import_stays_in_its_source(
    store: StoreView,
    origin: OriginView,
    rows: Seq<RowView>,
    observed_at: i64,
)
    requires
        imported_rows(store, origin, rows, observed_at) is Ok,
    ensures
        ({
            let (after, imported, skipped) = imported_rows(
                store,
                origin,
                rows,
                observed_at,
            )->Ok_0;
            &&& imported + skipped == rows.len()
            &&& after.deltas.len() == store.deltas.len() + imported
            &&& after.deltas.take(store.deltas.len() as int) == store.deltas
            &&& forall|i: int|
                store.deltas.len() <= i < after.deltas.len() ==> (
                #[trigger] after.deltas[i]).source_id == origin.source_id
            &&& forall|key: (Seq<char>, Seq<char>)|
                key.0 != origin.source_id ==> {
                    &&& #[trigger] after.snapshots.contains_key(key)
                        == store.snapshots.contains_key(key)
                    &&& store.snapshots.contains_key(key) ==> after.snapshots[key]
                        == store.snapshots[key]
                }
        }),
    decreases rows.len(),
{
    if rows.len() == 0 {
        assert(store.deltas.take(store.deltas.len() as int) =~= store.deltas);
    } else {
        law_import_stays_in_its_source(store, origin, rows.drop_last(), observed_at);
        let before = imported_rows(store, origin, rows.drop_last(), observed_at)->Ok_0.0;
        let after = imported_rows(store, origin, rows, observed_at)->Ok_0.0;
        assert(after.deltas.take(store.deltas.len() as int) =~= before.deltas.take(
            store.deltas.len() as int,
        ));
        assert forall|i: int| store.deltas.len() <= i < after.deltas.len() implies (
        #[trigger] after.deltas[i]).source_id == origin.source_id by {
            if i < before.deltas.len() {
                assert(after.deltas[i] == before.deltas[i]);
            }
        }
    }
}

/// Importing rows of a source of which nothing is known yet stores no delta: a database that takes
/// the place of another starts from a new baseline.
pub proof fn law_new_source_imports_nothing(
    store: StoreView,
    origin: OriginView,
    rows: Seq<RowView>,
    observed_at: i64,
)
    requires
        distinct_keys(rows),
        forall|row_key: Seq<char>|
            !(#[trigger] store.snapshots.contains_key((origin.source_id, row_key))),
    ensures
        ({
            let result = imported_rows(store, origin, rows, observed_at);
            &&& result is Ok
            &&& result->Ok_0.1 == 0
            &&& result->Ok_0.2 == rows.len()
            &&& result->Ok_0.0.deltas == store.deltas
            &&& forall|row_key: Seq<char>|
                (#[trigger] result->Ok_0.0.snapshots.contains_key((origin.source_id, row_key)))
                    ==> exists|i: int|
                    0 <= i < rows.len() && (#[trigger] rows[i]).row_key == row_key
        }),
    decreases rows.len(),
{
    if rows.len() > 0 {
        let first = rows.drop_last();
        assert forall|i: int, j: int|
            0 <= i < first.len() && 0 <= j < first.len() && (#[trigger] first[i]).row_key == (
            #[trigger] first[j]).row_key implies i == j by {
            assert(rows[i].row_key == rows[j].row_key);
        }
        law_new_source_imports_nothing(store, origin, first, observed_at);
        let before = imported_rows(store, origin, first, observed_at)->Ok_0.0;
        let after = imported_rows(store, origin, rows, observed_at)->Ok_0.0;
        let n = rows.len() - 1;
        assert(!before.snapshots.contains_key((origin.source_id, rows[n].row_key))) by {
            if before.snapshots.contains_key((origin.source_id, rows[n].row_key)) {
                let i = choose|i: int|
                    0 <= i < first.len() && (#[trigger] first[i]).row_key == rows[n].row_key;
                assert(rows[i].row_key == rows[n].row_key);
            }
        }
        assert forall|row_key: Seq<char>|
            (#[trigger] after.snapshots.contains_key((origin.source_id, row_key))) implies exists|
            i: int,
        |
            0 <= i < rows.len() && (#[trigger] rows[i]).row_key == row_key by {
            if row_key == rows[n].row_key {
                assert(rows[n].row_key == row_key);
            } else {
                assert(before.snapshots.contains_key((origin.source_id, row_key)));
                let i = choose|i: int|
                    0 <= i < first.len() && (#[trigger] first[i]).row_key == row_key;
                assert(rows[i].row_key == row_key);
            }
        }
    }
}

/// Rows with different keys are imported independently of each other: each leaves the snapshot that
/// it would leave alone, and what is known of other rows stays as it is.
#[verifier::rlimit(40)]
#[verifier::spinoff_prover]
pub proof fn law_rows_are_independent(
    store: StoreView,
    origin: OriginView,
    rows: Seq<RowView>,
    observed_at: i64,
)
    requires
        distinct_keys(rows),
        imported_rows(store, origin, rows, observed_at) is Ok,
    ensures
        ({
            let after = imported_rows(store, origin, rows, observed_at)->Ok_0.0;
            &&& forall|i: int|
                0 <= i < rows.len() ==> {
                    let key = (origin.source_id, (#[trigger] rows[i]).row_key);
                    let previous = loaded(store, origin.source_id, rows[i].row_key);
                    let effect = row_effect(previous->Ok_0, origin, rows[i], observed_at);
                    &&& previous is Ok
                    &&& effect is Ok
                    &&& after.snapshots.contains_key(key)
                    &&& after.snapshots[key] == effect->Ok_0.0
                }
            &&& forall|key: (Seq<char>, Seq<char>)|
                (forall|i: int|
                    0 <= i < rows.len() ==> (origin.source_id, (#[trigger] rows[i]).row_key) != key)
                    ==> {
                    &&& #[trigger] after.snapshots.contains_key(key)
                        == store.snapshots.contains_key(key)
                    &&& store.snapshots.contains_key(key) ==> after.snapshots[key]
                        == store.snapshots[key]
                }
        }),
    decreases rows.len(),
{
    if rows.len() > 0 {
        let first = rows.drop_last();
        assert forall|i: int, j: int|
            0 <= i < first.len() && 0 <= j < first.len() && (#[trigger] first[i]).row_key == (
            #[trigger] first[j]).row_key implies i == j by {
            assert(rows[i].row_key == rows[j].row_key);
        }
        law_rows_are_independent(store, origin, first, observed_at);
        let before = imported_rows(store, origin, first, observed_at)->Ok_0.0;
        let after = imported_rows(store, origin, rows, observed_at)->Ok_0.0;
        let n = rows.len() - 1;
        let own = (origin.source_id, rows[n].row_key);
        assert(forall|i: int|
            0 <= i < first.len() ==> (origin.source_id, (#[trigger] first[i]).row_key) != own) by {
            assert forall|i: int| 0 <= i < first.len() implies (
                origin.source_id,
                (#[trigger] first[i]).row_key,
            ) != own by {
                assert(first[i] == rows[i]);
            }
        }
        assert(before.snapshots.contains_key(own) == store.snapshots.contains_key(own));
        assert(loaded(before, origin.source_id, rows[n].row_key) == loaded(
            store,
            origin.source_id,
            rows[n].row_key,
        ));
        assert forall|i: int| 0 <= i < rows.len() implies {
            let key = (origin.source_id, (#[trigger] rows[i]).row_key);
            let previous = loaded(store, origin.source_id, rows[i].row_key);
            let effect = row_effect(previous->Ok_0, origin, rows[i], observed_at);
            &&& previous is Ok
            &&& effect is Ok
            &&& after.snapshots.contains_key(key)
            &&& after.snapshots[key] == effect->Ok_0.0
        } by {
            if i < n {
                assert(first[i] == rows[i]);
                assert((origin.source_id, first[i].row_key) != own);
            }
        }
        assert forall|key: (Seq<char>, Seq<char>)|
            (forall|i: int|
                0 <= i < rows.len() ==> (origin.source_id, (#[trigger] rows[i]).row_key)
                    != key) implies {
            &&& #[trigger] after.snapshots.contains_key(key) == store.snapshots.contains_key(key)
            &&& store.snapshots.contains_key(key) ==> after.snapshots[key] == store.snapshots[key]
        } by {
            assert((origin.source_id, rows[n].row_key) != key);
            assert forall|i: int| 0 <= i < first.len() implies (
                origin.source_id,
                (#[trigger] first[i]).row_key,
            ) != key by {
                assert(first[i] == rows[i]);
            }
            assert(before.snapshots.contains_key(key) == store.snapshots.contains_key(key));
        }
    }
}

/// Rows that show no usage against what the store knows of them leave the deltas as they are.
proof fn lemma_quiet_rows(
    store: StoreView,
    origin: OriginView,
    rows: Seq<RowView>,
    observed_at: i64,
)
    requires
        distinct_keys(rows),
        forall|i: int|
            0 <= i < rows.len() ==> {
                let previous = loaded(store, origin.source_id, (#[trigger] rows[i]).row_key);
                let effect = row_effect(previous->Ok_0, origin, rows[i], observed_at);
                &&& previous is Ok
                &&& effect is Ok
                &&& effect->Ok_0.1 is None
                &&& effect_storable(previous->Ok_0, rows[i], observed_at)
            },
    ensures
        rows_storable(store, origin, rows, observed_at),
        ({
            let result = imported_rows(store, origin, rows, observed_at);
            &&& result is Ok
            &&& result->Ok_0.1 == 0
            &&& result->Ok_0.2 == rows.len()
            &&& result->Ok_0.0.deltas == store.deltas
        }),
    decreases rows.len(),
{
    if rows.len() > 0 {
        let first = rows.drop_last();
        let n = rows.len() - 1;
        assert forall|i: int, j: int|
            0 <= i < first.len() && 0 <= j < first.len() && (#[trigger] first[i]).row_key == (
            #[trigger] first[j]).row_key implies i == j by {
            assert(rows[i].row_key == rows[j].row_key);
        }
        assert forall|i: int| 0 <= i < first.len() implies {
            let previous = loaded(store, origin.source_id, (#[trigger] first[i]).row_key);
            let effect = row_effect(previous->Ok_0, origin, first[i], observed_at);
            &&& previous is Ok
            &&& effect is Ok
            &&& effect->Ok_0.1 is None
            &&& effect_storable(previous->Ok_0, first[i], observed_at)
        } by {
            assert(first[i] == rows[i]);
        }
        lemma_quiet_rows(store, origin, first, observed_at);
        law_rows_are_independent(store, origin, first, observed_at);
        let before = imported_rows(store, origin, first, observed_at)->Ok_0.0;
        let own = (origin.source_id, rows[n].row_key);
        assert forall|i: int| 0 <= i < first.len() implies (
            origin.source_id,
            (#[trigger] first[i]).row_key,
        ) != own by {
            assert(first[i] == rows[i]);
        }
        assert(before.snapshots.contains_key(own) == store.snapshots.contains_key(own));
        assert(loaded(before, origin.source_id, rows[n].row_key) == loaded(
            store,
            origin.source_id,
            rows[n].row_key,
        ));
    }
}

/// The same snapshots stand in both stores, but for the times of observation.
pub open spec fn only_times_differ(a: StoreView, b: StoreView) -> bool {
    forall|key: (Seq<char>, Seq<char>)|
        {
            &&& #[trigger] a.snapshots.contains_key(key) == b.snapshots.contains_key(key)
            &&& a.snapshots.contains_key(key) ==> b.snapshots[key] == retimed(
                a.snapshots[key],
                b.snapshots[key].observed_at,
            )
        }
}

/// No row comes with a zero that has a minus sign.
pub open spec fn no_negative_zeros(
    store: StoreView,
    origin: OriginView,
    rows: Seq<RowView>,
    observed_at: i64,
) -> bool {
    forall|i: int|
        0 <= i < rows.len() ==> no_negative_zero(
            loaded(store, origin.source_id, (#[trigger] rows[i]).row_key)->Ok_0,
            rows[i],
            observed_at,
        )
}

/// Importing the same rows a second time stores no delta: an import that is repeated while the
/// source stands still can be made, and changes nothing of what was counted. What is stored of the
/// rows changes in the time of observation alone.
pub proof fn law_unchanged_rows_import_nothing(
    store: StoreView,
    origin: OriginView,
    rows: Seq<RowView>,
    observed_at: i64,
    later: i64,
)
    requires
        distinct_keys(rows),
        all_valid(rows),
        forall|i: int|
            0 <= i < rows.len() ==> exact_above_baseline(
                loaded(store, origin.source_id, (#[trigger] rows[i]).row_key)->Ok_0,
                rows[i],
                observed_at,
            ),
        imported_rows(store, origin, rows, observed_at) is Ok,
    ensures
        ({
            let after = imported_rows(store, origin, rows, observed_at)->Ok_0.0;
            let again = imported_rows(after, origin, rows, later);
            &&& rows_storable(after, origin, rows, later)
            &&& again is Ok
            &&& again->Ok_0.1 == 0
            &&& again->Ok_0.2 == rows.len()
            &&& again->Ok_0.0.deltas == after.deltas
            &&& forall|i: int|
                0 <= i < rows.len() ==> again->Ok_0.0.snapshots[(
                    origin.source_id,
                    (#[trigger] rows[i]).row_key,
                )].observed_at == later
            &&& no_negative_zeros(store, origin, rows, observed_at) ==> only_times_differ(
                after,
                again->Ok_0.0,
            )
        }),
{
    law_rows_are_independent(store, origin, rows, observed_at);
    let after = imported_rows(store, origin, rows, observed_at)->Ok_0.0;
    assert forall|i: int| 0 <= i < rows.len() implies {
        let previous = loaded(after, origin.source_id, (#[trigger] rows[i]).row_key);
        let effect = row_effect(previous->Ok_0, origin, rows[i], later);
        &&& previous is Ok
        &&& effect is Ok
        &&& effect->Ok_0.1 is None
        &&& effect_storable(previous->Ok_0, rows[i], later)
    } by {
        let previous = loaded(store, origin.source_id, rows[i].row_key);
        law_unchanged_row_imports_nothing(
            previous->Ok_0,
            origin,
            rows[i],
            observed_at,
            later,
        );
    }
    lemma_quiet_rows(after, origin, rows, later);
    law_rows_are_independent(after, origin, rows, later);
    let again = imported_rows(after, origin, rows, later)->Ok_0.0;
    if no_negative_zeros(store, origin, rows, observed_at) {
        assert forall|key: (Seq<char>, Seq<char>)|
            {
                &&& #[trigger] after.snapshots.contains_key(key) == again.snapshots.contains_key(
                    key,
                )
                &&& after.snapshots.contains_key(key) ==> again.snapshots[key] == retimed(
                    after.snapshots[key],
                    again.snapshots[key].observed_at,
                )
            } by {
            if exists|i: int|
                0 <= i < rows.len() && (origin.source_id, (#[trigger] rows[i]).row_key) == key {
                let i = choose|i: int|
                    0 <= i < rows.len() && (origin.source_id, (#[trigger] rows[i]).row_key) == key;
                law_unchanged_row_imports_nothing(
                    loaded(store, origin.source_id, rows[i].row_key)->Ok_0,
                    origin,
                    rows[i],
                    observed_at,
                    later,
                );
            } else {
                assert(again.snapshots.contains_key(key) == after.snapshots.contains_key(key));
            }
        }
    }
}

/// The exactness of each import, one after the other.
pub open spec fn rows_exact(
    store: StoreView,
    origin: OriginView,
    rows: Seq<RowView>,
    observed_at: i64,
) -> bool
    decreases rows.len(),
{
    if rows.len() == 0 {
        true
    } else {
        &&& rows_exact(store, origin, rows.drop_last(), observed_at)
        &&& imported_rows(store, origin, rows.drop_last(), observed_at) is Ok ==> row_exact(
            imported_rows(store, origin, rows.drop_last(), observed_at)->Ok_0.0,
            origin,
            rows.last(),
            observed_at,
        )
    }
}

/// However many rows are imported, the ledger goes on covering the balances.
pub proof fn law_import_covers_balances(
    store: StoreView,
    origin: OriginView,
    rows: Seq<RowView>,
    observed_at: i64,
)
    requires
        all_valid(rows),
        ledger_covers_balances(store),
        rows_exact(store, origin, rows, observed_at),
        imported_rows(store, origin, rows, observed_at) is Ok,
    ensures
        ledger_covers_balances(imported_rows(store, origin, rows, observed_at)->Ok_0.0),
    decreases rows.len(),
{
    if rows.len() > 0 {
        assert forall|i: int| 0 <= i < rows.drop_last().len() implies (
        #[trigger] rows.drop_last()[i]).valid() by {
            assert(rows[i].valid());
        }
        law_import_covers_balances(store, origin, rows.drop_last(), observed_at);
        assert(rows[rows.len() - 1].valid());
        law_ledger_covers_balances(
            imported_rows(store, origin, rows.drop_last(), observed_at)->Ok_0.0,
            origin,
            rows.last(),
            observed_at,
        );
    }
}

} // verus!
