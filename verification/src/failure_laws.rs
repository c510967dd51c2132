//! What holds of failures: which one is reported where several things cannot be read, and what still
//! can be stored.

use crate::cost::{pow10, signed_cost, sum, unsigned_cost, Cost};
use crate::cost_laws::{lemma_pow10_add, lemma_pow10_positive};
use crate::discover::{discovered, RootListing};
use crate::error::{AppError, Failure};
use crate::import::{
    counts, imported_row, imported_rows, loaded, origin_of, row_effect, row_storable,
    rows_storable, state_of, store_after, OriginView, SourceContents,
};
use crate::query::{
    accepted, aggregated, delta_row, delta_rows, query_summable, summable, DeltaRowView,
    FiltersView,
};
use crate::query_laws::counter_label;
use crate::reader::{residual_rows, source_rows, SessionView, TablesView};
use crate::reader_laws::{all_readable, law_database_is_read_where_its_rows_are, sessions_readable};
use crate::record_laws::{is_part_above, lemma_starts_again, starts_again, state_at};
use crate::snapshot::{delta_between, HermesSnapshotState};
use crate::source::{parsed_row, RecordView, RowView};
use crate::store::{DeltaView, StoreView};
use crate::sync::{
    all_read, home_storable, reading_storable, readings, sync_storable, synced, ReadingView,
};
use crate::value::{counter_value, optional_cost, text_value};
use vstd::prelude::*;
use vstd::string::*;

verus! {

/// The failure of an outcome, where it is one.
pub open spec fn failure_of<T>(r: Result<T, Failure>) -> Option<Failure> {
    match r {
        Ok(_) => None,
        Err(e) => Some(e),
    }
}

/// Why a column of a record cannot be read, where it cannot: the columns by the place at which they are
/// read.
pub open spec fn column_failure(record: RecordView, place: nat) -> Option<Failure> {
    if place == 0 {
        failure_of(text_value(record.session_id))
    } else if place == 1 {
        failure_of(text_value(record.model))
    } else if place == 2 {
        failure_of(text_value(record.billing_provider))
    } else if place == 3 {
        failure_of(text_value(record.billing_base_url))
    } else if place == 4 {
        failure_of(text_value(record.billing_mode))
    } else if place == 5 {
        failure_of(text_value(record.task))
    } else if place == 6 {
        failure_of(optional_cost(record.estimated_cost_usd, "estimated_cost_usd"@))
    } else if place == 7 {
        failure_of(optional_cost(record.actual_cost_usd, "actual_cost_usd"@))
    } else if place == 8 {
        failure_of(text_value(record.cost_status))
    } else if place == 9 {
        failure_of(text_value(record.cost_source))
    } else if place == 10 {
        failure_of(counter_value(record.api_call_count, "api_call_count"@))
    } else if place == 11 {
        failure_of(counter_value(record.input_tokens, "input_tokens"@))
    } else if place == 12 {
        failure_of(counter_value(record.output_tokens, "output_tokens"@))
    } else if place == 13 {
        failure_of(counter_value(record.cache_read_tokens, "cache_read_tokens"@))
    } else if place == 14 {
        failure_of(counter_value(record.cache_write_tokens, "cache_write_tokens"@))
    } else if place == 15 {
        failure_of(counter_value(record.reasoning_tokens, "reasoning_tokens"@))
    } else if place == 16 {
        failure_of(text_value(record.first_seen))
    } else {
        failure_of(text_value(record.last_seen))
    }
}

/// A record that cannot be read fails for the first of its columns that cannot be read: the dimensions,
/// then the costs with their status and source, then the counters, then the times.
pub proof fn law_first_unreadable_column_is_reported(record: RecordView, place: nat)
    requires
        place < 18,
        column_failure(record, place) is Some,
        forall|before: nat| before < place ==> #[trigger] column_failure(record, before) is None,
    ensures
        parsed_row(record) is Err,
        parsed_row(record)->Err_0 == column_failure(record, place)->0,
{
    assert(0 < place ==> column_failure(record, 0) is None);
    assert(1 < place ==> column_failure(record, 1) is None);
    assert(2 < place ==> column_failure(record, 2) is None);
    assert(3 < place ==> column_failure(record, 3) is None);
    assert(4 < place ==> column_failure(record, 4) is None);
    assert(5 < place ==> column_failure(record, 5) is None);
    assert(6 < place ==> column_failure(record, 6) is None);
    assert(7 < place ==> column_failure(record, 7) is None);
    assert(8 < place ==> column_failure(record, 8) is None);
    assert(9 < place ==> column_failure(record, 9) is None);
    assert(10 < place ==> column_failure(record, 10) is None);
    assert(11 < place ==> column_failure(record, 11) is None);
    assert(12 < place ==> column_failure(record, 12) is None);
    assert(13 < place ==> column_failure(record, 13) is None);
    assert(14 < place ==> column_failure(record, 14) is None);
    assert(15 < place ==> column_failure(record, 15) is None);
    assert(16 < place ==> column_failure(record, 16) is None);
    assert(17 < place ==> column_failure(record, 17) is None);
}

/// Why a stored delta cannot be shown, where it cannot: the counters by their place, then the cost.
pub open spec fn shown_failure(delta: DeltaView, place: nat) -> Option<Failure> {
    if place == 0 {
        negative(delta.api_call_count, "api_call_count"@)
    } else if place == 1 {
        negative(delta.input_tokens, "input_tokens"@)
    } else if place == 2 {
        negative(delta.output_tokens, "output_tokens"@)
    } else if place == 3 {
        negative(delta.cache_read_tokens, "cache_read_tokens"@)
    } else if place == 4 {
        negative(delta.cache_write_tokens, "cache_write_tokens"@)
    } else if place == 5 {
        negative(delta.reasoning_tokens, "reasoning_tokens"@)
    } else {
        failure_of(signed_cost(delta.cost_usd, "cost_usd"@))
    }
}

/// The failure of a counter that is below zero.
pub open spec fn negative(counter: i64, name: Seq<char>) -> Option<Failure> {
    if counter < 0 {
        Some(Failure::Database("Hermes "@ + name + " 不能为负数"@))
    } else {
        None
    }
}

/// A query fails for the first of its deltas that cannot be shown, and there for the first column.
pub proof fn law_first_unshown_delta_is_reported(deltas: Seq<DeltaView>, k: int, place: nat)
    requires
        0 <= k < deltas.len(),
        delta_rows(deltas.take(k)) is Ok,
        place < 7,
        shown_failure(deltas[k], place) is Some,
        forall|before: nat| before < place ==> #[trigger] shown_failure(deltas[k], before) is None,
    ensures
        delta_rows(deltas) is Err,
        delta_rows(deltas)->Err_0 == shown_failure(deltas[k], place)->0,
    decreases deltas.len(),
{
    let delta = deltas[k];
    assert(0 < place ==> shown_failure(delta, 0) is None);
    assert(1 < place ==> shown_failure(delta, 1) is None);
    assert(2 < place ==> shown_failure(delta, 2) is None);
    assert(3 < place ==> shown_failure(delta, 3) is None);
    assert(4 < place ==> shown_failure(delta, 4) is None);
    assert(5 < place ==> shown_failure(delta, 5) is None);
    assert(delta_row(delta) is Err && delta_row(delta)->Err_0 == shown_failure(delta, place)->0);
    if k == deltas.len() - 1 {
        assert(deltas.take(k) =~= deltas.drop_last());
    } else {
        assert(deltas.drop_last().take(k) =~= deltas.take(k));
        assert(deltas.drop_last()[k] == delta);
        law_first_unshown_delta_is_reported(deltas.drop_last(), k, place);
    }
}

/// Why a database whose usage rows can all be read cannot be read: without the usage table for the want
/// of it, else because the usage rows break off, and only then for the session totals.
pub proof fn law_database_failures(tables: TablesView)
    ensures
        !tables.has_usage_table ==> source_rows(tables) == Err::<Seq<RowView>, Failure>(
            Failure::Database("Hermes SQLite 缺少 session_model_usage 表"@),
        ),
        tables.has_usage_table && all_readable(tables.records) && tables.failure is Some
            ==> source_rows(tables) == Err::<Seq<RowView>, Failure>(tables.failure->0),
        tables.has_usage_table && all_readable(tables.records) && tables.failure is None
            && tables.sessions is Some && sessions_readable((tables.sessions->0).0) && (
        tables.sessions->0).1 is Some ==> source_rows(tables) == Err::<Seq<RowView>, Failure>(
            (tables.sessions->0).1->0,
        ),
{
    let plain = TablesView { failure: None, sessions: None, ..tables };
    law_database_is_read_where_its_rows_are(plain);
    if let Some((sessions, _)) = tables.sessions {
        let whole = TablesView { failure: None, sessions: Some((sessions, None)), ..tables };
        law_database_is_read_where_its_rows_are(whole);
    }
}

/// The session totals fail for the first session that cannot be read, and there for its name before its
/// total.
pub proof fn law_first_unreadable_session_is_reported(
    records: Seq<RecordView>,
    sessions: Seq<SessionView>,
    k: int,
)
    requires
        0 <= k < sessions.len(),
        residual_rows(records, sessions.take(k)) is Ok,
    ensures
        text_value(sessions[k].id) is Err ==> residual_rows(records, sessions) == Err::<
            Seq<RowView>,
            Failure,
        >(text_value(sessions[k].id)->Err_0),
        text_value(sessions[k].id) is Ok && counter_value(
            sessions[k].api_call_count,
            "api_call_count"@,
        ) is Err ==> residual_rows(records, sessions) == Err::<Seq<RowView>, Failure>(
            counter_value(sessions[k].api_call_count, "api_call_count"@)->Err_0,
        ),
    decreases sessions.len(),
{
    if k == sessions.len() - 1 {
        assert(sessions.take(k) =~= sessions.drop_last());
    } else {
        assert(sessions.drop_last().take(k) =~= sessions.take(k));
        assert(sessions.drop_last()[k] == sessions[k]);
        law_first_unreadable_session_is_reported(records, sessions.drop_last(), k);
    }
}

/// A stored snapshot whose costs cannot be read fails for the first of them: the selected cost, then the
/// baseline, then the balance. A row fails for the snapshot that is known of it, or for its own change.
pub proof fn law_snapshot_failures(
    store: StoreView,
    origin: OriginView,
    row: RowView,
    observed_at: i64,
)
    ensures
        ({
            let key = (origin.source_id, row.row_key);
            let known = store.snapshots[key];
            let selected = unsigned_cost(known.selected_cost_usd, "selected_cost_usd"@);
            let baseline = unsigned_cost(known.cost_baseline_usd, "cost_baseline_usd"@);
            let balance = unsigned_cost(
                known.emitted_cost_balance_usd,
                "emitted_cost_balance_usd"@,
            );
            let result = imported_row(store, origin, row, observed_at);
            &&& store.snapshots.contains_key(key) ==> {
                &&& selected is Err ==> result is Err && result->Err_0 == selected->Err_0
                &&& selected is Ok && baseline is Err ==> result is Err && result->Err_0
                    == baseline->Err_0
                &&& selected is Ok && baseline is Ok && balance is Err ==> result is Err
                    && result->Err_0 == balance->Err_0
                &&& selected is Ok && baseline is Ok && balance is Ok ==> {
                    let effect = row_effect(
                        Some(state_of(known)->Ok_0),
                        origin,
                        row,
                        observed_at,
                    );
                    effect is Err ==> result is Err && result->Err_0 == effect->Err_0
                }
            }
        }),
{
}

/// A change that leaves the range of 64 bits fails for the first counter that does, and names it.
pub proof fn law_first_overflow_is_reported(
    previous: HermesSnapshotState,
    current: HermesSnapshotState,
    place: nat,
)
    requires
        place < 6,
        leaves_range(previous, current, place),
        forall|before: nat| before < place ==> !(#[trigger] leaves_range(previous, current, before)),
    ensures
        delta_between(previous, current) is Err,
        delta_between(previous, current)->Err_0 == Failure::Database(
            "计算 Hermes "@ + counter_label(place) + " delta 溢出"@,
        ),
{
    assert(0 < place ==> !leaves_range(previous, current, 0));
    assert(1 < place ==> !leaves_range(previous, current, 1));
    assert(2 < place ==> !leaves_range(previous, current, 2));
    assert(3 < place ==> !leaves_range(previous, current, 3));
    assert(4 < place ==> !leaves_range(previous, current, 4));
}

/// The difference of a counter leaves the range of `i64`.
pub open spec fn leaves_range(
    previous: HermesSnapshotState,
    current: HermesSnapshotState,
    place: nat,
) -> bool {
    let growth = state_at(current, place) - state_at(previous, place);
    growth < i64::MIN || growth > i64::MAX
}

/// An import that fails leaves the store as it was and reports why; one that succeeds leaves the store
/// that it comes to, and counts the rows.
pub proof fn law_failed_import_changes_nothing(
    store: StoreView,
    result: Result<(StoreView, nat, nat), Failure>,
)
    ensures
        result is Err ==> store_after(store, result) == store && counts(result) == Err::<
            (u32, u32),
            Failure,
        >(result->Err_0),
        result is Ok ==> {
            let (after, imported, skipped) = result->Ok_0;
            &&& store_after(store, result) == after
            &&& counts(result) is Ok
            &&& imported <= u32::MAX ==> (counts(result)->Ok_0).0 == imported
            &&& imported > u32::MAX ==> (counts(result)->Ok_0).0 == u32::MAX
            &&& skipped <= u32::MAX ==> (counts(result)->Ok_0).1 == skipped
            &&& skipped > u32::MAX ==> (counts(result)->Ok_0).1 == u32::MAX
        },
{
}

proof fn lemma_many_places_are_printable(c: Cost)
    requires
        c.valid(),
        c.scale >= 4,
    ensures
        c.magnitude < pow10((25 + c.scale) as nat),
{
    lemma_pow10_add(29, (c.scale - 4) as nat);
    lemma_pow10_positive((c.scale - 4) as nat);
    lemma_pow10_add(14, 15);
    assert(pow10(14) == 100_000_000_000_000) by {
        reveal_with_fuel(pow10, 15);
    }
    assert(pow10(15) == 1_000_000_000_000_000) by {
        reveal_with_fuel(pow10, 16);
    }
    let (p, q) = (pow10(29) as int, pow10((c.scale - 4) as nat) as int);
    assert(p <= p * q) by (nonlinear_arith)
        requires
            p >= 0,
            q >= 1,
    ;
}

/// A cost can be written with six decimal places exactly where fewer than 26 digits stand before its
/// decimal point.
pub proof fn law_what_can_be_printed(c: Cost)
    requires
        c.valid(),
    ensures
        c.printable() <==> (c.magnitude as nat) / pow10(c.scale as nat) < pow10(25),
{
    let (m, p, q) = (c.magnitude as int, pow10(c.scale as nat) as int, pow10(25) as int);
    lemma_pow10_positive(c.scale as nat);
    lemma_pow10_add(25, c.scale as nat);
    if c.scale >= 4 {
        lemma_many_places_are_printable(c);
    }
    assert(m < q * p <==> m / p < q) by (nonlinear_arith)
        requires
            p >= 1,
            m >= 0,
            q >= 0,
    ;
}

/// A row can be stored where the baseline and the balance that it leaves can be written with six decimal
/// places: for one that starts again these are its cost and nothing, for one that goes on the baseline that
/// it had and the part of its cost above it.
pub proof fn law_what_can_be_stored_of_a_row(
    store: StoreView,
    origin: OriginView,
    row: RowView,
    observed_at: i64,
    balance: Cost,
)
    ensures
        ({
            let previous = loaded(store, origin.source_id, row.row_key);
            let storable = row_storable(store, origin, row, observed_at);
            &&& previous is Err ==> storable
            &&& previous is Ok && starts_again(previous->Ok_0, row) ==> storable
                == row.selected_cost_usd.printable()
            &&& previous is Ok && !starts_again(previous->Ok_0, row) && is_part_above(
                balance,
                row.selected_cost_usd,
                previous->Ok_0->0.cost_baseline_usd,
            ) && row_effect(previous->Ok_0, origin, row, observed_at) is Ok ==> storable == (
            previous->Ok_0->0.cost_baseline_usd.printable() && balance.printable())
        }),
{
    let previous = loaded(store, origin.source_id, row.row_key);
    if previous is Ok && previous->Ok_0 is Some {
        lemma_starts_again(previous->Ok_0->0, row, observed_at);
    }
}

/// Rows can be stored where each can be stored on top of those before it; a database where the rows that
/// it yields can; profiles where each can on top of those before it; a home where its databases can. What
/// cannot be read stores nothing.
pub proof fn law_what_can_be_stored(
    store: StoreView,
    origin: OriginView,
    rows: Seq<RowView>,
    row: RowView,
    profiles: Seq<ReadingView>,
    profile: ReadingView,
    observed_at: i64,
)
    ensures
        rows_storable(store, origin, Seq::empty(), observed_at),
        rows_storable(store, origin, rows.push(row), observed_at) <==> {
            &&& rows_storable(store, origin, rows, observed_at)
            &&& match imported_rows(store, origin, rows, observed_at) {
                Err(_) => true,
                Ok((before, _, _)) => row_storable(before, origin, row, observed_at),
            }
        },
        sync_storable(store, Seq::empty(), observed_at),
        sync_storable(store, profiles.push(profile), observed_at) <==> {
            &&& sync_storable(store, profiles, observed_at)
            &&& reading_storable(synced(store, profiles, observed_at).store, profile, observed_at)
        },
        reading_storable(store, profile, observed_at) <==> {
            ||| profile.contents is Err
            ||| source_rows((profile.contents->Ok_0).1) is Err
            ||| rows_storable(
                store,
                origin_of(profile.source, (profile.contents->Ok_0).0),
                source_rows((profile.contents->Ok_0).1)->Ok_0,
                observed_at,
            )
        },
{
    assert(rows.push(row).drop_last() =~= rows);
    assert(profiles.push(profile).drop_last() =~= profiles);
}

/// A home whose profiles cannot be listed stores nothing; any other can be stored where its databases can,
/// and has been read where there is one reading for each database.
pub proof fn law_what_can_be_stored_of_a_home(
    store: StoreView,
    listing: RootListing,
    contents: Seq<Result<SourceContents, AppError>>,
    observed_at: i64,
)
    ensures
        discovered(listing) is Err ==> home_storable(store, listing, contents, observed_at)
            && all_read(listing, contents),
        discovered(listing) is Ok ==> {
            &&& home_storable(store, listing, contents, observed_at) == sync_storable(
                store,
                readings(discovered(listing)->Ok_0, contents),
                observed_at,
            )
            &&& all_read(listing, contents) <==> contents.len()
                == discovered(listing)->Ok_0.len()
        },
{
}

/// The costs of deltas can be added where each can be added to the total of those before it; those of a
/// query where the costs of what it gives can.
pub proof fn law_what_can_be_added(
    rows: Seq<DeltaRowView>,
    row: DeltaRowView,
    deltas: Seq<DeltaView>,
    filters: FiltersView,
)
    ensures
        summable(Seq::empty()),
        summable(rows.push(row)) <==> {
            &&& summable(rows)
            &&& aggregated(rows.push(row)) is Ok ==> sum(
                aggregated(rows)->Ok_0.cost_usd,
                row.cost_usd,
            ) is Some
        },
        query_summable(deltas, filters) <==> {
            ||| delta_rows(accepted(deltas, filters)) is Err
            ||| summable(delta_rows(accepted(deltas, filters))->Ok_0)
        },
{
    assert(rows.push(row).drop_last() =~= rows);
}

} // verus!
