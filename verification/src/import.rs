//! Importing the rows of one source: each is held against its last snapshot, the snapshot is
//! replaced, and what was used since is stored as a delta.

use crate::cost::{
    cost_string, decimal_text, fixed_text, format_cost, parse_decimal, unsigned_cost, Cost,
};
use crate::digest::{
    digest_of, digest_parts, identity_text, source_file_incarnation, texts, FileIdentity,
};
use crate::discover::{HermesDatabaseSource, SourceView};
use crate::error::{viewed, AppError, Failure};
use crate::reader::{
    all_valid, read_hermes_database, row_views, source_rows, SourceTables, TablesView,
};
use crate::snapshot::{
    counters_regressed, delta_between, regressed, HermesSnapshotDelta,
    HermesSnapshotState,
};
use crate::source::{HermesSourceRow, RowView};
use crate::store::{
    duplicate_text, DeltaRecord, DeltaView, SnapshotRecord, SnapshotView, StoreView, UsageStore,
    HERMES_APP_TYPE, HERMES_DATA_SOURCE, HERMES_PRECISION,
};
use vstd::pervasive::unreached;
use vstd::prelude::*;
use vstd::string::*;

verus! {

/// Where imported rows come from: one incarnation of the database of one profile.
#[derive(Debug)]
pub struct ImportOrigin {
    pub source_id: String,
    pub source_incarnation: String,
    pub profile_name: String,
}

/// What an [`ImportOrigin`] holds.
pub struct OriginView {
    pub source_id: Seq<char>,
    pub source_incarnation: Seq<char>,
    pub profile_name: Seq<char>,
}

impl View for ImportOrigin {
    type V = OriginView;

    open spec fn view(&self) -> OriginView {
        OriginView {
            source_id: self.source_id@,
            source_incarnation: self.source_incarnation@,
            profile_name: self.profile_name@,
        }
    }
}

/// The state that a stored snapshot describes.
pub open spec fn state_of(record: SnapshotView) -> Result<HermesSnapshotState, Failure> {
    let selected = unsigned_cost(record.selected_cost_usd, "selected_cost_usd"@);
    let baseline = unsigned_cost(record.cost_baseline_usd, "cost_baseline_usd"@);
    let balance = unsigned_cost(record.emitted_cost_balance_usd, "emitted_cost_balance_usd"@);
    if selected is Err {
        Err(selected->Err_0)
    } else if baseline is Err {
        Err(baseline->Err_0)
    } else if balance is Err {
        Err(balance->Err_0)
    } else {
        Ok(
            HermesSnapshotState {
                api_call_count: record.api_call_count,
                input_tokens: record.input_tokens,
                output_tokens: record.output_tokens,
                cache_read_tokens: record.cache_read_tokens,
                cache_write_tokens: record.cache_write_tokens,
                reasoning_tokens: record.reasoning_tokens,
                selected_cost_usd: selected->Ok_0,
                cost_baseline_usd: baseline->Ok_0,
                emitted_cost_balance_usd: balance->Ok_0,
                observed_at: record.observed_at,
            },
        )
    }
}

/// The last known state of a source row.
pub open spec fn loaded(store: StoreView, source_id: Seq<char>, row_key: Seq<char>) -> Result<
    Option<HermesSnapshotState>,
    Failure,
> {
    if store.snapshots.contains_key((source_id, row_key)) {
        match state_of(store.snapshots[(source_id, row_key)]) {
            Ok(state) => Ok(Some(state)),
            Err(e) => Err(e),
        }
    } else {
        Ok(None)
    }
}

/// Loads the last known state of a source row.
pub fn load_snapshot(store: &UsageStore, source_id: &str, row_key: &str) -> (r: Result<
    Option<HermesSnapshotState>,
    AppError,
>)
    requires
        store.wf(),
    ensures
        viewed(r) == loaded(store@, source_id@, row_key@),
        r is Ok && r->Ok_0 is Some ==> r->Ok_0->0.valid(),
{
    let record: &SnapshotRecord = match store.find_snapshot(source_id, row_key) {
        Some(record) => record,
        None => {
            return Ok(None);
        },
    };
    let selected_cost_usd: Cost = match parse_decimal(record.selected_cost_usd.as_str(), "selected_cost_usd") {
        Ok(c) => c,
        Err(e) => {
            return Err(e);
        },
    };
    let cost_baseline_usd: Cost = match parse_decimal(record.cost_baseline_usd.as_str(), "cost_baseline_usd") {
        Ok(c) => c,
        Err(e) => {
            return Err(e);
        },
    };
    let emitted_cost_balance_usd: Cost = match parse_decimal(record.emitted_cost_balance_usd.as_str(), "emitted_cost_balance_usd") {
        Ok(c) => c,
        Err(e) => {
            return Err(e);
        },
    };
    Ok(
        Some(
            HermesSnapshotState {
                api_call_count: record.api_call_count,
                input_tokens: record.input_tokens,
                output_tokens: record.output_tokens,
                cache_read_tokens: record.cache_read_tokens,
                cache_write_tokens: record.cache_write_tokens,
                reasoning_tokens: record.reasoning_tokens,
                selected_cost_usd,
                cost_baseline_usd,
                emitted_cost_balance_usd,
                observed_at: record.observed_at,
            },
        ),
    )
}

/// The snapshot of a source row as it is stored. Baseline and balance are kept with six decimal
/// places, the other costs with all of theirs.
pub open spec fn snapshot_of(
    origin: OriginView,
    row: RowView,
    baseline: Cost,
    balance: Cost,
    observed_at: i64,
) -> SnapshotView {
    SnapshotView {
        source_id: origin.source_id,
        source_incarnation: origin.source_incarnation,
        profile_name: origin.profile_name,
        row_key: row.row_key,
        session_id: row.session_id,
        model: row.model,
        billing_provider: row.billing_provider,
        billing_base_url_digest: row.billing_base_url_digest,
        billing_mode: row.billing_mode,
        task: row.task,
        api_call_count: row.api_call_count,
        input_tokens: row.input_tokens,
        output_tokens: row.output_tokens,
        cache_read_tokens: row.cache_read_tokens,
        cache_write_tokens: row.cache_write_tokens,
        reasoning_tokens: row.reasoning_tokens,
        estimated_cost_usd: match row.estimated_cost_usd {
            Some(c) => decimal_text(c),
            None => "0"@,
        },
        actual_cost_usd: match row.actual_cost_usd {
            Some(c) => Some(decimal_text(c)),
            None => None,
        },
        selected_cost_usd: decimal_text(row.selected_cost_usd),
        cost_baseline_usd: fixed_text(baseline),
        emitted_cost_balance_usd: fixed_text(balance),
        selected_cost_kind: row.selected_cost_kind,
        cost_status: row.cost_status,
        cost_source: row.cost_source,
        first_seen: row.first_seen,
        last_seen: row.last_seen,
        observed_at,
    }
}

/// A cost that can be stored with six decimal places.
pub open spec fn storable(c: Cost) -> bool {
    c.valid() && c.printable()
}

/// The costs of a row can be stored with all their decimal places.
pub open spec fn costs_valid(row: RowView) -> bool {
    &&& row.selected_cost_usd.valid()
    &&& row.estimated_cost_usd is Some ==> row.estimated_cost_usd->0.valid()
    &&& row.actual_cost_usd is Some ==> row.actual_cost_usd->0.valid()
}

/// Stores the snapshot of a source row, in place of an earlier one.
pub fn write_snapshot(
    store: &mut UsageStore,
    origin: &ImportOrigin,
    row: &HermesSourceRow,
    cost_baseline_usd: Cost,
    emitted_cost_balance_usd: Cost,
    observed_at: i64,
)
    requires
        old(store).wf(),
        costs_valid(row@),
        storable(cost_baseline_usd),
        storable(emitted_cost_balance_usd),
    ensures
        final(store).wf(),
        final(store)@ == old(store)@.put(
            snapshot_of(
                origin@,
                row@,
                cost_baseline_usd,
                emitted_cost_balance_usd,
                observed_at,
            ),
        ),
{
    let estimated_cost_usd: String = match row.estimated_cost_usd {
        Some(c) => cost_string(&c),
        None => "0".to_owned(),
    };
    let actual_cost_usd: Option<String> = match row.actual_cost_usd {
        Some(c) => Some(cost_string(&c)),
        None => None,
    };
    store.put_snapshot(
        SnapshotRecord {
            source_id: origin.source_id.clone(),
            source_incarnation: origin.source_incarnation.clone(),
            profile_name: origin.profile_name.clone(),
            row_key: row.row_key.clone(),
            session_id: row.session_id.clone(),
            model: row.model.clone(),
            billing_provider: row.billing_provider.clone(),
            billing_base_url_digest: row.billing_base_url_digest.clone(),
            billing_mode: row.billing_mode.clone(),
            task: row.task.clone(),
            api_call_count: row.api_call_count,
            input_tokens: row.input_tokens,
            output_tokens: row.output_tokens,
            cache_read_tokens: row.cache_read_tokens,
            cache_write_tokens: row.cache_write_tokens,
            reasoning_tokens: row.reasoning_tokens,
            estimated_cost_usd,
            actual_cost_usd,
            selected_cost_usd: cost_string(&row.selected_cost_usd),
            cost_baseline_usd: format_cost(&cost_baseline_usd),
            emitted_cost_balance_usd: format_cost(&emitted_cost_balance_usd),
            selected_cost_kind: row.selected_cost_kind.clone(),
            cost_status: duplicate_text(&row.cost_status),
            cost_source: duplicate_text(&row.cost_source),
            first_seen: duplicate_text(&row.first_seen),
            last_seen: duplicate_text(&row.last_seen),
            observed_at,
        },
    );
}

/// A delta of a source row as it is stored.
pub open spec fn delta_of(
    origin: OriginView,
    row: RowView,
    delta: HermesSnapshotDelta,
    sync_window_start: i64,
    sync_window_end: i64,
) -> DeltaView {
    DeltaView {
        source_id: origin.source_id,
        source_incarnation: origin.source_incarnation,
        profile_name: origin.profile_name,
        row_key: row.row_key,
        session_id: row.session_id,
        provider: row.billing_provider,
        model: row.model,
        billing_base_url_digest: row.billing_base_url_digest,
        billing_mode: row.billing_mode,
        task: row.task,
        sync_window_start,
        sync_window_end,
        api_call_count: delta.api_call_count,
        input_tokens: delta.input_tokens,
        output_tokens: delta.output_tokens,
        cache_read_tokens: delta.cache_read_tokens,
        cache_write_tokens: delta.cache_write_tokens,
        reasoning_tokens: delta.reasoning_tokens,
        cost_usd: decimal_text(delta.cost_usd),
        cost_kind: row.selected_cost_kind,
        cost_delta_kind: delta.cost_delta_kind.name(),
        cost_status: row.cost_status,
        cost_source: row.cost_source,
        data_source: HERMES_DATA_SOURCE@,
        precision: HERMES_PRECISION@,
    }
}

/// Stores a delta of a source row.
pub fn insert_delta(
    store: &mut UsageStore,
    origin: &ImportOrigin,
    row: &HermesSourceRow,
    delta: &HermesSnapshotDelta,
    sync_window_start: i64,
    sync_window_end: i64,
)
    requires
        old(store).wf(),
        delta.cost_usd.valid(),
    ensures
        final(store).wf(),
        final(store)@ == old(store)@.record(
            delta_of(origin@, row@, *delta, sync_window_start, sync_window_end),
        ),
{
    store.push_delta(
        DeltaRecord {
            source_id: origin.source_id.clone(),
            source_incarnation: origin.source_incarnation.clone(),
            profile_name: origin.profile_name.clone(),
            row_key: row.row_key.clone(),
            session_id: row.session_id.clone(),
            provider: row.billing_provider.clone(),
            model: row.model.clone(),
            billing_base_url_digest: row.billing_base_url_digest.clone(),
            billing_mode: row.billing_mode.clone(),
            task: row.task.clone(),
            sync_window_start,
            sync_window_end,
            api_call_count: delta.api_call_count,
            input_tokens: delta.input_tokens,
            output_tokens: delta.output_tokens,
            cache_read_tokens: delta.cache_read_tokens,
            cache_write_tokens: delta.cache_write_tokens,
            reasoning_tokens: delta.reasoning_tokens,
            cost_usd: cost_string(&delta.cost_usd),
            cost_kind: row.selected_cost_kind.clone(),
            cost_delta_kind: delta.cost_delta_kind.as_str().to_owned(),
            cost_status: duplicate_text(&row.cost_status),
            cost_source: duplicate_text(&row.cost_source),
            data_source: HERMES_DATA_SOURCE.to_owned(),
            precision: HERMES_PRECISION.to_owned(),
        },
    );
}

/// The reading that a source row gives.
pub open spec fn reading_of(row: RowView, observed_at: i64) -> HermesSnapshotState {
    HermesSnapshotState {
        api_call_count: row.api_call_count,
        input_tokens: row.input_tokens,
        output_tokens: row.output_tokens,
        cache_read_tokens: row.cache_read_tokens,
        cache_write_tokens: row.cache_write_tokens,
        reasoning_tokens: row.reasoning_tokens,
        selected_cost_usd: row.selected_cost_usd,
        cost_baseline_usd: Cost::nothing(),
        emitted_cost_balance_usd: Cost::nothing(),
        observed_at,
    }
}

/// The snapshot of a source row that starts from a new baseline: nothing of it is imported.
pub open spec fn baseline_snapshot(
    origin: OriginView,
    row: RowView,
    observed_at: i64,
) -> SnapshotView {
    snapshot_of(origin, row, row.selected_cost_usd, Cost::nothing(), observed_at)
}

/// What importing a source row stores, given its last known state: a snapshot, and a delta where
/// there is one.
///
/// A row that was not seen before, or one of whose counters went down, starts from a new baseline.
/// Any other row keeps its baseline, and what it shows of usage is stored as a delta from the last
/// reading to this one.
pub open spec fn row_effect(
    previous: Option<HermesSnapshotState>,
    origin: OriginView,
    row: RowView,
    observed_at: i64,
) -> Result<(SnapshotView, Option<DeltaView>), Failure> {
    let reading = reading_of(row, observed_at);
    match previous {
        None => Ok((baseline_snapshot(origin, row, observed_at), None)),
        Some(previous) => if regressed(previous, reading) {
            Ok((baseline_snapshot(origin, row, observed_at), None))
        } else {
            match delta_between(previous, reading) {
                Err(e) => Err(e),
                Ok(delta) => Ok(
                    (
                        snapshot_of(
                            origin,
                            row,
                            previous.cost_baseline_usd,
                            delta.emitted_cost_balance_usd,
                            observed_at,
                        ),
                        if delta.shows_usage() {
                            Some(
                                delta_of(origin, row, delta, previous.observed_at, observed_at),
                            )
                        } else {
                            None
                        },
                    ),
                ),
            }
        },
    }
}

/// What importing one source row does: the store that it leaves, and whether a delta was stored.
pub open spec fn imported_row(
    store: StoreView,
    origin: OriginView,
    row: RowView,
    observed_at: i64,
) -> Result<(StoreView, bool), Failure> {
    match loaded(store, origin.source_id, row.row_key) {
        Err(e) => Err(e),
        Ok(previous) => match row_effect(previous, origin, row, observed_at) {
            Err(e) => Err(e),
            Ok((snapshot, None)) => Ok((store.put(snapshot), false)),
            Ok((snapshot, Some(delta))) => Ok((store.put(snapshot).record(delta), true)),
        },
    }
}

/// The baseline and the balance that importing a source row stores, given its last known state, can
/// be written with six decimal places.
pub open spec fn effect_storable(
    previous: Option<HermesSnapshotState>,
    row: RowView,
    observed_at: i64,
) -> bool {
    let reading = reading_of(row, observed_at);
    match previous {
        None => row.selected_cost_usd.printable(),
        Some(previous) => if regressed(previous, reading) {
            row.selected_cost_usd.printable()
        } else {
            match delta_between(previous, reading) {
                Err(e) => true,
                Ok(delta) => previous.cost_baseline_usd.printable()
                    && delta.emitted_cost_balance_usd.printable(),
            }
        },
    }
}

/// The baseline and the balance that importing a source row stores can be written with six decimal
/// places.
pub open spec fn row_storable(
    store: StoreView,
    origin: OriginView,
    row: RowView,
    observed_at: i64,
) -> bool {
    match loaded(store, origin.source_id, row.row_key) {
        Err(e) => true,
        Ok(previous) => effect_storable(previous, row, observed_at),
    }
}

/// What a step of the import came to.
enum RowOutcome {
    /// The row was imported; a delta was stored if and only if the flag is set.
    Done(bool),
    /// The row could not be imported.
    Failed(AppError),
    /// A cost has too many digits to be stored.
    TooLarge,
}

/// Imports one source row.
fn import_row(
    store: &mut UsageStore,
    origin: &ImportOrigin,
    row: &HermesSourceRow,
    observed_at: i64,
) -> (r: RowOutcome)
    requires
        old(store).wf(),
        row@.valid(),
    ensures
        final(store).wf(),
        match r {
            RowOutcome::Done(stored) => {
                &&& imported_row(old(store)@, origin@, row@, observed_at) == Ok::<
                    (StoreView, bool),
                    Failure,
                >((final(store)@, stored))
                &&& row_storable(old(store)@, origin@, row@, observed_at)
            },
            RowOutcome::Failed(e) => {
                &&& imported_row(old(store)@, origin@, row@, observed_at) == Err::<
                    (StoreView, bool),
                    Failure,
                >(e@)
                &&& row_storable(old(store)@, origin@, row@, observed_at)
            },
            RowOutcome::TooLarge => !row_storable(old(store)@, origin@, row@, observed_at),
        },
{
    let previous: Option<HermesSnapshotState> = match load_snapshot(
        store,
        origin.source_id.as_str(),
        row.row_key.as_str(),
    ) {
        Ok(previous) => previous,
        Err(e) => {
            return RowOutcome::Failed(e);
        },
    };
    let current = HermesSnapshotState {
        api_call_count: row.api_call_count,
        input_tokens: row.input_tokens,
        output_tokens: row.output_tokens,
        cache_read_tokens: row.cache_read_tokens,
        cache_write_tokens: row.cache_write_tokens,
        reasoning_tokens: row.reasoning_tokens,
        selected_cost_usd: row.selected_cost_usd,
        cost_baseline_usd: Cost::zero(),
        emitted_cost_balance_usd: Cost::zero(),
        observed_at,
    };
    match previous {
        Some(previous) if !counters_regressed(&previous, &current) => {
            let delta: HermesSnapshotDelta = match HermesSnapshotDelta::between(&previous, &current) {
                Ok(delta) => delta,
                Err(e) => {
                    return RowOutcome::Failed(e);
                },
            };
            if !previous.cost_baseline_usd.can_print()
                || !delta.emitted_cost_balance_usd.can_print() {
                return RowOutcome::TooLarge;
            }
            write_snapshot(
                store,
                origin,
                row,
                previous.cost_baseline_usd,
                delta.emitted_cost_balance_usd,
                observed_at,
            );
            if delta.has_usage() {
                insert_delta(store, origin, row, &delta, previous.observed_at, observed_at);
                RowOutcome::Done(true)
            } else {
                RowOutcome::Done(false)
            }
        },
        _ => {
            // A counter that went down marks a reset of the source: the baseline is replaced, and
            // neither negative counters nor a cost across the reset are stored.
            if !row.selected_cost_usd.can_print() {
                return RowOutcome::TooLarge;
            }
            write_snapshot(
                store,
                origin,
                row,
                row.selected_cost_usd,
                Cost::zero(),
                observed_at,
            );
            RowOutcome::Done(false)
        },
    }
}

/// What importing source rows one after the other does, up to the first that fails: the store that
/// it leaves, how many rows gave a delta and how many gave none.
pub open spec fn imported_rows(
    store: StoreView,
    origin: OriginView,
    rows: Seq<RowView>,
    observed_at: i64,
) -> Result<(StoreView, nat, nat), Failure>
    decreases rows.len(),
{
    if rows.len() == 0 {
        Ok((store, 0, 0))
    } else {
        match imported_rows(store, origin, rows.drop_last(), observed_at) {
            Err(e) => Err(e),
            Ok((before, imported, skipped)) => match imported_row(
                before,
                origin,
                rows.last(),
                observed_at,
            ) {
                Err(e) => Err(e),
                Ok((after, stored)) => if stored {
                    Ok((after, imported + 1, skipped))
                } else {
                    Ok((after, imported, skipped + 1))
                },
            },
        }
    }
}

/// Every cost that importing the rows stores can be written with six decimal places.
pub open spec fn rows_storable(
    store: StoreView,
    origin: OriginView,
    rows: Seq<RowView>,
    observed_at: i64,
) -> bool
    decreases rows.len(),
{
    if rows.len() == 0 {
        true
    } else {
        &&& rows_storable(store, origin, rows.drop_last(), observed_at)
        &&& match imported_rows(store, origin, rows.drop_last(), observed_at) {
            Err(e) => true,
            Ok((before, imported, skipped)) => row_storable(
                before,
                origin,
                rows.last(),
                observed_at,
            ),
        }
    }
}

/// A count as it fits in 32 bits: the largest number stands for all that are larger.
pub open spec fn saturated(n: nat) -> u32 {
    if n <= u32::MAX {
        n as u32
    } else {
        u32::MAX
    }
}

/// What an import came to.
enum Staged {
    /// The store after the import, the rows that gave a delta and those that gave none.
    Done(UsageStore, u32, u32),
    /// A row could not be imported.
    Failed(AppError),
    /// A cost has too many digits to be stored.
    TooLarge,
}

proof fn lemma_storable_prefix(
    store: StoreView,
    origin: OriginView,
    rows: Seq<RowView>,
    n: int,
    observed_at: i64,
)
    requires
        0 <= n <= rows.len(),
    ensures
        rows_storable(store, origin, rows, observed_at) ==> rows_storable(
            store,
            origin,
            rows.take(n),
            observed_at,
        ),
        imported_rows(store, origin, rows.take(n), observed_at) is Err ==> imported_rows(
            store,
            origin,
            rows,
            observed_at,
        ) == imported_rows(store, origin, rows.take(n), observed_at) && rows_storable(
            store,
            origin,
            rows,
            observed_at,
        ) == rows_storable(store, origin, rows.take(n), observed_at),
    decreases rows.len() - n,
{
    if n == rows.len() {
        assert(rows.take(n) =~= rows);
    } else {
        lemma_storable_prefix(store, origin, rows, n + 1, observed_at);
        assert(rows.take(n + 1).drop_last() =~= rows.take(n));
    }
}

/// Imports source rows into a copy of the store.
fn import_rows(
    store: &UsageStore,
    origin: &ImportOrigin,
    rows: &Vec<HermesSourceRow>,
    observed_at: i64,
) -> (r: Staged)
    requires
        store.wf(),
        all_valid(row_views(rows@)),
    ensures
        match r {
            Staged::Done(after, imported, skipped) => {
                let result = imported_rows(store@, origin@, row_views(rows@), observed_at);
                &&& after.wf()
                &&& result is Ok
                &&& result->Ok_0.0 == after@
                &&& imported == saturated(result->Ok_0.1)
                &&& skipped == saturated(result->Ok_0.2)
                &&& rows_storable(store@, origin@, row_views(rows@), observed_at)
            },
            Staged::Failed(e) => {
                let result = imported_rows(store@, origin@, row_views(rows@), observed_at);
                &&& result is Err
                &&& result->Err_0 == e@
                &&& rows_storable(store@, origin@, row_views(rows@), observed_at)
            },
            Staged::TooLarge => !rows_storable(store@, origin@, row_views(rows@), observed_at),
        },
{
    let ghost views = row_views(rows@);
    let mut staged: UsageStore = store.duplicate();
    let mut imported: u32 = 0;
    let mut skipped: u32 = 0;
    let mut i: usize = 0;
    assert(views.take(0).len() == 0);
    while i < rows.len()
        invariant
            i <= rows@.len(),
            views == row_views(rows@),
            all_valid(views),
            staged.wf(),
            rows_storable(store@, origin@, views.take(i as int), observed_at),
            imported_rows(store@, origin@, views.take(i as int), observed_at) is Ok,
            imported_rows(store@, origin@, views.take(i as int), observed_at)->Ok_0.0 == staged@,
            imported == saturated(
                imported_rows(store@, origin@, views.take(i as int), observed_at)->Ok_0.1,
            ),
            skipped == saturated(
                imported_rows(store@, origin@, views.take(i as int), observed_at)->Ok_0.2,
            ),
        decreases rows@.len() - i,
    {
        let ghost next = views.take(i + 1);
        proof {
            assert(next.drop_last() =~= views.take(i as int));
            assert(next.last() == rows@[i as int]@);
            assert(views[i as int].valid());
            lemma_storable_prefix(store@, origin@, views, i + 1, observed_at);
        }
        match import_row(&mut staged, origin, &rows[i], observed_at) {
            RowOutcome::Done(stored) => {
                if stored {
                    imported = imported.saturating_add(1);
                } else {
                    skipped = skipped.saturating_add(1);
                }
            },
            RowOutcome::Failed(e) => {
                return Staged::Failed(e);
            },
            RowOutcome::TooLarge => {
                return Staged::TooLarge;
            },
        }
        i = i + 1;
    }
    assert(views.take(i as int) =~= views);
    Staged::Done(staged, imported, skipped)
}

/// What was read of one database file: which file it was, and its tables.
#[derive(Debug)]
pub struct SourceContents {
    pub identity: FileIdentity,
    pub tables: SourceTables,
}

/// The origin of the rows of a database: its source identifier covers the application, the profile,
/// the path and the incarnation of the file, the path only as a digest.
pub open spec fn origin_of(source: SourceView, identity: FileIdentity) -> OriginView {
    let incarnation = digest_of(seq![identity_text(identity)]);
    OriginView {
        source_id: digest_of(
            seq![
                HERMES_APP_TYPE@,
                source.profile_name,
                digest_of(seq![source.path]),
                incarnation,
            ],
        ),
        source_incarnation: incarnation,
        profile_name: source.profile_name,
    }
}

/// Works out the origin of the rows of a database.
pub fn import_origin(source: &HermesDatabaseSource, identity: &FileIdentity) -> (r: ImportOrigin)
    ensures
        r@ == origin_of(source@, *identity),
{
    let source_incarnation: String = source_file_incarnation(identity);
    let path: [&str; 1] = [source.path.as_str()];
    assert(texts(path@) =~= seq![source.path@]);
    let source_path_digest: String = digest_parts(&path);
    let parts: [&str; 4] = [
        HERMES_APP_TYPE,
        source.profile_name.as_str(),
        source_path_digest.as_str(),
        source_incarnation.as_str(),
    ];
    assert(texts(parts@) =~= seq![
        HERMES_APP_TYPE@,
        source.profile_name@,
        source_path_digest@,
        source_incarnation@,
    ]);
    let source_id: String = digest_parts(&parts);
    ImportOrigin { source_id, source_incarnation, profile_name: source.profile_name.clone() }
}

/// What importing a database does to the store.
pub open spec fn imported_database(
    store: StoreView,
    source: SourceView,
    identity: FileIdentity,
    tables: TablesView,
    observed_at: i64,
) -> Result<(StoreView, nat, nat), Failure> {
    match source_rows(tables) {
        Err(e) => Err(e),
        Ok(rows) => imported_rows(store, origin_of(source, identity), rows, observed_at),
    }
}

/// Every cost that importing a database stores can be written with six decimal places.
pub open spec fn database_storable(
    store: StoreView,
    source: SourceView,
    identity: FileIdentity,
    tables: TablesView,
    observed_at: i64,
) -> bool {
    match source_rows(tables) {
        Err(e) => true,
        Ok(rows) => rows_storable(store, origin_of(source, identity), rows, observed_at),
    }
}

/// Imports a database into a copy of the store.
fn import_contents(
    store: &UsageStore,
    source: &HermesDatabaseSource,
    contents: &SourceContents,
    observed_at: i64,
) -> (r: Staged)
    requires
        store.wf(),
    ensures
        ({
            let result = imported_database(
                store@,
                source@,
                contents.identity,
                contents.tables@,
                observed_at,
            );
            let storable = database_storable(
                store@,
                source@,
                contents.identity,
                contents.tables@,
                observed_at,
            );
            match r {
                Staged::Done(after, imported, skipped) => {
                    &&& after.wf()
                    &&& result is Ok
                    &&& result->Ok_0.0 == after@
                    &&& imported == saturated(result->Ok_0.1)
                    &&& skipped == saturated(result->Ok_0.2)
                    &&& storable
                },
                Staged::Failed(e) => {
                    &&& result is Err
                    &&& result->Err_0 == e@
                    &&& storable
                },
                Staged::TooLarge => !storable,
            }
        }),
{
    let origin: ImportOrigin = import_origin(source, &contents.identity);
    match read_hermes_database(&contents.tables) {
        Err(e) => Staged::Failed(e),
        Ok(rows) => import_rows(store, &origin, &rows, observed_at),
    }
}

/// What an import reports: how many rows gave a delta, and how many gave none.
pub open spec fn counts(result: Result<(StoreView, nat, nat), Failure>) -> Result<
    (u32, u32),
    Failure,
> {
    match result {
        Ok((after, imported, skipped)) => Ok((saturated(imported), saturated(skipped))),
        Err(e) => Err(e),
    }
}

/// The store that an import leaves: one that fails changes nothing.
pub open spec fn store_after(
    store: StoreView,
    result: Result<(StoreView, nat, nat), Failure>,
) -> StoreView {
    match result {
        Ok((after, imported, skipped)) => after,
        Err(e) => store,
    }
}

/// Whether every cost that importing a database stores can be written with six decimal places.
pub fn can_import(
    store: &UsageStore,
    source: &HermesDatabaseSource,
    contents: &SourceContents,
    observed_at: i64,
) -> (r: bool)
    requires
        store.wf(),
    ensures
        r == database_storable(
            store@,
            source@,
            contents.identity,
            contents.tables@,
            observed_at,
        ),
{
    match import_contents(store, source, contents, observed_at) {
        Staged::TooLarge => false,
        _ => true,
    }
}

/// Imports a database. Either all of its rows are imported or, where one of them fails, none.
pub fn import_hermes_database(
    store: &mut UsageStore,
    source: &HermesDatabaseSource,
    contents: &SourceContents,
    observed_at: i64,
) -> (r: Result<(u32, u32), AppError>)
    requires
        old(store).wf(),
        database_storable(
            old(store)@,
            source@,
            contents.identity,
            contents.tables@,
            observed_at,
        ),
    ensures
        final(store).wf(),
        viewed(r) == counts(
            imported_database(
                old(store)@,
                source@,
                contents.identity,
                contents.tables@,
                observed_at,
            ),
        ),
        final(store)@ == store_after(
            old(store)@,
            imported_database(
                old(store)@,
                source@,
                contents.identity,
                contents.tables@,
                observed_at,
            ),
        ),
{
    match import_contents(store, source, contents, observed_at) {
        Staged::Done(after, imported, skipped) => {
            *store = after;
            Ok((imported, skipped))
        },
        Staged::Failed(e) => Err(e),
        Staged::TooLarge => unreached(),
    }
}

/// Imports a database, unless a cost has too many digits to be stored.
pub fn try_import_hermes_database(
    store: &mut UsageStore,
    source: &HermesDatabaseSource,
    contents: &SourceContents,
    observed_at: i64,
) -> (r: Option<Result<(u32, u32), AppError>>)
    requires
        old(store).wf(),
    ensures
        final(store).wf(),
        r is Some == database_storable(
            old(store)@,
            source@,
            contents.identity,
            contents.tables@,
            observed_at,
        ),
        r is None ==> final(store)@ == old(store)@,
        r is Some ==> viewed(r->0) == counts(
            imported_database(
                old(store)@,
                source@,
                contents.identity,
                contents.tables@,
                observed_at,
            ),
        ) && final(store)@ == store_after(
            old(store)@,
            imported_database(
                old(store)@,
                source@,
                contents.identity,
                contents.tables@,
                observed_at,
            ),
        ),
{
    if can_import(store, source, contents, observed_at) {
        Some(import_hermes_database(store, source, contents, observed_at))
    } else {
        None
    }
}

} // verus!
