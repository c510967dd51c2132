//! What holds of the records that an import stores: each column comes from the row, its origin or
//! the two readings that it lies between.

use crate::cost::{decimal_text, difference, fixed_text, signed_cost, unsigned_cost, Cost};
use crate::digest::{digest_of, identity_text, FileIdentity};
use crate::discover::SourceView;
use crate::error::Failure;
use crate::filter_laws::column_at;
use crate::import::{
    imported_database, imported_row, imported_rows, loaded, origin_of, reading_of, row_effect,
    saturated, state_of, OriginView,
};
use crate::import_laws::law_import_stays_in_its_source;
use crate::reader::{source_rows, TablesView};
use crate::snapshot::{
    delta_between, overflows, regressed, HermesSnapshotDelta, HermesSnapshotState,
};
use crate::source::RowView;
use crate::store::{DeltaView, SnapshotView, StoreView};
use vstd::prelude::*;
use vstd::string::*;

verus! {

/// The six counters of a row, by their place.
pub open spec fn row_at(of: RowView, place: nat) -> int {
    if place == 0 {
        of.api_call_count as int
    } else if place == 1 {
        of.input_tokens as int
    } else if place == 2 {
        of.output_tokens as int
    } else if place == 3 {
        of.cache_read_tokens as int
    } else if place == 4 {
        of.cache_write_tokens as int
    } else {
        of.reasoning_tokens as int
    }
}

/// The six counters of a reading, by their place.
pub open spec fn state_at(of: HermesSnapshotState, place: nat) -> int {
    if place == 0 {
        of.api_call_count as int
    } else if place == 1 {
        of.input_tokens as int
    } else if place == 2 {
        of.output_tokens as int
    } else if place == 3 {
        of.cache_read_tokens as int
    } else if place == 4 {
        of.cache_write_tokens as int
    } else {
        of.reasoning_tokens as int
    }
}

/// The six counters of a change, by their place.
pub open spec fn growth_at(of: HermesSnapshotDelta, place: nat) -> int {
    if place == 0 {
        of.api_call_count as int
    } else if place == 1 {
        of.input_tokens as int
    } else if place == 2 {
        of.output_tokens as int
    } else if place == 3 {
        of.cache_read_tokens as int
    } else if place == 4 {
        of.cache_write_tokens as int
    } else {
        of.reasoning_tokens as int
    }
}

/// The snapshot describes the row of that origin as it was seen at that time: every column but the
/// baseline and the balance. The costs are written down so that they read back digit for digit.
pub open spec fn describes(
    snapshot: SnapshotView,
    origin: OriginView,
    row: RowView,
    observed_at: i64,
) -> bool {
    &&& snapshot.source_id == origin.source_id
    &&& snapshot.source_incarnation == origin.source_incarnation
    &&& snapshot.profile_name == origin.profile_name
    &&& snapshot.row_key == row.row_key
    &&& snapshot.session_id == row.session_id
    &&& snapshot.model == row.model
    &&& snapshot.billing_provider == row.billing_provider
    &&& snapshot.billing_base_url_digest == row.billing_base_url_digest
    &&& snapshot.billing_mode == row.billing_mode
    &&& snapshot.task == row.task
    &&& snapshot.api_call_count == row.api_call_count
    &&& snapshot.input_tokens == row.input_tokens
    &&& snapshot.output_tokens == row.output_tokens
    &&& snapshot.cache_read_tokens == row.cache_read_tokens
    &&& snapshot.cache_write_tokens == row.cache_write_tokens
    &&& snapshot.reasoning_tokens == row.reasoning_tokens
    &&& snapshot.selected_cost_kind == row.selected_cost_kind
    &&& snapshot.cost_status == row.cost_status
    &&& snapshot.cost_source == row.cost_source
    &&& snapshot.first_seen == row.first_seen
    &&& snapshot.last_seen == row.last_seen
    &&& snapshot.observed_at == observed_at
    &&& snapshot.selected_cost_usd == decimal_text(row.selected_cost_usd)
    &&& snapshot.estimated_cost_usd == match row.estimated_cost_usd {
        Some(cost) => decimal_text(cost),
        None => "0"@,
    }
    &&& snapshot.actual_cost_usd == match row.actual_cost_usd {
        Some(cost) => Some(decimal_text(cost)),
        None => None,
    }
}

/// The delta is one of the row of that origin, between those two times: every column but the counters
/// and the cost.
pub open spec fn belongs_to(
    delta: DeltaView,
    origin: OriginView,
    row: RowView,
    start: i64,
    end: i64,
) -> bool {
    &&& delta.source_id == origin.source_id
    &&& delta.source_incarnation == origin.source_incarnation
    &&& delta.profile_name == origin.profile_name
    &&& delta.row_key == row.row_key
    &&& delta.session_id == row.session_id
    &&& delta.provider == row.billing_provider
    &&& delta.model == row.model
    &&& delta.billing_base_url_digest == row.billing_base_url_digest
    &&& delta.billing_mode == row.billing_mode
    &&& delta.task == row.task
    &&& delta.sync_window_start == start
    &&& delta.sync_window_end == end
    &&& delta.cost_kind == row.selected_cost_kind
    &&& delta.cost_status == row.cost_status
    &&& delta.cost_source == row.cost_source
    &&& delta.data_source == "hermes_session"@
    &&& delta.precision == "aggregate_delta"@
}

/// A row is new where nothing is known of it, or where one of its counters is lower than it was: it
/// then starts again.
pub open spec fn starts_again(previous: Option<HermesSnapshotState>, row: RowView) -> bool {
    previous is Some ==> exists|place: nat|
        place < 6 && #[trigger] row_at(row, place) < state_at(previous->0, place)
}

pub proof fn lemma_starts_again(previous: HermesSnapshotState, row: RowView, observed_at: i64)
    ensures
        regressed(previous, reading_of(row, observed_at)) <==> starts_again(
            Some(previous),
            row,
        ),
{
    if regressed(previous, reading_of(row, observed_at)) {
        let place: nat = if row.api_call_count < previous.api_call_count {
            0
        } else if row.input_tokens < previous.input_tokens {
            1
        } else if row.output_tokens < previous.output_tokens {
            2
        } else if row.cache_read_tokens < previous.cache_read_tokens {
            3
        } else if row.cache_write_tokens < previous.cache_write_tokens {
            4
        } else {
            5
        };
        assert(row_at(row, place) < state_at(previous, place));
    }
}

/// A row that starts again is stored with its present cost as the baseline and nothing imported above
/// it, and gives no delta.
pub proof fn law_row_that_starts_again(
    previous: Option<HermesSnapshotState>,
    origin: OriginView,
    row: RowView,
    observed_at: i64,
)
    requires
        starts_again(previous, row),
    ensures
        ({
            let effect = row_effect(previous, origin, row, observed_at);
            let (snapshot, delta) = effect->Ok_0;
            &&& effect is Ok
            &&& delta is None
            &&& describes(snapshot, origin, row, observed_at)
            &&& snapshot.cost_baseline_usd == fixed_text(row.selected_cost_usd)
            &&& snapshot.emitted_cost_balance_usd == fixed_text(
                Cost { negative: false, magnitude: 0, scale: 0 },
            )
        }),
{
    if let Some(previous) = previous {
        lemma_starts_again(previous, row, observed_at);
    }
}

/// What should have been imported of a cost: the part above the baseline, and nothing where the cost
/// does not lie above it.
pub open spec fn is_part_above(balance: Cost, selected: Cost, baseline: Cost) -> bool {
    let above = difference(selected, baseline)->0;
    &&& above.mantissa() > 0 ==> balance == above
    &&& above.mantissa() <= 0 ==> balance == Cost { negative: false, magnitude: 0, scale: 0 }
}

/// A row that goes on is stored with the baseline that it had. It gives a delta exactly where a counter
/// has grown or the imported cost has to be adjusted; the delta carries the growth of each counter and
/// the adjustment, and reaches from the last reading to this one.
pub proof fn law_row_that_goes_on(
    previous: HermesSnapshotState,
    origin: OriginView,
    row: RowView,
    observed_at: i64,
    balance: Cost,
)
    requires
        !starts_again(Some(previous), row),
        forall|place: nat|
            place < 6 ==> row_at(row, place) - #[trigger] state_at(previous, place) <= i64::MAX,
        is_part_above(balance, row.selected_cost_usd, previous.cost_baseline_usd),
    ensures
        ({
            let effect = row_effect(Some(previous), origin, row, observed_at);
            let (snapshot, delta) = effect->Ok_0;
            let adjustment = difference(balance, previous.emitted_cost_balance_usd)->0;
            &&& effect is Ok
            &&& describes(snapshot, origin, row, observed_at)
            &&& snapshot.cost_baseline_usd == fixed_text(previous.cost_baseline_usd)
            &&& snapshot.emitted_cost_balance_usd == fixed_text(balance)
            &&& delta is Some <==> {
                ||| exists|place: nat|
                    place < 6 && #[trigger] row_at(row, place) > state_at(previous, place)
                ||| adjustment.mantissa() != 0
            }
            &&& delta is Some ==> {
                let delta = delta->0;
                &&& belongs_to(delta, origin, row, previous.observed_at, observed_at)
                &&& forall|place: nat|
                    place < 6 ==> #[trigger] column_at(delta, place) == row_at(row, place)
                        - state_at(previous, place)
                &&& delta.cost_usd == decimal_text(adjustment)
                &&& adjustment.mantissa() > 0 ==> delta.cost_delta_kind == "increase"@
                &&& adjustment.mantissa() < 0 ==> delta.cost_delta_kind == "reconciliation"@
                &&& adjustment.mantissa() == 0 ==> delta.cost_delta_kind == "none"@
            }
        }),
{
    lemma_starts_again(previous, row, observed_at);
    let reading = reading_of(row, observed_at);
    assert(!regressed(previous, reading));
    assert(row_at(row, 0) - state_at(previous, 0) <= i64::MAX);
    assert(row_at(row, 1) - state_at(previous, 1) <= i64::MAX);
    assert(row_at(row, 2) - state_at(previous, 2) <= i64::MAX);
    assert(row_at(row, 3) - state_at(previous, 3) <= i64::MAX);
    assert(row_at(row, 4) - state_at(previous, 4) <= i64::MAX);
    assert(row_at(row, 5) - state_at(previous, 5) <= i64::MAX);
    let change = delta_between(previous, reading)->Ok_0;
    assert(delta_between(previous, reading) is Ok);
    let effect = row_effect(Some(previous), origin, row, observed_at);
    if effect->Ok_0.1 is Some {
        let delta = effect->Ok_0.1->0;
        assert forall|place: nat| place < 6 implies #[trigger] column_at(delta, place) == row_at(
            row,
            place,
        ) - state_at(previous, place) by {}
        if difference(balance, previous.emitted_cost_balance_usd)->0.mantissa() == 0 {
            let place: nat = if change.api_call_count > 0 {
                0
            } else if change.input_tokens > 0 {
                1
            } else if change.output_tokens > 0 {
                2
            } else if change.cache_read_tokens > 0 {
                3
            } else if change.cache_write_tokens > 0 {
                4
            } else {
                5
            };
            assert(row_at(row, place) > state_at(previous, place));
        }
    }
}

/// The change between two readings: each counter is the growth of that counter, the balance is the part
/// of the cost above the baseline, and the cost is what the balance has changed by. There is none only
/// where the growth of a counter leaves the range of `i64`.
pub proof fn law_change_between_readings(
    previous: HermesSnapshotState,
    current: HermesSnapshotState,
)
    ensures
        match delta_between(previous, current) {
            Ok(change) => {
                &&& forall|place: nat|
                    place < 6 ==> #[trigger] growth_at(change, place) == state_at(current, place)
                        - state_at(previous, place)
                &&& is_part_above(
                    change.emitted_cost_balance_usd,
                    current.selected_cost_usd,
                    previous.cost_baseline_usd,
                )
                &&& change.cost_usd == difference(
                    change.emitted_cost_balance_usd,
                    previous.emitted_cost_balance_usd,
                )->0
                &&& change.cost_delta_kind is Increase <==> change.cost_usd.mantissa() > 0
                &&& change.cost_delta_kind is Reconciliation <==> change.cost_usd.mantissa() < 0
                &&& change.cost_delta_kind is Unchanged <==> change.cost_usd.mantissa() == 0
            },
            Err(e) => exists|place: nat|
                place < 6 && !(i64::MIN <= #[trigger] state_at(current, place) - state_at(
                    previous,
                    place,
                ) <= i64::MAX),
        },
{
    if delta_between(previous, current) is Err {
        let place: nat = if overflows(
            current.api_call_count,
            previous.api_call_count,
        ) {
            0
        } else if overflows(current.input_tokens, previous.input_tokens) {
            1
        } else if overflows(current.output_tokens, previous.output_tokens) {
            2
        } else if overflows(
            current.cache_read_tokens,
            previous.cache_read_tokens,
        ) {
            3
        } else if overflows(
            current.cache_write_tokens,
            previous.cache_write_tokens,
        ) {
            4
        } else {
            5
        };
        assert(!(i64::MIN <= state_at(current, place) - state_at(previous, place) <= i64::MAX));
    }
}

/// The reading that is taken from a stored snapshot has its counters, its time and the costs that its
/// texts write down; it can be taken exactly where none of these costs is negative or no number.
pub proof fn law_state_keeps_the_snapshot(snapshot: SnapshotView)
    ensures
        state_of(snapshot) is Ok <==> {
            &&& unsigned_cost(snapshot.selected_cost_usd, "selected_cost_usd"@) is Ok
            &&& unsigned_cost(snapshot.cost_baseline_usd, "cost_baseline_usd"@) is Ok
            &&& unsigned_cost(snapshot.emitted_cost_balance_usd, "emitted_cost_balance_usd"@) is Ok
        },
        state_of(snapshot) is Ok ==> {
            let state = state_of(snapshot)->Ok_0;
            &&& state.api_call_count == snapshot.api_call_count
            &&& state.input_tokens == snapshot.input_tokens
            &&& state.output_tokens == snapshot.output_tokens
            &&& state.cache_read_tokens == snapshot.cache_read_tokens
            &&& state.cache_write_tokens == snapshot.cache_write_tokens
            &&& state.reasoning_tokens == snapshot.reasoning_tokens
            &&& state.observed_at == snapshot.observed_at
            &&& signed_cost(snapshot.selected_cost_usd, "selected_cost_usd"@) == Ok::<Cost, Failure>(
                state.selected_cost_usd,
            )
            &&& signed_cost(snapshot.cost_baseline_usd, "cost_baseline_usd"@) == Ok::<Cost, Failure>(
                state.cost_baseline_usd,
            )
            &&& signed_cost(
                snapshot.emitted_cost_balance_usd,
                "emitted_cost_balance_usd"@,
            ) == Ok::<Cost, Failure>(state.emitted_cost_balance_usd)
            &&& state.selected_cost_usd.mantissa() >= 0
            &&& state.cost_baseline_usd.mantissa() >= 0
            &&& state.emitted_cost_balance_usd.mantissa() >= 0
        },
{
}

/// Importing a row changes the store in that row alone: its snapshot takes the place of the earlier one,
/// every other snapshot stays, and its delta, where there is one, comes behind all others. The row is
/// held against what the store knew of it.
pub proof fn law_row_is_imported_by_itself(
    store: StoreView,
    origin: OriginView,
    row: RowView,
    observed_at: i64,
)
    ensures
        ({
            let key = (origin.source_id, row.row_key);
            let known = store.snapshots.contains_key(key);
            let state = state_of(store.snapshots[key]);
            let previous = if known {
                Some(state->Ok_0)
            } else {
                None
            };
            let effect = row_effect(previous, origin, row, observed_at);
            let result = imported_row(store, origin, row, observed_at);
            &&& result is Ok <==> (known ==> state is Ok) && effect is Ok
            &&& result is Ok ==> {
                let (after, stored) = result->Ok_0;
                let (snapshot, delta) = effect->Ok_0;
                &&& stored == (delta is Some)
                &&& after.deltas == match delta {
                    Some(delta) => store.deltas + seq![delta],
                    None => store.deltas,
                }
                &&& after.snapshots.contains_key(key)
                &&& after.snapshots[key] == snapshot
                &&& forall|other: (Seq<char>, Seq<char>)|
                    other != key ==> {
                        &&& #[trigger] after.snapshots.contains_key(other)
                            == store.snapshots.contains_key(other)
                        &&& store.snapshots.contains_key(other) ==> after.snapshots[other]
                            == store.snapshots[other]
                    }
            }
        }),
{
    let key = (origin.source_id, row.row_key);
    let previous = loaded(store, origin.source_id, row.row_key);
    if previous is Ok {
        let effect = row_effect(previous->Ok_0, origin, row, observed_at);
        if effect is Ok {
            let (snapshot, delta) = effect->Ok_0;
            assert(snapshot.key() == key);
            if let Some(delta) = delta {
                assert(store.deltas.push(delta) =~= store.deltas + seq![delta]);
            }
        }
    }
}

/// One more row is imported on top of the others: into the store that they leave, and it counts as
/// imported where it gives a delta and as skipped where it gives none. A row that fails fails them all.
pub proof fn law_rows_are_imported_one_by_one(
    store: StoreView,
    origin: OriginView,
    rows: Seq<RowView>,
    row: RowView,
    observed_at: i64,
)
    ensures
        ({
            let before = imported_rows(store, origin, rows, observed_at);
            let all = imported_rows(store, origin, rows.push(row), observed_at);
            let (between, imported, skipped) = before->Ok_0;
            let one = imported_row(between, origin, row, observed_at);
            &&& imported_rows(store, origin, Seq::empty(), observed_at) == Ok::<
                (StoreView, nat, nat),
                Failure,
            >((store, 0, 0))
            &&& before is Err ==> all is Err && all->Err_0 == before->Err_0
            &&& before is Ok && one is Err ==> all is Err && all->Err_0 == one->Err_0
            &&& before is Ok && one is Ok ==> {
                &&& all is Ok
                &&& all->Ok_0.0 == one->Ok_0.0
                &&& all->Ok_0.1 + all->Ok_0.2 == imported + skipped + 1
                &&& all->Ok_0.1 == imported + if one->Ok_0.1 {
                    1nat
                } else {
                    0
                }
            }
        }),
{
    assert(rows.push(row).drop_last() =~= rows);
}

/// Every row of a database leaves a snapshot that describes it, unless a later row has the same key.
pub proof fn law_every_row_leaves_its_snapshot(
    store: StoreView,
    origin: OriginView,
    rows: Seq<RowView>,
    observed_at: i64,
    i: int,
)
    requires
        imported_rows(store, origin, rows, observed_at) is Ok,
        0 <= i < rows.len(),
        forall|j: int| i < j < rows.len() ==> (#[trigger] rows[j]).row_key != rows[i].row_key,
    ensures
        ({
            let after = imported_rows(store, origin, rows, observed_at)->Ok_0.0;
            let key = (origin.source_id, rows[i].row_key);
            &&& after.snapshots.contains_key(key)
            &&& describes(after.snapshots[key], origin, rows[i], observed_at)
        }),
    decreases rows.len(),
{
    let (first, last) = (rows.drop_last(), rows.last());
    let key = (origin.source_id, rows[i].row_key);
    let before = imported_rows(store, origin, first, observed_at)->Ok_0.0;
    law_row_is_imported_by_itself(before, origin, last, observed_at);
    if i < first.len() {
        assert forall|j: int| i < j < first.len() implies (#[trigger] first[j]).row_key
            != first[i].row_key by {
            assert(first[j] == rows[j]);
        }
        law_every_row_leaves_its_snapshot(store, origin, first, observed_at, i);
        assert(rows[rows.len() - 1].row_key != rows[i].row_key);
        assert((origin.source_id, last.row_key) != key);
    }
}

/// Importing a database imports all the rows that it yields, and none but them, under its own origin:
/// each is counted once, as imported or as skipped, and leaves its snapshot.
pub proof fn law_database_import_covers_its_rows(
    store: StoreView,
    source: SourceView,
    identity: FileIdentity,
    tables: TablesView,
    observed_at: i64,
)
    ensures
        ({
            let result = imported_database(store, source, identity, tables, observed_at);
            let rows = source_rows(tables);
            let origin = origin_of(source, identity);
            &&& rows is Err ==> result is Err && result->Err_0 == rows->Err_0
            &&& result is Ok ==> {
                let (after, imported, skipped) = result->Ok_0;
                &&& rows is Ok
                &&& imported + skipped == rows->Ok_0.len()
                &&& after.deltas.len() == store.deltas.len() + imported
                &&& forall|i: int| #[trigger]
                    last_of_its_key(rows->Ok_0, i) ==> {
                        let key = (origin.source_id, rows->Ok_0[i].row_key);
                        &&& after.snapshots.contains_key(key)
                        &&& describes(after.snapshots[key], origin, rows->Ok_0[i], observed_at)
                    }
            }
        }),
{
    let result = imported_database(store, source, identity, tables, observed_at);
    let origin = origin_of(source, identity);
    if result is Ok {
        let rows = source_rows(tables)->Ok_0;
        law_import_stays_in_its_source(store, origin, rows, observed_at);
        assert forall|i: int| #[trigger] last_of_its_key(rows, i) implies {
            let key = (origin.source_id, rows[i].row_key);
            &&& result->Ok_0.0.snapshots.contains_key(key)
            &&& describes(result->Ok_0.0.snapshots[key], origin, rows[i], observed_at)
        } by {
            law_every_row_leaves_its_snapshot(store, origin, rows, observed_at, i);
        }
    }
}

/// No later row has the key of this one.
pub open spec fn last_of_its_key(rows: Seq<RowView>, i: int) -> bool {
    &&& 0 <= i < rows.len()
    &&& forall|j: int| i < j < rows.len() ==> (#[trigger] rows[j]).row_key != rows[i].row_key
}

/// The origin of the rows of a database names its profile and the incarnation of its file; its source
/// identifier is the digest of the application, the profile, the digest of the path and the incarnation.
pub proof fn law_origin_names_its_source(source: SourceView, identity: FileIdentity)
    ensures
        ({
            let origin = origin_of(source, identity);
            &&& origin.profile_name == source.profile_name
            &&& origin.source_incarnation == digest_of(seq![identity_text(identity)])
            &&& origin.source_id == digest_of(
                seq![
                    "hermes"@,
                    source.profile_name,
                    digest_of(seq![source.path]),
                    origin.source_incarnation,
                ],
            )
        }),
{
}

/// A count that fits in 32 bits is reported as it is, and any larger one as the largest that fits.
pub proof fn law_counts_saturate(n: nat)
    ensures
        n <= u32::MAX ==> saturated(n) == n,
        n > u32::MAX ==> saturated(n) == u32::MAX,
{
}

} // verus!
