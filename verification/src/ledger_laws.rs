//! What holds of a source row over any number of imports: the deltas that were stored since its last
//! baseline add up to its balance, and to the growth of its counters.

use crate::cost::{difference, exact_difference, joint_scale, subtracts_exactly, Cost};
use crate::cost_laws::{lemma_few_places_subtract, lemma_scaled_micros, lemma_sign};
use crate::import::{
    imported_row, imported_rows, loaded, reading_of, row_effect, state_of, store_after, OriginView,
};
use crate::import_laws::{
    emitted_cost, keepable, law_cost_follows_source,
    law_counters_follow_source, law_snapshot_reads_back, lemma_balance, lemma_zero,
    micros_above,
};
use crate::snapshot::{balance_above, regressed};
use crate::source::RowView;
use crate::store::{DeltaView, SnapshotView, StoreView};
use vstd::prelude::*;

verus! {

/// The rows that were read of one source at one time.
pub struct Import {
    pub origin: OriginView,
    pub rows: Seq<RowView>,
    pub observed_at: i64,
}

/// A store without snapshots and deltas.
pub open spec fn empty_store() -> StoreView {
    StoreView { snapshots: Map::empty(), deltas: Seq::empty() }
}

/// The store after some imports, one after the other. One that fails changes nothing.
pub open spec fn replayed(imports: Seq<Import>) -> StoreView
    decreases imports.len(),
{
    if imports.len() == 0 {
        empty_store()
    } else {
        let before = replayed(imports.drop_last());
        let last = imports.last();
        store_after(before, imported_rows(before, last.origin, last.rows, last.observed_at))
    }
}

/// The last baseline of a source row: the reading that set it, and how many deltas were stored
/// before it.
pub struct Baseline {
    pub reading: RowView,
    pub start: nat,
}

/// The last baseline of each source row that was seen.
pub type Baselines = Map<(Seq<char>, Seq<char>), Baseline>;

/// Importing the row sets a new baseline: it was not seen before, or a counter went down.
pub open spec fn sets_baseline(
    store: StoreView,
    origin: OriginView,
    row: RowView,
    observed_at: i64,
) -> bool {
    match loaded(store, origin.source_id, row.row_key) {
        Ok(Some(previous)) => regressed(previous, reading_of(row, observed_at)),
        _ => true,
    }
}

/// The last baselines after some rows were imported.
pub open spec fn baselines_after_rows(
    store: StoreView,
    baselines: Baselines,
    origin: OriginView,
    rows: Seq<RowView>,
    observed_at: i64,
) -> Baselines
    decreases rows.len(),
{
    if rows.len() == 0 {
        baselines
    } else {
        let first = rows.drop_last();
        let before = imported_rows(store, origin, first, observed_at)->Ok_0.0;
        let known = baselines_after_rows(store, baselines, origin, first, observed_at);
        let row = rows.last();
        if sets_baseline(before, origin, row, observed_at) {
            known.insert(
                (origin.source_id, row.row_key),
                Baseline { reading: row, start: before.deltas.len() },
            )
        } else {
            known
        }
    }
}

/// The last baselines after some imports, one after the other.
pub open spec fn baselines(imports: Seq<Import>) -> Baselines
    decreases imports.len(),
{
    if imports.len() == 0 {
        Map::empty()
    } else {
        let store = replayed(imports.drop_last());
        let known = baselines(imports.drop_last());
        let last = imports.last();
        if imported_rows(store, last.origin, last.rows, last.observed_at) is Ok {
            baselines_after_rows(store, known, last.origin, last.rows, last.observed_at)
        } else {
            known
        }
    }
}

/// The six counters of a source row, by their place.
pub open spec fn row_counter(row: RowView, place: nat) -> i64 {
    if place == 0 {
        row.api_call_count
    } else if place == 1 {
        row.input_tokens
    } else if place == 2 {
        row.output_tokens
    } else if place == 3 {
        row.cache_read_tokens
    } else if place == 4 {
        row.cache_write_tokens
    } else {
        row.reasoning_tokens
    }
}

/// The six counters of a stored snapshot, by their place.
pub open spec fn snapshot_counter(snapshot: SnapshotView, place: nat) -> i64 {
    if place == 0 {
        snapshot.api_call_count
    } else if place == 1 {
        snapshot.input_tokens
    } else if place == 2 {
        snapshot.output_tokens
    } else if place == 3 {
        snapshot.cache_read_tokens
    } else if place == 4 {
        snapshot.cache_write_tokens
    } else {
        snapshot.reasoning_tokens
    }
}

/// The six counters of a stored delta, by their place.
pub open spec fn delta_counter(delta: DeltaView, place: nat) -> i64 {
    if place == 0 {
        delta.api_call_count
    } else if place == 1 {
        delta.input_tokens
    } else if place == 2 {
        delta.output_tokens
    } else if place == 3 {
        delta.cache_read_tokens
    } else if place == 4 {
        delta.cache_write_tokens
    } else {
        delta.reasoning_tokens
    }
}

/// What the stored deltas of one source row count in all.
pub open spec fn emitted_counter(
    deltas: Seq<DeltaView>,
    key: (Seq<char>, Seq<char>),
    place: nat,
) -> int
    decreases deltas.len(),
{
    if deltas.len() == 0 {
        0
    } else {
        emitted_counter(deltas.drop_last(), key, place) + if (
            deltas.last().source_id,
            deltas.last().row_key,
        ) == key {
            delta_counter(deltas.last(), place) as int
        } else {
            0
        }
    }
}

/// The cost of one source row adds up: the deltas since its last baseline cost as much as its
/// balance, and that is the part of the selected cost above the baseline, which is the cost of the
/// reading that set it.
pub open spec fn cost_adds_up(
    store: StoreView,
    baseline: Baseline,
    key: (Seq<char>, Seq<char>),
) -> bool {
    let state = state_of(store.snapshots[key])->Ok_0;
    &&& state_of(store.snapshots[key]) is Ok
    &&& keepable(state.selected_cost_usd)
    &&& keepable(state.cost_baseline_usd)
    &&& keepable(state.emitted_cost_balance_usd)
    &&& state.cost_baseline_usd.micros() == baseline.reading.selected_cost_usd.micros()
    &&& emitted_cost(store.deltas.skip(baseline.start as int), key)
        == state.emitted_cost_balance_usd.micros()
    &&& state.emitted_cost_balance_usd.micros() == micros_above(
        state.selected_cost_usd,
        state.cost_baseline_usd,
    )
    &&& state.emitted_cost_balance_usd.micros() >= 0
}

/// The counters of one source row add up: the deltas since its last baseline count as much as the
/// counters have grown since.
pub open spec fn counters_add_up(
    store: StoreView,
    baseline: Baseline,
    key: (Seq<char>, Seq<char>),
) -> bool {
    forall|place: nat|
        place < 6 ==> #[trigger] emitted_counter(
            store.deltas.skip(baseline.start as int),
            key,
            place,
        ) == snapshot_counter(store.snapshots[key], place) - row_counter(baseline.reading, place)
}

/// The ledger adds up for every source row.
pub open spec fn ledger_adds_up(store: StoreView, baselines: Baselines) -> bool {
    forall|key: (Seq<char>, Seq<char>)|
        #![trigger store.snapshots.contains_key(key)]
        #![trigger baselines.contains_key(key)]
        {
            &&& baselines.contains_key(key) == store.snapshots.contains_key(key)
            &&& store.snapshots.contains_key(key) ==> {
                &&& baselines[key].start <= store.deltas.len()
                &&& cost_adds_up(store, baselines[key], key)
                &&& counters_add_up(store, baselines[key], key)
            }
        }
}

/// What was kept of every source row has at most six decimal places.
spec fn kept_in_six_places(store: StoreView) -> bool {
    forall|key: (Seq<char>, Seq<char>)| #[trigger]
        store.snapshots.contains_key(key) ==> {
            let state = state_of(store.snapshots[key])->Ok_0;
            state.cost_baseline_usd.scale <= 6 && state.emitted_cost_balance_usd.scale <= 6
        }
}

/// The selected cost has at most six decimal places, and its millionths fit in 96 bits.
pub open spec fn in_six_places(row: RowView) -> bool {
    keepable(row.selected_cost_usd) && row.selected_cost_usd.scale <= 6
}

/// Every row has counters and costs that are not negative, the cost with at most six decimal places.
pub open spec fn all_in_six_places(rows: Seq<RowView>) -> bool {
    forall|i: int|
        0 <= i < rows.len() ==> (#[trigger] rows[i]).valid() && in_six_places(rows[i])
}

/// Subtraction of costs with at most six decimal places gives no more of them.
proof fn lemma_few_places_left(a: Cost, b: Cost)
    requires
        keepable(a),
        keepable(b),
        a.scale <= 6,
        b.scale <= 6,
    ensures
        subtracts_exactly(a, b),
        balance_above(a, b).scale <= 6,
{
    lemma_sign(a);
    lemma_sign(b);
    lemma_few_places_subtract(a, b);
    assert(difference(a, b) == Some(exact_difference(a, b)));
    assert(joint_scale(a, b) <= 6);
}

/// One more delta in the deltas since a baseline.
proof fn lemma_skip_push(deltas: Seq<DeltaView>, delta: DeltaView, start: nat)
    requires
        start <= deltas.len(),
    ensures
        deltas.push(delta).skip(start as int) == deltas.skip(start as int).push(delta),
        deltas.skip(start as int).push(delta).drop_last() == deltas.skip(start as int),
{
    assert(deltas.push(delta).skip(start as int) =~= deltas.skip(start as int).push(delta));
    assert(deltas.skip(start as int).push(delta).drop_last() =~= deltas.skip(start as int));
}

/// Other source rows add up as before.
proof fn lemma_others_add_up(
    store: StoreView,
    after: StoreView,
    baseline: Baseline,
    key: (Seq<char>, Seq<char>),
    snapshot: SnapshotView,
    delta: Option<DeltaView>,
)
    requires
        after == (match delta {
            None => store.put(snapshot),
            Some(delta) => store.put(snapshot).record(delta),
        }),
        snapshot.key() != key,
        delta is Some ==> (delta->0.source_id, delta->0.row_key) == snapshot.key(),
        store.snapshots.contains_key(key),
        baseline.start <= store.deltas.len(),
        cost_adds_up(store, baseline, key),
        counters_add_up(store, baseline, key),
    ensures
        after.snapshots.contains_key(key),
        after.snapshots[key] == store.snapshots[key],
        baseline.start <= after.deltas.len(),
        cost_adds_up(after, baseline, key),
        counters_add_up(after, baseline, key),
{
    if delta is Some {
        lemma_skip_push(store.deltas, delta->0, baseline.start);
        assert forall|place: nat| place < 6 implies #[trigger] emitted_counter(
            after.deltas.skip(baseline.start as int),
            key,
            place,
        ) == snapshot_counter(after.snapshots[key], place) - row_counter(
            baseline.reading,
            place,
        ) by {
            assert(emitted_counter(store.deltas.skip(baseline.start as int), key, place)
                == snapshot_counter(store.snapshots[key], place) - row_counter(
                baseline.reading,
                place,
            ));
        }
    } else {
        assert forall|place: nat| place < 6 implies #[trigger] emitted_counter(
            after.deltas.skip(baseline.start as int),
            key,
            place,
        ) == snapshot_counter(after.snapshots[key], place) - row_counter(
            baseline.reading,
            place,
        ) by {
            assert(emitted_counter(store.deltas.skip(baseline.start as int), key, place)
                == snapshot_counter(store.snapshots[key], place) - row_counter(
                baseline.reading,
                place,
            ));
        }
    }
}

/// A row that sets a baseline adds up: nothing was stored since, and nothing has grown.
proof fn lemma_new_baseline_adds_up(
    store: StoreView,
    origin: OriginView,
    row: RowView,
    observed_at: i64,
)
    requires
        row.valid(),
        in_six_places(row),
        sets_baseline(store, origin, row, observed_at),
        imported_row(store, origin, row, observed_at) is Ok,
    ensures
        ({
            let after = imported_row(store, origin, row, observed_at)->Ok_0.0;
            let key = (origin.source_id, row.row_key);
            let baseline = Baseline { reading: row, start: store.deltas.len() };
            let state = state_of(after.snapshots[key])->Ok_0;
            &&& after.snapshots.contains_key(key)
            &&& after.deltas == store.deltas
            &&& cost_adds_up(after, baseline, key)
            &&& counters_add_up(after, baseline, key)
            &&& state.cost_baseline_usd.scale <= 6
            &&& state.emitted_cost_balance_usd.scale <= 6
        }),
{
    let selected = row.selected_cost_usd;
    lemma_zero();
    lemma_sign(selected);
    lemma_scaled_micros(0);
    lemma_scaled_micros(selected.micros());
    law_snapshot_reads_back(origin, row, selected, Cost::nothing(), observed_at);
    assert(selected.normal().mantissa() == selected.mantissa());
    let rest = store.deltas.skip(store.deltas.len() as int);
    assert(rest =~= Seq::empty());
}

/// A row that keeps its baseline adds up if it did so before.
proof fn lemma_growth_adds_up(
    store: StoreView,
    baseline: Baseline,
    origin: OriginView,
    row: RowView,
    observed_at: i64,
)
    requires
        row.valid(),
        in_six_places(row),
        !sets_baseline(store, origin, row, observed_at),
        imported_row(store, origin, row, observed_at) is Ok,
        baseline.start <= store.deltas.len(),
        cost_adds_up(store, baseline, (origin.source_id, row.row_key)),
        counters_add_up(store, baseline, (origin.source_id, row.row_key)),
        ({
            let state = state_of(store.snapshots[(origin.source_id, row.row_key)])->Ok_0;
            state.cost_baseline_usd.scale <= 6 && state.emitted_cost_balance_usd.scale <= 6
        }),
    ensures
        ({
            let after = imported_row(store, origin, row, observed_at)->Ok_0.0;
            let key = (origin.source_id, row.row_key);
            let state = state_of(after.snapshots[key])->Ok_0;
            &&& after.snapshots.contains_key(key)
            &&& baseline.start <= after.deltas.len()
            &&& cost_adds_up(after, baseline, key)
            &&& counters_add_up(after, baseline, key)
            &&& state.cost_baseline_usd.scale <= 6
            &&& state.emitted_cost_balance_usd.scale <= 6
        }),
{
    let key = (origin.source_id, row.row_key);
    let previous = loaded(store, origin.source_id, row.row_key)->Ok_0->0;
    let after = imported_row(store, origin, row, observed_at)->Ok_0.0;
    let (snapshot, delta) = row_effect(Some(previous), origin, row, observed_at)->Ok_0;
    let selected = row.selected_cost_usd;
    let balance = balance_above(selected, previous.cost_baseline_usd);
    lemma_few_places_left(selected, previous.cost_baseline_usd);
    lemma_balance(selected, previous.cost_baseline_usd);
    lemma_few_places_left(balance, previous.emitted_cost_balance_usd);
    law_cost_follows_source(previous, origin, row, observed_at);
    law_counters_follow_source(previous, origin, row, observed_at);
    law_snapshot_reads_back(origin, row, previous.cost_baseline_usd, balance, observed_at);
    lemma_sign(selected);
    lemma_sign(balance);
    assert(selected.normal().mantissa() == selected.mantissa());
    assert(selected.normal().at_scale(28) == selected.at_scale(28));
    assert(after.snapshots[key] == snapshot);
    if delta is Some {
        lemma_skip_push(store.deltas, delta->0, baseline.start);
    }
    assert forall|place: nat| place < 6 implies #[trigger] emitted_counter(
        after.deltas.skip(baseline.start as int),
        key,
        place,
    ) == snapshot_counter(after.snapshots[key], place) - row_counter(baseline.reading, place) by {
        assert(emitted_counter(store.deltas.skip(baseline.start as int), key, place)
            == snapshot_counter(store.snapshots[key], place) - row_counter(
            baseline.reading,
            place,
        ));
        assert(snapshot_counter(snapshot, place) == row_counter(row, place));
    }
}

/// The baselines after one more row.
spec fn baselines_after_row(
    store: StoreView,
    known: Baselines,
    origin: OriginView,
    row: RowView,
    observed_at: i64,
) -> Baselines {
    if sets_baseline(store, origin, row, observed_at) {
        known.insert(
            (origin.source_id, row.row_key),
            Baseline { reading: row, start: store.deltas.len() },
        )
    } else {
        known
    }
}

/// One more row keeps the ledger adding up.
proof fn lemma_row_adds_up(
    store: StoreView,
    known: Baselines,
    origin: OriginView,
    row: RowView,
    observed_at: i64,
)
    requires
        row.valid(),
        in_six_places(row),
        ledger_adds_up(store, known),
        kept_in_six_places(store),
        imported_row(store, origin, row, observed_at) is Ok,
    ensures
        ({
            let after = imported_row(store, origin, row, observed_at)->Ok_0.0;
            &&& ledger_adds_up(
                after,
                baselines_after_row(store, known, origin, row, observed_at),
            )
            &&& kept_in_six_places(after)
        }),
{
    let own = (origin.source_id, row.row_key);
    let after = imported_row(store, origin, row, observed_at)->Ok_0.0;
    let now = baselines_after_row(store, known, origin, row, observed_at);
    let previous = loaded(store, origin.source_id, row.row_key)->Ok_0;
    let (snapshot, delta) = row_effect(previous, origin, row, observed_at)->Ok_0;
    assert(snapshot.key() == own);
    assert(known.contains_key(own) == store.snapshots.contains_key(own));
    if sets_baseline(store, origin, row, observed_at) {
        lemma_new_baseline_adds_up(store, origin, row, observed_at);
    } else {
        lemma_growth_adds_up(store, known[own], origin, row, observed_at);
    }
    assert forall|key: (Seq<char>, Seq<char>)|
        #![trigger after.snapshots.contains_key(key)]
        #![trigger now.contains_key(key)]
        {
            &&& now.contains_key(key) == after.snapshots.contains_key(key)
            &&& after.snapshots.contains_key(key) ==> {
                &&& now[key].start <= after.deltas.len()
                &&& cost_adds_up(after, now[key], key)
                &&& counters_add_up(after, now[key], key)
            }
        } by {
        assert(known.contains_key(key) == store.snapshots.contains_key(key));
        if key != own && store.snapshots.contains_key(key) {
            lemma_others_add_up(store, after, known[key], key, snapshot, delta);
        }
    }
    assert forall|key: (Seq<char>, Seq<char>)| #[trigger]
        after.snapshots.contains_key(key) implies {
        let state = state_of(after.snapshots[key])->Ok_0;
        state.cost_baseline_usd.scale <= 6 && state.emitted_cost_balance_usd.scale <= 6
    } by {
        assert(store.snapshots.contains_key(key) || key == own);
    }
}

/// So do any number of rows.
proof fn lemma_rows_add_up(
    store: StoreView,
    known: Baselines,
    origin: OriginView,
    rows: Seq<RowView>,
    observed_at: i64,
)
    requires
        all_in_six_places(rows),
        ledger_adds_up(store, known),
        kept_in_six_places(store),
        imported_rows(store, origin, rows, observed_at) is Ok,
    ensures
        ({
            let after = imported_rows(store, origin, rows, observed_at)->Ok_0.0;
            &&& ledger_adds_up(
                after,
                baselines_after_rows(store, known, origin, rows, observed_at),
            )
            &&& kept_in_six_places(after)
        }),
    decreases rows.len(),
{
    if rows.len() > 0 {
        let first = rows.drop_last();
        assert forall|i: int| 0 <= i < first.len() implies (#[trigger] first[i]).valid()
            && in_six_places(first[i]) by {
            assert(rows[i].valid() && in_six_places(rows[i]));
        }
        lemma_rows_add_up(store, known, origin, first, observed_at);
        let before = imported_rows(store, origin, first, observed_at)->Ok_0.0;
        let row = rows[rows.len() - 1];
        assert(row.valid() && in_six_places(row));
        lemma_row_adds_up(
            before,
            baselines_after_rows(store, known, origin, first, observed_at),
            origin,
            row,
            observed_at,
        );
    }
}

proof fn lemma_replayed_adds_up(imports: Seq<Import>)
    requires
        forall|i: int| 0 <= i < imports.len() ==> all_in_six_places((#[trigger] imports[i]).rows),
    ensures
        ledger_adds_up(replayed(imports), baselines(imports)),
        kept_in_six_places(replayed(imports)),
    decreases imports.len(),
{
    if imports.len() > 0 {
        let first = imports.drop_last();
        let last = imports[imports.len() - 1];
        assert forall|i: int| 0 <= i < first.len() implies all_in_six_places(
            (#[trigger] first[i]).rows,
        ) by {
            assert(all_in_six_places(imports[i].rows));
        }
        lemma_replayed_adds_up(first);
        assert(all_in_six_places(last.rows));
        let store = replayed(first);
        if imported_rows(store, last.origin, last.rows, last.observed_at) is Ok {
            lemma_rows_add_up(
                store,
                baselines(first),
                last.origin,
                last.rows,
                last.observed_at,
            );
        }
    }
}

/// After any imports into an empty store, of any sources and whether or not they succeed, the
/// deltas of each source row since its last baseline cost exactly its balance, which is the part of
/// its cost above the baseline and never negative, and count exactly what its counters have grown
/// by.
pub proof fn law_deltas_since_baseline_add_up(imports: Seq<Import>)
    requires
        forall|i: int| 0 <= i < imports.len() ==> all_in_six_places((#[trigger] imports[i]).rows),
    ensures
        ledger_adds_up(replayed(imports), baselines(imports)),
{
    lemma_replayed_adds_up(imports);
}

} // verus!
