//! The two tables that the importer owns: the last snapshot of each source row, and the deltas
//! that were imported. Costs stand in them as text.

use crate::text::same_text;
use crate::value::some_text;
use vstd::prelude::*;
use vstd::string::*;

verus! {

/// The application that the source rows come from.
pub const HERMES_APP_TYPE: &'static str = "hermes";

/// The data source under which deltas are stored.
pub const HERMES_DATA_SOURCE: &'static str = "hermes_session";

/// The precision under which deltas are stored.
pub const HERMES_PRECISION: &'static str = "aggregate_delta";

/// One row of the table of snapshots: how a source row was last seen.
#[derive(Debug)]
pub struct SnapshotRecord {
    pub source_id: String,
    pub source_incarnation: String,
    pub profile_name: String,
    pub row_key: String,
    pub session_id: String,
    pub model: String,
    pub billing_provider: String,
    pub billing_base_url_digest: String,
    pub billing_mode: String,
    pub task: String,
    pub api_call_count: i64,
    pub input_tokens: i64,
    pub output_tokens: i64,
    pub cache_read_tokens: i64,
    pub cache_write_tokens: i64,
    pub reasoning_tokens: i64,
    pub estimated_cost_usd: String,
    pub actual_cost_usd: Option<String>,
    pub selected_cost_usd: String,
    pub cost_baseline_usd: String,
    pub emitted_cost_balance_usd: String,
    pub selected_cost_kind: String,
    pub cost_status: Option<String>,
    pub cost_source: Option<String>,
    pub first_seen: Option<String>,
    pub last_seen: Option<String>,
    pub observed_at: i64,
}

/// What a [`SnapshotRecord`] holds.
pub struct SnapshotView {
    pub source_id: Seq<char>,
    pub source_incarnation: Seq<char>,
    pub profile_name: Seq<char>,
    pub row_key: Seq<char>,
    pub session_id: Seq<char>,
    pub model: Seq<char>,
    pub billing_provider: Seq<char>,
    pub billing_base_url_digest: Seq<char>,
    pub billing_mode: Seq<char>,
    pub task: Seq<char>,
    pub api_call_count: i64,
    pub input_tokens: i64,
    pub output_tokens: i64,
    pub cache_read_tokens: i64,
    pub cache_write_tokens: i64,
    pub reasoning_tokens: i64,
    pub estimated_cost_usd: Seq<char>,
    pub actual_cost_usd: Option<Seq<char>>,
    pub selected_cost_usd: Seq<char>,
    pub cost_baseline_usd: Seq<char>,
    pub emitted_cost_balance_usd: Seq<char>,
    pub selected_cost_kind: Seq<char>,
    pub cost_status: Option<Seq<char>>,
    pub cost_source: Option<Seq<char>>,
    pub first_seen: Option<Seq<char>>,
    pub last_seen: Option<Seq<char>>,
    pub observed_at: i64,
}

impl View for SnapshotRecord {
    type V = SnapshotView;

    open spec fn view(&self) -> SnapshotView {
        SnapshotView {
            source_id: self.source_id@,
            source_incarnation: self.source_incarnation@,
            profile_name: self.profile_name@,
            row_key: self.row_key@,
            session_id: self.session_id@,
            model: self.model@,
            billing_provider: self.billing_provider@,
            billing_base_url_digest: self.billing_base_url_digest@,
            billing_mode: self.billing_mode@,
            task: self.task@,
            api_call_count: self.api_call_count,
            input_tokens: self.input_tokens,
            output_tokens: self.output_tokens,
            cache_read_tokens: self.cache_read_tokens,
            cache_write_tokens: self.cache_write_tokens,
            reasoning_tokens: self.reasoning_tokens,
            estimated_cost_usd: self.estimated_cost_usd@,
            actual_cost_usd: some_text(self.actual_cost_usd),
            selected_cost_usd: self.selected_cost_usd@,
            cost_baseline_usd: self.cost_baseline_usd@,
            emitted_cost_balance_usd: self.emitted_cost_balance_usd@,
            selected_cost_kind: self.selected_cost_kind@,
            cost_status: some_text(self.cost_status),
            cost_source: some_text(self.cost_source),
            first_seen: some_text(self.first_seen),
            last_seen: some_text(self.last_seen),
            observed_at: self.observed_at,
        }
    }
}

/// One row of the table of deltas: what was used between two readings of a source row.
#[derive(Debug)]
pub struct DeltaRecord {
    pub source_id: String,
    pub source_incarnation: String,
    pub profile_name: String,
    pub row_key: String,
    pub session_id: String,
    pub provider: String,
    pub model: String,
    pub billing_base_url_digest: String,
    pub billing_mode: String,
    pub task: String,
    pub sync_window_start: i64,
    pub sync_window_end: i64,
    pub api_call_count: i64,
    pub input_tokens: i64,
    pub output_tokens: i64,
    pub cache_read_tokens: i64,
    pub cache_write_tokens: i64,
    pub reasoning_tokens: i64,
    pub cost_usd: String,
    pub cost_kind: String,
    pub cost_delta_kind: String,
    pub cost_status: Option<String>,
    pub cost_source: Option<String>,
    pub data_source: String,
    pub precision: String,
}

/// What a [`DeltaRecord`] holds.
pub struct DeltaView {
    pub source_id: Seq<char>,
    pub source_incarnation: Seq<char>,
    pub profile_name: Seq<char>,
    pub row_key: Seq<char>,
    pub session_id: Seq<char>,
    pub provider: Seq<char>,
    pub model: Seq<char>,
    pub billing_base_url_digest: Seq<char>,
    pub billing_mode: Seq<char>,
    pub task: Seq<char>,
    pub sync_window_start: i64,
    pub sync_window_end: i64,
    pub api_call_count: i64,
    pub input_tokens: i64,
    pub output_tokens: i64,
    pub cache_read_tokens: i64,
    pub cache_write_tokens: i64,
    pub reasoning_tokens: i64,
    pub cost_usd: Seq<char>,
    pub cost_kind: Seq<char>,
    pub cost_delta_kind: Seq<char>,
    pub cost_status: Option<Seq<char>>,
    pub cost_source: Option<Seq<char>>,
    pub data_source: Seq<char>,
    pub precision: Seq<char>,
}

impl View for DeltaRecord {
    type V = DeltaView;

    open spec fn view(&self) -> DeltaView {
        DeltaView {
            source_id: self.source_id@,
            source_incarnation: self.source_incarnation@,
            profile_name: self.profile_name@,
            row_key: self.row_key@,
            session_id: self.session_id@,
            provider: self.provider@,
            model: self.model@,
            billing_base_url_digest: self.billing_base_url_digest@,
            billing_mode: self.billing_mode@,
            task: self.task@,
            sync_window_start: self.sync_window_start,
            sync_window_end: self.sync_window_end,
            api_call_count: self.api_call_count,
            input_tokens: self.input_tokens,
            output_tokens: self.output_tokens,
            cache_read_tokens: self.cache_read_tokens,
            cache_write_tokens: self.cache_write_tokens,
            reasoning_tokens: self.reasoning_tokens,
            cost_usd: self.cost_usd@,
            cost_kind: self.cost_kind@,
            cost_delta_kind: self.cost_delta_kind@,
            cost_status: some_text(self.cost_status),
            cost_source: some_text(self.cost_source),
            data_source: self.data_source@,
            precision: self.precision@,
        }
    }
}

/// The same optional text once more.
pub fn duplicate_text(s: &Option<String>) -> (r: Option<String>)
    ensures
        some_text(r) == some_text(*s),
{
    match s {
        Some(text) => Some(text.clone()),
        None => None,
    }
}

impl SnapshotRecord {
    /// The same record once more.
    pub fn duplicate(&self) -> (r: SnapshotRecord)
        ensures
            r@ == self@,
    {
        SnapshotRecord {
            source_id: self.source_id.clone(),
            source_incarnation: self.source_incarnation.clone(),
            profile_name: self.profile_name.clone(),
            row_key: self.row_key.clone(),
            session_id: self.session_id.clone(),
            model: self.model.clone(),
            billing_provider: self.billing_provider.clone(),
            billing_base_url_digest: self.billing_base_url_digest.clone(),
            billing_mode: self.billing_mode.clone(),
            task: self.task.clone(),
            api_call_count: self.api_call_count,
            input_tokens: self.input_tokens,
            output_tokens: self.output_tokens,
            cache_read_tokens: self.cache_read_tokens,
            cache_write_tokens: self.cache_write_tokens,
            reasoning_tokens: self.reasoning_tokens,
            estimated_cost_usd: self.estimated_cost_usd.clone(),
            actual_cost_usd: duplicate_text(&self.actual_cost_usd),
            selected_cost_usd: self.selected_cost_usd.clone(),
            cost_baseline_usd: self.cost_baseline_usd.clone(),
            emitted_cost_balance_usd: self.emitted_cost_balance_usd.clone(),
            selected_cost_kind: self.selected_cost_kind.clone(),
            cost_status: duplicate_text(&self.cost_status),
            cost_source: duplicate_text(&self.cost_source),
            first_seen: duplicate_text(&self.first_seen),
            last_seen: duplicate_text(&self.last_seen),
            observed_at: self.observed_at,
        }
    }
}

impl DeltaRecord {
    /// The same record once more.
    pub fn duplicate(&self) -> (r: DeltaRecord)
        ensures
            r@ == self@,
    {
        DeltaRecord {
            source_id: self.source_id.clone(),
            source_incarnation: self.source_incarnation.clone(),
            profile_name: self.profile_name.clone(),
            row_key: self.row_key.clone(),
            session_id: self.session_id.clone(),
            provider: self.provider.clone(),
            model: self.model.clone(),
            billing_base_url_digest: self.billing_base_url_digest.clone(),
            billing_mode: self.billing_mode.clone(),
            task: self.task.clone(),
            sync_window_start: self.sync_window_start,
            sync_window_end: self.sync_window_end,
            api_call_count: self.api_call_count,
            input_tokens: self.input_tokens,
            output_tokens: self.output_tokens,
            cache_read_tokens: self.cache_read_tokens,
            cache_write_tokens: self.cache_write_tokens,
            reasoning_tokens: self.reasoning_tokens,
            cost_usd: self.cost_usd.clone(),
            cost_kind: self.cost_kind.clone(),
            cost_delta_kind: self.cost_delta_kind.clone(),
            cost_status: duplicate_text(&self.cost_status),
            cost_source: duplicate_text(&self.cost_source),
            data_source: self.data_source.clone(),
            precision: self.precision.clone(),
        }
    }
}

impl SnapshotView {
    /// What tells one snapshot from another: the source and the row in it.
    pub open spec fn key(self) -> (Seq<char>, Seq<char>) {
        (self.source_id, self.row_key)
    }
}

/// The tables of snapshots and deltas.
#[derive(Debug)]
pub struct UsageStore {
    snapshots: Vec<SnapshotRecord>,
    deltas: Vec<DeltaRecord>,
}

/// What a [`UsageStore`] holds: a snapshot for each source row that was seen, and the deltas in the
/// order in which they were stored.
pub struct StoreView {
    pub snapshots: Map<(Seq<char>, Seq<char>), SnapshotView>,
    pub deltas: Seq<DeltaView>,
}

impl StoreView {
    /// The store with one snapshot stored, in place of an earlier one of the same source row.
    pub open spec fn put(self, snapshot: SnapshotView) -> StoreView {
        StoreView { snapshots: self.snapshots.insert(snapshot.key(), snapshot), ..self }
    }

    /// The store with one more delta.
    pub open spec fn record(self, delta: DeltaView) -> StoreView {
        StoreView { deltas: self.deltas.push(delta), ..self }
    }
}

/// Which keys a list of snapshots has.
spec fn has_key(records: Seq<SnapshotRecord>, key: (Seq<char>, Seq<char>)) -> bool {
    exists|i: int| 0 <= i < records.len() && (#[trigger] records[i])@.key() == key
}

/// Where a key stands in a list of snapshots.
spec fn place_of(records: Seq<SnapshotRecord>, key: (Seq<char>, Seq<char>)) -> int {
    choose|i: int| 0 <= i < records.len() && (#[trigger] records[i])@.key() == key
}

/// A list of snapshots by their keys.
spec fn by_key(records: Seq<SnapshotRecord>) -> Map<(Seq<char>, Seq<char>), SnapshotView> {
    Map::new(
        |key: (Seq<char>, Seq<char>)| has_key(records, key),
        |key: (Seq<char>, Seq<char>)| records[place_of(records, key)]@,
    )
}

/// No two snapshots have the same key.
spec fn unique_keys(records: Seq<SnapshotRecord>) -> bool {
    forall|i: int, j: int|
        0 <= i < records.len() && 0 <= j < records.len() && (#[trigger] records[i])@.key() == (
        #[trigger] records[j])@.key() ==> i == j
}

/// What each delta of a list holds.
pub open spec fn delta_views(deltas: Seq<DeltaRecord>) -> Seq<DeltaView> {
    deltas.map_values(|d: DeltaRecord| d@)
}

impl View for UsageStore {
    type V = StoreView;

    closed spec fn view(&self) -> StoreView {
        StoreView { snapshots: by_key(self.snapshots@), deltas: delta_views(self.deltas@) }
    }
}

impl UsageStore {
    /// Every source row has at most one snapshot.
    pub closed spec fn wf(&self) -> bool {
        unique_keys(self.snapshots@)
    }

    /// A store without snapshots and deltas.
    pub fn new() -> (r: UsageStore)
        ensures
            r.wf(),
            r@.snapshots == Map::<(Seq<char>, Seq<char>), SnapshotView>::empty(),
            r@.deltas == Seq::<DeltaView>::empty(),
    {
        let store = UsageStore { snapshots: Vec::new(), deltas: Vec::new() };
        assert(store@.snapshots =~= Map::<(Seq<char>, Seq<char>), SnapshotView>::empty());
        assert(store@.deltas =~= Seq::<DeltaView>::empty());
        store
    }

    /// Where the snapshot of a source row stands.
    fn position(&self, source_id: &str, row_key: &str) -> (r: Option<usize>)
        ensures
            match r {
                Some(i) => i < self.snapshots@.len() && self.snapshots@[i as int]@.key() == (
                    source_id@,
                    row_key@,
                ),
                None => !has_key(self.snapshots@, (source_id@, row_key@)),
            },
    {
        let mut i: usize = 0;
        while i < self.snapshots.len()
            invariant
                i <= self.snapshots@.len(),
                forall|j: int|
                    0 <= j < i ==> (#[trigger] self.snapshots@[j])@.key() != (source_id@, row_key@),
            decreases self.snapshots@.len() - i,
        {
            let record: &SnapshotRecord = &self.snapshots[i];
            if same_text(record.source_id.as_str(), source_id) && same_text(
                record.row_key.as_str(),
                row_key,
            ) {
                return Some(i);
            }
            i = i + 1;
        }
        None
    }

    /// The snapshot of a source row.
    pub fn find_snapshot(&self, source_id: &str, row_key: &str) -> (r: Option<&SnapshotRecord>)
        requires
            self.wf(),
        ensures
            match r {
                Some(record) => self@.snapshots.contains_key((source_id@, row_key@))
                    && self@.snapshots[(source_id@, row_key@)] == record@,
                None => !self@.snapshots.contains_key((source_id@, row_key@)),
            },
    {
        match self.position(source_id, row_key) {
            Some(i) => {
                proof {
                    let key = (source_id@, row_key@);
                    assert(has_key(self.snapshots@, key));
                    assert(place_of(self.snapshots@, key) == i);
                }
                Some(&self.snapshots[i])
            },
            None => None,
        }
    }

    /// Stores a snapshot, in place of an earlier one of the same source row.
    pub fn put_snapshot(&mut self, record: SnapshotRecord)
        requires
            old(self).wf(),
        ensures
            final(self).wf(),
            final(self)@ == old(self)@.put(record@),
    {
        let ghost before = self.snapshots@;
        let ghost key = record@.key();
        match self.position(record.source_id.as_str(), record.row_key.as_str()) {
            Some(i) => {
                self.snapshots.set(i, record);
                proof {
                    let after = self.snapshots@;
                    assert(has_key(before, key)) by {
                        assert(before[i as int]@.key() == key);
                    }
                    assert forall|k: (Seq<char>, Seq<char>)| has_key(after, k) implies #[trigger] has_key(
                        before,
                        k,
                    ) && (k != key ==> after[place_of(after, k)] == before[place_of(before, k)])
                        && (k == key ==> place_of(after, k) == i) by {
                        let p = place_of(after, k);
                        assert(before[p]@.key() == after[p]@.key());
                        assert(place_of(before, k) == p);
                        assert(after[i as int]@.key() == key);
                    }
                    assert forall|k: (Seq<char>, Seq<char>)| has_key(before, k) implies #[trigger] has_key(
                        after,
                        k,
                    ) by {
                        let p = place_of(before, k);
                        assert(after[p]@.key() == before[p]@.key());
                    }
                    assert(by_key(after) =~= by_key(before).insert(key, record@));
                }
            },
            None => {
                self.snapshots.push(record);
                proof {
                    let after = self.snapshots@;
                    let n = before.len() as int;
                    assert(after[n]@.key() == key);
                    assert forall|k: (Seq<char>, Seq<char>)| has_key(before, k) implies #[trigger] has_key(
                        after,
                        k,
                    ) && after[place_of(after, k)] == before[place_of(before, k)] by {
                        let p = place_of(before, k);
                        assert(after[p] == before[p]);
                        assert(has_key(after, k));
                        let q = place_of(after, k);
                        if q < n {
                            assert(before[q]@.key() == k);
                        }
                    }
                    assert forall|k: (Seq<char>, Seq<char>)|
                        #[trigger] has_key(after, k) && k != key implies has_key(before, k) by {
                        let q = place_of(after, k);
                        assert(before[q] == after[q]);
                    }
                    assert(has_key(after, key));
                    let q = place_of(after, key);
                    if q < n {
                        assert(before[q]@.key() == key);
                    }
                    assert(by_key(after) =~= by_key(before).insert(key, record@));
                }
            },
        }
    }

    /// Stores one more delta.
    pub fn push_delta(&mut self, record: DeltaRecord)
        requires
            old(self).wf(),
        ensures
            final(self).wf(),
            final(self)@ == old(self)@.record(record@),
    {
        self.deltas.push(record);
        assert(delta_views(self.deltas@) =~= delta_views(old(self).deltas@).push(record@));
    }

    /// All snapshots, in no particular order.
    pub fn snapshots(&self) -> (r: &Vec<SnapshotRecord>)
        requires
            self.wf(),
        ensures
            forall|i: int|
                0 <= i < r@.len() ==> self@.snapshots.contains_key((#[trigger] r@[i])@.key())
                    && self@.snapshots[r@[i]@.key()] == r@[i]@,
            forall|key: (Seq<char>, Seq<char>)| #[trigger]
                self@.snapshots.contains_key(key) ==> exists|i: int|
                    0 <= i < r@.len() && (#[trigger] r@[i])@.key() == key,
    {
        proof {
            let records = self.snapshots@;
            assert forall|i: int| 0 <= i < records.len() implies self@.snapshots.contains_key(
                (#[trigger] records[i])@.key(),
            ) && self@.snapshots[records[i]@.key()] == records[i]@ by {
                assert(has_key(records, records[i]@.key()));
                assert(place_of(records, records[i]@.key()) == i);
            }
        }
        &self.snapshots
    }

    /// All deltas, in the order in which they were stored.
    pub fn deltas(&self) -> (r: &Vec<DeltaRecord>)
        ensures
            delta_views(r@) == self@.deltas,
    {
        &self.deltas
    }

    /// The same store once more.
    pub fn duplicate(&self) -> (r: UsageStore)
        requires
            self.wf(),
        ensures
            r.wf(),
            r@ == self@,
    {
        let mut snapshots: Vec<SnapshotRecord> = Vec::new();
        let mut i: usize = 0;
        while i < self.snapshots.len()
            invariant
                i <= self.snapshots@.len(),
                snapshots@.len() == i,
                forall|j: int| 0 <= j < i ==> (#[trigger] snapshots@[j])@ == self.snapshots@[j]@,
            decreases self.snapshots@.len() - i,
        {
            snapshots.push(self.snapshots[i].duplicate());
            i = i + 1;
        }
        let mut deltas: Vec<DeltaRecord> = Vec::new();
        let mut k: usize = 0;
        while k < self.deltas.len()
            invariant
                k <= self.deltas@.len(),
                deltas@.len() == k,
                forall|j: int| 0 <= j < k ==> (#[trigger] deltas@[j])@ == self.deltas@[j]@,
            decreases self.deltas@.len() - k,
        {
            deltas.push(self.deltas[k].duplicate());
            k = k + 1;
        }
        let store = UsageStore { snapshots, deltas };
        proof {
            let (a, b) = (self.snapshots@, store.snapshots@);
            assert forall|i: int, j: int|
                0 <= i < b.len() && 0 <= j < b.len() && (#[trigger] b[i])@.key() == (
                #[trigger] b[j])@.key() implies i == j by {
                assert(a[i]@.key() == b[i]@.key() && a[j]@.key() == b[j]@.key());
            }
            assert forall|key: (Seq<char>, Seq<char>)| #[trigger] has_key(a, key) implies has_key(
                b,
                key,
            ) && a[place_of(a, key)]@ == b[place_of(b, key)]@ by {
                let p = place_of(a, key);
                assert(b[p]@.key() == key);
                assert(a[place_of(b, key)]@.key() == key);
            }
            assert forall|key: (Seq<char>, Seq<char>)| #[trigger] has_key(b, key) implies has_key(
                a,
                key,
            ) by {
                let p = place_of(b, key);
                assert(a[p]@.key() == key);
            }
            assert(by_key(b) =~= by_key(a));
            assert(delta_views(store.deltas@) =~= delta_views(self.deltas@));
        }
        store
    }
}

} // verus!
