use hermes_usage::cost::Cost;
use hermes_usage::digest::FileIdentity;
use hermes_usage::discover::{
    HermesDatabaseSource, ProfileListing, RootListing, SourcePlace,
};
use hermes_usage::error::AppError;
use hermes_usage::import::{
    can_import, import_origin, insert_delta, load_snapshot, try_import_hermes_database,
    write_snapshot, ImportOrigin, SourceContents,
};
use hermes_usage::query::{
    query_hermes_deltas, try_query_hermes_aggregate, HermesAggregate, HermesDeltaRow,
    HermesUsageFilters, HERMES_AGGREGATE_EXPLANATION,
};
use hermes_usage::reader::SourceTables;
use hermes_usage::snapshot::{
    counters_regressed, CostDeltaKind, HermesSnapshotDelta, HermesSnapshotState,
};
use hermes_usage::source::{parse_hermes_source_row, HermesSourceRow, UsageRecord};
use hermes_usage::store::{DeltaRecord, UsageStore};
use hermes_usage::sync::{can_sync, try_sync_hermes_usage_at_root, SessionSyncResult};
use hermes_usage::value::SourceValue;

fn text(s: &str) -> SourceValue {
    SourceValue::Text(s.as_bytes().to_vec())
}

fn record(session: &str, calls: i64, estimated: &str) -> UsageRecord {
    UsageRecord {
        session_id: text(session),
        model: text("Model-A"),
        billing_provider: text("provider"),
        billing_base_url: SourceValue::Null,
        billing_mode: SourceValue::Null,
        task: text("task"),
        api_call_count: SourceValue::Integer(calls),
        input_tokens: SourceValue::Integer(0),
        output_tokens: SourceValue::Null,
        cache_read_tokens: SourceValue::Null,
        cache_write_tokens: SourceValue::Null,
        reasoning_tokens: SourceValue::Null,
        estimated_cost_usd: text(estimated),
        actual_cost_usd: SourceValue::Null,
        cost_status: SourceValue::Null,
        cost_source: SourceValue::Null,
        first_seen: SourceValue::Null,
        last_seen: SourceValue::Null,
    }
}

fn contents(records: Vec<UsageRecord>) -> SourceContents {
    SourceContents {
        identity: FileIdentity::Unix { device: 1, inode: 2, birth: Some((1_700_000_000, 5)) },
        tables: SourceTables { has_usage_table: true, records, failure: None, sessions: None },
    }
}

fn source() -> HermesDatabaseSource {
    HermesDatabaseSource {
        profile_name: "default".to_string(),
        path: "/home/h/state.db".to_string(),
        place: SourcePlace::Root,
    }
}

fn row(calls: i64, estimated: &str) -> HermesSourceRow {
    parse_hermes_source_row(&record("s", calls, estimated)).unwrap()
}

fn origin() -> ImportOrigin {
    import_origin(&source(), &contents(Vec::new()).identity)
}

fn state(calls: i64, baseline: Cost, balance: Cost) -> HermesSnapshotState {
    HermesSnapshotState {
        api_call_count: calls,
        input_tokens: 0,
        output_tokens: 0,
        cache_read_tokens: 0,
        cache_write_tokens: 0,
        reasoning_tokens: 0,
        selected_cost_usd: Cost::new(3, 0),
        cost_baseline_usd: baseline,
        emitted_cost_balance_usd: balance,
        observed_at: 1,
    }
}

#[test]
fn origin_digests_application_profile_path_and_incarnation() {
    let o = origin();
    assert_eq!(o.profile_name, "default");
    assert_eq!(
        o.source_incarnation,
        "21b9c4442785e2529702b6bd0a76cc289158df9447607499b1a381c46b982250"
    );
    assert_eq!(
        o.source_id,
        "cbbcfa7d0a39f244cdc25b234171e73db265dda6110cf3391efa5d83cae22140"
    );
}

#[test]
fn snapshot_is_written_and_read_back() {
    let mut store = UsageStore::new();
    let (o, r) = (origin(), row(4, "2.5"));
    assert!(load_snapshot(&store, &o.source_id, &r.row_key).unwrap().is_none());
    write_snapshot(&mut store, &o, &r, Cost::new(1, 0), Cost::new(15, 1), 77);
    let s = load_snapshot(&store, &o.source_id, &r.row_key).unwrap().unwrap();
    assert_eq!(s.api_call_count, 4);
    assert_eq!(s.selected_cost_usd, Cost::new(25, 1));
    assert_eq!(s.cost_baseline_usd, Cost::new(1_000_000, 6));
    assert_eq!(s.emitted_cost_balance_usd, Cost::new(1_500_000, 6));
    assert_eq!(s.observed_at, 77);
    let stored = store.find_snapshot(&o.source_id, &r.row_key).unwrap();
    assert_eq!(stored.estimated_cost_usd, "2.5");
    assert_eq!(stored.actual_cost_usd, None);
    assert_eq!(stored.cost_baseline_usd, "1.000000");
    assert_eq!(stored.selected_cost_kind, "estimated");
    assert_eq!(stored.billing_mode, "");

    // The same row again takes the place of the first.
    write_snapshot(&mut store, &o, &row(9, "2.5"), Cost::zero(), Cost::zero(), 78);
    assert_eq!(store.snapshots().len(), 1);
    assert_eq!(
        load_snapshot(&store, &o.source_id, &r.row_key).unwrap().unwrap().api_call_count,
        9
    );
    assert!(store.find_snapshot("other", &r.row_key).is_none());
}

#[test]
fn damaged_snapshot_is_refused_and_the_import_changes_nothing() {
    let (o, r) = (origin(), row(4, "2.5"));
    let mut store = UsageStore::new();
    write_snapshot(&mut store, &o, &r, Cost::zero(), Cost::zero(), 1);
    let mut damaged = store.snapshots()[0].duplicate();
    damaged.cost_baseline_usd = "-1".to_string();
    let mut store = UsageStore::new();
    store.put_snapshot(damaged);
    assert_eq!(
        load_snapshot(&store, &o.source_id, &r.row_key).unwrap_err().message(),
        "Hermes cost_baseline_usd 不能为负数"
    );

    // The first row could be imported; with the second failing, neither is.
    let outcome = try_import_hermes_database(
        &mut store,
        &source(),
        &contents(vec![record("new", 1, "1"), record("s", 5, "3")]),
        100,
    );
    assert!(outcome.unwrap().is_err());
    assert_eq!(store.snapshots().len(), 1);
    assert_eq!(store.snapshots()[0].observed_at, 1);
    assert_eq!(store.deltas().len(), 0);
}

#[test]
fn differences_follow_the_cost_above_the_baseline() {
    let now = |calls: i64, selected: Cost| HermesSnapshotState {
        selected_cost_usd: selected,
        ..state(calls, Cost::zero(), Cost::zero())
    };
    let known = state(2, Cost::new(1, 0), Cost::new(2, 0));
    let d = HermesSnapshotDelta::between(&known, &now(3, Cost::new(5, 0))).unwrap();
    assert_eq!(d.api_call_count, 1);
    assert_eq!(d.cost_usd, Cost::new(2, 0));
    assert_eq!(d.emitted_cost_balance_usd, Cost::new(4, 0));
    assert_eq!(d.cost_delta_kind, CostDeltaKind::Increase);
    assert_eq!(d.cost_delta_kind.as_str(), "increase");
    assert!(d.has_usage());

    let d = HermesSnapshotDelta::between(&known, &now(2, Cost::new(5, 1))).unwrap();
    assert_eq!(d.cost_usd, Cost::new(-2, 0));
    assert_eq!(d.emitted_cost_balance_usd, Cost::zero());
    assert_eq!(d.cost_delta_kind.as_str(), "reconciliation");
    assert!(d.has_usage());

    let d = HermesSnapshotDelta::between(&known, &now(2, Cost::new(3, 0))).unwrap();
    assert_eq!(d.cost_delta_kind.as_str(), "none");
    assert!(!d.has_usage());

    assert!(counters_regressed(&known, &now(1, Cost::zero())));
    assert!(!counters_regressed(&known, &now(2, Cost::zero())));
}

#[test]
fn overflowing_difference_names_the_counter() {
    let known = HermesSnapshotState {
        cache_read_tokens: -2,
        ..state(0, Cost::zero(), Cost::zero())
    };
    let now = HermesSnapshotState { cache_read_tokens: i64::MAX, ..known };
    assert_eq!(
        HermesSnapshotDelta::between(&known, &now).unwrap_err().message(),
        "计算 Hermes 缓存读取 token delta 溢出"
    );
}

#[test]
fn cost_of_too_many_digits_is_not_imported() {
    let most = "79228162514264337593543950335";
    let mut store = UsageStore::new();
    assert!(!can_import(&store, &source(), &contents(vec![record("s", 1, most)]), 100));
    let outcome = try_import_hermes_database(
        &mut store,
        &source(),
        &contents(vec![record("s", 1, most)]),
        100,
    );
    assert!(outcome.is_none());
    assert_eq!(store.snapshots().len(), 0);
    let listing = RootListing {
        exists: true,
        state_db: Some("/home/h/state.db".to_string()),
        profiles: ProfileListing::Absent,
    };
    let read = vec![Ok(contents(vec![record("s", 1, most)]))];
    assert!(!can_sync(&store, &listing, &read, 100));
    assert!(try_sync_hermes_usage_at_root(&mut store, &listing, &read, 100).is_none());
    let widest = "9999999999999999999999999";
    let outcome = try_import_hermes_database(
        &mut store,
        &source(),
        &contents(vec![record("s", 1, widest)]),
        100,
    );
    assert_eq!(outcome.unwrap().unwrap(), (0, 1));
    assert_eq!(
        store.snapshots()[0].cost_baseline_usd,
        "9999999999999999999999999.000000"
    );
}

#[test]
fn each_row_is_counted_once() {
    let mut store = UsageStore::new();
    let import = |store: &mut UsageStore, calls: [i64; 3], at: i64| {
        let records = vec![
            record("a", calls[0], "1"),
            record("b", calls[1], "1"),
            record("c", calls[2], "1"),
        ];
        try_import_hermes_database(store, &source(), &contents(records), at).unwrap().unwrap()
    };
    assert_eq!(import(&mut store, [1, 1, 1], 100), (0, 3));
    assert_eq!(import(&mut store, [2, 1, 3], 200), (2, 1));
    let windows: Vec<(i64, i64, i64)> = store
        .deltas()
        .iter()
        .map(|d| (d.sync_window_start, d.sync_window_end, d.api_call_count))
        .collect();
    assert_eq!(windows, vec![(100, 200, 1), (100, 200, 2)]);
    assert_eq!(import(&mut store, [2, 1, 3], 300), (0, 3));
    let ended = store.snapshots().iter().filter(|s| s.observed_at == 300).count();
    assert_eq!(ended, 3);
}

#[test]
fn reports_saturate() {
    let mut report = SessionSyncResult {
        imported: u32::MAX - 1,
        skipped: 0,
        files_scanned: 2,
        errors: Vec::new(),
    };
    report.record("a", Ok((5, 7)));
    report.record("b", Err(AppError::Config("no".to_string())));
    assert_eq!(report.imported, u32::MAX);
    assert_eq!(report.skipped, 7);
    assert_eq!(report.files_scanned, 2);
    assert_eq!(report.errors, vec!["Hermes Profile 'b' 同步失败: no".to_string()]);
}

fn delta(window: (i64, i64), calls: i64, cost: &str) -> DeltaRecord {
    let mut store = UsageStore::new();
    let d = HermesSnapshotDelta {
        api_call_count: 1,
        input_tokens: 2,
        output_tokens: 3,
        cache_read_tokens: 4,
        cache_write_tokens: 5,
        reasoning_tokens: 6,
        cost_usd: Cost::new(1, 0),
        emitted_cost_balance_usd: Cost::new(1, 0),
        cost_delta_kind: CostDeltaKind::Increase,
    };
    insert_delta(&mut store, &origin(), &row(1, "1"), &d, window.0, window.1);
    let mut record = store.deltas()[0].duplicate();
    record.api_call_count = calls;
    record.cost_usd = cost.to_string();
    record
}

fn filled(deltas: Vec<DeltaRecord>) -> UsageStore {
    let mut store = UsageStore::new();
    for d in deltas {
        store.push_delta(d);
    }
    store
}

fn calls(store: &UsageStore, filters: HermesUsageFilters<'_>) -> Vec<u64> {
    query_hermes_deltas(store, filters).unwrap().iter().map(|r| r.api_call_count).collect()
}

#[test]
fn stored_delta_reads_back() {
    let store = filled(vec![delta((10, 20), 1, "-0.25")]);
    let rows = query_hermes_deltas(&store, HermesUsageFilters::default()).unwrap();
    assert_eq!(rows.len(), 1);
    let r = &rows[0];
    assert_eq!((r.provider.as_str(), r.model.as_str()), ("provider", "Model-A"));
    assert_eq!(r.sync_window_end, 20);
    assert_eq!(
        [
            r.api_call_count,
            r.input_tokens,
            r.output_tokens,
            r.cache_read_tokens,
            r.cache_write_tokens,
            r.reasoning_tokens
        ],
        [1, 2, 3, 4, 5, 6]
    );
    assert_eq!(r.cost_usd, Cost::new(-25, 2));
    let d = &store.deltas()[0];
    assert_eq!(d.data_source, "hermes_session");
    assert_eq!(d.precision, "aggregate_delta");
    assert_eq!(d.cost_kind, "estimated");
    assert_eq!(d.cost_delta_kind, "increase");
}

#[test]
fn queries_are_ordered_by_window_end_then_by_age() {
    let store = filled(vec![
        delta((0, 30), 1, "0"),
        delta((0, 10), 2, "0"),
        delta((0, 30), 3, "0"),
        delta((0, 20), 4, "0"),
        delta((0, 10), 5, "0"),
    ]);
    assert_eq!(calls(&store, HermesUsageFilters::default()), vec![2, 5, 4, 1, 3]);
}

#[test]
fn dates_ask_for_windows_that_overlap() {
    let store = filled(vec![
        delta((0, 10), 1, "0"),
        delta((10, 20), 2, "0"),
        delta((20, 30), 3, "0"),
        delta((31, 40), 4, "0"),
    ]);
    let range = |start_date: Option<i64>, end_date: Option<i64>| {
        calls(&store, HermesUsageFilters { start_date, end_date, ..HermesUsageFilters::default() })
    };
    assert_eq!(range(Some(20), Some(30)), vec![2, 3]);
    assert_eq!(range(Some(21), Some(30)), vec![3]);
    assert_eq!(range(Some(5), Some(5)), vec![1]);
    assert_eq!(range(None, Some(10)), vec![1, 2]);
    assert_eq!(range(Some(31), None), vec![4]);
    assert_eq!(range(Some(41), None), Vec::<u64>::new());
}

#[test]
fn dimensions_are_filtered() {
    let mut other = delta((0, 10), 2, "0");
    other.provider = "elsewhere".to_string();
    other.profile_name = "one".to_string();
    other.task = "title".to_string();
    other.model = "b".to_string();
    let mut foreign = delta((0, 10), 3, "0");
    foreign.data_source = "codex".to_string();
    let mut exact = delta((0, 10), 4, "0");
    exact.precision = "request".to_string();
    let store = filled(vec![delta((0, 10), 1, "0"), other, foreign, exact]);
    let all = HermesUsageFilters::default;
    assert_eq!(calls(&store, all()), vec![1, 2]);
    assert_eq!(
        calls(&store, HermesUsageFilters { provider: Some("elsewhere"), ..all() }),
        vec![2]
    );
    assert_eq!(
        calls(&store, HermesUsageFilters { profile_name: Some("default"), ..all() }),
        vec![1]
    );
    assert_eq!(calls(&store, HermesUsageFilters { task: Some("title"), ..all() }), vec![2]);
    assert_eq!(calls(&store, HermesUsageFilters { model: Some("MODEL-a"), ..all() }), vec![1]);
    assert_eq!(
        calls(&store, HermesUsageFilters { provider: Some("PROVIDER"), ..all() }),
        Vec::<u64>::new()
    );
}

#[test]
fn unreadable_deltas_fail_the_query() {
    let store = filled(vec![delta((0, 20), 1, "x"), delta((0, 10), -1, "0")]);
    assert_eq!(
        query_hermes_deltas(&store, HermesUsageFilters::default()).unwrap_err().message(),
        "Hermes api_call_count 不能为负数"
    );
    let later = HermesUsageFilters { start_date: Some(15), ..HermesUsageFilters::default() };
    assert!(query_hermes_deltas(&store, later)
        .unwrap_err()
        .message()
        .starts_with("Hermes cost_usd 不是有效成本: "));
    assert!(try_query_hermes_aggregate(&store, later).unwrap().is_err());
}

#[test]
fn totals_are_sums() {
    let store = filled(vec![
        delta((0, 10), 1, "0.5"),
        delta((0, 20), 2, "0.25"),
        delta((0, 30), 3, "-1"),
    ]);
    let total =
        try_query_hermes_aggregate(&store, HermesUsageFilters::default()).unwrap().unwrap();
    assert_eq!(total.request_count, 6);
    assert_eq!(total.input_tokens, 6);
    assert_eq!(total.output_tokens, 9);
    assert_eq!(total.cache_read_tokens, 12);
    assert_eq!(total.cache_write_tokens, 15);
    assert_eq!(total.reasoning_tokens, 18);
    assert_eq!(total.cost_usd, Cost::new(-25, 2));
    let none = try_query_hermes_aggregate(
        &UsageStore::new(),
        HermesUsageFilters::default(),
    )
    .unwrap()
    .unwrap();
    assert_eq!(none.request_count, 0);
    assert_eq!(none.cost_usd, Cost::zero());
    assert!(HERMES_AGGREGATE_EXPLANATION.starts_with("Hermes usage is imported from cumulative"));
}

fn delta_row(calls: u64, output: u64, cost_usd: Cost) -> HermesDeltaRow {
    HermesDeltaRow {
        provider: String::new(),
        model: String::new(),
        sync_window_end: 0,
        api_call_count: calls,
        input_tokens: 1,
        output_tokens: output,
        cache_read_tokens: 1,
        cache_write_tokens: 1,
        reasoning_tokens: 1,
        cost_usd,
    }
}

#[test]
fn overflowing_total_names_the_counter_and_keeps_what_was_added_before() {
    let mut total = HermesAggregate::default();
    total.add_row(&delta_row(3, u64::MAX, Cost::new(1, 0))).unwrap();
    let error = total.add_row(&delta_row(4, 1, Cost::new(1, 0))).unwrap_err();
    assert_eq!(error.message(), "汇总 Hermes 输出 token 溢出");
    assert_eq!(total.request_count, 7);
    assert_eq!(total.input_tokens, 2);
    assert_eq!(total.output_tokens, u64::MAX);
    assert_eq!(total.cache_read_tokens, 1);
    assert_eq!(total.cost_usd, Cost::new(1, 0));
}

#[test]
fn overflowing_cost_is_not_added() {
    let most = Cost { negative: false, magnitude: (1 << 96) - 1, scale: 0 };
    let mut total = HermesAggregate::default();
    assert!(total.try_add_row(&delta_row(1, 1, most)).unwrap().is_ok());
    assert!(total.try_add_row(&delta_row(1, 1, Cost::new(1, 0))).is_none());
    assert_eq!(total.request_count, 1);
    assert_eq!(total.cost_usd, most);
    let store = filled(vec![
        delta((0, 10), 1, "79228162514264337593543950335"),
        delta((0, 10), 1, "1"),
    ]);
    assert!(try_query_hermes_aggregate(&store, HermesUsageFilters::default()).is_none());
}

#[test]
fn copies_of_a_store_are_independent() {
    let mut store = filled(vec![delta((0, 10), 1, "0")]);
    let copy = store.duplicate();
    store.push_delta(delta((0, 10), 2, "0"));
    assert_eq!(store.deltas().len(), 2);
    assert_eq!(copy.deltas().len(), 1);
    assert_eq!(copy.deltas()[0].provider, "provider");
}
