use hermes_usage::cost::{select_source_cost, Cost};
use hermes_usage::digest::{source_file_incarnation, FileIdentity};
use hermes_usage::discover::{
    discover_hermes_databases, ProfileEntry, ProfileListing, RootListing,
};
use hermes_usage::error::AppError;
use hermes_usage::import::SourceContents;
use hermes_usage::query::{try_query_hermes_aggregate, HermesUsageFilters};
use hermes_usage::reader::{
    read_hermes_database, require_query_only, SessionRecord, SessionTable, SourceTables,
};
use hermes_usage::source::UsageRecord;
use hermes_usage::store::UsageStore;
use hermes_usage::sync::{try_sync_hermes_usage_at_root, SessionSyncResult};
use hermes_usage::value::SourceValue;
use rust_decimal::Decimal;

fn text(s: &str) -> SourceValue {
    SourceValue::Text(s.as_bytes().to_vec())
}

fn optional(s: Option<&str>) -> SourceValue {
    match s {
        Some(s) => text(s),
        None => SourceValue::Null,
    }
}

fn record(
    task: &str,
    counters: [i64; 6],
    estimated: &str,
    actual: Option<&str>,
    status: &str,
) -> UsageRecord {
    UsageRecord {
        session_id: text("session-1"),
        model: text("model-a"),
        billing_provider: text("provider-a"),
        billing_base_url: text("https://private.example/v1"),
        billing_mode: text("chat"),
        task: text(task),
        api_call_count: SourceValue::Integer(counters[0]),
        input_tokens: SourceValue::Integer(counters[1]),
        output_tokens: SourceValue::Integer(counters[2]),
        cache_read_tokens: SourceValue::Integer(counters[3]),
        cache_write_tokens: SourceValue::Integer(counters[4]),
        reasoning_tokens: SourceValue::Integer(counters[5]),
        estimated_cost_usd: text(estimated),
        actual_cost_usd: optional(actual),
        cost_status: text(status),
        cost_source: text("hermes"),
        first_seen: text("2026-08-03T00:00:00Z"),
        last_seen: text("2026-08-03T00:01:00Z"),
    }
}

fn initial(task: &str) -> UsageRecord {
    record(task, [1, 100, 50, 10, 20, 7], "1.000000", None, "estimated")
}

fn tables(records: Vec<UsageRecord>) -> SourceTables {
    SourceTables { has_usage_table: true, records, failure: None, sessions: None }
}

fn file(inode: u64) -> FileIdentity {
    FileIdentity::Unix { device: 1, inode, birth: Some((1_700_000_000, 5)) }
}

type Reading = (String, Result<SourceContents, AppError>);

fn reading(profile_name: &str, inode: u64, tables: SourceTables) -> Reading {
    (profile_name.to_string(), Ok(SourceContents { identity: file(inode), tables }))
}

fn home(readings: &[Reading]) -> RootListing {
    RootListing {
        exists: true,
        state_db: if readings.iter().any(|r| r.0 == "default") {
            Some("/hermes/state.db".to_string())
        } else {
            None
        },
        profiles: ProfileListing::Entries(
            readings
                .iter()
                .rev()
                .filter(|r| r.0 != "default")
                .map(|r| {
                    Ok(ProfileEntry {
                        name: r.0.clone(),
                        is_dir: true,
                        state_db: Some(format!("/hermes/profiles/{}/state.db", r.0)),
                    })
                })
                .collect(),
        ),
    }
}

fn run_sync(store: &mut UsageStore, mut readings: Vec<Reading>, at: i64) -> SessionSyncResult {
    readings.sort_by_key(|r| r.0.clone());
    let listing = home(&readings);
    let contents = readings.into_iter().map(|r| r.1).collect();
    try_sync_hermes_usage_at_root(store, &listing, &contents, at).unwrap().unwrap()
}

fn sync_one(store: &mut UsageStore, record: UsageRecord, at: i64) -> SessionSyncResult {
    run_sync(store, vec![reading("default", 2, tables(vec![record]))], at)
}

fn delta_costs(store: &UsageStore) -> Vec<String> {
    store.deltas().iter().map(|d| d.cost_usd.clone()).collect()
}

fn net_cost(store: &UsageStore) -> f64 {
    store.deltas().iter().map(|d| d.cost_usd.parse::<f64>().unwrap()).sum()
}

fn decimal(c: &Cost) -> Decimal {
    let mut d = Decimal::from_i128_with_scale(c.magnitude as i128, c.scale);
    d.set_sign_negative(c.negative);
    d
}

#[test]
fn discovers_default_and_immediate_named_profiles_only() {
    let entry = |name: &str, is_dir: bool, state_db: bool| {
        Ok(ProfileEntry {
            name: name.to_string(),
            is_dir,
            state_db: if state_db { Some(format!("profiles/{name}/state.db")) } else { None },
        })
    };
    let listing = RootListing {
        exists: true,
        state_db: Some("state.db".to_string()),
        profiles: ProfileListing::Entries(vec![
            entry("two", true, true),
            entry("unrelated.sqlite", false, false),
            entry("deep", true, false),
            entry("one", true, true),
        ]),
    };
    let sources = discover_hermes_databases(&listing).unwrap();
    let labels: Vec<_> = sources.iter().map(|source| source.profile_name.as_str()).collect();
    assert_eq!(labels, vec!["default", "one", "two"]);
    let paths: Vec<_> = sources.iter().map(|source| source.path.as_str()).collect();
    assert_eq!(paths, vec!["state.db", "profiles/one/state.db", "profiles/two/state.db"]);
}

#[test]
fn opens_read_only_and_sees_committed_wal_data() {
    let read_only = rusqlite::Connection::open_in_memory().unwrap();
    read_only.execute_batch("PRAGMA query_only = ON;").unwrap();
    let query_only: i64 =
        read_only.query_row("PRAGMA query_only;", [], |row| row.get(0)).unwrap();
    assert_eq!(query_only, 1);
    assert!(require_query_only(query_only).is_ok());
    assert!(read_only
        .execute("CREATE TABLE should_not_be_created (id INTEGER)", [])
        .is_err());

    let rows = read_hermes_database(&tables(vec![record(
        "wal-task",
        [4, 400, 50, 10, 20, 7],
        "2.000000",
        None,
        "estimated",
    )]))
    .unwrap();
    assert_eq!(rows.len(), 1);
    assert_eq!(rows[0].api_call_count, 4);
    assert_eq!(rows[0].task, "wal-task");
}

#[test]
fn first_sync_baselines_then_imports_exact_delta_and_is_idempotent() {
    let mut db = UsageStore::new();

    let first = sync_one(&mut db, initial("task-a"), 100);
    assert_eq!(first.imported, 0);
    assert_eq!(first.errors.len(), 0);

    let update = || record("task-a", [4, 400, 80, 15, 25, 12], "2.000000", None, "estimated");
    let second = sync_one(&mut db, update(), 200);
    assert_eq!(second.imported, 1);

    let d = &db.deltas()[0];
    assert_eq!(
        (
            d.api_call_count,
            d.input_tokens,
            d.output_tokens,
            d.cache_read_tokens,
            d.cache_write_tokens,
            d.reasoning_tokens,
            d.cost_usd.clone()
        ),
        (3, 300, 30, 5, 5, 5, "1.000000".to_string())
    );

    let repeated = sync_one(&mut db, update(), 300);
    assert_eq!(repeated.imported, 0);
    assert_eq!(db.deltas().len(), 1);
}

#[test]
fn identical_rows_in_profiles_do_not_collide() {
    let mut db = UsageStore::new();
    run_sync(
        &mut db,
        vec![
            reading("default", 2, tables(vec![initial("same-task")])),
            reading("one", 3, tables(vec![initial("same-task")])),
        ],
        100,
    );
    let update = record("same-task", [3, 200, 70, 15, 20, 10], "1.500000", None, "estimated");
    let result = run_sync(
        &mut db,
        vec![
            reading("default", 2, tables(vec![initial("same-task")])),
            reading("one", 3, tables(vec![update])),
        ],
        200,
    );
    assert_eq!(result.imported, 1);
    let mut profiles: Vec<String> =
        db.snapshots().iter().map(|s| s.profile_name.clone()).collect();
    profiles.sort();
    assert_eq!(profiles, vec!["default", "one"]);
}

#[test]
fn replacing_database_at_same_path_starts_new_baseline() {
    let mut db = UsageStore::new();
    run_sync(&mut db, vec![reading("default", 2, tables(vec![initial("task-a")]))], 100);
    let result =
        run_sync(&mut db, vec![reading("default", 4, tables(vec![initial("task-a")]))], 200);
    assert_eq!(result.imported, 0);
    assert_eq!(db.deltas().len(), 0);
    let mut incarnations: Vec<&str> =
        db.snapshots().iter().map(|s| s.source_incarnation.as_str()).collect();
    incarnations.sort();
    incarnations.dedup();
    assert_eq!(incarnations.len(), 2);
}

#[test]
fn source_file_incarnation_is_stable_for_updates_and_changes_for_replacement() {
    let identity = |creation_time: u64| FileIdentity::Windows {
        volume: 7,
        index_high: 1,
        index_low: 10,
        creation_time,
    };
    let first = source_file_incarnation(&identity(10));
    assert_eq!(first, source_file_incarnation(&identity(10)));
    assert_ne!(first, source_file_incarnation(&identity(11)));
}

#[test]
fn regression_resets_baseline_without_negative_delta() {
    let mut db = UsageStore::new();
    sync_one(&mut db, initial("task-a"), 100);
    let regression = sync_one(
        &mut db,
        record("task-a", [0, 20, 10, 1, 2, 1], "0.100000", None, "estimated"),
        200,
    );
    assert_eq!(regression.imported, 0);
    let after_reset = sync_one(
        &mut db,
        record("task-a", [2, 30, 20, 2, 3, 2], "0.200000", None, "estimated"),
        300,
    );
    assert_eq!(after_reset.imported, 1);
    assert_eq!(db.deltas().len(), 1);
    let d = &db.deltas()[0];
    assert_eq!((d.api_call_count, d.cost_usd.clone()), (2, "0.100000".to_string()));
}

#[test]
fn cost_transition_uses_selected_cumulative_cost_once() {
    let mut db = UsageStore::new();
    sync_one(&mut db, initial("task-a"), 100);
    sync_one(
        &mut db,
        record("task-a", [2, 110, 55, 11, 21, 8], "1.000000", Some("1.200000"), "actual"),
        200,
    );
    sync_one(
        &mut db,
        record("task-a", [3, 120, 60, 12, 22, 9], "1.500000", Some("1.200000"), "actual"),
        300,
    );
    assert_eq!(db.deltas().len(), 2);
    assert_eq!(net_cost(&db), 0.2);
}

#[test]
fn actual_cost_reconciliation_rolls_back_previously_imported_estimate() {
    let mut db = UsageStore::new();

    // The first estimate of one dollar is a baseline and is not imported.
    sync_one(&mut db, initial("task-a"), 100);
    let counters = [2, 110, 55, 11, 21, 8];
    let estimate = record("task-a", counters, "3.000000", None, "estimated");
    assert_eq!(sync_one(&mut db, estimate, 200).imported, 1);

    // The cost is settled at two dollars: one of the two that were imported is taken back, without
    // negative calls or tokens.
    let settled = record("task-a", counters, "3.000000", Some("2.000000"), "actual");
    assert_eq!(sync_one(&mut db, settled, 300).imported, 1);

    let deltas: Vec<(i64, i64, String)> = db
        .deltas()
        .iter()
        .map(|d| (d.api_call_count, d.input_tokens, d.cost_usd.clone()))
        .collect();
    assert_eq!(
        deltas,
        vec![(1, 10, "2.000000".to_string()), (0, 0, "-1.000000".to_string())]
    );
    assert_eq!(net_cost(&db), 1.0);

    let adjustment_window = try_query_hermes_aggregate(
        &db,
        HermesUsageFilters {
            start_date: Some(201),
            end_date: Some(300),
            provider: None,
            model: None,
            profile_name: None,
            task: None,
        },
    )
    .unwrap()
    .unwrap();
    assert_eq!(adjustment_window.request_count, 0);
    assert_eq!(decimal(&adjustment_window.cost_usd), Decimal::NEGATIVE_ONE);
}

#[test]
fn actual_cost_reconciliation_never_rolls_back_unimported_baseline() {
    let mut db = UsageStore::new();
    let counters = [2, 110, 55, 11, 21, 8];
    let settled = |actual: &str| record("task-a", counters, "3.000000", Some(actual), "actual");

    // The baseline of one dollar is left out of the totals.
    sync_one(&mut db, initial("task-a"), 100);
    let estimate = record("task-a", counters, "3.000000", None, "estimated");
    assert_eq!(sync_one(&mut db, estimate, 200).imported, 1);

    // A correction to nothing takes back the two dollars above the baseline, and not the baseline.
    assert_eq!(sync_one(&mut db, settled("0.000000"), 300).imported, 1);
    assert_eq!(delta_costs(&db), vec!["2.000000".to_string(), "-2.000000".to_string()]);
    assert_eq!(net_cost(&db), 0.0);
    assert_eq!(db.snapshots()[0].emitted_cost_balance_usd, "0.000000");
    assert_eq!(db.deltas()[1].cost_delta_kind, "reconciliation");

    // Back at the baseline there is nothing to import.
    assert_eq!(sync_one(&mut db, settled("1.000000"), 400).imported, 0);

    // Only what lies above the baseline is imported again.
    assert_eq!(sync_one(&mut db, settled("1.500000"), 500).imported, 1);
    assert_eq!(
        delta_costs(&db),
        vec!["2.000000".to_string(), "-2.000000".to_string(), "0.500000".to_string()]
    );
}

#[test]
fn bad_profile_and_missing_table_do_not_block_valid_profile() {
    let bad = || {
        ("bad".to_string(), Err(AppError::Database("file is not a database".to_string())))
    };
    let missing = || {
        let mut contents = tables(Vec::new());
        contents.has_usage_table = false;
        reading("missing", 5, contents)
    };
    let mut db = UsageStore::new();

    let first = run_sync(
        &mut db,
        vec![
            bad(),
            reading("default", 2, tables(vec![initial("valid-task")])),
            missing(),
        ],
        100,
    );
    assert_eq!(first.errors.len(), 2);
    assert_eq!(first.files_scanned, 3);
    assert_eq!(first.skipped, 1);
    let update = record("valid-task", [2, 110, 55, 11, 21, 8], "1.100000", None, "estimated");
    let second = run_sync(
        &mut db,
        vec![bad(), reading("default", 2, tables(vec![update])), missing()],
        200,
    );
    assert_eq!(second.imported, 1);
    assert_eq!(second.errors.len(), 2);
    assert_eq!(
        second.errors,
        vec![
            "Hermes Profile 'bad' 同步失败: file is not a database".to_string(),
            "Hermes Profile 'missing' 同步失败: Hermes SQLite 缺少 session_model_usage 表".to_string(),
        ]
    );
}

#[test]
fn billing_base_url_is_stored_only_as_digest() {
    let mut db = UsageStore::new();
    sync_one(&mut db, initial("task-a"), 100);
    assert!(require_query_only(1).is_ok());
    assert!(require_query_only(0).is_err());

    assert_eq!(db.snapshots().len(), 1);
    let digest = db.snapshots()[0].billing_base_url_digest.as_str();
    assert_ne!(digest, "https://private.example/v1");
    assert_eq!(digest.len(), 64);
    assert!(!digest.contains("private"));
    assert_eq!(digest, "a64bd4a029637385f2e1b1ad9951afccbe86ec43c4d3a0d5c82aa283cf44dd05");
}

#[test]
fn source_cost_rule_is_deterministic() {
    assert_eq!(
        select_source_cost(Some(Cost::new(100, 2)), Some(Cost::new(120, 2)), Some("actual")),
        (Cost::new(120, 2), "actual")
    );
    assert_eq!(
        select_source_cost(Some(Cost::new(100, 2)), Some(Cost::new(120, 2)), Some("estimated")),
        (Cost::new(100, 2), "estimated")
    );
    assert_eq!(
        select_source_cost(None, Some(Cost::new(120, 2)), Some("unknown")),
        (Cost::zero(), "none")
    );
}

#[test]
fn every_settled_status_makes_the_actual_cost_count() {
    for status in ["actual", " Final ", "SETTLED", "\tcomplete\n"] {
        assert_eq!(
            select_source_cost(Some(Cost::new(1, 0)), Some(Cost::new(2, 0)), Some(status)),
            (Cost::new(2, 0), "actual")
        );
    }
    assert_eq!(
        select_source_cost(Some(Cost::new(1, 0)), None, Some("actual")),
        (Cost::new(1, 0), "estimated")
    );
    assert_eq!(
        select_source_cost(Some(Cost::new(1, 0)), Some(Cost::new(2, 0)), None),
        (Cost::new(1, 0), "estimated")
    );
}

fn dimensioned(session: &str, model: &str, task: &str, calls: i64) -> UsageRecord {
    let mut r = record(task, [calls, 10, 10, 0, 0, 0], "1.000000", None, "estimated");
    r.session_id = text(session);
    r.model = text(model);
    r
}

fn with_sessions(records: Vec<UsageRecord>, sessions: Vec<(&str, i64)>) -> SourceTables {
    let mut t = tables(records);
    t.sessions = Some(SessionTable {
        records: sessions
            .into_iter()
            .map(|(id, calls)| SessionRecord {
                id: text(id),
                api_call_count: SourceValue::Integer(calls),
            })
            .collect(),
        failure: None,
    });
    t
}

#[test]
fn session_total_adds_only_unattributed_main_residual() {
    let rows = read_hermes_database(&with_sessions(
        vec![
            dimensioned("s", "model-a", "", 6),
            dimensioned("s", "model-a", "title", 3),
            dimensioned("other", "model-a", "", 50),
        ],
        vec![("s", 10)],
    ))
    .unwrap();
    assert_eq!(rows.len(), 4);
    assert_eq!(rows[0].api_call_count, 6);
    assert_eq!(rows[1].api_call_count, 3);
    let residual = rows.iter().find(|row| row.task == "unattributed_main").unwrap();
    assert_eq!(residual.session_id, "s");
    assert_eq!(residual.model, "unknown");
    assert_eq!(residual.billing_provider, "");
    assert_eq!(residual.billing_mode, "");
    assert_eq!(residual.api_call_count, 4);
    assert_eq!(residual.input_tokens, 0);
    assert_eq!(residual.output_tokens, 0);
    assert_eq!(residual.selected_cost_usd, Cost::zero());
    assert_eq!(residual.selected_cost_kind, "none");
    assert!(rows[..3].iter().all(|row| row.row_key != residual.row_key));
}

#[test]
fn residual_key_is_the_digest_of_marker_and_session() {
    let rows = read_hermes_database(&with_sessions(Vec::new(), vec![("session-1", 2)])).unwrap();
    assert_eq!(
        rows[0].row_key,
        "54b77d06d89d6f5b534132dc1983abb3fd3afb28a60afba6012607118a6ce4c1"
    );
    let rows = read_hermes_database(&tables(vec![initial("task-a")])).unwrap();
    assert_eq!(
        rows[0].row_key,
        "b30542bfbbe88a7cc3ea14d6aaad796572f0c6a8aaa5c17ba7c50d41b66718c2"
    );
}

#[test]
fn covered_or_missing_session_totals_add_no_residual() {
    let main = || vec![dimensioned("s", "model-a", "", 4), dimensioned("s", "model-b", "", 2)];
    for total in [0, 5, 6] {
        let rows = read_hermes_database(&with_sessions(main(), vec![("s", total)])).unwrap();
        assert_eq!(rows.len(), 2);
        assert!(rows.iter().all(|row| row.task != "unattributed_main"));
    }
    let rows = read_hermes_database(&tables(main())).unwrap();
    assert_eq!(rows.len(), 2);
    assert!(rows.iter().all(|row| row.task != "unattributed_main"));
}

#[test]
fn session_residual_increase_is_emitted_once() {
    let mut db = UsageStore::new();
    let contents = |total: i64| with_sessions(vec![dimensioned("s", "m", "", 6)], vec![("s", total)]);
    let mut sync = |total: i64, at: i64| {
        run_sync(&mut db, vec![reading("default", 2, contents(total))], at)
    };
    assert_eq!(sync(10, 100).imported, 0);
    assert_eq!(sync(12, 200).imported, 1);
    assert_eq!(sync(12, 300).imported, 0);
    assert_eq!(db.deltas().len(), 1);
    assert_eq!(db.deltas()[0].task, "unattributed_main");
    assert_eq!(db.deltas()[0].api_call_count, 2);
    assert_eq!(db.deltas()[0].input_tokens, 0);
    assert_eq!(db.deltas()[0].cost_usd, "0.000000");
}

#[test]
fn unreadable_tables_are_refused() {
    let mut t = tables(vec![initial("task-a")]);
    t.failure = Some(AppError::Database("broken".to_string()));
    assert_eq!(read_hermes_database(&t).unwrap_err().message(), "broken");

    let mut t = with_sessions(vec![initial("task-a")], vec![("s", 1)]);
    t.sessions.as_mut().unwrap().failure = Some(AppError::Database("cut short".to_string()));
    assert_eq!(read_hermes_database(&t).unwrap_err().message(), "cut short");

    let t = with_sessions(vec![initial("task-a")], vec![("s", -1)]);
    assert_eq!(
        read_hermes_database(&t).unwrap_err().message(),
        "Hermes api_call_count 不能为负数"
    );

    let mut bad = initial("task-a");
    bad.output_tokens = SourceValue::Integer(-5);
    assert_eq!(
        read_hermes_database(&tables(vec![initial("task-a"), bad])).unwrap_err().message(),
        "Hermes output_tokens 不能为负数"
    );
    assert_eq!(
        require_query_only(0).unwrap_err().message(),
        "Hermes SQLite 未启用 PRAGMA query_only=ON"
    );
}

#[test]
fn discovery_fails_where_the_profiles_cannot_be_read() {
    let listing = |profiles| RootListing { exists: true, state_db: None, profiles };
    let unreadable = listing(ProfileListing::Unreadable("denied".to_string()));
    let error = discover_hermes_databases(&unreadable).unwrap_err();
    assert!(matches!(error, AppError::Config(_)));
    assert_eq!(error.message(), "读取 Hermes Profiles 失败: denied");

    let entry = listing(ProfileListing::Entries(vec![Err("gone".to_string())]));
    assert_eq!(
        discover_hermes_databases(&entry).unwrap_err().message(),
        "读取 Hermes Profile 失败: gone"
    );

    let absent = RootListing {
        exists: false,
        state_db: Some("state.db".to_string()),
        profiles: ProfileListing::Unreadable("denied".to_string()),
    };
    assert!(discover_hermes_databases(&absent).unwrap().is_empty());
    assert!(discover_hermes_databases(&listing(ProfileListing::Absent)).unwrap().is_empty());
}

#[test]
fn profiles_sort_by_name_and_the_root_stays_in_front_of_its_namesake() {
    let entry = |name: &str| {
        Ok(ProfileEntry {
            name: name.to_string(),
            is_dir: true,
            state_db: Some(format!("p/{name}")),
        })
    };
    let listing = RootListing {
        exists: true,
        state_db: Some("r".to_string()),
        profiles: ProfileListing::Entries(vec![
            entry("b"),
            entry("default"),
            entry("Z"),
            entry("bé"),
            entry("a"),
        ]),
    };
    let sources = discover_hermes_databases(&listing).unwrap();
    let paths: Vec<_> = sources.iter().map(|s| s.path.as_str()).collect();
    assert_eq!(paths, vec!["p/Z", "p/a", "p/b", "p/bé", "r", "p/default"]);
}

#[test]
fn places_beyond_the_sixth_are_not_kept_in_the_baseline() {
    let mut db = UsageStore::new();
    let row = || record("task-a", [1, 0, 0, 0, 0, 0], "1.0000004", None, "estimated");
    assert_eq!(sync_one(&mut db, row(), 100).imported, 0);
    assert_eq!(db.snapshots()[0].cost_baseline_usd, "1.000000");
    assert_eq!(db.snapshots()[0].selected_cost_usd, "1.0000004");
    assert_eq!(sync_one(&mut db, row(), 200).imported, 1);
    assert_eq!(delta_costs(&db), vec!["0.0000004".to_string()]);
}

#[test]
fn zeros_beyond_the_sixth_place_change_nothing() {
    let mut db = UsageStore::new();
    let row = |cost: &str| record("task-a", [1, 0, 0, 0, 0, 0], cost, None, "estimated");
    assert_eq!(sync_one(&mut db, row("1.00000000"), 100).imported, 0);
    assert_eq!(sync_one(&mut db, row("1.00000000"), 200).imported, 0);
    assert_eq!(sync_one(&mut db, row("1.50000000"), 300).imported, 1);
    assert_eq!(sync_one(&mut db, row("1.50000000"), 400).imported, 0);
    assert_eq!(net_cost(&db), 0.5);
}

#[test]
fn repeated_sync_reports_the_same_failures() {
    let mut db = UsageStore::new();
    let readings = || {
        let mut bad = initial("task-b");
        bad.actual_cost_usd = text("-2");
        vec![
            reading("bad", 7, tables(vec![initial("task-a"), bad])),
            reading("default", 2, tables(vec![initial("task-a")])),
        ]
    };
    let first = run_sync(&mut db, readings(), 100);
    let second = run_sync(&mut db, readings(), 200);
    assert_eq!(first.errors, second.errors);
    assert_eq!(
        first.errors,
        vec!["Hermes Profile 'bad' 同步失败: Hermes actual_cost_usd 不能为负数".to_string()]
    );
    assert_eq!((second.imported, second.skipped), (0, 1));
    assert_eq!(db.snapshots().len(), 1);
}

#[test]
fn sync_fails_as_a_whole_only_where_the_profiles_cannot_be_listed() {
    let mut db = UsageStore::new();
    let listing = RootListing {
        exists: true,
        state_db: Some("/hermes/state.db".to_string()),
        profiles: ProfileListing::Unreadable("denied".to_string()),
    };
    let outcome = try_sync_hermes_usage_at_root(&mut db, &listing, &Vec::new(), 100).unwrap();
    let error = outcome.unwrap_err();
    assert!(matches!(error, AppError::Config(_)));
    assert_eq!(error.message(), "读取 Hermes Profiles 失败: denied");

    let failing = |name: &str| (name.to_string(), Err(AppError::Database("no".to_string())));
    let report = run_sync(&mut db, vec![failing("b"), failing("a")], 100);
    assert_eq!(report.files_scanned, 2);
    assert_eq!(
        report.errors,
        vec![
            "Hermes Profile 'a' 同步失败: no".to_string(),
            "Hermes Profile 'b' 同步失败: no".to_string(),
        ]
    );
}

#[test]
fn repeated_sync_changes_only_the_time_of_observation() {
    let mut db = UsageStore::new();
    sync_one(&mut db, initial("task-a"), 100);
    let update = || record("task-a", [4, 400, 80, 15, 25, 12], "2.5", None, "estimated");
    sync_one(&mut db, update(), 200);
    let before = format!("{:?}", db.snapshots()[0]);
    sync_one(&mut db, update(), 300);
    assert_eq!(before, format!("{:?}", db.snapshots()[0]).replace("observed_at: 300", "observed_at: 200"));
    assert_eq!(db.snapshots()[0].observed_at, 300);
}

#[test]
fn deltas_since_the_baseline_add_up() {
    let mut db = UsageStore::new();
    let at = |calls: i64, cost: &str| record("task-a", [calls, 0, 0, 0, 0, 0], cost, None, "");
    sync_one(&mut db, at(5, "9"), 100);
    sync_one(&mut db, at(8, "10.5"), 200);
    // A reset: what follows is counted from here.
    sync_one(&mut db, at(1, "2"), 300);
    let start = db.deltas().len();
    sync_one(&mut db, at(4, "3.25"), 400);
    sync_one(&mut db, at(4, "2.5"), 500);
    sync_one(&mut db, at(6, "2.75"), 600);
    let since = &db.deltas()[start..];
    assert_eq!(since.iter().map(|d| d.api_call_count).sum::<i64>(), 5);
    let cost: f64 = since.iter().map(|d| d.cost_usd.parse::<f64>().unwrap()).sum();
    assert_eq!(cost, 0.75);
    assert_eq!(db.snapshots()[0].cost_baseline_usd, "2.000000");
    assert_eq!(db.snapshots()[0].emitted_cost_balance_usd, "0.750000");
}

#[test]
fn each_session_adds_one_row_or_none() {
    let rows = read_hermes_database(&with_sessions(
        vec![dimensioned("a", "m", "", 2), dimensioned("b", "m", "", 5)],
        vec![("a", 3), ("b", 5), ("c", 4), ("d", 0)],
    ))
    .unwrap();
    let added: Vec<(&str, i64)> =
        rows[2..].iter().map(|r| (r.session_id.as_str(), r.api_call_count)).collect();
    assert_eq!(added, vec![("a", 1), ("c", 4)]);
}

#[test]
fn missing_values_join_nothing() {
    let mut without_task = dimensioned("s", "m", "", 6);
    without_task.task = SourceValue::Null;
    let rows = read_hermes_database(&with_sessions(vec![without_task], vec![("s", 10)])).unwrap();
    assert_eq!(rows.len(), 2);
    assert_eq!(rows[0].task, "");
    assert_eq!(rows[1].api_call_count, 10);

    let mut without_session = dimensioned("s", "m", "", 6);
    without_session.session_id = SourceValue::Null;
    let mut t = with_sessions(vec![without_session, dimensioned("", "m", "", 1)], vec![("", 3)]);
    t.sessions.as_mut().unwrap().records.push(SessionRecord {
        id: SourceValue::Null,
        api_call_count: SourceValue::Integer(8),
    });
    let rows = read_hermes_database(&t).unwrap();
    let added: Vec<(&str, i64)> =
        rows[2..].iter().map(|r| (r.session_id.as_str(), r.api_call_count)).collect();
    assert_eq!(added, vec![("", 2), ("", 8)]);
}

#[test]
fn zero_with_a_minus_sign_loses_it_when_it_is_read_back() {
    let mut db = UsageStore::new();
    let row = || record("task-a", [1, 0, 0, 0, 0, 0], "-0.4e-28", None, "estimated");
    assert_eq!(sync_one(&mut db, row(), 100).imported, 0);
    assert_eq!(db.snapshots()[0].cost_baseline_usd, "-0.000000");
    assert_eq!(sync_one(&mut db, row(), 200).imported, 0);
    assert_eq!(db.snapshots()[0].cost_baseline_usd, "0.000000");
}
