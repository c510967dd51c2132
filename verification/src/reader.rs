//! Reading the tables of a Hermes database. Main-loop calls that only the session total knows of
//! become one more cumulative row, so that they are neither lost nor counted twice.

use crate::cost::Cost;
use crate::digest::{digest_of, digest_parts, texts};
use crate::error::{AppError, Failure};
use crate::source::{
    parse_hermes_source_row, parsed_row, HermesSourceRow, RecordView, RowView,
    UsageRecord,
};
use crate::text::same_text;
use crate::value::{
    counter_value, read_counter, read_required_text, required_value, text_value, SourceValue,
    ValueView,
};
use vstd::prelude::*;
use vstd::string::*;

verus! {

/// The task under which the main-loop calls stand that no usage row accounts for.
pub const HERMES_UNATTRIBUTED_MAIN_TASK: &'static str = "unattributed_main";

/// One row of the table `sessions`: the session and its total of main-loop calls.
#[derive(Debug)]
pub struct SessionRecord {
    pub id: SourceValue,
    pub api_call_count: SourceValue,
}

/// What a [`SessionRecord`] holds.
pub struct SessionView {
    pub id: ValueView,
    pub api_call_count: ValueView,
}

impl View for SessionRecord {
    type V = SessionView;

    open spec fn view(&self) -> SessionView {
        SessionView { id: self.id@, api_call_count: self.api_call_count@ }
    }
}

/// What could be read of the table `sessions`, and the failure that cut the reading short.
#[derive(Debug)]
pub struct SessionTable {
    pub records: Vec<SessionRecord>,
    pub failure: Option<AppError>,
}

/// What could be read of a Hermes database.
#[derive(Debug)]
pub struct SourceTables {
    /// Whether the table `session_model_usage` is there.
    pub has_usage_table: bool,
    /// Its rows, as far as they could be read.
    pub records: Vec<UsageRecord>,
    /// The failure that cut the reading of them short.
    pub failure: Option<AppError>,
    /// The table `sessions`, where it is there and has a column `api_call_count`.
    pub sessions: Option<SessionTable>,
}

/// What [`SourceTables`] hold.
pub struct TablesView {
    pub has_usage_table: bool,
    pub records: Seq<RecordView>,
    pub failure: Option<Failure>,
    pub sessions: Option<(Seq<SessionView>, Option<Failure>)>,
}

/// An optional error as what it says.
pub open spec fn some_failure(e: Option<AppError>) -> Option<Failure> {
    match e {
        Some(e) => Some(e@),
        None => None,
    }
}

impl View for SourceTables {
    type V = TablesView;

    open spec fn view(&self) -> TablesView {
        TablesView {
            has_usage_table: self.has_usage_table,
            records: record_views(self.records@),
            failure: some_failure(self.failure),
            sessions: match self.sessions {
                Some(table) => Some(
                    (
                        table.records@.map_values(|s: SessionRecord| s@),
                        some_failure(table.failure),
                    ),
                ),
                None => None,
            },
        }
    }
}

/// What each record of a list holds.
pub open spec fn record_views(records: Seq<UsageRecord>) -> Seq<RecordView> {
    records.map_values(|r: UsageRecord| r@)
}

/// What each row of a list holds.
pub open spec fn row_views(rows: Seq<HermesSourceRow>) -> Seq<RowView> {
    rows.map_values(|r: HermesSourceRow| r@)
}

/// Every row has counters and costs that are not negative.
pub open spec fn all_valid(rows: Seq<RowView>) -> bool {
    forall|i: int| 0 <= i < rows.len() ==> (#[trigger] rows[i]).valid()
}

/// The records read one after the other, up to the first that cannot be read.
pub open spec fn parsed_rows(records: Seq<RecordView>) -> Result<Seq<RowView>, Failure>
    decreases records.len(),
{
    if records.len() == 0 {
        Ok(Seq::empty())
    } else {
        match parsed_rows(records.drop_last()) {
            Err(e) => Err(e),
            Ok(rows) => match parsed_row(records.last()) {
                Err(e) => Err(e),
                Ok(row) => Ok(rows.push(row)),
            },
        }
    }
}

/// The record is of the main loop of the session: it names the session, and its task is the empty
/// text, where auxiliary records name a task. A missing value equals no other, as in SQL: a record
/// without a task or a session is of no main loop, and a session without a name has no records.
pub open spec fn is_main_record(record: RecordView, session: ValueView) -> bool {
    &&& text_value(session) is Ok
    &&& text_value(session)->Ok_0 is Some
    &&& text_value(record.session_id) == text_value(session)
    &&& text_value(record.task) == Ok::<Option<Seq<char>>, Failure>(Some(Seq::empty()))
}

/// The main-loop calls of a session that its usage records account for.
pub open spec fn attributed_main_calls(records: Seq<RecordView>, session: ValueView) -> int
    decreases records.len(),
{
    if records.len() == 0 {
        0
    } else {
        attributed_main_calls(records.drop_last(), session) + if is_main_record(
            records.last(),
            session,
        ) {
            counter_value(records.last().api_call_count, "api_call_count"@)->Ok_0 as int
        } else {
            0
        }
    }
}

/// The main-loop calls of a session that no usage row accounts for.
pub open spec fn main_residual(total: int, attributed: int) -> int {
    if total > attributed {
        total - attributed
    } else {
        0
    }
}

/// The row that stands for the calls of a session that no usage row accounts for: of an unknown
/// model, without a route, tokens or cost. Its key is the digest of two texts, where that of a usage
/// row is the digest of six.
pub open spec fn residual_row(session_id: Seq<char>, calls: i64) -> RowView {
    RowView {
        session_id,
        model: "unknown"@,
        billing_provider: Seq::empty(),
        billing_base_url_digest: digest_of(seq![Seq::empty()]),
        billing_mode: Seq::empty(),
        task: HERMES_UNATTRIBUTED_MAIN_TASK@,
        api_call_count: calls,
        input_tokens: 0,
        output_tokens: 0,
        cache_read_tokens: 0,
        cache_write_tokens: 0,
        reasoning_tokens: 0,
        estimated_cost_usd: None,
        actual_cost_usd: None,
        selected_cost_usd: Cost::nothing(),
        selected_cost_kind: "none"@,
        cost_status: None,
        cost_source: None,
        first_seen: None,
        last_seen: None,
        row_key: digest_of(seq![HERMES_UNATTRIBUTED_MAIN_TASK@, session_id]),
    }
}

/// The rows that the session totals add to the usage rows, in the order of the sessions.
pub open spec fn residual_rows(records: Seq<RecordView>, sessions: Seq<SessionView>) -> Result<
    Seq<RowView>,
    Failure,
>
    decreases sessions.len(),
{
    if sessions.len() == 0 {
        Ok(Seq::empty())
    } else {
        let session = sessions.last();
        let id = required_value(session.id);
        let total = counter_value(session.api_call_count, "api_call_count"@);
        match residual_rows(records, sessions.drop_last()) {
            Err(e) => Err(e),
            Ok(added) => if id is Err {
                Err(id->Err_0)
            } else if total is Err {
                Err(total->Err_0)
            } else {
                let residual = main_residual(
                    total->Ok_0 as int,
                    attributed_main_calls(records, session.id),
                );
                if residual > 0 {
                    Ok(added.push(residual_row(id->Ok_0, residual as i64)))
                } else {
                    Ok(added)
                }
            },
        }
    }
}

/// The failure of a database without usage rows.
pub open spec fn missing_table_failure() -> Failure {
    Failure::Database("Hermes SQLite 缺少 session_model_usage 表"@)
}

/// All rows that a database yields: its usage rows, then those that the session totals add.
pub open spec fn source_rows(tables: TablesView) -> Result<Seq<RowView>, Failure> {
    if !tables.has_usage_table {
        Err(missing_table_failure())
    } else {
        match parsed_rows(tables.records) {
            Err(e) => Err(e),
            Ok(rows) => match tables.failure {
                Some(e) => Err(e),
                None => match tables.sessions {
                    None => Ok(rows),
                    Some((sessions, failure)) => match residual_rows(tables.records, sessions) {
                        Err(e) => Err(e),
                        Ok(added) => match failure {
                            Some(e) => Err(e),
                            None => Ok(rows + added),
                        },
                    },
                },
            },
        }
    }
}

/// An outcome with its rows and its error as what they hold.
pub open spec fn viewed_rows(r: Result<Vec<HermesSourceRow>, AppError>) -> Result<
    Seq<RowView>,
    Failure,
> {
    match r {
        Ok(rows) => Ok(row_views(rows@)),
        Err(e) => Err(e@),
    }
}

/// Accepts a connection only where it confirms that it refuses to write.
pub fn require_query_only(query_only: i64) -> (r: Result<(), AppError>)
    ensures
        match r {
            Ok(_) => query_only == 1,
            Err(e) => query_only != 1 && e@ == Failure::Database(
                "Hermes SQLite 未启用 PRAGMA query_only=ON"@,
            ),
        },
{
    if query_only != 1 {
        Err(AppError::Database("Hermes SQLite 未启用 PRAGMA query_only=ON".to_owned()))
    } else {
        Ok(())
    }
}

/// Reads the usage rows one after the other.
fn parse_records(records: &Vec<UsageRecord>) -> (r: Result<Vec<HermesSourceRow>, AppError>)
    ensures
        viewed_rows(r) == parsed_rows(record_views(records@)),
        r is Ok ==> all_valid(row_views(r->Ok_0@)),
{
    let ghost views = record_views(records@);
    let mut rows: Vec<HermesSourceRow> = Vec::new();
    let mut i: usize = 0;
    assert(row_views(rows@) =~= Seq::empty());
    while i < records.len()
        invariant
            i <= records@.len(),
            views == record_views(records@),
            parsed_rows(views.take(i as int)) == Ok::<Seq<RowView>, Failure>(row_views(rows@)),
            all_valid(row_views(rows@)),
        decreases records@.len() - i,
    {
        assert(views.take(i + 1).drop_last() =~= views.take(i as int));
        match parse_hermes_source_row(&records[i]) {
            Ok(row) => {
                let ghost before = row_views(rows@);
                rows.push(row);
                assert(row_views(rows@) =~= before.push(row@));
            },
            Err(e) => {
                proof {
                    lemma_parse_stops(views, i as int);
                }
                return Err(e);
            },
        }
        i = i + 1;
    }
    assert(views.take(i as int) =~= views);
    Ok(rows)
}

/// Where one record cannot be read, neither can the list that it stands in.
proof fn lemma_parse_stops(records: Seq<RecordView>, i: int)
    requires
        0 <= i < records.len(),
        parsed_rows(records.take(i)) is Ok,
        parsed_row(records[i]) is Err,
    ensures
        parsed_rows(records) == Err::<Seq<RowView>, Failure>(parsed_row(records[i])->Err_0),
    decreases records.len() - i,
{
    let e = Err::<Seq<RowView>, Failure>(parsed_row(records[i])->Err_0);
    assert(records.take(i + 1).drop_last() =~= records.take(i));
    lemma_parse_error_stays(records, i + 1);
}

/// An error in the first records is the error of all of them.
proof fn lemma_parse_error_stays(records: Seq<RecordView>, k: int)
    requires
        0 <= k <= records.len(),
        parsed_rows(records.take(k)) is Err,
    ensures
        parsed_rows(records) == parsed_rows(records.take(k)),
    decreases records.len(),
{
    if k == records.len() {
        assert(records.take(k) =~= records);
    } else {
        assert(records.drop_last().take(k) =~= records.take(k));
        lemma_parse_error_stays(records.drop_last(), k);
    }
}

/// Where all records can be read, each row is what its record is read as.
pub proof fn lemma_rows_match_records(records: Seq<RecordView>)
    requires
        parsed_rows(records) is Ok,
    ensures
        parsed_rows(records)->Ok_0.len() == records.len(),
        forall|i: int|
            0 <= i < records.len() ==> parsed_row(#[trigger] records[i]) == Ok::<RowView, Failure>(
                parsed_rows(records)->Ok_0[i],
            ),
    decreases records.len(),
{
    if records.len() > 0 {
        let first = records.drop_last();
        lemma_rows_match_records(first);
        assert forall|i: int| 0 <= i < records.len() implies parsed_row(#[trigger] records[i])
            == Ok::<RowView, Failure>(parsed_rows(records)->Ok_0[i]) by {
            if i < first.len() {
                assert(first[i] == records[i]);
            }
        }
    }
}

/// Whether a record is of the main loop of a session, given the row that it is read as.
fn is_main_row(
    record: &UsageRecord,
    row: &HermesSourceRow,
    session: &SourceValue,
    session_id: &str,
) -> (r: bool)
    requires
        parsed_row(record@) == Ok::<RowView, Failure>(row@),
        required_value(session@) == Ok::<Seq<char>, Failure>(session_id@),
    ensures
        r == is_main_record(record@, session@),
{
    proof {
        if row.task@.len() == 0 {
            assert(row.task@ =~= Seq::empty());
        }
    }
    !session.is_missing() && !record.session_id.is_missing() && !record.task.is_missing()
        && same_text(row.session_id.as_str(), session_id) && row.task.as_str().is_empty()
}

/// Adds up the main-loop calls of a session that its usage records account for, given the rows that
/// they are read as.
fn sum_main_calls(
    records: &Vec<UsageRecord>,
    rows: &Vec<HermesSourceRow>,
    session: &SourceValue,
    session_id: &str,
) -> (r: i128)
    requires
        parsed_rows(record_views(records@)) == Ok::<Seq<RowView>, Failure>(row_views(rows@)),
        all_valid(row_views(rows@)),
        required_value(session@) == Ok::<Seq<char>, Failure>(session_id@),
    ensures
        r == attributed_main_calls(record_views(records@), session@),
        r >= 0,
{
    let ghost views = record_views(records@);
    let mut total: i128 = 0;
    let mut i: usize = 0;
    proof {
        lemma_rows_match_records(views);
        assert(row_views(rows@).len() == rows@.len());
    }
    while i < records.len()
        invariant
            i <= records@.len(),
            records@.len() == rows@.len(),
            views == record_views(records@),
            forall|j: int|
                0 <= j < views.len() ==> parsed_row(#[trigger] views[j]) == Ok::<RowView, Failure>(
                    row_views(rows@)[j],
                ),
            all_valid(row_views(rows@)),
            required_value(session@) == Ok::<Seq<char>, Failure>(session_id@),
            total == attributed_main_calls(views.take(i as int), session@),
            0 <= total <= i * (i64::MAX as int),
        decreases records@.len() - i,
    {
        let record: &UsageRecord = &records[i];
        let row: &HermesSourceRow = &rows[i];
        proof {
            assert(views.take(i + 1).drop_last() =~= views.take(i as int));
            assert(views[i as int] == record@);
            assert(row_views(rows@)[i as int] == row@ && row_views(rows@)[i as int].valid());
            assert(i * (i64::MAX as int) + i64::MAX == (i + 1) * (i64::MAX as int));
        }
        if is_main_row(record, row, session, session_id) {
            total = total + row.api_call_count as i128;
        }
        i = i + 1;
    }
    assert(views.take(i as int) =~= views);
    total
}

/// The row for the calls of a session that no usage row accounts for.
fn make_residual_row(session_id: String, calls: i64) -> (r: HermesSourceRow)
    ensures
        r@ == residual_row(session_id@, calls),
{
    proof {
        reveal_strlit("");
        assert(""@ =~= Seq::<char>::empty());
    }
    let endpoint: [&str; 1] = [""];
    assert(texts(endpoint@) =~= seq![Seq::<char>::empty()]);
    let billing_base_url_digest: String = digest_parts(&endpoint);
    let key: [&str; 2] = [HERMES_UNATTRIBUTED_MAIN_TASK, session_id.as_str()];
    assert(texts(key@) =~= seq![HERMES_UNATTRIBUTED_MAIN_TASK@, session_id@]);
    let row_key: String = digest_parts(&key);
    HermesSourceRow {
        session_id,
        model: "unknown".to_owned(),
        billing_provider: String::new(),
        billing_base_url_digest,
        billing_mode: String::new(),
        task: HERMES_UNATTRIBUTED_MAIN_TASK.to_owned(),
        api_call_count: calls,
        input_tokens: 0,
        output_tokens: 0,
        cache_read_tokens: 0,
        cache_write_tokens: 0,
        reasoning_tokens: 0,
        estimated_cost_usd: None,
        actual_cost_usd: None,
        selected_cost_usd: Cost::zero(),
        selected_cost_kind: "none".to_owned(),
        cost_status: None,
        cost_source: None,
        first_seen: None,
        last_seen: None,
        row_key,
    }
}

/// An error in the first sessions is the error of all of them.
proof fn lemma_residual_error_stays(
    records: Seq<RecordView>,
    sessions: Seq<SessionView>,
    k: int,
)
    requires
        0 <= k <= sessions.len(),
        residual_rows(records, sessions.take(k)) is Err,
    ensures
        residual_rows(records, sessions) == residual_rows(records, sessions.take(k)),
    decreases sessions.len(),
{
    if k == sessions.len() {
        assert(sessions.take(k) =~= sessions);
    } else {
        assert(sessions.drop_last().take(k) =~= sessions.take(k));
        lemma_residual_error_stays(records, sessions.drop_last(), k);
    }
}

/// Works out which rows the session totals add.
fn reconcile_sessions(
    records: &Vec<UsageRecord>,
    rows: &Vec<HermesSourceRow>,
    sessions: &Vec<SessionRecord>,
) -> (r: Result<Vec<HermesSourceRow>, AppError>)
    requires
        parsed_rows(record_views(records@)) == Ok::<Seq<RowView>, Failure>(row_views(rows@)),
        all_valid(row_views(rows@)),
    ensures
        viewed_rows(r) == residual_rows(
            record_views(records@),
            sessions@.map_values(|s: SessionRecord| s@),
        ),
        r is Ok ==> all_valid(row_views(r->Ok_0@)),
{
    let ghost views = record_views(records@);
    let ghost totals = sessions@.map_values(|s: SessionRecord| s@);
    let mut added: Vec<HermesSourceRow> = Vec::new();
    let mut i: usize = 0;
    assert(row_views(added@) =~= Seq::empty());
    while i < sessions.len()
        invariant
            i <= sessions@.len(),
            views == record_views(records@),
            parsed_rows(views) == Ok::<Seq<RowView>, Failure>(row_views(rows@)),
            all_valid(row_views(rows@)),
            totals == sessions@.map_values(|s: SessionRecord| s@),
            residual_rows(views, totals.take(i as int)) == Ok::<Seq<RowView>, Failure>(
                row_views(added@),
            ),
            all_valid(row_views(added@)),
        decreases sessions@.len() - i,
    {
        let session: &SessionRecord = &sessions[i];
        proof {
            assert(totals.take(i + 1).drop_last() =~= totals.take(i as int));
            assert(totals.take(i + 1).last() == session@);
            if residual_rows(views, totals.take(i + 1)) is Err {
                lemma_residual_error_stays(views, totals, i + 1);
            }
        }
        let session_id: String = match read_required_text(&session.id) {
            Ok(v) => v,
            Err(e) => {
                return Err(e);
            },
        };
        let total: i64 = match read_counter(&session.api_call_count, "api_call_count") {
            Ok(v) => v,
            Err(e) => {
                return Err(e);
            },
        };
        let attributed: i128 = sum_main_calls(
            records,
            rows,
            &session.id,
            session_id.as_str(),
        );
        if total as i128 > attributed {
            let residual: i64 = (total as i128 - attributed) as i64;
            let ghost before = row_views(added@);
            let row: HermesSourceRow = make_residual_row(session_id, residual);
            added.push(row);
            assert(row_views(added@) =~= before.push(row@));
        }
        i = i + 1;
    }
    assert(totals.take(i as int) =~= totals);
    Ok(added)
}

/// Reads all rows of a Hermes database.
pub fn read_hermes_database(tables: &SourceTables) -> (r: Result<Vec<HermesSourceRow>, AppError>)
    ensures
        viewed_rows(r) == source_rows(tables@),
        r is Ok ==> all_valid(row_views(r->Ok_0@)),
{
    if !tables.has_usage_table {
        return Err(AppError::Database("Hermes SQLite 缺少 session_model_usage 表".to_owned()));
    }
    let mut rows: Vec<HermesSourceRow> = match parse_records(&tables.records) {
        Ok(rows) => rows,
        Err(e) => {
            return Err(e);
        },
    };
    if let Some(e) = &tables.failure {
        return Err(e.duplicate());
    }
    match &tables.sessions {
        None => Ok(rows),
        Some(table) => {
            let mut added: Vec<HermesSourceRow> = match reconcile_sessions(
                &tables.records,
                &rows,
                &table.records,
            ) {
                Ok(added) => added,
                Err(e) => {
                    return Err(e);
                },
            };
            if let Some(e) = &table.failure {
                return Err(e.duplicate());
            }
            let ghost (before, more) = (row_views(rows@), row_views(added@));
            rows.append(&mut added);
            assert(row_views(rows@) =~= before + more);
            Ok(rows)
        },
    }
}

} // verus!
