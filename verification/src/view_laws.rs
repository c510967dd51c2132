//! What holds of the records that pass through the library: what each of them says is what its
//! fields hold, column for column, and a list of them says what its records say, one by one.

use crate::cost::optional_text;
use crate::digest::{texts, FileIdentity};
use crate::discover::{source_views, viewed_sources, HermesDatabaseSource};
use crate::error::{viewed, AppError, Failure};
use crate::import::{ImportOrigin, SourceContents};
use crate::query::{delta_row_views, viewed_delta_rows, HermesDeltaRow, HermesUsageFilters};
use crate::reader::{
    record_views, row_views, some_failure, viewed_rows, SessionRecord, SourceTables, TablesView,
};
use crate::source::{viewed_row, HermesSourceRow, RowView, UsageRecord};
use crate::store::{delta_views, DeltaRecord, SnapshotRecord};
use crate::sync::{error_texts, viewed_contents};
use crate::value::{some_text, viewed_optional, viewed_text, SourceValue, ValueView};
use vstd::prelude::*;
use vstd::string::*;

verus! {

/// An optional text is there where the string is there, and holds what the string holds.
pub proof fn law_optional_texts(owned: Option<String>, borrowed: Option<&str>)
    ensures
        some_text(owned) is Some <==> owned is Some,
        owned is Some ==> some_text(owned)->0 == owned->0@,
        optional_text(borrowed) is Some <==> borrowed is Some,
        borrowed is Some ==> optional_text(borrowed)->0 == borrowed->0@,
{
}

/// A value says of which kind it is and what it holds.
pub proof fn law_values_say_what_they_hold(value: SourceValue)
    ensures
        value is Null <==> value@ is Null,
        value is Integer ==> value@ == ValueView::Integer(value->Integer_0),
        value is Real ==> value@ == ValueView::Real(value->Real_0@, value->Real_1),
        value is Text ==> value@ == ValueView::Text(value->Text_0@),
        value is Blob ==> value@ == ValueView::Blob(value->Blob_0@),
{
}

/// An error says what it is about and holds its message; an optional one is there where it is there.
pub proof fn law_errors_say_what_they_hold(error: AppError, optional: Option<AppError>)
    ensures
        error is Config ==> error@ == Failure::Config(error->Config_0@),
        error is Database ==> error@ == Failure::Database(error->Database_0@),
        error is Config ==> error@.message() == error->Config_0@,
        error is Database ==> error@.message() == error->Database_0@,
        some_failure(optional) is Some <==> optional is Some,
        optional is Some ==> some_failure(optional)->0 == optional->0@,
{
}

/// A usage record says what each of its columns holds.
pub proof fn law_usage_record_columns(record: UsageRecord)
    ensures
        record@.session_id == record.session_id@,
        record@.model == record.model@,
        record@.billing_provider == record.billing_provider@,
        record@.billing_base_url == record.billing_base_url@,
        record@.billing_mode == record.billing_mode@,
        record@.task == record.task@,
        record@.api_call_count == record.api_call_count@,
        record@.input_tokens == record.input_tokens@,
        record@.output_tokens == record.output_tokens@,
        record@.cache_read_tokens == record.cache_read_tokens@,
        record@.cache_write_tokens == record.cache_write_tokens@,
        record@.reasoning_tokens == record.reasoning_tokens@,
        record@.estimated_cost_usd == record.estimated_cost_usd@,
        record@.actual_cost_usd == record.actual_cost_usd@,
        record@.cost_status == record.cost_status@,
        record@.cost_source == record.cost_source@,
        record@.first_seen == record.first_seen@,
        record@.last_seen == record.last_seen@,
{
}

/// A session record says what each of its columns holds.
pub proof fn law_session_record_columns(record: SessionRecord)
    ensures
        record@.id == record.id@,
        record@.api_call_count == record.api_call_count@,
{
}

/// A row says what each of its columns holds.
pub proof fn law_row_columns(row: HermesSourceRow)
    ensures
        row@.session_id == row.session_id@,
        row@.model == row.model@,
        row@.billing_provider == row.billing_provider@,
        row@.billing_base_url_digest == row.billing_base_url_digest@,
        row@.billing_mode == row.billing_mode@,
        row@.task == row.task@,
        row@.api_call_count == row.api_call_count,
        row@.input_tokens == row.input_tokens,
        row@.output_tokens == row.output_tokens,
        row@.cache_read_tokens == row.cache_read_tokens,
        row@.cache_write_tokens == row.cache_write_tokens,
        row@.reasoning_tokens == row.reasoning_tokens,
        row@.estimated_cost_usd == row.estimated_cost_usd,
        row@.actual_cost_usd == row.actual_cost_usd,
        row@.selected_cost_usd == row.selected_cost_usd,
        row@.selected_cost_kind == row.selected_cost_kind@,
        row@.cost_status == some_text(row.cost_status),
        row@.cost_source == some_text(row.cost_source),
        row@.first_seen == some_text(row.first_seen),
        row@.last_seen == some_text(row.last_seen),
        row@.row_key == row.row_key@,
{
}

/// A snapshot says what each of its columns holds.
pub proof fn law_snapshot_record_columns(record: SnapshotRecord)
    ensures
        record@.source_id == record.source_id@,
        record@.source_incarnation == record.source_incarnation@,
        record@.profile_name == record.profile_name@,
        record@.row_key == record.row_key@,
        record@.session_id == record.session_id@,
        record@.model == record.model@,
        record@.billing_provider == record.billing_provider@,
        record@.billing_base_url_digest == record.billing_base_url_digest@,
        record@.billing_mode == record.billing_mode@,
        record@.task == record.task@,
        record@.api_call_count == record.api_call_count,
        record@.input_tokens == record.input_tokens,
        record@.output_tokens == record.output_tokens,
        record@.cache_read_tokens == record.cache_read_tokens,
        record@.cache_write_tokens == record.cache_write_tokens,
        record@.reasoning_tokens == record.reasoning_tokens,
        record@.estimated_cost_usd == record.estimated_cost_usd@,
        record@.actual_cost_usd == some_text(record.actual_cost_usd),
        record@.selected_cost_usd == record.selected_cost_usd@,
        record@.cost_baseline_usd == record.cost_baseline_usd@,
        record@.emitted_cost_balance_usd == record.emitted_cost_balance_usd@,
        record@.selected_cost_kind == record.selected_cost_kind@,
        record@.cost_status == some_text(record.cost_status),
        record@.cost_source == some_text(record.cost_source),
        record@.first_seen == some_text(record.first_seen),
        record@.last_seen == some_text(record.last_seen),
        record@.observed_at == record.observed_at,
{
}

/// A delta says what each of its columns holds.
pub proof fn law_delta_record_columns(record: DeltaRecord)
    ensures
        record@.source_id == record.source_id@,
        record@.source_incarnation == record.source_incarnation@,
        record@.profile_name == record.profile_name@,
        record@.row_key == record.row_key@,
        record@.session_id == record.session_id@,
        record@.provider == record.provider@,
        record@.model == record.model@,
        record@.billing_base_url_digest == record.billing_base_url_digest@,
        record@.billing_mode == record.billing_mode@,
        record@.task == record.task@,
        record@.sync_window_start == record.sync_window_start,
        record@.sync_window_end == record.sync_window_end,
        record@.api_call_count == record.api_call_count,
        record@.input_tokens == record.input_tokens,
        record@.output_tokens == record.output_tokens,
        record@.cache_read_tokens == record.cache_read_tokens,
        record@.cache_write_tokens == record.cache_write_tokens,
        record@.reasoning_tokens == record.reasoning_tokens,
        record@.cost_usd == record.cost_usd@,
        record@.cost_kind == record.cost_kind@,
        record@.cost_delta_kind == record.cost_delta_kind@,
        record@.cost_status == some_text(record.cost_status),
        record@.cost_source == some_text(record.cost_source),
        record@.data_source == record.data_source@,
        record@.precision == record.precision@,
{
}

/// A row of a query says what each of its columns holds.
pub proof fn law_delta_row_columns(row: HermesDeltaRow)
    ensures
        row@.provider == row.provider@,
        row@.model == row.model@,
        row@.sync_window_end == row.sync_window_end,
        row@.api_call_count == row.api_call_count,
        row@.input_tokens == row.input_tokens,
        row@.output_tokens == row.output_tokens,
        row@.cache_read_tokens == row.cache_read_tokens,
        row@.cache_write_tokens == row.cache_write_tokens,
        row@.reasoning_tokens == row.reasoning_tokens,
        row@.cost_usd == row.cost_usd,
{
}

/// Filters say what each of them asks for.
pub proof fn law_filters_say_what_they_hold(filters: HermesUsageFilters<'_>)
    ensures
        filters@.start_date == filters.start_date,
        filters@.end_date == filters.end_date,
        filters@.provider == optional_text(filters.provider),
        filters@.model == optional_text(filters.model),
        filters@.profile_name == optional_text(filters.profile_name),
        filters@.task == optional_text(filters.task),
{
}

/// An origin says what each of its parts holds.
pub proof fn law_origin_columns(origin: ImportOrigin)
    ensures
        origin@.source_id == origin.source_id@,
        origin@.source_incarnation == origin.source_incarnation@,
        origin@.profile_name == origin.profile_name@,
{
}

/// A source says what each of its parts holds.
pub proof fn law_source_columns(source: HermesDatabaseSource)
    ensures
        source@.profile_name == source.profile_name@,
        source@.path == source.path@,
        source@.place == source.place,
{
}

/// The tables of a database say whether the usage table is there, and what each record of them says, one
/// by one and in their order, with the failures that cut them short.
pub proof fn law_tables_say_what_they_hold(tables: SourceTables)
    ensures
        tables@.has_usage_table == tables.has_usage_table,
        tables@.records.len() == tables.records@.len(),
        forall|i: int|
            0 <= i < tables.records@.len() ==> (#[trigger] tables@.records[i])
                == tables.records@[i]@,
        tables@.failure == some_failure(tables.failure),
        tables@.sessions is Some <==> tables.sessions is Some,
        tables.sessions is Some ==> {
            let (sessions, failure) = tables@.sessions->0;
            let table = tables.sessions->0;
            &&& sessions.len() == table.records@.len()
            &&& forall|i: int|
                0 <= i < table.records@.len() ==> (#[trigger] sessions[i]) == table.records@[i]@
            &&& failure == some_failure(table.failure)
        },
{
}

/// An outcome says of a success what its value says, and of a failure what its error says.
pub proof fn law_outcomes_say_what_they_hold(
    text: Result<String, AppError>,
    optional: Result<Option<String>, AppError>,
    row: Result<HermesSourceRow, AppError>,
    contents: Result<SourceContents, AppError>,
)
    ensures
        text is Ok ==> viewed_text(text) == Ok::<Seq<char>, Failure>(text->Ok_0@),
        text is Err ==> viewed_text(text) == Err::<Seq<char>, Failure>(text->Err_0@),
        optional is Ok ==> viewed_optional(optional) == Ok::<Option<Seq<char>>, Failure>(
            some_text(optional->Ok_0),
        ),
        optional is Err ==> viewed_optional(optional) == Err::<Option<Seq<char>>, Failure>(
            optional->Err_0@,
        ),
        row is Ok ==> viewed_row(row) == Ok::<RowView, Failure>(row->Ok_0@),
        row is Err ==> viewed_row(row) == Err::<RowView, Failure>(row->Err_0@),
        contents is Ok ==> viewed_contents(contents) == Ok::<(FileIdentity, TablesView), Failure>(
            (contents->Ok_0.identity, contents->Ok_0.tables@),
        ),
        contents is Err ==> viewed_contents(contents) == Err::<
            (FileIdentity, TablesView),
            Failure,
        >(contents->Err_0@),
{
}

/// An outcome of any kind says of a success the value itself, and of a failure what its error says.
pub proof fn law_plain_outcomes_say_what_they_hold<T>(outcome: Result<T, AppError>)
    ensures
        outcome is Ok ==> viewed(outcome) == Ok::<T, Failure>(outcome->Ok_0),
        outcome is Err ==> viewed(outcome) == Err::<T, Failure>(outcome->Err_0@),
{
}

/// An outcome that is a list says what its elements say, one by one and in their order.
pub proof fn law_listed_outcomes_say_what_they_hold(
    rows: Result<Vec<HermesSourceRow>, AppError>,
    given: Result<Vec<HermesDeltaRow>, AppError>,
    sources: Result<Vec<HermesDatabaseSource>, AppError>,
    i: int,
)
    ensures
        rows is Ok ==> {
            &&& viewed_rows(rows) is Ok
            &&& viewed_rows(rows)->Ok_0.len() == rows->Ok_0@.len()
            &&& 0 <= i < rows->Ok_0@.len() ==> viewed_rows(rows)->Ok_0[i] == rows->Ok_0@[i]@
        },
        rows is Err ==> viewed_rows(rows) is Err && viewed_rows(rows)->Err_0 == rows->Err_0@,
        given is Ok ==> {
            &&& viewed_delta_rows(given) is Ok
            &&& viewed_delta_rows(given)->Ok_0.len() == given->Ok_0@.len()
            &&& 0 <= i < given->Ok_0@.len() ==> viewed_delta_rows(given)->Ok_0[i]
                == given->Ok_0@[i]@
        },
        given is Err ==> viewed_delta_rows(given) is Err && viewed_delta_rows(given)->Err_0
            == given->Err_0@,
        sources is Ok ==> {
            &&& viewed_sources(sources) is Ok
            &&& viewed_sources(sources)->Ok_0.len() == sources->Ok_0@.len()
            &&& 0 <= i < sources->Ok_0@.len() ==> viewed_sources(sources)->Ok_0[i]
                == sources->Ok_0@[i]@
        },
        sources is Err ==> viewed_sources(sources) is Err && viewed_sources(sources)->Err_0
            == sources->Err_0@,
{
}

/// A list says what its elements say, one by one and in their order.
pub proof fn law_lists_say_what_they_hold(
    records: Seq<UsageRecord>,
    rows: Seq<HermesSourceRow>,
    deltas: Seq<DeltaRecord>,
    given: Seq<HermesDeltaRow>,
    sources: Seq<HermesDatabaseSource>,
    errors: Seq<String>,
    parts: Seq<&str>,
)
    ensures
        record_views(records).len() == records.len(),
        forall|i: int|
            0 <= i < records.len() ==> (#[trigger] record_views(records)[i]) == records[i]@,
        row_views(rows).len() == rows.len(),
        forall|i: int| 0 <= i < rows.len() ==> (#[trigger] row_views(rows)[i]) == rows[i]@,
        delta_views(deltas).len() == deltas.len(),
        forall|i: int| 0 <= i < deltas.len() ==> (#[trigger] delta_views(deltas)[i]) == deltas[i]@,
        delta_row_views(given).len() == given.len(),
        forall|i: int| 0 <= i < given.len() ==> (#[trigger] delta_row_views(given)[i]) == given[i]@,
        source_views(sources).len() == sources.len(),
        forall|i: int|
            0 <= i < sources.len() ==> (#[trigger] source_views(sources)[i]) == sources[i]@,
        error_texts(errors).len() == errors.len(),
        forall|i: int| 0 <= i < errors.len() ==> (#[trigger] error_texts(errors)[i]) == errors[i]@,
        texts(parts).len() == parts.len(),
        forall|i: int| 0 <= i < parts.len() ==> (#[trigger] texts(parts)[i]) == parts[i]@,
{
}

} // verus!
