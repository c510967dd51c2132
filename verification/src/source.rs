//! The rows of a Hermes database: reading one usage row, and reconciling the calls of a session
//! with those that its usage rows account for.

use crate::cost::{select_source_cost, selected_cost, Cost};
use crate::digest::{digest_of, digest_parts, texts};
use crate::error::{AppError, Failure};
use crate::value::{
    counter_value, optional_cost, read_counter, read_optional_decimal, read_optional_text,
    read_required_text, required_value, some_text, text_value, SourceValue, ValueView,
};
use vstd::prelude::*;
use vstd::string::*;

verus! {

/// One row of the table `session_model_usage`, as the database hands it out.
#[derive(Debug)]
pub struct UsageRecord {
    pub session_id: SourceValue,
    pub model: SourceValue,
    pub billing_provider: SourceValue,
    pub billing_base_url: SourceValue,
    pub billing_mode: SourceValue,
    pub task: SourceValue,
    pub api_call_count: SourceValue,
    pub input_tokens: SourceValue,
    pub output_tokens: SourceValue,
    pub cache_read_tokens: SourceValue,
    pub cache_write_tokens: SourceValue,
    pub reasoning_tokens: SourceValue,
    pub estimated_cost_usd: SourceValue,
    pub actual_cost_usd: SourceValue,
    pub cost_status: SourceValue,
    pub cost_source: SourceValue,
    pub first_seen: SourceValue,
    pub last_seen: SourceValue,
}

/// What a [`UsageRecord`] holds.
pub struct RecordView {
    pub session_id: ValueView,
    pub model: ValueView,
    pub billing_provider: ValueView,
    pub billing_base_url: ValueView,
    pub billing_mode: ValueView,
    pub task: ValueView,
    pub api_call_count: ValueView,
    pub input_tokens: ValueView,
    pub output_tokens: ValueView,
    pub cache_read_tokens: ValueView,
    pub cache_write_tokens: ValueView,
    pub reasoning_tokens: ValueView,
    pub estimated_cost_usd: ValueView,
    pub actual_cost_usd: ValueView,
    pub cost_status: ValueView,
    pub cost_source: ValueView,
    pub first_seen: ValueView,
    pub last_seen: ValueView,
}

impl View for UsageRecord {
    type V = RecordView;

    open spec fn view(&self) -> RecordView {
        RecordView {
            session_id: self.session_id@,
            model: self.model@,
            billing_provider: self.billing_provider@,
            billing_base_url: self.billing_base_url@,
            billing_mode: self.billing_mode@,
            task: self.task@,
            api_call_count: self.api_call_count@,
            input_tokens: self.input_tokens@,
            output_tokens: self.output_tokens@,
            cache_read_tokens: self.cache_read_tokens@,
            cache_write_tokens: self.cache_write_tokens@,
            reasoning_tokens: self.reasoning_tokens@,
            estimated_cost_usd: self.estimated_cost_usd@,
            actual_cost_usd: self.actual_cost_usd@,
            cost_status: self.cost_status@,
            cost_source: self.cost_source@,
            first_seen: self.first_seen@,
            last_seen: self.last_seen@,
        }
    }
}

/// One usage row that has been read: dimensions, cumulative counters and costs.
#[derive(Debug, Clone)]
pub struct HermesSourceRow {
    pub session_id: String,
    pub model: String,
    pub billing_provider: String,
    pub billing_base_url_digest: String,
    pub billing_mode: String,
    pub task: String,
    pub api_call_count: i64,
    pub input_tokens: i64,
    pub output_tokens: i64,
    pub cache_read_tokens: i64,
    pub cache_write_tokens: i64,
    pub reasoning_tokens: i64,
    pub estimated_cost_usd: Option<Cost>,
    pub actual_cost_usd: Option<Cost>,
    pub selected_cost_usd: Cost,
    pub selected_cost_kind: String,
    pub cost_status: Option<String>,
    pub cost_source: Option<String>,
    pub first_seen: Option<String>,
    pub last_seen: Option<String>,
    pub row_key: String,
}

/// What a [`HermesSourceRow`] holds.
pub struct RowView {
    pub session_id: Seq<char>,
    pub model: Seq<char>,
    pub billing_provider: Seq<char>,
    pub billing_base_url_digest: Seq<char>,
    pub billing_mode: Seq<char>,
    pub task: Seq<char>,
    pub api_call_count: i64,
    pub input_tokens: i64,
    pub output_tokens: i64,
    pub cache_read_tokens: i64,
    pub cache_write_tokens: i64,
    pub reasoning_tokens: i64,
    pub estimated_cost_usd: Option<Cost>,
    pub actual_cost_usd: Option<Cost>,
    pub selected_cost_usd: Cost,
    pub selected_cost_kind: Seq<char>,
    pub cost_status: Option<Seq<char>>,
    pub cost_source: Option<Seq<char>>,
    pub first_seen: Option<Seq<char>>,
    pub last_seen: Option<Seq<char>>,
    pub row_key: Seq<char>,
}

impl View for HermesSourceRow {
    type V = RowView;

    open spec fn view(&self) -> RowView {
        RowView {
            session_id: self.session_id@,
            model: self.model@,
            billing_provider: self.billing_provider@,
            billing_base_url_digest: self.billing_base_url_digest@,
            billing_mode: self.billing_mode@,
            task: self.task@,
            api_call_count: self.api_call_count,
            input_tokens: self.input_tokens,
            output_tokens: self.output_tokens,
            cache_read_tokens: self.cache_read_tokens,
            cache_write_tokens: self.cache_write_tokens,
            reasoning_tokens: self.reasoning_tokens,
            estimated_cost_usd: self.estimated_cost_usd,
            actual_cost_usd: self.actual_cost_usd,
            selected_cost_usd: self.selected_cost_usd,
            selected_cost_kind: self.selected_cost_kind@,
            cost_status: some_text(self.cost_status),
            cost_source: some_text(self.cost_source),
            first_seen: some_text(self.first_seen),
            last_seen: some_text(self.last_seen),
            row_key: self.row_key@,
        }
    }
}

impl RowView {
    /// No counter and no cost is negative.
    pub open spec fn valid(self) -> bool {
        &&& self.api_call_count >= 0
        &&& self.input_tokens >= 0
        &&& self.output_tokens >= 0
        &&& self.cache_read_tokens >= 0
        &&& self.cache_write_tokens >= 0
        &&& self.reasoning_tokens >= 0
        &&& self.selected_cost_usd.non_negative()
        &&& self.estimated_cost_usd is Some ==> self.estimated_cost_usd->0.non_negative()
        &&& self.actual_cost_usd is Some ==> self.actual_cost_usd->0.non_negative()
    }
}

/// The failure of the first column that cannot be read, in the order in which they are read.
pub open spec fn record_failure(record: RecordView) -> Option<Failure> {
    if required_value(record.session_id) is Err {
        Some(required_value(record.session_id)->Err_0)
    } else if required_value(record.model) is Err {
        Some(required_value(record.model)->Err_0)
    } else if required_value(record.billing_provider) is Err {
        Some(required_value(record.billing_provider)->Err_0)
    } else if text_value(record.billing_base_url) is Err {
        Some(text_value(record.billing_base_url)->Err_0)
    } else if required_value(record.billing_mode) is Err {
        Some(required_value(record.billing_mode)->Err_0)
    } else if required_value(record.task) is Err {
        Some(required_value(record.task)->Err_0)
    } else if optional_cost(record.estimated_cost_usd, "estimated_cost_usd"@) is Err {
        Some(optional_cost(record.estimated_cost_usd, "estimated_cost_usd"@)->Err_0)
    } else if optional_cost(record.actual_cost_usd, "actual_cost_usd"@) is Err {
        Some(optional_cost(record.actual_cost_usd, "actual_cost_usd"@)->Err_0)
    } else if text_value(record.cost_status) is Err {
        Some(text_value(record.cost_status)->Err_0)
    } else if text_value(record.cost_source) is Err {
        Some(text_value(record.cost_source)->Err_0)
    } else if counter_value(record.api_call_count, "api_call_count"@) is Err {
        Some(counter_value(record.api_call_count, "api_call_count"@)->Err_0)
    } else if counter_value(record.input_tokens, "input_tokens"@) is Err {
        Some(counter_value(record.input_tokens, "input_tokens"@)->Err_0)
    } else if counter_value(record.output_tokens, "output_tokens"@) is Err {
        Some(counter_value(record.output_tokens, "output_tokens"@)->Err_0)
    } else if counter_value(record.cache_read_tokens, "cache_read_tokens"@) is Err {
        Some(counter_value(record.cache_read_tokens, "cache_read_tokens"@)->Err_0)
    } else if counter_value(record.cache_write_tokens, "cache_write_tokens"@) is Err {
        Some(counter_value(record.cache_write_tokens, "cache_write_tokens"@)->Err_0)
    } else if counter_value(record.reasoning_tokens, "reasoning_tokens"@) is Err {
        Some(counter_value(record.reasoning_tokens, "reasoning_tokens"@)->Err_0)
    } else if text_value(record.first_seen) is Err {
        Some(text_value(record.first_seen)->Err_0)
    } else if text_value(record.last_seen) is Err {
        Some(text_value(record.last_seen)->Err_0)
    } else {
        None
    }
}

/// The text of a column that may be missing, as one that is there.
pub open spec fn or_empty(s: Option<Seq<char>>) -> Seq<char> {
    match s {
        Some(text) => text,
        None => Seq::empty(),
    }
}

/// The key of a usage row: the digest of its dimensions, the endpoint itself only by its digest.
pub open spec fn row_key_of(
    session_id: Seq<char>,
    model: Seq<char>,
    billing_provider: Seq<char>,
    billing_base_url_digest: Seq<char>,
    billing_mode: Seq<char>,
    task: Seq<char>,
) -> Seq<char> {
    digest_of(
        seq![session_id, model, billing_provider, billing_base_url_digest, billing_mode, task],
    )
}

/// A record all of whose columns can be read, read.
pub open spec fn record_row(record: RecordView) -> RowView {
    let session_id = required_value(record.session_id)->Ok_0;
    let model = required_value(record.model)->Ok_0;
    let billing_provider = required_value(record.billing_provider)->Ok_0;
    let billing_base_url = text_value(record.billing_base_url)->Ok_0;
    let billing_mode = required_value(record.billing_mode)->Ok_0;
    let task = required_value(record.task)->Ok_0;
    let estimated_cost_usd = optional_cost(record.estimated_cost_usd, "estimated_cost_usd"@)->Ok_0;
    let actual_cost_usd = optional_cost(record.actual_cost_usd, "actual_cost_usd"@)->Ok_0;
    let cost_status = text_value(record.cost_status)->Ok_0;
    let cost_source = text_value(record.cost_source)->Ok_0;
    let api_call_count = counter_value(record.api_call_count, "api_call_count"@)->Ok_0;
    let input_tokens = counter_value(record.input_tokens, "input_tokens"@)->Ok_0;
    let output_tokens = counter_value(record.output_tokens, "output_tokens"@)->Ok_0;
    let cache_read_tokens = counter_value(record.cache_read_tokens, "cache_read_tokens"@)->Ok_0;
    let cache_write_tokens = counter_value(record.cache_write_tokens, "cache_write_tokens"@)->Ok_0;
    let reasoning_tokens = counter_value(record.reasoning_tokens, "reasoning_tokens"@)->Ok_0;
    let first_seen = text_value(record.first_seen)->Ok_0;
    let last_seen = text_value(record.last_seen)->Ok_0;
    let (selected_cost_usd, selected_cost_kind) = selected_cost(
        estimated_cost_usd,
        actual_cost_usd,
        cost_status,
    );
    let billing_base_url_digest = digest_of(seq![or_empty(billing_base_url)]);
    RowView {
        session_id,
        model,
        billing_provider,
        billing_base_url_digest,
        billing_mode,
        task,
        api_call_count,
        input_tokens,
        output_tokens,
        cache_read_tokens,
        cache_write_tokens,
        reasoning_tokens,
        estimated_cost_usd,
        actual_cost_usd,
        selected_cost_usd,
        selected_cost_kind,
        cost_status,
        cost_source,
        first_seen,
        last_seen,
        row_key: row_key_of(
            session_id,
            model,
            billing_provider,
            billing_base_url_digest,
            billing_mode,
            task,
        ),
    }
}

/// What a record is read as.
pub open spec fn parsed_row(record: RecordView) -> Result<RowView, Failure> {
    match record_failure(record) {
        Some(e) => Err(e),
        None => Ok(record_row(record)),
    }
}

/// An outcome with its row and its error as what they hold.
pub open spec fn viewed_row(r: Result<HermesSourceRow, AppError>) -> Result<RowView, Failure> {
    match r {
        Ok(row) => Ok(row@),
        Err(e) => Err(e@),
    }
}

/// The key of a usage row.
fn make_row_key(
    session_id: &str,
    model: &str,
    billing_provider: &str,
    billing_base_url_digest: &str,
    billing_mode: &str,
    task: &str,
) -> (r: String)
    ensures
        r@ == row_key_of(
            session_id@,
            model@,
            billing_provider@,
            billing_base_url_digest@,
            billing_mode@,
            task@,
        ),
{
    let parts: [&str; 6] = [
        session_id,
        model,
        billing_provider,
        billing_base_url_digest,
        billing_mode,
        task,
    ];
    assert(texts(parts@) =~= seq![
        session_id@,
        model@,
        billing_provider@,
        billing_base_url_digest@,
        billing_mode@,
        task@,
    ]);
    digest_parts(&parts)
}

/// Reads one usage row. The endpoint is kept only as a digest.
pub fn parse_hermes_source_row(record: &UsageRecord) -> (r: Result<HermesSourceRow, AppError>)
    ensures
        viewed_row(r) == parsed_row(record@),
        r is Ok ==> r->Ok_0@.valid() && r->Ok_0.billing_base_url_digest@.len() == 64,
{
    let session_id: String = match read_required_text(&record.session_id) {
        Ok(v) => v,
        Err(e) => {
            return Err(e);
        },
    };
    let model: String = match read_required_text(&record.model) {
        Ok(v) => v,
        Err(e) => {
            return Err(e);
        },
    };
    let billing_provider: String = match read_required_text(&record.billing_provider) {
        Ok(v) => v,
        Err(e) => {
            return Err(e);
        },
    };
    let billing_base_url: Option<String> = match read_optional_text(&record.billing_base_url) {
        Ok(v) => v,
        Err(e) => {
            return Err(e);
        },
    };
    let billing_mode: String = match read_required_text(&record.billing_mode) {
        Ok(v) => v,
        Err(e) => {
            return Err(e);
        },
    };
    let task: String = match read_required_text(&record.task) {
        Ok(v) => v,
        Err(e) => {
            return Err(e);
        },
    };
    let estimated_cost_usd: Option<Cost> = match read_optional_decimal(&record.estimated_cost_usd, "estimated_cost_usd") {
        Ok(v) => v,
        Err(e) => {
            return Err(e);
        },
    };
    let actual_cost_usd: Option<Cost> = match read_optional_decimal(&record.actual_cost_usd, "actual_cost_usd") {
        Ok(v) => v,
        Err(e) => {
            return Err(e);
        },
    };
    let cost_status: Option<String> = match read_optional_text(&record.cost_status) {
        Ok(v) => v,
        Err(e) => {
            return Err(e);
        },
    };
    let cost_source: Option<String> = match read_optional_text(&record.cost_source) {
        Ok(v) => v,
        Err(e) => {
            return Err(e);
        },
    };
    let api_call_count: i64 = match read_counter(&record.api_call_count, "api_call_count") {
        Ok(v) => v,
        Err(e) => {
            return Err(e);
        },
    };
    let input_tokens: i64 = match read_counter(&record.input_tokens, "input_tokens") {
        Ok(v) => v,
        Err(e) => {
            return Err(e);
        },
    };
    let output_tokens: i64 = match read_counter(&record.output_tokens, "output_tokens") {
        Ok(v) => v,
        Err(e) => {
            return Err(e);
        },
    };
    let cache_read_tokens: i64 = match read_counter(&record.cache_read_tokens, "cache_read_tokens") {
        Ok(v) => v,
        Err(e) => {
            return Err(e);
        },
    };
    let cache_write_tokens: i64 = match read_counter(&record.cache_write_tokens, "cache_write_tokens") {
        Ok(v) => v,
        Err(e) => {
            return Err(e);
        },
    };
    let reasoning_tokens: i64 = match read_counter(&record.reasoning_tokens, "reasoning_tokens") {
        Ok(v) => v,
        Err(e) => {
            return Err(e);
        },
    };
    let first_seen: Option<String> = match read_optional_text(&record.first_seen) {
        Ok(v) => v,
        Err(e) => {
            return Err(e);
        },
    };
    let last_seen: Option<String> = match read_optional_text(&record.last_seen) {
        Ok(v) => v,
        Err(e) => {
            return Err(e);
        },
    };
    let status: Option<&str> = match &cost_status {
        Some(s) => Some(s.as_str()),
        None => None,
    };
    let (selected_cost_usd, selected_cost_kind) = select_source_cost(
        estimated_cost_usd,
        actual_cost_usd,
        status,
    );
    let url: &str = match &billing_base_url {
        Some(s) => s.as_str(),
        None => "",
    };
    proof {
        reveal_strlit("");
        assert(""@ =~= Seq::<char>::empty());
    }
    let endpoint: [&str; 1] = [url];
    assert(texts(endpoint@) =~= seq![url@]);
    let billing_base_url_digest: String = digest_parts(&endpoint);
    let row_key: String = make_row_key(
        session_id.as_str(),
        model.as_str(),
        billing_provider.as_str(),
        billing_base_url_digest.as_str(),
        billing_mode.as_str(),
        task.as_str(),
    );
    Ok(
        HermesSourceRow {
            session_id,
            model,
            billing_provider,
            billing_base_url_digest,
            billing_mode,
            task,
            api_call_count,
            input_tokens,
            output_tokens,
            cache_read_tokens,
            cache_write_tokens,
            reasoning_tokens,
            estimated_cost_usd,
            actual_cost_usd,
            selected_cost_usd,
            selected_cost_kind: selected_cost_kind.to_owned(),
            cost_status,
            cost_source,
            first_seen,
            last_seen,
            row_key,
        },
    )
}

} // verus!
