//! Queries on the stored deltas, and their totals.

use crate::cost::{add_costs, optional_text, parse_signed_decimal, signed_cost, sum, Cost};
use crate::counter::{checked_add, negative_failure, non_negative_i64, sum_failure};
use crate::error::{viewed, AppError, Failure};
use crate::store::{
    delta_views, DeltaRecord, DeltaView, UsageStore, HERMES_DATA_SOURCE, HERMES_PRECISION,
};
use crate::text::{ascii_lowercase, ascii_lowered, same_text};
use vstd::pervasive::unreached;
use vstd::prelude::*;
use vstd::string::*;

verus! {

/// Why deltas stand where a list of requests might be looked for: the source records neither the
/// status nor the latency of a single request.
pub const HERMES_AGGREGATE_EXPLANATION: &'static str = "Hermes usage is imported from cumulative session/model counters at aggregate sync-window precision; individual request status and latency are not available.";

/// Which deltas a query asks for.
#[derive(Debug, Clone, Copy)]
pub struct HermesUsageFilters<'a> {
    pub start_date: Option<i64>,
    pub end_date: Option<i64>,
    pub provider: Option<&'a str>,
    pub model: Option<&'a str>,
    pub profile_name: Option<&'a str>,
    pub task: Option<&'a str>,
}

/// What [`HermesUsageFilters`] hold.
pub struct FiltersView {
    pub start_date: Option<i64>,
    pub end_date: Option<i64>,
    pub provider: Option<Seq<char>>,
    pub model: Option<Seq<char>>,
    pub profile_name: Option<Seq<char>>,
    pub task: Option<Seq<char>>,
}

impl<'a> View for HermesUsageFilters<'a> {
    type V = FiltersView;

    open spec fn view(&self) -> FiltersView {
        FiltersView {
            start_date: self.start_date,
            end_date: self.end_date,
            provider: optional_text(self.provider),
            model: optional_text(self.model),
            profile_name: optional_text(self.profile_name),
            task: optional_text(self.task),
        }
    }
}

impl<'a> Default for HermesUsageFilters<'a> {
    /// No filter at all.
    fn default() -> (r: Self)
        ensures
            r@ == FiltersView::all(),
    {
        HermesUsageFilters {
            start_date: None,
            end_date: None,
            provider: None,
            model: None,
            profile_name: None,
            task: None,
        }
    }
}

/// A delta as a query gives it.
#[derive(Debug, Clone)]
pub struct HermesDeltaRow {
    pub provider: String,
    pub model: String,
    pub sync_window_end: i64,
    pub api_call_count: u64,
    pub input_tokens: u64,
    pub output_tokens: u64,
    pub cache_read_tokens: u64,
    pub cache_write_tokens: u64,
    pub reasoning_tokens: u64,
    pub cost_usd: Cost,
}

/// What a [`HermesDeltaRow`] holds.
pub struct DeltaRowView {
    pub provider: Seq<char>,
    pub model: Seq<char>,
    pub sync_window_end: i64,
    pub api_call_count: u64,
    pub input_tokens: u64,
    pub output_tokens: u64,
    pub cache_read_tokens: u64,
    pub cache_write_tokens: u64,
    pub reasoning_tokens: u64,
    pub cost_usd: Cost,
}

impl View for HermesDeltaRow {
    type V = DeltaRowView;

    open spec fn view(&self) -> DeltaRowView {
        DeltaRowView {
            provider: self.provider@,
            model: self.model@,
            sync_window_end: self.sync_window_end,
            api_call_count: self.api_call_count,
            input_tokens: self.input_tokens,
            output_tokens: self.output_tokens,
            cache_read_tokens: self.cache_read_tokens,
            cache_write_tokens: self.cache_write_tokens,
            reasoning_tokens: self.reasoning_tokens,
            cost_usd: self.cost_usd,
        }
    }
}

/// A filter that is not set lets every value pass.
pub open spec fn passes(filter: Option<Seq<char>>, value: Seq<char>) -> bool {
    filter is Some ==> filter->0 == value
}

impl FiltersView {
    /// No filter at all.
    pub open spec fn all() -> FiltersView {
        FiltersView {
            start_date: None,
            end_date: None,
            provider: None,
            model: None,
            profile_name: None,
            task: None,
        }
    }

    /// The delta is one of Hermes, its window overlaps the range of dates, and it has the
    /// dimensions asked for. Models are compared without regard to the case of ASCII letters.
    pub open spec fn accepts(self, delta: DeltaView) -> bool {
        &&& delta.data_source == HERMES_DATA_SOURCE@
        &&& delta.precision == HERMES_PRECISION@
        &&& self.start_date is Some ==> delta.sync_window_end >= self.start_date->0
        &&& self.end_date is Some ==> delta.sync_window_start <= self.end_date->0
        &&& passes(self.provider, delta.provider)
        &&& self.model is Some ==> ascii_lowered(delta.model) == ascii_lowered(self.model->0)
        &&& passes(self.profile_name, delta.profile_name)
        &&& passes(self.task, delta.task)
    }
}

/// A list ordered by window end with one more delta in its place: behind those that end no later.
pub open spec fn placed(ordered: Seq<DeltaView>, delta: DeltaView) -> Seq<DeltaView>
    decreases ordered.len(),
{
    if ordered.len() == 0 || ordered.last().sync_window_end <= delta.sync_window_end {
        ordered.push(delta)
    } else {
        placed(ordered.drop_last(), delta).push(ordered.last())
    }
}

/// The deltas that the filters accept, ordered by window end; those that end together keep the
/// order in which they were stored.
pub open spec fn accepted(deltas: Seq<DeltaView>, filters: FiltersView) -> Seq<DeltaView>
    decreases deltas.len(),
{
    if deltas.len() == 0 {
        Seq::empty()
    } else if filters.accepts(deltas.last()) {
        placed(accepted(deltas.drop_last(), filters), deltas.last())
    } else {
        accepted(deltas.drop_last(), filters)
    }
}

/// The first column of a delta that a query cannot read, and why.
pub open spec fn delta_row_failure(delta: DeltaView) -> Option<Failure> {
    if delta.api_call_count < 0 {
        Some(negative_failure("api_call_count"@))
    } else if delta.input_tokens < 0 {
        Some(negative_failure("input_tokens"@))
    } else if delta.output_tokens < 0 {
        Some(negative_failure("output_tokens"@))
    } else if delta.cache_read_tokens < 0 {
        Some(negative_failure("cache_read_tokens"@))
    } else if delta.cache_write_tokens < 0 {
        Some(negative_failure("cache_write_tokens"@))
    } else if delta.reasoning_tokens < 0 {
        Some(negative_failure("reasoning_tokens"@))
    } else {
        match signed_cost(delta.cost_usd, "cost_usd"@) {
            Err(e) => Some(e),
            Ok(c) => None,
        }
    }
}

/// A delta as a query gives it.
pub open spec fn delta_row(delta: DeltaView) -> Result<DeltaRowView, Failure> {
    match delta_row_failure(delta) {
        Some(e) => Err(e),
        None => Ok(
            DeltaRowView {
                provider: delta.provider,
                model: delta.model,
                sync_window_end: delta.sync_window_end,
                api_call_count: delta.api_call_count as u64,
                input_tokens: delta.input_tokens as u64,
                output_tokens: delta.output_tokens as u64,
                cache_read_tokens: delta.cache_read_tokens as u64,
                cache_write_tokens: delta.cache_write_tokens as u64,
                reasoning_tokens: delta.reasoning_tokens as u64,
                cost_usd: signed_cost(delta.cost_usd, "cost_usd"@)->Ok_0,
            },
        ),
    }
}

/// The deltas as a query gives them, up to the first that cannot be read.
pub open spec fn delta_rows(deltas: Seq<DeltaView>) -> Result<Seq<DeltaRowView>, Failure>
    decreases deltas.len(),
{
    if deltas.len() == 0 {
        Ok(Seq::empty())
    } else {
        match delta_rows(deltas.drop_last()) {
            Err(e) => Err(e),
            Ok(rows) => match delta_row(deltas.last()) {
                Err(e) => Err(e),
                Ok(row) => Ok(rows.push(row)),
            },
        }
    }
}

/// What each row of a list holds.
pub open spec fn delta_row_views(rows: Seq<HermesDeltaRow>) -> Seq<DeltaRowView> {
    rows.map_values(|r: HermesDeltaRow| r@)
}

/// The outcome of a query as what its rows and its error say.
pub open spec fn viewed_delta_rows(r: Result<Vec<HermesDeltaRow>, AppError>) -> Result<
    Seq<DeltaRowView>,
    Failure,
> {
    match r {
        Ok(rows) => Ok(delta_row_views(rows@)),
        Err(e) => Err(e@),
    }
}

/// Whether a filter lets a value pass.
fn lets_pass(filter: Option<&str>, value: &str) -> (r: bool)
    ensures
        r == passes(optional_text(filter), value@),
{
    match filter {
        Some(wanted) => same_text(wanted, value),
        None => true,
    }
}

impl<'a> HermesUsageFilters<'a> {
    /// Whether a delta is one that the query asks for.
    fn accepts(&self, delta: &DeltaRecord) -> (r: bool)
        ensures
            r == self@.accepts(delta@),
    {
        let in_range: bool = match self.start_date {
            Some(start) => delta.sync_window_end >= start,
            None => true,
        } && match self.end_date {
            Some(end) => delta.sync_window_start <= end,
            None => true,
        };
        let same_model: bool = match self.model {
            Some(model) => same_text(
                ascii_lowercase(delta.model.as_str()).as_str(),
                ascii_lowercase(model).as_str(),
            ),
            None => true,
        };
        same_text(delta.data_source.as_str(), HERMES_DATA_SOURCE) && same_text(
            delta.precision.as_str(),
            HERMES_PRECISION,
        ) && in_range && lets_pass(self.provider, delta.provider.as_str()) && same_model
            && lets_pass(self.profile_name, delta.profile_name.as_str()) && lets_pass(
            self.task,
            delta.task.as_str(),
        )
    }
}

/// Reads one stored delta.
fn read_delta(delta: &DeltaRecord) -> (r: Result<HermesDeltaRow, AppError>)
    ensures
        match r {
            Ok(row) => delta_row(delta@) == Ok::<DeltaRowView, Failure>(row@)
                && row.cost_usd.valid(),
            Err(e) => delta_row(delta@) == Err::<DeltaRowView, Failure>(e@),
        },
{
    let api_call_count: u64 = match non_negative_i64(delta.api_call_count, "api_call_count") {
        Ok(v) => v as u64,
        Err(e) => {
            return Err(e);
        },
    };
    let input_tokens: u64 = match non_negative_i64(delta.input_tokens, "input_tokens") {
        Ok(v) => v as u64,
        Err(e) => {
            return Err(e);
        },
    };
    let output_tokens: u64 = match non_negative_i64(delta.output_tokens, "output_tokens") {
        Ok(v) => v as u64,
        Err(e) => {
            return Err(e);
        },
    };
    let cache_read_tokens: u64 = match non_negative_i64(delta.cache_read_tokens, "cache_read_tokens") {
        Ok(v) => v as u64,
        Err(e) => {
            return Err(e);
        },
    };
    let cache_write_tokens: u64 = match non_negative_i64(delta.cache_write_tokens, "cache_write_tokens") {
        Ok(v) => v as u64,
        Err(e) => {
            return Err(e);
        },
    };
    let reasoning_tokens: u64 = match non_negative_i64(delta.reasoning_tokens, "reasoning_tokens") {
        Ok(v) => v as u64,
        Err(e) => {
            return Err(e);
        },
    };
    let cost_usd: Cost = match parse_signed_decimal(delta.cost_usd.as_str(), "cost_usd") {
        Ok(c) => c,
        Err(e) => {
            return Err(e);
        },
    };
    Ok(
        HermesDeltaRow {
            provider: delta.provider.clone(),
            model: delta.model.clone(),
            sync_window_end: delta.sync_window_end,
            api_call_count,
            input_tokens,
            output_tokens,
            cache_read_tokens,
            cache_write_tokens,
            reasoning_tokens,
            cost_usd,
        },
    )
}

/// The deltas at some places of a list.
spec fn at_places(deltas: Seq<DeltaRecord>, places: Seq<usize>) -> Seq<DeltaView> {
    places.map_values(|p: usize| deltas[p as int]@)
}

proof fn lemma_placed(ordered: Seq<DeltaView>, k: int, delta: DeltaView)
    requires
        0 <= k <= ordered.len(),
        k > 0 ==> ordered[k - 1].sync_window_end <= delta.sync_window_end,
        forall|j: int| k <= j < ordered.len() ==> (#[trigger] ordered[j]).sync_window_end
            > delta.sync_window_end,
    ensures
        placed(ordered, delta) == ordered.insert(k, delta),
    decreases ordered.len(),
{
    if k < ordered.len() {
        assert(ordered.last() == ordered[ordered.len() - 1]);
        lemma_placed(ordered.drop_last(), k, delta);
        assert(ordered.drop_last().insert(k, delta).push(ordered.last()) =~= ordered.insert(
            k,
            delta,
        ));
    } else {
        assert(ordered.push(delta) =~= ordered.insert(k, delta));
    }
}

/// The places of the deltas that the filters accept, in the order of the query.
fn accepted_places(deltas: &Vec<DeltaRecord>, filters: HermesUsageFilters<'_>) -> (r: Vec<usize>)
    ensures
        forall|j: int| 0 <= j < r@.len() ==> (#[trigger] r@[j]) < deltas@.len(),
        at_places(deltas@, r@) == accepted(delta_views(deltas@), filters@),
{
    let ghost views = delta_views(deltas@);
    let mut places: Vec<usize> = Vec::new();
    let mut i: usize = 0;
    assert(at_places(deltas@, places@) =~= Seq::empty());
    while i < deltas.len()
        invariant
            i <= deltas@.len(),
            views == delta_views(deltas@),
            forall|j: int| 0 <= j < places@.len() ==> (#[trigger] places@[j]) < deltas@.len(),
            at_places(deltas@, places@) == accepted(views.take(i as int), filters@),
        decreases deltas@.len() - i,
    {
        let delta: &DeltaRecord = &deltas[i];
        let ghost ordered = at_places(deltas@, places@);
        proof {
            assert(views.take(i + 1).drop_last() =~= views.take(i as int));
            assert(views.take(i + 1).last() == delta@);
        }
        if filters.accepts(delta) {
            let mut k: usize = places.len();
            while k > 0 && deltas[places[k - 1]].sync_window_end > delta.sync_window_end
                invariant
                    k <= places@.len(),
                    ordered == at_places(deltas@, places@),
                    forall|j: int|
                        0 <= j < places@.len() ==> (#[trigger] places@[j]) < deltas@.len(),
                    forall|j: int|
                        k <= j < ordered.len() ==> (#[trigger] ordered[j]).sync_window_end
                            > delta.sync_window_end,
                decreases k,
            {
                k = k - 1;
            }
            proof {
                lemma_placed(ordered, k as int, delta@);
            }
            let ghost before = places@;
            places.insert(k, i);
            proof {
                assert(at_places(deltas@, places@) =~= ordered.insert(k as int, delta@));
                assert forall|j: int| 0 <= j < places@.len() implies (#[trigger] places@[j])
                    < deltas@.len() by {
                    if j < k {
                        assert(places@[j] == before[j]);
                    } else if j > k {
                        assert(places@[j] == before[j - 1]);
                    }
                }
            }
        }
        i = i + 1;
    }
    assert(views.take(i as int) =~= views);
    places
}

/// Queries the stored deltas. A range of dates asks for the deltas whose window overlaps it, since
/// the source supplies no date of a single request.
pub fn query_hermes_deltas(store: &UsageStore, filters: HermesUsageFilters<'_>) -> (r: Result<
    Vec<HermesDeltaRow>,
    AppError,
>)
    ensures
        viewed_delta_rows(r) == delta_rows(accepted(store@.deltas, filters@)),
        r is Ok ==> r->Ok_0@.len() == accepted(store@.deltas, filters@).len(),
        r is Ok ==> forall|i: int|
            0 <= i < r->Ok_0@.len() ==> {
                &&& delta_row(accepted(store@.deltas, filters@)[i]) == Ok::<DeltaRowView, Failure>(
                    (#[trigger] r->Ok_0@[i])@,
                )
                &&& r->Ok_0@[i].cost_usd.valid()
            },
{
    let deltas: &Vec<DeltaRecord> = store.deltas();
    let places: Vec<usize> = accepted_places(deltas, filters);
    let ghost ordered = at_places(deltas@, places@);
    let mut rows: Vec<HermesDeltaRow> = Vec::new();
    let mut i: usize = 0;
    assert(delta_row_views(rows@) =~= Seq::empty());
    while i < places.len()
        invariant
            i <= places@.len(),
            ordered == at_places(deltas@, places@),
            ordered == accepted(store@.deltas, filters@),
            forall|j: int| 0 <= j < places@.len() ==> (#[trigger] places@[j]) < deltas@.len(),
            delta_rows(ordered.take(i as int)) == Ok::<Seq<DeltaRowView>, Failure>(
                delta_row_views(rows@),
            ),
            rows@.len() == i,
            forall|j: int|
                0 <= j < rows@.len() ==> {
                    &&& delta_row(ordered[j]) == Ok::<DeltaRowView, Failure>(
                        (#[trigger] rows@[j])@,
                    )
                    &&& rows@[j].cost_usd.valid()
                },
        decreases places@.len() - i,
    {
        proof {
            assert(ordered.take(i + 1).drop_last() =~= ordered.take(i as int));
            assert(ordered.take(i + 1).last() == deltas@[places@[i as int] as int]@);
        }
        match read_delta(&deltas[places[i]]) {
            Ok(row) => {
                let ghost before = rows@;
                rows.push(row);
                assert(delta_row_views(rows@) =~= delta_row_views(before).push(row@));
            },
            Err(e) => {
                proof {
                    lemma_first_failure(ordered, i + 1);
                }
                return Err(e);
            },
        }
        i = i + 1;
    }
    assert(ordered.take(i as int) =~= ordered);
    Ok(rows)
}

/// What fails for the first deltas fails for all of them.
proof fn lemma_first_failure(deltas: Seq<DeltaView>, n: int)
    requires
        0 <= n <= deltas.len(),
        delta_rows(deltas.take(n)) is Err,
    ensures
        delta_rows(deltas) == delta_rows(deltas.take(n)),
    decreases deltas.len() - n,
{
    if n == deltas.len() {
        assert(deltas.take(n) =~= deltas);
    } else {
        assert(deltas.take(n + 1).drop_last() =~= deltas.take(n));
        lemma_first_failure(deltas, n + 1);
    }
}

/// The totals of some deltas.
#[derive(Debug, Clone, Copy)]
pub struct HermesAggregate {
    pub request_count: u64,
    pub input_tokens: u64,
    pub output_tokens: u64,
    pub cache_read_tokens: u64,
    pub cache_write_tokens: u64,
    pub reasoning_tokens: u64,
    pub cost_usd: Cost,
}

impl HermesAggregate {
    /// The totals of no delta.
    pub open spec fn zeros() -> HermesAggregate {
        HermesAggregate {
            request_count: 0,
            input_tokens: 0,
            output_tokens: 0,
            cache_read_tokens: 0,
            cache_write_tokens: 0,
            reasoning_tokens: 0,
            cost_usd: Cost::nothing(),
        }
    }
}

impl Default for HermesAggregate {
    /// The totals of no delta.
    fn default() -> (r: Self)
        ensures
            r == HermesAggregate::zeros(),
            r.cost_usd.valid(),
    {
        HermesAggregate {
            request_count: 0,
            input_tokens: 0,
            output_tokens: 0,
            cache_read_tokens: 0,
            cache_write_tokens: 0,
            reasoning_tokens: 0,
            cost_usd: Cost::zero(),
        }
    }
}

/// How many counters can be added before one leaves the range of `u64`; all six where none does.
pub open spec fn additions(total: HermesAggregate, row: DeltaRowView) -> nat {
    if total.request_count + row.api_call_count > u64::MAX {
        0
    } else if total.input_tokens + row.input_tokens > u64::MAX {
        1
    } else if total.output_tokens + row.output_tokens > u64::MAX {
        2
    } else if total.cache_read_tokens + row.cache_read_tokens > u64::MAX {
        3
    } else if total.cache_write_tokens + row.cache_write_tokens > u64::MAX {
        4
    } else if total.reasoning_tokens + row.reasoning_tokens > u64::MAX {
        5
    } else {
        6
    }
}

/// The name of a counter in the failure of its addition.
pub open spec fn counter_name(place: nat) -> Seq<char> {
    if place == 0 {
        "请求数"@
    } else if place == 1 {
        "输入 token"@
    } else if place == 2 {
        "输出 token"@
    } else if place == 3 {
        "缓存读取 token"@
    } else if place == 4 {
        "缓存写入 token"@
    } else {
        "推理 token"@
    }
}

/// One counter of the totals with one more delta: it stays as it is from the first that overflows.
pub open spec fn grown(total: u64, addition: u64, place: nat, done: nat) -> u64 {
    if place < done {
        (total + addition) as u64
    } else {
        total
    }
}

impl HermesAggregate {
    /// The totals with one more delta. Where a counter overflows, those before it have been added.
    pub open spec fn with(self, row: DeltaRowView) -> HermesAggregate {
        let done = additions(self, row);
        HermesAggregate {
            request_count: grown(self.request_count, row.api_call_count, 0, done),
            input_tokens: grown(self.input_tokens, row.input_tokens, 1, done),
            output_tokens: grown(self.output_tokens, row.output_tokens, 2, done),
            cache_read_tokens: grown(self.cache_read_tokens, row.cache_read_tokens, 3, done),
            cache_write_tokens: grown(self.cache_write_tokens, row.cache_write_tokens, 4, done),
            reasoning_tokens: grown(self.reasoning_tokens, row.reasoning_tokens, 5, done),
            cost_usd: if done == 6 {
                sum(self.cost_usd, row.cost_usd)->0
            } else {
                self.cost_usd
            },
        }
    }

    /// The costs can be added, if it comes to that.
    pub open spec fn can_take(self, row: DeltaRowView) -> bool {
        additions(self, row) == 6 ==> sum(self.cost_usd, row.cost_usd) is Some
    }

    /// Adds one delta to the totals.
    pub fn add_row(&mut self, row: &HermesDeltaRow) -> (r: Result<(), AppError>)
        requires
            old(self).cost_usd.valid(),
            row.cost_usd.valid(),
            old(self).can_take(row@),
        ensures
            *final(self) == old(self).with(row@),
            final(self).cost_usd.valid(),
            match r {
                Ok(_) => additions(*old(self), row@) == 6,
                Err(e) => additions(*old(self), row@) < 6 && e@ == sum_failure(
                    counter_name(additions(*old(self), row@)),
                ),
            },
    {
        match checked_add(self.request_count, row.api_call_count, "请求数") {
            Ok(v) => {
                self.request_count = v;
            },
            Err(e) => {
                return Err(e);
            },
        }
        match checked_add(self.input_tokens, row.input_tokens, "输入 token") {
            Ok(v) => {
                self.input_tokens = v;
            },
            Err(e) => {
                return Err(e);
            },
        }
        match checked_add(self.output_tokens, row.output_tokens, "输出 token") {
            Ok(v) => {
                self.output_tokens = v;
            },
            Err(e) => {
                return Err(e);
            },
        }
        match checked_add(self.cache_read_tokens, row.cache_read_tokens, "缓存读取 token") {
            Ok(v) => {
                self.cache_read_tokens = v;
            },
            Err(e) => {
                return Err(e);
            },
        }
        match checked_add(self.cache_write_tokens, row.cache_write_tokens, "缓存写入 token") {
            Ok(v) => {
                self.cache_write_tokens = v;
            },
            Err(e) => {
                return Err(e);
            },
        }
        match checked_add(self.reasoning_tokens, row.reasoning_tokens, "推理 token") {
            Ok(v) => {
                self.reasoning_tokens = v;
            },
            Err(e) => {
                return Err(e);
            },
        }
        self.cost_usd = match add_costs(self.cost_usd, row.cost_usd) {
            Some(c) => c,
            None => unreached(),
        };
        Ok(())
    }

    /// Adds one delta to the totals, unless the costs overflow.
    pub fn try_add_row(&mut self, row: &HermesDeltaRow) -> (r: Option<Result<(), AppError>>)
        requires
            old(self).cost_usd.valid(),
            row.cost_usd.valid(),
        ensures
            r is Some == old(self).can_take(row@),
            r is None ==> *final(self) == *old(self),
            r is Some ==> *final(self) == old(self).with(row@),
            final(self).cost_usd.valid(),
            match r {
                None => true,
                Some(Ok(_)) => additions(*old(self), row@) == 6,
                Some(Err(e)) => additions(*old(self), row@) < 6 && e@ == sum_failure(
                    counter_name(additions(*old(self), row@)),
                ),
            },
    {
        let fits: bool = self.request_count.checked_add(row.api_call_count).is_some()
            && self.input_tokens.checked_add(row.input_tokens).is_some()
            && self.output_tokens.checked_add(row.output_tokens).is_some()
            && self.cache_read_tokens.checked_add(row.cache_read_tokens).is_some()
            && self.cache_write_tokens.checked_add(row.cache_write_tokens).is_some()
            && self.reasoning_tokens.checked_add(row.reasoning_tokens).is_some();
        if fits && add_costs(self.cost_usd, row.cost_usd).is_none() {
            return None;
        }
        Some(self.add_row(row))
    }
}

/// The totals of some deltas, or the failure of the first addition that overflows.
pub open spec fn aggregated(rows: Seq<DeltaRowView>) -> Result<HermesAggregate, Failure>
    decreases rows.len(),
{
    if rows.len() == 0 {
        Ok(HermesAggregate::zeros())
    } else {
        match aggregated(rows.drop_last()) {
            Err(e) => Err(e),
            Ok(total) => {
                let done = additions(total, rows.last());
                if done < 6 {
                    Err(sum_failure(counter_name(done)))
                } else {
                    Ok(total.with(rows.last()))
                }
            },
        }
    }
}

/// The costs of the deltas can be added one after the other.
pub open spec fn summable(rows: Seq<DeltaRowView>) -> bool
    decreases rows.len(),
{
    if rows.len() == 0 {
        true
    } else {
        &&& summable(rows.drop_last())
        &&& match aggregated(rows.drop_last()) {
            Err(e) => true,
            Ok(total) => total.can_take(rows.last()),
        }
    }
}

/// The totals of what a query gives.
pub open spec fn query_totals(deltas: Seq<DeltaView>, filters: FiltersView) -> Result<
    HermesAggregate,
    Failure,
> {
    match delta_rows(accepted(deltas, filters)) {
        Err(e) => Err(e),
        Ok(rows) => aggregated(rows),
    }
}

/// The costs of what a query gives can be added.
pub open spec fn query_summable(deltas: Seq<DeltaView>, filters: FiltersView) -> bool {
    match delta_rows(accepted(deltas, filters)) {
        Err(e) => true,
        Ok(rows) => summable(rows),
    }
}

proof fn lemma_summable_prefix(rows: Seq<DeltaRowView>, n: int)
    requires
        0 <= n <= rows.len(),
    ensures
        summable(rows) ==> summable(rows.take(n)),
        aggregated(rows.take(n)) is Err ==> aggregated(rows) == aggregated(rows.take(n))
            && summable(rows) == summable(rows.take(n)),
    decreases rows.len() - n,
{
    if n == rows.len() {
        assert(rows.take(n) =~= rows);
    } else {
        lemma_summable_prefix(rows, n + 1);
        assert(rows.take(n + 1).drop_last() =~= rows.take(n));
    }
}

/// The totals of the stored deltas that the filters accept.
pub fn query_hermes_aggregate(store: &UsageStore, filters: HermesUsageFilters<'_>) -> (r: Result<
    HermesAggregate,
    AppError,
>)
    requires
        query_summable(store@.deltas, filters@),
    ensures
        viewed(r) == query_totals(store@.deltas, filters@),
{
    let rows: Vec<HermesDeltaRow> = match query_hermes_deltas(store, filters) {
        Ok(rows) => rows,
        Err(e) => {
            return Err(e);
        },
    };
    let ghost views = delta_row_views(rows@);
    let mut aggregate: HermesAggregate = HermesAggregate::default();
    let mut i: usize = 0;
    while i < rows.len()
        invariant
            i <= rows@.len(),
            views == delta_row_views(rows@),
            delta_rows(accepted(store@.deltas, filters@)) == Ok::<Seq<DeltaRowView>, Failure>(
                views,
            ),
            summable(views),
            forall|j: int| 0 <= j < rows@.len() ==> (#[trigger] rows@[j]).cost_usd.valid(),
            aggregate.cost_usd.valid(),
            aggregated(views.take(i as int)) == Ok::<HermesAggregate, Failure>(aggregate),
        decreases rows@.len() - i,
    {
        proof {
            lemma_summable_prefix(views, i + 1);
            assert(views.take(i + 1).drop_last() =~= views.take(i as int));
            assert(views.take(i + 1).last() == rows@[i as int]@);
        }
        match aggregate.add_row(&rows[i]) {
            Ok(_) => {},
            Err(e) => {
                return Err(e);
            },
        }
        i = i + 1;
    }
    assert(views.take(i as int) =~= views);
    Ok(aggregate)
}

/// Whether the costs of what a query gives can be added.
pub fn can_aggregate(store: &UsageStore, filters: HermesUsageFilters<'_>) -> (r: bool)
    ensures
        r == query_summable(store@.deltas, filters@),
{
    let rows: Vec<HermesDeltaRow> = match query_hermes_deltas(store, filters) {
        Ok(rows) => rows,
        Err(_) => {
            return true;
        },
    };
    let ghost views = delta_row_views(rows@);
    let mut aggregate: HermesAggregate = HermesAggregate::default();
    let mut i: usize = 0;
    while i < rows.len()
        invariant
            i <= rows@.len(),
            views == delta_row_views(rows@),
            delta_rows(accepted(store@.deltas, filters@)) == Ok::<Seq<DeltaRowView>, Failure>(
                views,
            ),
            summable(views.take(i as int)),
            forall|j: int| 0 <= j < rows@.len() ==> (#[trigger] rows@[j]).cost_usd.valid(),
            aggregate.cost_usd.valid(),
            aggregated(views.take(i as int)) == Ok::<HermesAggregate, Failure>(aggregate),
        decreases rows@.len() - i,
    {
        proof {
            lemma_summable_prefix(views, i + 1);
            assert(views.take(i + 1).drop_last() =~= views.take(i as int));
            assert(views.take(i + 1).last() == rows@[i as int]@);
        }
        match aggregate.try_add_row(&rows[i]) {
            Some(Ok(_)) => {},
            Some(Err(_)) => {
                return true;
            },
            None => {
                return false;
            },
        }
        i = i + 1;
    }
    assert(views.take(i as int) =~= views);
    true
}

/// The totals of the stored deltas that the filters accept, unless the costs overflow.
pub fn try_query_hermes_aggregate(
    store: &UsageStore,
    filters: HermesUsageFilters<'_>,
) -> (r: Option<Result<HermesAggregate, AppError>>)
    ensures
        r is Some == query_summable(store@.deltas, filters@),
        r is Some ==> viewed(r->0) == query_totals(store@.deltas, filters@),
{
    if can_aggregate(store, filters) {
        Some(query_hermes_aggregate(store, filters))
    } else {
        None
    }
}

} // verus!
