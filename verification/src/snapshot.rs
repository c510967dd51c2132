//! The last reading of a usage row, and what has changed since.

use crate::cost::{difference, subtract, Cost};
use crate::counter::{checked_delta, delta_failure};
use crate::error::{viewed, AppError, Failure};
use vstd::prelude::*;

verus! {

/// The counters and costs of one usage row as they were last seen.
#[derive(Debug, Clone, Copy)]
pub struct HermesSnapshotState {
    pub api_call_count: i64,
    pub input_tokens: i64,
    pub output_tokens: i64,
    pub cache_read_tokens: i64,
    pub cache_write_tokens: i64,
    pub reasoning_tokens: i64,
    /// The cumulative cost that counts.
    pub selected_cost_usd: Cost,
    /// The cumulative cost that was there before anything was imported.
    pub cost_baseline_usd: Cost,
    /// What has been imported above the baseline so far.
    pub emitted_cost_balance_usd: Cost,
    pub observed_at: i64,
}

impl HermesSnapshotState {
    /// No cost is negative.
    pub open spec fn valid(self) -> bool {
        &&& self.selected_cost_usd.non_negative()
        &&& self.cost_baseline_usd.non_negative()
        &&& self.emitted_cost_balance_usd.non_negative()
    }
}

/// Which way a cost has moved.
#[derive(Debug, Clone, Copy, PartialEq, Eq, Structural)]
pub enum CostDeltaKind {
    Unchanged,
    Increase,
    Reconciliation,
}

impl CostDeltaKind {
    /// The name under which the kind is stored.
    pub open spec fn name(self) -> Seq<char> {
        match self {
            CostDeltaKind::Unchanged => "none"@,
            CostDeltaKind::Increase => "increase"@,
            CostDeltaKind::Reconciliation => "reconciliation"@,
        }
    }

    /// The name under which the kind is stored.
    pub fn as_str(&self) -> (r: &'static str)
        ensures
            r@ == self.name(),
    {
        match self {
            CostDeltaKind::Unchanged => "none",
            CostDeltaKind::Increase => "increase",
            CostDeltaKind::Reconciliation => "reconciliation",
        }
    }
}

/// What one reading adds to the last one.
#[derive(Debug, Clone, Copy)]
pub struct HermesSnapshotDelta {
    pub api_call_count: i64,
    pub input_tokens: i64,
    pub output_tokens: i64,
    pub cache_read_tokens: i64,
    pub cache_write_tokens: i64,
    pub reasoning_tokens: i64,
    /// The adjustment of the imported cost, of either sign.
    pub cost_usd: Cost,
    /// What has been imported above the baseline with this adjustment.
    pub emitted_cost_balance_usd: Cost,
    pub cost_delta_kind: CostDeltaKind,
}

/// Some counter is lower than before.
pub open spec fn regressed(previous: HermesSnapshotState, current: HermesSnapshotState) -> bool {
    ||| current.api_call_count < previous.api_call_count
    ||| current.input_tokens < previous.input_tokens
    ||| current.output_tokens < previous.output_tokens
    ||| current.cache_read_tokens < previous.cache_read_tokens
    ||| current.cache_write_tokens < previous.cache_write_tokens
    ||| current.reasoning_tokens < previous.reasoning_tokens
}

/// Whether some counter is lower than before, which means that the source was reset.
pub fn counters_regressed(previous: &HermesSnapshotState, current: &HermesSnapshotState) -> (r: bool)
    ensures
        r == regressed(*previous, *current),
{
    current.api_call_count < previous.api_call_count || current.input_tokens
        < previous.input_tokens || current.output_tokens < previous.output_tokens
        || current.cache_read_tokens < previous.cache_read_tokens || current.cache_write_tokens
        < previous.cache_write_tokens || current.reasoning_tokens < previous.reasoning_tokens
}

/// What should have been imported in all: the part of the cost above the baseline, if any.
pub open spec fn balance_above(selected: Cost, baseline: Cost) -> Cost {
    let above = difference(selected, baseline)->0;
    if above.mantissa() > 0 {
        above
    } else {
        Cost::nothing()
    }
}

/// Which way a cost adjustment goes.
pub open spec fn kind_of(cost: Cost) -> CostDeltaKind {
    if cost.mantissa() < 0 {
        CostDeltaKind::Reconciliation
    } else if cost.mantissa() > 0 {
        CostDeltaKind::Increase
    } else {
        CostDeltaKind::Unchanged
    }
}

/// A difference of counters leaves the range of `i64`.
pub open spec fn overflows(current: i64, previous: i64) -> bool {
    !(i64::MIN <= current - previous <= i64::MAX)
}

/// The first counter whose difference leaves the range of `i64`, by the name it goes by in the
/// failure.
pub open spec fn overflowing_counter(
    previous: HermesSnapshotState,
    current: HermesSnapshotState,
) -> Option<Seq<char>> {
    if overflows(current.api_call_count, previous.api_call_count) {
        Some("请求数"@)
    } else if overflows(current.input_tokens, previous.input_tokens) {
        Some("输入 token"@)
    } else if overflows(current.output_tokens, previous.output_tokens) {
        Some("输出 token"@)
    } else if overflows(current.cache_read_tokens, previous.cache_read_tokens) {
        Some("缓存读取 token"@)
    } else if overflows(current.cache_write_tokens, previous.cache_write_tokens) {
        Some("缓存写入 token"@)
    } else if overflows(current.reasoning_tokens, previous.reasoning_tokens) {
        Some("推理 token"@)
    } else {
        None
    }
}

/// What the current reading adds to the previous one.
pub open spec fn delta_between(
    previous: HermesSnapshotState,
    current: HermesSnapshotState,
) -> Result<HermesSnapshotDelta, Failure> {
    let balance = balance_above(current.selected_cost_usd, previous.cost_baseline_usd);
    let cost = difference(balance, previous.emitted_cost_balance_usd)->0;
    match overflowing_counter(previous, current) {
        Some(name) => Err(delta_failure(name)),
        None => Ok(
            HermesSnapshotDelta {
                api_call_count: (current.api_call_count - previous.api_call_count) as i64,
                input_tokens: (current.input_tokens - previous.input_tokens) as i64,
                output_tokens: (current.output_tokens - previous.output_tokens) as i64,
                cache_read_tokens: (current.cache_read_tokens - previous.cache_read_tokens) as i64,
                cache_write_tokens: (current.cache_write_tokens
                    - previous.cache_write_tokens) as i64,
                reasoning_tokens: (current.reasoning_tokens - previous.reasoning_tokens) as i64,
                cost_usd: cost,
                emitted_cost_balance_usd: balance,
                cost_delta_kind: kind_of(cost),
            },
        ),
    }
}

impl HermesSnapshotDelta {
    /// Something was used, or a cost has to be adjusted.
    pub open spec fn shows_usage(self) -> bool {
        ||| self.api_call_count > 0
        ||| self.input_tokens > 0
        ||| self.output_tokens > 0
        ||| self.cache_read_tokens > 0
        ||| self.cache_write_tokens > 0
        ||| self.reasoning_tokens > 0
        ||| self.cost_usd.mantissa() != 0
    }

    /// Works out what the current reading adds to the previous one. The imported cost follows the
    /// part of the selected cost that lies above the baseline, so that a correction takes back at
    /// most what was imported.
    pub fn between(previous: &HermesSnapshotState, current: &HermesSnapshotState) -> (r: Result<
        Self,
        AppError,
    >)
        requires
            previous.valid(),
            current.valid(),
        ensures
            viewed(r) == delta_between(*previous, *current),
            r is Ok ==> r->Ok_0.cost_usd.valid() && r->Ok_0.emitted_cost_balance_usd.non_negative(),
            r is Ok ==> r->Ok_0.cost_usd.at_scale(28)
                >= -previous.emitted_cost_balance_usd.at_scale(28),
    {
        let amount_above_baseline: Cost = subtract(
            current.selected_cost_usd,
            previous.cost_baseline_usd,
        );
        let target_emitted_cost_balance_usd: Cost = if amount_above_baseline.is_positive() {
            amount_above_baseline
        } else {
            Cost::zero()
        };
        let cost_usd: Cost = subtract(
            target_emitted_cost_balance_usd,
            previous.emitted_cost_balance_usd,
        );
        let cost_delta_kind: CostDeltaKind = if cost_usd.is_negative() {
            CostDeltaKind::Reconciliation
        } else if cost_usd.is_positive() {
            CostDeltaKind::Increase
        } else {
            CostDeltaKind::Unchanged
        };
        let api_call_count: i64 = match checked_delta(
            current.api_call_count,
            previous.api_call_count,
            "请求数",
        ) {
            Ok(v) => v,
            Err(e) => {
                return Err(e);
            },
        };
        let input_tokens: i64 = match checked_delta(
            current.input_tokens,
            previous.input_tokens,
            "输入 token",
        ) {
            Ok(v) => v,
            Err(e) => {
                return Err(e);
            },
        };
        let output_tokens: i64 = match checked_delta(
            current.output_tokens,
            previous.output_tokens,
            "输出 token",
        ) {
            Ok(v) => v,
            Err(e) => {
                return Err(e);
            },
        };
        let cache_read_tokens: i64 = match checked_delta(
            current.cache_read_tokens,
            previous.cache_read_tokens,
            "缓存读取 token",
        ) {
            Ok(v) => v,
            Err(e) => {
                return Err(e);
            },
        };
        let cache_write_tokens: i64 = match checked_delta(
            current.cache_write_tokens,
            previous.cache_write_tokens,
            "缓存写入 token",
        ) {
            Ok(v) => v,
            Err(e) => {
                return Err(e);
            },
        };
        let reasoning_tokens: i64 = match checked_delta(
            current.reasoning_tokens,
            previous.reasoning_tokens,
            "推理 token",
        ) {
            Ok(v) => v,
            Err(e) => {
                return Err(e);
            },
        };
        Ok(
            HermesSnapshotDelta {
                api_call_count,
                input_tokens,
                output_tokens,
                cache_read_tokens,
                cache_write_tokens,
                reasoning_tokens,
                cost_usd,
                emitted_cost_balance_usd: target_emitted_cost_balance_usd,
                cost_delta_kind,
            },
        )
    }

    /// Whether there is anything to import.
    pub fn has_usage(&self) -> (r: bool)
        ensures
            r == self.shows_usage(),
    {
        self.api_call_count > 0 || self.input_tokens > 0 || self.output_tokens > 0
            || self.cache_read_tokens > 0 || self.cache_write_tokens > 0 || self.reasoning_tokens
            > 0 || self.cost_usd.is_negative() || self.cost_usd.is_positive()
    }
}

} // verus!
