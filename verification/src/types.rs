//! Data carried between the platform's usage endpoints and the aggregation.
//! Every structure here holds plain values only; JSON decoding happens at
//! the program's edge, where copies of these types carry the serde derives.

use crate::text::{parse_u64, parsed_u64};
use vstd::prelude::*;

verus! {

/// The standard response envelope `{code, msg, data}`.
pub struct ApiEnvelope<T> {
    pub code: i32,
    pub msg: String,
    pub data: Option<T>,
}

/// The business wrapper `{biz_code, biz_msg, biz_data}` found inside `data`.
pub struct BizWrapper<T> {
    pub biz_code: i32,
    pub biz_msg: String,
    pub biz_data: T,
}

/// A value the platform sends either as a number or as a string, kept in
/// its canonical textual form.
pub struct StringOrF64(pub Option<String>);

impl StringOrF64 {
    /// The canonical text, if any value was present.
    pub fn as_str(&self) -> (r: Option<&str>)
        ensures
            match (r, &self.0) {
                (Some(a), Some(b)) => a@ == b@,
                (None, None) => true,
                _ => false,
            },
    {
        match &self.0 {
            Some(s) => Some(s.as_str()),
            None => None,
        }
    }
}

/// Legacy usage-amount response, flat schema.
pub struct AmountFlat {
    pub items: Vec<AmountFlatItem>,
    pub month: i32,
    pub year: i32,
}

pub struct AmountFlatItem {
    pub date: String,
    pub models: Vec<ModelAmountPayload>,
}

pub struct ModelAmountPayload {
    pub name: String,
    pub input_cache_hit: u64,
    pub input_cache_miss: u64,
    pub output: u64,
    pub api_requests: u64,
}

/// Response of `GET /users/get_api_keys`.
pub struct ApiKeysResponse {
    pub api_keys: Vec<ApiKeyInfo>,
}

pub struct ApiKeyInfo {
    pub tracking_id: String,
    pub name: String,
    pub sensitive_id: String,
    pub created_at: i64,
    pub last_use: i64,
}

/// API-key description embedded in each usage series.
pub struct ApiKeyMeta {
    pub tracking_id: String,
    pub name: String,
    pub sensitive_id: String,
    pub valid: bool,
}

/// Usage counters of one time bucket; unknown or malformed counters read as 0.
pub struct UsageMetrics {
    pub response_token: u64,
    pub request: u64,
    pub prompt_cache_hit_token: u64,
    pub prompt_cache_miss_token: u64,
}

impl UsageMetrics {
    /// All tokens of the bucket: generated plus prompt tokens (cache hits and misses).
    pub open spec fn spec_total(&self) -> int {
        self.response_token + self.prompt_cache_hit_token + self.prompt_cache_miss_token
    }

    /// Total tokens: response + prompt cache hits + prompt cache misses.
    pub fn total(&self) -> (t: u64)
        requires
            self.spec_total() <= u64::MAX,
        ensures
            t == self.spec_total(),
    {
        self.response_token + self.prompt_cache_hit_token + self.prompt_cache_miss_token
    }
}

/// A usage counter as the platform sends it: a JSON number (with its value
/// when that is a `u64`), a string, or anything else.
pub enum MetricAmount {
    Number(Option<u64>),
    Text(String),
    Other,
}

/// The counter's value: a `u64` number as is, a string holding a `u64` in
/// decimal as its value, anything else as 0.
pub open spec fn metric_value(a: MetricAmount) -> u64 {
    match a {
        MetricAmount::Number(Some(n)) => n,
        MetricAmount::Text(s) => match parsed_u64(s@) {
            Some(n) => n,
            None => 0,
        },
        _ => 0,
    }
}

/// Reads a usage counter (see `metric_value`).
pub fn metric_count(a: &MetricAmount) -> (n: u64)
    ensures
        n == metric_value(*a),
{
    match a {
        MetricAmount::Number(Some(n)) => *n,
        MetricAmount::Text(s) => match parse_u64(s.as_str()) {
            Some(n) => n,
            None => 0,
        },
        _ => 0,
    }
}

/// Response of `GET /usage/by_api_key/amount`.
pub struct ByApiKeyAmountResponse {
    pub start: i64,
    pub end: i64,
    pub bucket: i64,
    pub models: Vec<String>,
    pub series: Vec<AmountSeriesItem>,
}

pub struct AmountSeriesItem {
    pub api_key: ApiKeyMeta,
    pub model: String,
    pub buckets: Vec<AmountBucket>,
}

/// One time bucket: `time` is a Unix timestamp in seconds.
pub struct AmountBucket {
    pub time: i64,
    pub usage: UsageMetrics,
}

/// Response of `GET /usage/by_api_key/cost`.
pub struct ByApiKeyCostResponse {
    pub start: i64,
    pub end: i64,
    pub bucket: i64,
    pub models: Vec<String>,
    pub data: Vec<CostCurrencyGroup>,
}

pub struct CostCurrencyGroup {
    pub currency: String,
    pub series: Vec<CostSeriesItem>,
}

pub struct CostSeriesItem {
    pub api_key: ApiKeyMeta,
    pub model: String,
    pub buckets: Vec<NewCostBucket>,
}

/// One cost bucket; the cost is the decimal text the platform sent.
pub struct NewCostBucket {
    pub time: i64,
    pub cost: String,
}

/// The currency information of the account summary: the declared currency
/// and the currency of each normal and each bonus wallet.
pub struct SummaryCurrencies {
    pub currency: Option<String>,
    pub normal_wallets: Option<Vec<String>>,
    pub bonus_wallets: Option<Vec<String>>,
}

/// Per-model usage, either of one day or of the whole period.
///
/// The cost is kept as the decimal texts it is made of: `cost_parts[i]`
/// holds the cost texts of the model's `i`-th day, in the order the
/// platform listed them.  The cost is the sum of each day's texts, those
/// day sums added in order.  A daily entry has exactly one group.
pub struct ModelPeriodSummary {
    pub name: String,
    pub cost_parts: Vec<Vec<String>>,
    pub api_requests: u64,
    pub tokens: u64,
    pub output_tokens: u64,
    pub cache_hit: u64,
    pub cache_miss: u64,
}

/// Usage of one UTC day (`date` is `YYYY-MM-DD`), with its per-model entries.
pub struct DailyItem {
    pub date: String,
    pub api_requests: u64,
    pub tokens: u64,
    pub output_tokens: u64,
    pub cache_hit: u64,
    pub cache_miss: u64,
    pub models: Vec<ModelPeriodSummary>,
}

/// The float-free part of the dashboard: currency, period counters,
/// per-model summaries and the daily breakdown.
pub struct AggregatedData {
    pub currency: String,
    pub period_api_requests: u64,
    pub period_tokens: u64,
    pub period_output_tokens: u64,
    pub period_cache_hit: u64,
    pub period_cache_miss: u64,
    pub models: Vec<ModelPeriodSummary>,
    pub daily_items: Vec<DailyItem>,
}


/// Usage counters summed over some set of buckets.  `tokens` is always
/// `output + hit + miss`.
pub struct Tally {
    pub requests: nat,
    pub tokens: nat,
    pub output: nat,
    pub hit: nat,
    pub miss: nat,
}

/// Mathematical content of a `ModelPeriodSummary`.
pub struct ModelUsageView {
    pub name: Seq<char>,
    pub cost_parts: Seq<Seq<Seq<char>>>,
    pub tally: Tally,
}

/// Mathematical content of a `DailyItem`.
pub struct DailyView {
    pub date: Seq<char>,
    pub tally: Tally,
    pub models: Seq<ModelUsageView>,
}

pub open spec fn strings_view(v: Seq<String>) -> Seq<Seq<char>> {
    v.map_values(|s: String| s@)
}

impl View for ModelPeriodSummary {
    type V = ModelUsageView;

    open spec fn view(&self) -> ModelUsageView {
        ModelUsageView {
            name: self.name@,
            cost_parts: self.cost_parts@.map_values(|g: Vec<String>| strings_view(g@)),
            tally: Tally {
                requests: self.api_requests as nat,
                tokens: self.tokens as nat,
                output: self.output_tokens as nat,
                hit: self.cache_hit as nat,
                miss: self.cache_miss as nat,
            },
        }
    }
}

pub open spec fn summaries_view(v: Seq<ModelPeriodSummary>) -> Seq<ModelUsageView> {
    v.map_values(|m: ModelPeriodSummary| m@)
}

impl View for DailyItem {
    type V = DailyView;

    open spec fn view(&self) -> DailyView {
        DailyView {
            date: self.date@,
            tally: Tally {
                requests: self.api_requests as nat,
                tokens: self.tokens as nat,
                output: self.output_tokens as nat,
                hit: self.cache_hit as nat,
                miss: self.cache_miss as nat,
            },
            models: summaries_view(self.models@),
        }
    }
}

pub open spec fn days_view(v: Seq<DailyItem>) -> Seq<DailyView> {
    v.map_values(|d: DailyItem| d@)
}

} // verus!
