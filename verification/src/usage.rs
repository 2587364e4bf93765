//! Aggregation of the per-key usage responses into the daily breakdown,
//! the per-model summaries and the period counters.

use crate::error::DeepSeekError;
use crate::ratio::{push_ratio, ratio_text};
use crate::text::{str_equal, decimal, push_decimal, lemma_seq_lt_total, lemma_seq_lt_transitive, seq_lt, str_lt};
use crate::calendar::{midnight, midnight_timestamp, month_start, month_start_of, parse_ymd, clock_day, clock_seconds, day_of_clock, ymd_parse_of, MAX_EPOCH_DAY, MIN_EPOCH_DAY, day_of_timestamp, epoch_day_of_timestamp, in_calendar, ymd_text, ymd_text_of};
use crate::types::{
    AggregatedData, SummaryCurrencies, days_view, strings_view, summaries_view, DailyItem, DailyView, ModelPeriodSummary, ModelUsageView, AmountBucket, AmountSeriesItem, ByApiKeyAmountResponse, ByApiKeyCostResponse, CostCurrencyGroup,
    CostSeriesItem, NewCostBucket, Tally,
};
use vstd::prelude::*;
use vstd::string::StringExecFns;

verus! {

// ── Mathematical model ──────────────────────────────────────────

/// One bucket of either response, placed on its UTC day.
pub struct UsageEvent {
    pub date: Seq<char>,
    pub model: Seq<char>,
    pub cost: Option<Seq<char>>,
    pub requests: nat,
    pub output: nat,
    pub hit: nat,
    pub miss: nat,
}

pub open spec fn tally_zero() -> Tally {
    Tally { requests: 0, tokens: 0, output: 0, hit: 0, miss: 0 }
}

pub open spec fn tally_add(a: Tally, b: Tally) -> Tally {
    Tally {
        requests: a.requests + b.requests,
        tokens: a.tokens + b.tokens,
        output: a.output + b.output,
        hit: a.hit + b.hit,
        miss: a.miss + b.miss,
    }
}

pub open spec fn event_tally(e: UsageEvent) -> Tally {
    Tally {
        requests: e.requests,
        tokens: e.output + e.hit + e.miss,
        output: e.output,
        hit: e.hit,
        miss: e.miss,
    }
}

/// The `YYYY-MM-DD` day of a bucket timestamp: whole days since the epoch
/// (truncated toward zero), as chrono renders that date.
pub open spec fn bucket_day(time: i64) -> Seq<char> {
    ymd_text_of(day_of_timestamp(time as int) as i32)
}

pub open spec fn cost_event(model: Seq<char>, b: NewCostBucket) -> UsageEvent {
    UsageEvent {
        date: bucket_day(b.time),
        model,
        cost: Some(b.cost@),
        requests: 0,
        output: 0,
        hit: 0,
        miss: 0,
    }
}

pub open spec fn amount_event(model: Seq<char>, b: AmountBucket) -> UsageEvent {
    UsageEvent {
        date: bucket_day(b.time),
        model,
        cost: None,
        requests: b.usage.request as nat,
        output: b.usage.response_token as nat,
        hit: b.usage.prompt_cache_hit_token as nat,
        miss: b.usage.prompt_cache_miss_token as nat,
    }
}

pub open spec fn cost_bucket_events(model: Seq<char>, buckets: Seq<NewCostBucket>) -> Seq<UsageEvent> {
    buckets.map_values(|b: NewCostBucket| cost_event(model, b))
}

pub open spec fn cost_series_events(series: Seq<CostSeriesItem>) -> Seq<UsageEvent>
    decreases series.len(),
{
    if series.len() == 0 {
        seq![]
    } else {
        cost_series_events(series.drop_last()) + cost_bucket_events(
            series.last().model@,
            series.last().buckets@,
        )
    }
}

pub open spec fn cost_events(groups: Seq<CostCurrencyGroup>) -> Seq<UsageEvent>
    decreases groups.len(),
{
    if groups.len() == 0 {
        seq![]
    } else {
        cost_events(groups.drop_last()) + cost_series_events(groups.last().series@)
    }
}

pub open spec fn amount_bucket_events(model: Seq<char>, buckets: Seq<AmountBucket>) -> Seq<UsageEvent> {
    buckets.map_values(|b: AmountBucket| amount_event(model, b))
}

pub open spec fn amount_events(series: Seq<AmountSeriesItem>) -> Seq<UsageEvent>
    decreases series.len(),
{
    if series.len() == 0 {
        seq![]
    } else {
        amount_events(series.drop_last()) + amount_bucket_events(
            series.last().model@,
            series.last().buckets@,
        )
    }
}

/// Every bucket of both responses, cost buckets first (currency group,
/// series, bucket order), then amount buckets (series, bucket order).
pub open spec fn usage_events(cost: &ByApiKeyCostResponse, amount: &ByApiKeyAmountResponse) -> Seq<UsageEvent> {
    cost_events(cost.data@) + amount_events(amount.series@)
}

/// Every bucket timestamp falls on a date chrono can represent.
pub open spec fn responses_in_calendar(cost: &ByApiKeyCostResponse, amount: &ByApiKeyAmountResponse) -> bool {
    &&& forall|g: int, s: int, b: int|
        0 <= g < cost.data@.len() && 0 <= s < cost.data@[g].series@.len() && 0 <= b
            < cost.data@[g].series@[s].buckets@.len() ==> in_calendar(
            day_of_timestamp(#[trigger] cost.data@[g].series@[s].buckets@[b].time as int),
        )
    &&& forall|s: int, b: int|
        0 <= s < amount.series@.len() && 0 <= b < amount.series@[s].buckets@.len() ==> in_calendar(
            day_of_timestamp(#[trigger] amount.series@[s].buckets@[b].time as int),
        )
}

/// `e` belongs to the given day and/or model (`None` matches anything).
pub open spec fn event_in(e: UsageEvent, date: Option<Seq<char>>, model: Option<Seq<char>>) -> bool {
    &&& (date matches Some(d) ==> e.date == d)
    &&& (model matches Some(m) ==> e.model == m)
}

/// Counters summed over the events of a day and/or model.
pub open spec fn tally_of(ev: Seq<UsageEvent>, date: Option<Seq<char>>, model: Option<Seq<char>>) -> Tally
    decreases ev.len(),
{
    if ev.len() == 0 {
        tally_zero()
    } else if event_in(ev.last(), date, model) {
        tally_add(tally_of(ev.drop_last(), date, model), event_tally(ev.last()))
    } else {
        tally_of(ev.drop_last(), date, model)
    }
}

/// Cost texts of the events of a day and/or model, in event order.
pub open spec fn cost_texts_of(ev: Seq<UsageEvent>, date: Option<Seq<char>>, model: Option<Seq<char>>) -> Seq<Seq<char>>
    decreases ev.len(),
{
    if ev.len() == 0 {
        seq![]
    } else if event_in(ev.last(), date, model) && ev.last().cost is Some {
        cost_texts_of(ev.drop_last(), date, model).push(ev.last().cost->0)
    } else {
        cost_texts_of(ev.drop_last(), date, model)
    }
}

/// The distinct (day, model) pairs of the events, in order of first appearance.
pub open spec fn entry_keys(ev: Seq<UsageEvent>) -> Seq<(Seq<char>, Seq<char>)>
    decreases ev.len(),
{
    if ev.len() == 0 {
        seq![]
    } else {
        let keys = entry_keys(ev.drop_last());
        let k = (ev.last().date, ev.last().model);
        if keys.contains(k) {
            keys
        } else {
            keys.push(k)
        }
    }
}

/// Componentwise `a <= b`.
pub open spec fn tally_le(a: Tally, b: Tally) -> bool {
    &&& a.requests <= b.requests
    &&& a.tokens <= b.tokens
    &&& a.output <= b.output
    &&& a.hit <= b.hit
    &&& a.miss <= b.miss
}

/// Every counter of `t` fits the platform's `u64` counters.
pub open spec fn tally_fits(t: Tally) -> bool {
    t.requests <= u64::MAX && t.tokens <= u64::MAX
}

pub proof fn lemma_tally_tokens(ev: Seq<UsageEvent>, date: Option<Seq<char>>, model: Option<Seq<char>>)
    ensures
        tally_of(ev, date, model).tokens == tally_of(ev, date, model).output + tally_of(ev, date, model).hit
            + tally_of(ev, date, model).miss,
    decreases ev.len(),
{
    if ev.len() > 0 {
        lemma_tally_tokens(ev.drop_last(), date, model);
    }
}

pub proof fn lemma_tally_le_all(ev: Seq<UsageEvent>, date: Option<Seq<char>>, model: Option<Seq<char>>)
    ensures
        tally_le(tally_of(ev, date, model), tally_of(ev, None, None)),
    decreases ev.len(),
{
    if ev.len() > 0 {
        lemma_tally_le_all(ev.drop_last(), date, model);
    }
}

/// A day's counters for one model are within that day's counters.
pub proof fn lemma_tally_le_day(ev: Seq<UsageEvent>, date: Seq<char>, model: Seq<char>)
    ensures
        tally_le(tally_of(ev, Some(date), Some(model)), tally_of(ev, Some(date), None)),
    decreases ev.len(),
{
    if ev.len() > 0 {
        lemma_tally_le_day(ev.drop_last(), date, model);
    }
}

/// Every day's and every model's counters fit in `u64`: the sums that the
/// flattening forms (per day and model, per day, per model).
pub open spec fn groups_fit(ev: Seq<UsageEvent>) -> bool {
    &&& forall|d: Seq<char>| tally_fits(#[trigger] tally_of(ev, Some(d), None))
    &&& forall|m: Seq<char>| tally_fits(#[trigger] tally_of(ev, None, Some(m)))
}

/// When the period's counters fit, so do those of every day and model.
pub proof fn lemma_groups_fit(ev: Seq<UsageEvent>)
    requires
        tally_fits(tally_of(ev, None, None)),
    ensures
        groups_fit(ev),
{
    assert forall|d: Seq<char>| tally_fits(#[trigger] tally_of(ev, Some(d), None)) by {
        lemma_tally_le_all(ev, Some(d), None);
    }
    assert forall|m: Seq<char>| tally_fits(#[trigger] tally_of(ev, None, Some(m))) by {
        lemma_tally_le_all(ev, None, Some(m));
    }
}

pub proof fn lemma_tally_le_prefix(ev: Seq<UsageEvent>, i: int, date: Option<Seq<char>>, model: Option<Seq<char>>)
    requires
        0 <= i <= ev.len(),
    ensures
        tally_le(tally_of(ev.take(i), date, model), tally_of(ev, date, model)),
    decreases ev.len(),
{
    if i < ev.len() {
        lemma_tally_le_prefix(ev.drop_last(), i, date, model);
        assert(ev.drop_last().take(i) =~= ev.take(i));
    } else {
        assert(ev.take(i) =~= ev);
    }
}

/// A (day, model) group: its counters and cost texts.
pub struct EntryView {
    pub date: Seq<char>,
    pub model: Seq<char>,
    pub tally: Tally,
    pub costs: Seq<Seq<char>>,
}

pub open spec fn entry_view_of(ev: Seq<UsageEvent>, k: (Seq<char>, Seq<char>)) -> EntryView {
    EntryView {
        date: k.0,
        model: k.1,
        tally: tally_of(ev, Some(k.0), Some(k.1)),
        costs: cost_texts_of(ev, Some(k.0), Some(k.1)),
    }
}

/// The (day, model) groups of the events, in order of first appearance.
pub open spec fn entries_of(ev: Seq<UsageEvent>) -> Seq<EntryView> {
    entry_keys(ev).map_values(|k: (Seq<char>, Seq<char>)| entry_view_of(ev, k))
}

pub proof fn lemma_entry_keys_distinct(ev: Seq<UsageEvent>)
    ensures
        entry_keys(ev).no_duplicates(),
        forall|k| #[trigger] entry_keys(ev).contains(k) <==> exists|i: int|
            0 <= i < ev.len() && k == (ev[i].date, ev[i].model),
    decreases ev.len(),
{
    if ev.len() > 0 {
        let rest = ev.drop_last();
        lemma_entry_keys_distinct(rest);
        let keys = entry_keys(rest);
        let kl = (ev.last().date, ev.last().model);
        assert(ev.last() == ev[ev.len() - 1]);
        assert forall|i: int| 0 <= i < rest.len() implies rest[i] == ev[i] by {}
        if keys.contains(kl) {
            assert(entry_keys(ev) == keys);
            assert forall|k| #[trigger] entry_keys(ev).contains(k) <==> exists|i: int|
                0 <= i < ev.len() && k == (ev[i].date, ev[i].model) by {
                if exists|i: int| 0 <= i < ev.len() && k == (ev[i].date, ev[i].model) {
                    let i = choose|i: int| 0 <= i < ev.len() && k == (ev[i].date, ev[i].model);
                    if i < ev.len() - 1 {
                        assert(k == (rest[i].date, rest[i].model));
                    }
                }
                if keys.contains(k) {
                    let i = choose|i: int| 0 <= i < rest.len() && k == (rest[i].date, rest[i].model);
                    assert(k == (ev[i].date, ev[i].model));
                }
            }
        } else {
            assert(entry_keys(ev) == keys.push(kl));
            assert forall|k| #[trigger] entry_keys(ev).contains(k) <==> exists|i: int|
                0 <= i < ev.len() && k == (ev[i].date, ev[i].model) by {
                if exists|i: int| 0 <= i < ev.len() && k == (ev[i].date, ev[i].model) {
                    let i = choose|i: int| 0 <= i < ev.len() && k == (ev[i].date, ev[i].model);
                    if i < ev.len() - 1 {
                        assert(k == (rest[i].date, rest[i].model));
                        assert(keys.contains(k));
                        let x = choose|x: int| 0 <= x < keys.len() && keys[x] == k;
                        assert(keys.push(kl)[x] == k);
                    } else {
                        assert(keys.push(kl)[keys.len() as int] == k);
                    }
                }
                if keys.push(kl).contains(k) {
                    let x = choose|x: int| 0 <= x < keys.len() + 1 && keys.push(kl)[x] == k;
                    if x < keys.len() {
                        assert(keys.contains(k));
                        let i = choose|i: int| 0 <= i < rest.len() && k == (rest[i].date, rest[i].model);
                        assert(k == (ev[i].date, ev[i].model));
                    } else {
                        assert(k == (ev[ev.len() - 1].date, ev[ev.len() - 1].model));
                    }
                }
            }
            assert(keys.push(kl).no_duplicates()) by {
                assert forall|a: int, b: int| 0 <= a < b < keys.len() + 1 implies keys.push(kl)[a]
                    != keys.push(kl)[b] by {
                    if b == keys.len() {
                        assert(keys.contains(keys[a]));
                    }
                }
            }
        }
    }
}

/// A (day, model) pair that no event has gets empty counters and no costs.
pub proof fn lemma_tally_absent(ev: Seq<UsageEvent>, date: Seq<char>, model: Seq<char>)
    requires
        !entry_keys(ev).contains((date, model)),
    ensures
        tally_of(ev, Some(date), Some(model)) == tally_zero(),
        cost_texts_of(ev, Some(date), Some(model)) == Seq::<Seq<char>>::empty(),
    decreases ev.len(),
{
    if ev.len() > 0 {
        lemma_entry_keys_distinct(ev);
        lemma_entry_keys_distinct(ev.drop_last());
        if entry_keys(ev.drop_last()).contains((date, model)) {
            let i = choose|i: int|
                0 <= i < ev.drop_last().len() && (date, model) == (ev.drop_last()[i].date, ev.drop_last()[i].model);
            assert(ev[i] == ev.drop_last()[i]);
        }
        lemma_tally_absent(ev.drop_last(), date, model);
        assert((ev.last().date, ev.last().model) != (date, model)) by {
            if (ev.last().date, ev.last().model) == (date, model) {
                assert(ev[ev.len() - 1] == ev.last());
            }
        }
    }
}

/// The days that some event falls on.
pub open spec fn has_event_on(ev: Seq<UsageEvent>, date: Seq<char>) -> bool {
    exists|i: int| 0 <= i < ev.len() && ev[i].date == date
}

/// Strictly increasing in string order.
pub open spec fn strictly_sorted(s: Seq<Seq<char>>) -> bool {
    forall|i: int, j: int| 0 <= i < j < s.len() ==> seq_lt(#[trigger] s[i], #[trigger] s[j])
}

/// The entry of one (day, model) group in that day's breakdown.
pub open spec fn day_entry(ev: Seq<UsageEvent>, k: (Seq<char>, Seq<char>)) -> ModelUsageView {
    ModelUsageView {
        name: k.1,
        cost_parts: seq![cost_texts_of(ev, Some(k.0), Some(k.1))],
        tally: tally_of(ev, Some(k.0), Some(k.1)),
    }
}

pub open spec fn on_day(date: Seq<char>) -> spec_fn((Seq<char>, Seq<char>)) -> bool {
    |k: (Seq<char>, Seq<char>)| k.0 == date
}

/// The models used on a day, in order of first appearance among the events.
pub open spec fn day_models(ev: Seq<UsageEvent>, date: Seq<char>) -> Seq<ModelUsageView> {
    entry_keys(ev).filter(on_day(date)).map_values(|k: (Seq<char>, Seq<char>)| day_entry(ev, k))
}

/// The breakdown of one day.
pub open spec fn daily_view(ev: Seq<UsageEvent>, date: Seq<char>) -> DailyView {
    DailyView { date, tally: tally_of(ev, Some(date), None), models: day_models(ev, date) }
}

pub open spec fn dates_view(days: Seq<DailyView>) -> Seq<Seq<char>> {
    days.map_values(|d: DailyView| d.date)
}

/// `days` is the daily breakdown of the events: one item per day that has
/// events, in increasing date order, each with its counters and models.
pub open spec fn is_daily_breakdown(days: Seq<DailyView>, ev: Seq<UsageEvent>) -> bool {
    &&& strictly_sorted(dates_view(days))
    &&& forall|d: Seq<char>| #[trigger] dates_view(days).contains(d) <==> has_event_on(ev, d)
    &&& forall|i: int| 0 <= i < days.len() ==> #[trigger] days[i] == daily_view(ev, days[i].date)
}

/// The distinct model names of the events, in order of first appearance.
pub open spec fn event_models(ev: Seq<UsageEvent>) -> Seq<Seq<char>>
    decreases ev.len(),
{
    if ev.len() == 0 {
        seq![]
    } else {
        let names = event_models(ev.drop_last());
        if names.contains(ev.last().model) {
            names
        } else {
            names.push(ev.last().model)
        }
    }
}

pub open spec fn model_used_on(ev: Seq<UsageEvent>, name: Seq<char>) -> spec_fn(Seq<char>) -> bool {
    |d: Seq<char>| entry_keys(ev).contains((d, name))
}

/// The period summary of one model: its counters over all events, and its
/// cost texts grouped by day, the days taken in the order of `dates`.
pub open spec fn model_summary(ev: Seq<UsageEvent>, dates: Seq<Seq<char>>, name: Seq<char>) -> ModelUsageView {
    ModelUsageView {
        name,
        cost_parts: dates.filter(model_used_on(ev, name)).map_values(
            |d: Seq<char>| cost_texts_of(ev, Some(d), Some(name)),
        ),
        tally: tally_of(ev, None, Some(name)),
    }
}

/// One summary per model, in order of the model's first event.
pub open spec fn period_models(ev: Seq<UsageEvent>, dates: Seq<Seq<char>>) -> Seq<ModelUsageView> {
    event_models(ev).map_values(|n: Seq<char>| model_summary(ev, dates, n))
}

pub proof fn lemma_event_models(ev: Seq<UsageEvent>)
    ensures
        event_models(ev).no_duplicates(),
        forall|n| #[trigger] event_models(ev).contains(n) <==> exists|i: int| 0 <= i < ev.len() && ev[i].model == n,
    decreases ev.len(),
{
    if ev.len() > 0 {
        let rest = ev.drop_last();
        lemma_event_models(rest);
        let names = event_models(rest);
        let nl = ev.last().model;
        assert(ev.last() == ev[ev.len() - 1]);
        assert forall|i: int| 0 <= i < rest.len() implies rest[i] == ev[i] by {}
        if names.contains(nl) {
            assert(event_models(ev) == names);
            assert forall|n| #[trigger] event_models(ev).contains(n) <==> exists|i: int|
                0 <= i < ev.len() && ev[i].model == n by {
                if exists|i: int| 0 <= i < ev.len() && ev[i].model == n {
                    let i = choose|i: int| 0 <= i < ev.len() && ev[i].model == n;
                    if i < ev.len() - 1 {
                        assert(rest[i].model == n);
                    }
                }
                if names.contains(n) {
                    let i = choose|i: int| 0 <= i < rest.len() && rest[i].model == n;
                    assert(ev[i].model == n);
                }
            }
        } else {
            assert(event_models(ev) == names.push(nl));
            assert forall|n| #[trigger] event_models(ev).contains(n) <==> exists|i: int|
                0 <= i < ev.len() && ev[i].model == n by {
                if exists|i: int| 0 <= i < ev.len() && ev[i].model == n {
                    let i = choose|i: int| 0 <= i < ev.len() && ev[i].model == n;
                    if i < ev.len() - 1 {
                        assert(rest[i].model == n);
                        assert(names.contains(n));
                        let x = choose|x: int| 0 <= x < names.len() && names[x] == n;
                        assert(names.push(nl)[x] == n);
                    } else {
                        assert(names.push(nl)[names.len() as int] == n);
                    }
                }
                if names.push(nl).contains(n) {
                    let x = choose|x: int| 0 <= x < names.len() + 1 && names.push(nl)[x] == n;
                    if x < names.len() {
                        assert(names.contains(n));
                        let i = choose|i: int| 0 <= i < rest.len() && rest[i].model == n;
                        assert(ev[i].model == n);
                    } else {
                        assert(ev[ev.len() - 1].model == n);
                    }
                }
            }
            assert(names.push(nl).no_duplicates()) by {
                assert forall|a: int, b: int| 0 <= a < b < names.len() + 1 implies names.push(nl)[a]
                    != names.push(nl)[b] by {
                    if b == names.len() {
                        assert(names.contains(names[a]));
                    }
                }
            }
        }
    }
}

/// Both responses fit the platform's counters: all requests, and all tokens,
/// summed over every bucket, stay within `u64`.
pub open spec fn usage_fits(cost: &ByApiKeyCostResponse, amount: &ByApiKeyAmountResponse) -> bool {
    tally_fits(tally_of(usage_events(cost, amount), None, None))
}

pub open spec fn opt_strings_view(o: Option<Vec<String>>) -> Seq<Seq<char>> {
    match o {
        Some(v) => strings_view(v@),
        None => seq![],
    }
}

/// The currency of every wallet: normal wallets first, then bonus wallets.
pub open spec fn wallet_currencies(s: &SummaryCurrencies) -> Seq<Seq<char>> {
    opt_strings_view(s.normal_wallets) + opt_strings_view(s.bonus_wallets)
}

/// The first non-empty text of a list.
pub open spec fn first_non_empty(s: Seq<Seq<char>>) -> Option<Seq<char>>
    decreases s.len(),
{
    if s.len() == 0 {
        None
    } else if s[0].len() > 0 {
        Some(s[0])
    } else {
        first_non_empty(s.drop_first())
    }
}

/// The account's currency: the declared one when it is not empty, else the
/// first non-empty wallet currency, else `CNY`.
pub open spec fn resolved_currency(s: &SummaryCurrencies) -> Seq<char> {
    match s.currency {
        Some(c) if c@.len() > 0 => c@,
        _ => match first_non_empty(wallet_currencies(s)) {
            Some(w) => w,
            None => seq!['C', 'N', 'Y'],
        },
    }
}

// ── Exec records of events ───────────────────────────────────────

/// An event as the program holds it.
pub struct UsageRecord {
    pub date: String,
    pub model: String,
    pub cost: Option<String>,
    pub requests: u64,
    pub output: u64,
    pub hit: u64,
    pub miss: u64,
}

impl View for UsageRecord {
    type V = UsageEvent;

    open spec fn view(&self) -> UsageEvent {
        UsageEvent {
            date: self.date@,
            model: self.model@,
            cost: match self.cost {
                Some(c) => Some(c@),
                None => None,
            },
            requests: self.requests as nat,
            output: self.output as nat,
            hit: self.hit as nat,
            miss: self.miss as nat,
        }
    }
}

pub open spec fn records_view(v: Seq<UsageRecord>) -> Seq<UsageEvent> {
    v.map_values(|r: UsageRecord| r@)
}

fn bucket_date(time: i64) -> (date: String)
    requires
        in_calendar(day_of_timestamp(time as int)),
    ensures
        date@ == bucket_day(time),
{
    let day = epoch_day_of_timestamp(time);
    ymd_text(day as i32)
}

/// Lists the buckets of both responses as events, in `usage_events` order.
pub fn collect_events(cost: &ByApiKeyCostResponse, amount: &ByApiKeyAmountResponse) -> (ev: Vec<UsageRecord>)
    requires
        responses_in_calendar(cost, amount),
    ensures
        records_view(ev@) == usage_events(cost, amount),
{
    let mut ev: Vec<UsageRecord> = Vec::new();
    let mut g: usize = 0;
    while g < cost.data.len()
        invariant
            responses_in_calendar(cost, amount),
            g <= cost.data@.len(),
            records_view(ev@) == cost_events(cost.data@.take(g as int)),
        decreases cost.data@.len() - g,
    {
        let group = &cost.data[g];
        let ghost before = records_view(ev@);
        let mut s: usize = 0;
        while s < group.series.len()
            invariant
                responses_in_calendar(cost, amount),
                g < cost.data@.len(),
                *group == cost.data@[g as int],
                s <= group.series@.len(),
                records_view(ev@) == before + cost_series_events(group.series@.take(s as int)),
            decreases group.series@.len() - s,
        {
            let series = &group.series[s];
            let ghost mid = records_view(ev@);
            let mut b: usize = 0;
            while b < series.buckets.len()
                invariant
                    responses_in_calendar(cost, amount),
                    g < cost.data@.len(),
                    *group == cost.data@[g as int],
                    s < group.series@.len(),
                    *series == group.series@[s as int],
                    b <= series.buckets@.len(),
                    records_view(ev@) == mid + cost_bucket_events(series.model@, series.buckets@.take(b as int)),
                decreases series.buckets@.len() - b,
            {
                let bucket = &series.buckets[b];
                assert(cost.data@[g as int].series@[s as int].buckets@[b as int] == *bucket);
                let date = bucket_date(bucket.time);
                let ghost old_ev = ev@;
                ev.push(UsageRecord {
                    date,
                    model: series.model.clone(),
                    cost: Some(bucket.cost.clone()),
                    requests: 0,
                    output: 0,
                    hit: 0,
                    miss: 0,
                });
                assert(series.buckets@.take(b + 1) =~= series.buckets@.take(b as int).push(*bucket));
                assert(ev@.last()@ == cost_event(series.model@, *bucket));
                assert(records_view(ev@) =~= records_view(old_ev).push(ev@.last()@));
                assert(cost_bucket_events(series.model@, series.buckets@.take(b + 1)) =~= cost_bucket_events(
                    series.model@,
                    series.buckets@.take(b as int),
                ).push(cost_event(series.model@, *bucket)));
                assert(records_view(ev@) =~= mid + cost_bucket_events(series.model@, series.buckets@.take(b + 1)));
                b = b + 1;
            }
            assert(series.buckets@.take(b as int) =~= series.buckets@);
            assert(group.series@.take(s + 1).drop_last() =~= group.series@.take(s as int));
            assert(records_view(ev@) =~= before + cost_series_events(group.series@.take(s + 1)));
            s = s + 1;
        }
        assert(group.series@.take(s as int) =~= group.series@);
        assert(cost.data@.take(g + 1).drop_last() =~= cost.data@.take(g as int));
        assert(records_view(ev@) =~= cost_events(cost.data@.take(g + 1)));
        g = g + 1;
    }
    assert(cost.data@.take(g as int) =~= cost.data@);
    let ghost costs = records_view(ev@);
    let mut s: usize = 0;
    while s < amount.series.len()
        invariant
            responses_in_calendar(cost, amount),
            s <= amount.series@.len(),
            costs == cost_events(cost.data@),
            records_view(ev@) == costs + amount_events(amount.series@.take(s as int)),
        decreases amount.series@.len() - s,
    {
        let series = &amount.series[s];
        let ghost mid = records_view(ev@);
        let mut b: usize = 0;
        while b < series.buckets.len()
            invariant
                responses_in_calendar(cost, amount),
                s < amount.series@.len(),
                *series == amount.series@[s as int],
                b <= series.buckets@.len(),
                records_view(ev@) == mid + amount_bucket_events(series.model@, series.buckets@.take(b as int)),
            decreases series.buckets@.len() - b,
        {
            let bucket = &series.buckets[b];
            assert(amount.series@[s as int].buckets@[b as int] == *bucket);
            let date = bucket_date(bucket.time);
            let ghost old_ev = ev@;
            ev.push(UsageRecord {
                date,
                model: series.model.clone(),
                cost: None,
                requests: bucket.usage.request,
                output: bucket.usage.response_token,
                hit: bucket.usage.prompt_cache_hit_token,
                miss: bucket.usage.prompt_cache_miss_token,
            });
            assert(series.buckets@.take(b + 1) =~= series.buckets@.take(b as int).push(*bucket));
            assert(ev@.last()@ == amount_event(series.model@, *bucket));
            assert(records_view(ev@) =~= records_view(old_ev).push(ev@.last()@));
            assert(amount_bucket_events(series.model@, series.buckets@.take(b + 1)) =~= amount_bucket_events(
                series.model@,
                series.buckets@.take(b as int),
            ).push(amount_event(series.model@, *bucket)));
            assert(records_view(ev@) =~= mid + amount_bucket_events(series.model@, series.buckets@.take(b + 1)));
            b = b + 1;
        }
        assert(series.buckets@.take(b as int) =~= series.buckets@);
        assert(amount.series@.take(s + 1).drop_last() =~= amount.series@.take(s as int));
        assert(records_view(ev@) =~= costs + amount_events(amount.series@.take(s + 1)));
        s = s + 1;
    }
    assert(amount.series@.take(s as int) =~= amount.series@);
    ev
}


/// A (day, model) group as the program holds it.
pub struct EntryRecord {
    pub date: String,
    pub model: String,
    pub costs: Vec<String>,
    pub requests: u64,
    pub tokens: u64,
    pub output: u64,
    pub hit: u64,
    pub miss: u64,
}

impl View for EntryRecord {
    type V = EntryView;

    open spec fn view(&self) -> EntryView {
        EntryView {
            date: self.date@,
            model: self.model@,
            tally: Tally {
                requests: self.requests as nat,
                tokens: self.tokens as nat,
                output: self.output as nat,
                hit: self.hit as nat,
                miss: self.miss as nat,
            },
            costs: strings_view(self.costs@),
        }
    }
}

pub open spec fn entry_records_view(v: Seq<EntryRecord>) -> Seq<EntryView> {
    v.map_values(|r: EntryRecord| r@)
}

/// Groups the events by (day, model), in order of first appearance, summing
/// their counters and collecting their cost texts.
pub fn group_entries(ev: &Vec<UsageRecord>) -> (entries: Vec<EntryRecord>)
    requires
        groups_fit(records_view(ev@)),
    ensures
        entry_records_view(entries@) == entries_of(records_view(ev@)),
{
    let ghost all = records_view(ev@);
    let mut entries: Vec<EntryRecord> = Vec::new();
    let mut i: usize = 0;
    assert(all.take(0) =~= Seq::<UsageEvent>::empty());
    assert(entry_records_view(entries@) =~= entries_of(all.take(0)));
    while i < ev.len()
        invariant
            all == records_view(ev@),
            groups_fit(all),
            i <= ev@.len(),
            entry_records_view(entries@) == entries_of(all.take(i as int)),
        decreases ev@.len() - i,
    {
        let rec = &ev[i];
        let ghost pre = all.take(i as int);
        let ghost post = all.take(i + 1);
        assert(post =~= pre.push(rec@));
        assert(post.drop_last() =~= pre);
        let ghost e = rec@;
        let ghost key = (e.date, e.model);
        proof {
            lemma_entry_keys_distinct(pre);
            lemma_tally_le_prefix(all, i + 1, Some(e.date), Some(e.model));
            lemma_tally_le_day(all, e.date, e.model);
            assert(tally_fits(tally_of(all, Some(e.date), None)));
            lemma_tally_tokens(post, Some(e.date), Some(e.model));
        }
        // Look for the group of this event.
        assert(entry_records_view(entries@).len() == entries@.len());
        assert(entries_of(pre).len() == entry_keys(pre).len());
        let mut j: usize = 0;
        while j < entries.len() && !(entries[j].date == rec.date && entries[j].model == rec.model)
            invariant
                entry_records_view(entries@) == entries_of(pre),
                entries@.len() == entry_keys(pre).len(),
                j <= entries@.len(),
                forall|x: int| 0 <= x < j ==> entry_keys(pre)[x] != key,
                key == (rec.date@, rec.model@),
            decreases entries@.len() - j,
        {
            assert(entry_records_view(entries@)[j as int] == entries@[j as int]@);
            j = j + 1;
        }
        let found = j < entries.len();
        if found {
            assert(entry_records_view(entries@)[j as int] == entries@[j as int]@);
        }
        // The groups other than the event's are unchanged by it.
        assert forall|k: (Seq<char>, Seq<char>)| k != key implies tally_of(post, Some(k.0), Some(k.1)) == tally_of(
            pre,
            Some(k.0),
            Some(k.1),
        ) && cost_texts_of(post, Some(k.0), Some(k.1)) == cost_texts_of(pre, Some(k.0), Some(k.1)) by {}
        if found {
            assert(entry_keys(pre)[j as int] == key);
            assert(entry_keys(pre).contains(key));
            assert(entry_keys(post) == entry_keys(pre));
            let ghost old_entries = entries@;
            let old_entry = entries.remove(j);
            assert(old_entry@ == entry_view_of(pre, key)) by {
                assert(entry_records_view(old_entries)[j as int] == old_entry@);
            }
            let mut costs = old_entry.costs;
            let ghost old_costs = costs@;
            match &rec.cost {
                Some(c) => {
                    costs.push(c.clone());
                },
                None => {},
            }
            let new_entry = EntryRecord {
                date: old_entry.date,
                model: old_entry.model,
                costs,
                requests: old_entry.requests + rec.requests,
                tokens: old_entry.tokens + (rec.output + rec.hit + rec.miss),
                output: old_entry.output + rec.output,
                hit: old_entry.hit + rec.hit,
                miss: old_entry.miss + rec.miss,
            };
            assert(post.last() == e);
            assert(tally_of(post, Some(key.0), Some(key.1)) == tally_add(
                tally_of(pre, Some(key.0), Some(key.1)),
                event_tally(e),
            ));
            assert(strings_view(new_entry.costs@) =~= cost_texts_of(post, Some(key.0), Some(key.1)));
            assert(new_entry@ == entry_view_of(post, key));
            entries.insert(j, new_entry);
            assert(entries@ =~= old_entries.update(j as int, new_entry));
            assert(entry_records_view(entries@) =~= entries_of(post)) by {
                assert forall|x: int| 0 <= x < entries@.len() implies entry_records_view(entries@)[x]
                    == entries_of(post)[x] by {
                    if x != j {
                        assert(entry_keys(pre)[x] != key) by {
                            assert(entry_keys(pre).no_duplicates());
                        }
                        assert(entries@[x] == old_entries[x]);
                        assert(entry_records_view(old_entries)[x] == entries_of(pre)[x]);
                        let k = entry_keys(pre)[x];
                        assert(tally_of(post, Some(k.0), Some(k.1)) == tally_of(pre, Some(k.0), Some(k.1)));
                        assert(cost_texts_of(post, Some(k.0), Some(k.1)) == cost_texts_of(pre, Some(k.0), Some(k.1)));
                    }
                }
            }
        } else {
            assert(!entry_keys(pre).contains(key)) by {
                if entry_keys(pre).contains(key) {
                    let x = choose|x: int| 0 <= x < entry_keys(pre).len() && entry_keys(pre)[x] == key;
                }
            }
            assert(entry_keys(post) == entry_keys(pre).push(key));
            proof {
                lemma_tally_absent(pre, e.date, e.model);
            }
            let ghost old_entries = entries@;
            let mut costs: Vec<String> = Vec::new();
            match &rec.cost {
                Some(c) => {
                    costs.push(c.clone());
                },
                None => {},
            }
            let new_entry = EntryRecord {
                date: rec.date.clone(),
                model: rec.model.clone(),
                costs,
                requests: rec.requests,
                tokens: rec.output + rec.hit + rec.miss,
                output: rec.output,
                hit: rec.hit,
                miss: rec.miss,
            };
            assert(post.last() == e);
            assert(tally_of(post, Some(key.0), Some(key.1)) == tally_add(
                tally_of(pre, Some(key.0), Some(key.1)),
                event_tally(e),
            ));
            assert(strings_view(new_entry.costs@) =~= cost_texts_of(post, Some(key.0), Some(key.1)));
            assert(new_entry@ == entry_view_of(post, key));
            entries.push(new_entry);
            assert(entry_records_view(entries@) =~= entries_of(post)) by {
                assert forall|x: int| 0 <= x < entries@.len() implies entry_records_view(entries@)[x]
                    == entries_of(post)[x] by {
                    if x < entries@.len() - 1 {
                        assert(entry_keys(pre)[x] != key) by {
                            assert(entry_keys(pre).contains(entry_keys(pre)[x]));
                        }
                        assert(entries@[x] == old_entries[x]);
                        assert(entry_records_view(old_entries)[x] == entries_of(pre)[x]);
                        let k = entry_keys(pre)[x];
                        assert(tally_of(post, Some(k.0), Some(k.1)) == tally_of(pre, Some(k.0), Some(k.1)));
                        assert(cost_texts_of(post, Some(k.0), Some(k.1)) == cost_texts_of(pre, Some(k.0), Some(k.1)));
                    }
                }
            }
        }
        i = i + 1;
    }
    assert(all.take(i as int) =~= all);
    entries
}


/// The distinct days of the events, in increasing string order.
pub fn sorted_dates(ev: &Vec<UsageRecord>) -> (dates: Vec<String>)
    ensures
        strictly_sorted(strings_view(dates@)),
        forall|d: Seq<char>| #[trigger] strings_view(dates@).contains(d) <==> has_event_on(records_view(ev@), d),
{
    let ghost all = records_view(ev@);
    let mut dates: Vec<String> = Vec::new();
    let mut i: usize = 0;
    while i < ev.len()
        invariant
            all == records_view(ev@),
            i <= ev@.len(),
            strictly_sorted(strings_view(dates@)),
            forall|d: Seq<char>| #[trigger] strings_view(dates@).contains(d) <==> has_event_on(all.take(i as int), d),
        decreases ev@.len() - i,
    {
        let date = &ev[i].date;
        assert(all[i as int].date == date@);
        let ghost t0 = all.take(i as int);
        let ghost t1 = all.take(i + 1);
        assert(forall|k: int| 0 <= k < i ==> t1[k] == t0[k]);
        assert(t1[i as int].date == date@);
        let ghost old_view = strings_view(dates@);
        let mut q: usize = 0;
        while q < dates.len() && str_lt(dates[q].as_str(), date.as_str())
            invariant
                old_view == strings_view(dates@),
                q <= dates@.len(),
                forall|x: int| 0 <= x < q ==> seq_lt(#[trigger] old_view[x], date@),
            decreases dates@.len() - q,
        {
            assert(old_view[q as int] == dates@[q as int]@);
            q = q + 1;
        }
        if q < dates.len() && dates[q] == *date {
            assert(old_view[q as int] == date@);
            assert(forall|d: Seq<char>| #[trigger] strings_view(dates@).contains(d) <==> has_event_on(t1, d)) by {
                assert forall|d: Seq<char>| has_event_on(t1, d) implies #[trigger] old_view.contains(d) by {
                    let k = choose|k: int| 0 <= k < t1.len() && t1[k].date == d;
                    if k < i {
                        
                        assert(has_event_on(t0, d));
                    }
                }
                assert forall|d: Seq<char>| #[trigger] old_view.contains(d) implies has_event_on(t1, d) by {
                    assert(has_event_on(t0, d));
                    let k = choose|k: int| 0 <= k < t0.len() && t0[k].date == d;
                    
                }
            }
        } else {
            if q < dates.len() {
                assert(old_view[q as int] == dates@[q as int]@);
                proof {
                    lemma_seq_lt_total(old_view[q as int], date@);
                }
                assert(seq_lt(date@, old_view[q as int]));
            }
            dates.insert(q, date.clone());
            let ghost new_view = strings_view(dates@);
            assert(new_view =~= old_view.insert(q as int, date@));
            assert(strictly_sorted(new_view)) by {
                assert forall|a: int, b: int| 0 <= a < b < new_view.len() implies seq_lt(
                    #[trigger] new_view[a],
                    #[trigger] new_view[b],
                ) by {
                    if b == q {
                        assert(seq_lt(old_view[a], date@));
                    } else if a == q {
                        assert(new_view[b] == old_view[b - 1]);
                        if b - 1 > q {
                            assert(seq_lt(old_view[q as int], old_view[b - 1]));
                            lemma_seq_lt_transitive(date@, old_view[q as int], old_view[b - 1]);
                        }
                    } else if a < q && b > q {
                        assert(seq_lt(old_view[a], old_view[b - 1]));
                    } else if a > q {
                        assert(seq_lt(old_view[a - 1], old_view[b - 1]));
                    }
                }
            }
            assert forall|d: Seq<char>| #[trigger] new_view.contains(d) <==> has_event_on(t1, d) by {
                if new_view.contains(d) {
                    let x = choose|x: int| 0 <= x < new_view.len() && new_view[x] == d;
                    if x == q {
                        
                    } else {
                        let y = if x < q { x } else { x - 1 };
                        assert(old_view[y] == d);
                        assert(old_view.contains(d));
                        let k = choose|k: int| 0 <= k < t0.len() && t0[k].date == d;
                        
                    }
                }
                if has_event_on(t1, d) {
                    let k = choose|k: int| 0 <= k < t1.len() && t1[k].date == d;
                    if k < i {
                        
                        assert(has_event_on(t0, d));
                        assert(old_view.contains(d));
                        let y = choose|y: int| 0 <= y < old_view.len() && old_view[y] == d;
                        if y < q {
                            assert(new_view[y] == d);
                        } else {
                            assert(new_view[y + 1] == d);
                        }
                    } else {
                        assert(new_view[q as int] == d);
                    }
                }
            }
        }
        i = i + 1;
    }
    assert(all.take(i as int) =~= all);
    dates
}


/// A copy of a list of strings.
pub fn clone_strings(v: &Vec<String>) -> (r: Vec<String>)
    ensures
        r@ == v@,
{
    let mut r: Vec<String> = Vec::new();
    let mut i: usize = 0;
    while i < v.len()
        invariant
            i <= v@.len(),
            r@ == v@.take(i as int),
        decreases v@.len() - i,
    {
        r.push(v[i].clone());
        assert(v@.take(i + 1) =~= v@.take(i as int).push(v@[i as int]));
        i = i + 1;
    }
    assert(v@.take(i as int) =~= v@);
    r
}

/// The models of one day: the groups of that day, in group order.
fn day_model_entries(entries: &Vec<EntryRecord>, date: &String, Ghost(ev): Ghost<Seq<UsageEvent>>) -> (models: Vec<ModelPeriodSummary>)
    requires
        entry_records_view(entries@) == entries_of(ev),
    ensures
        summaries_view(models@) == day_models(ev, date@),
{
    let ghost keys = entry_keys(ev);
    let mut models: Vec<ModelPeriodSummary> = Vec::new();
    let mut j: usize = 0;
    assert(entries_of(ev).len() == keys.len());
    assert(keys.take(0) =~= Seq::<(Seq<char>, Seq<char>)>::empty());
    assert(keys.take(0).filter(on_day(date@)) =~= Seq::<(Seq<char>, Seq<char>)>::empty()) by {
        reveal(Seq::filter);
    }
    while j < entries.len()
        invariant
            entry_records_view(entries@) == entries_of(ev),
            keys == entry_keys(ev),
            entries@.len() == keys.len(),
            j <= entries@.len(),
            summaries_view(models@) == keys.take(j as int).filter(on_day(date@)).map_values(
                |k: (Seq<char>, Seq<char>)| day_entry(ev, k),
            ),
        decreases entries@.len() - j,
    {
        let entry = &entries[j];
        assert(entry_records_view(entries@)[j as int] == entry@);
        assert(entry@ == entry_view_of(ev, keys[j as int]));
        assert(keys.take(j + 1) == keys.take(j as int).push(keys[j as int]));
        proof {
            keys.take(j as int).lemma_filter_push(keys[j as int], on_day(date@));
        }
        if entry.date == *date {
            let mut parts: Vec<Vec<String>> = Vec::new();
            parts.push(clone_strings(&entry.costs));
            let m = ModelPeriodSummary {
                name: entry.model.clone(),
                cost_parts: parts,
                api_requests: entry.requests,
                tokens: entry.tokens,
                output_tokens: entry.output,
                cache_hit: entry.hit,
                cache_miss: entry.miss,
            };
            assert(m.cost_parts@.map_values(|g: Vec<String>| strings_view(g@)) =~= seq![strings_view(entry.costs@)]);
            assert(m@ == day_entry(ev, keys[j as int]));
            let ghost old_models = models@;
            models.push(m);
            assert(summaries_view(models@) =~= summaries_view(old_models).push(m@));
        }
        assert(summaries_view(models@) =~= keys.take(j + 1).filter(on_day(date@)).map_values(
            |k: (Seq<char>, Seq<char>)| day_entry(ev, k),
        ));
        j = j + 1;
    }
    assert(keys.take(j as int) =~= keys);
    models
}


/// The daily breakdown: one item per day, in date order.
pub fn build_daily(ev: &Vec<UsageRecord>, entries: &Vec<EntryRecord>, dates: &Vec<String>) -> (days: Vec<DailyItem>)
    requires
        groups_fit(records_view(ev@)),
        entry_records_view(entries@) == entries_of(records_view(ev@)),
        strictly_sorted(strings_view(dates@)),
        forall|d: Seq<char>| #[trigger] strings_view(dates@).contains(d) <==> has_event_on(records_view(ev@), d),
    ensures
        is_daily_breakdown(days_view(days@), records_view(ev@)),
        dates_view(days_view(days@)) == strings_view(dates@),
{
    let ghost all = records_view(ev@);
    let mut days: Vec<DailyItem> = Vec::new();
    let mut p: usize = 0;
    while p < dates.len()
        invariant
            all == records_view(ev@),
            groups_fit(all),
            entry_records_view(entries@) == entries_of(all),
            p <= dates@.len(),
            days@.len() == p,
            forall|i: int| 0 <= i < p ==> #[trigger] days_view(days@)[i] == daily_view(all, dates@[i]@),
        decreases dates@.len() - p,
    {
        let date = &dates[p];
        assert(tally_fits(tally_of(all, Some(date@), None)));
        let (req, tok, out, hit, miss) = counters_where(ev, Some(date), None);
        let models = day_model_entries(entries, date, Ghost(all));
        let item = DailyItem {
            date: date.clone(),
            api_requests: req,
            tokens: tok,
            output_tokens: out,
            cache_hit: hit,
            cache_miss: miss,
            models,
        };
        assert(item@ == daily_view(all, date@));
        let ghost old_days = days@;
        days.push(item);
        assert forall|i: int| 0 <= i < p + 1 implies #[trigger] days_view(days@)[i] == daily_view(all, dates@[i]@) by {
            if i < p {
                assert(days@[i] == old_days[i]);
                assert(days_view(old_days)[i] == daily_view(all, dates@[i]@));
            }
        }
        p = p + 1;
    }
    assert(dates_view(days_view(days@)) =~= strings_view(dates@));
    days
}

/// Whether a (day, model) group exists, and its cost texts.
fn find_entry_costs(entries: &Vec<EntryRecord>, date: &String, model: &String, Ghost(ev): Ghost<Seq<UsageEvent>>) -> (r: Option<Vec<String>>)
    requires
        entry_records_view(entries@) == entries_of(ev),
    ensures
        r is Some <==> entry_keys(ev).contains((date@, model@)),
        r matches Some(c) ==> strings_view(c@) == cost_texts_of(ev, Some(date@), Some(model@)),
{
    let ghost keys = entry_keys(ev);
    assert(entries_of(ev).len() == keys.len());
    let mut j: usize = 0;
    while j < entries.len()
        invariant
            entry_records_view(entries@) == entries_of(ev),
            keys == entry_keys(ev),
            entries@.len() == keys.len(),
            j <= entries@.len(),
            forall|x: int| 0 <= x < j ==> keys[x] != (date@, model@),
        decreases entries@.len() - j,
    {
        assert(entry_records_view(entries@)[j as int] == entries@[j as int]@);
        if entries[j].date == *date && entries[j].model == *model {
            assert(keys[j as int] == (date@, model@));
            return Some(clone_strings(&entries[j].costs));
        }
        j = j + 1;
    }
    assert(!keys.contains((date@, model@))) by {
        if keys.contains((date@, model@)) {
            let x = choose|x: int| 0 <= x < keys.len() && keys[x] == (date@, model@);
        }
    }
    None
}

pub open spec fn opt_string_view(o: Option<&String>) -> Option<Seq<char>> {
    match o {
        Some(s) => Some(s@),
        None => None,
    }
}

/// The counters (requests, tokens, output, hits, misses) of the events of a
/// day and/or model.
fn counters_where(ev: &Vec<UsageRecord>, date: Option<&String>, model: Option<&String>) -> (t: (u64, u64, u64, u64, u64))
    requires
        tally_fits(tally_of(records_view(ev@), opt_string_view(date), opt_string_view(model))),
    ensures
        t.0 == tally_of(records_view(ev@), opt_string_view(date), opt_string_view(model)).requests,
        t.1 == tally_of(records_view(ev@), opt_string_view(date), opt_string_view(model)).tokens,
        t.2 == tally_of(records_view(ev@), opt_string_view(date), opt_string_view(model)).output,
        t.3 == tally_of(records_view(ev@), opt_string_view(date), opt_string_view(model)).hit,
        t.4 == tally_of(records_view(ev@), opt_string_view(date), opt_string_view(model)).miss,
{
    let ghost all = records_view(ev@);
    let ghost dv = opt_string_view(date);
    let ghost mv = opt_string_view(model);
    let mut req: u64 = 0;
    let mut tok: u64 = 0;
    let mut out: u64 = 0;
    let mut hit: u64 = 0;
    let mut miss: u64 = 0;
    let mut i: usize = 0;
    assert(all.take(0) =~= Seq::<UsageEvent>::empty());
    while i < ev.len()
        invariant
            all == records_view(ev@),
            dv == opt_string_view(date),
            mv == opt_string_view(model),
            tally_fits(tally_of(all, dv, mv)),
            i <= ev@.len(),
            req == tally_of(all.take(i as int), dv, mv).requests,
            tok == tally_of(all.take(i as int), dv, mv).tokens,
            out == tally_of(all.take(i as int), dv, mv).output,
            hit == tally_of(all.take(i as int), dv, mv).hit,
            miss == tally_of(all.take(i as int), dv, mv).miss,
        decreases ev@.len() - i,
    {
        let rec = &ev[i];
        let ghost post = all.take(i + 1);
        assert(post.drop_last() =~= all.take(i as int));
        assert(post.last() == rec@);
        proof {
            lemma_tally_le_prefix(all, i + 1, dv, mv);
            lemma_tally_tokens(post, dv, mv);
        }
        let date_ok = match date {
            Some(d) => rec.date == *d,
            None => true,
        };
        let model_ok = match model {
            Some(m) => rec.model == *m,
            None => true,
        };
        if date_ok && model_ok {
            req = req + rec.requests;
            tok = tok + (rec.output + rec.hit + rec.miss);
            out = out + rec.output;
            hit = hit + rec.hit;
            miss = miss + rec.miss;
        }
        i = i + 1;
    }
    assert(all.take(i as int) =~= all);
    (req, tok, out, hit, miss)
}

/// The distinct model names, in order of first appearance.
fn model_names(ev: &Vec<UsageRecord>) -> (names: Vec<String>)
    ensures
        strings_view(names@) == event_models(records_view(ev@)),
{
    let ghost all = records_view(ev@);
    let mut names: Vec<String> = Vec::new();
    let mut i: usize = 0;
    assert(all.take(0) =~= Seq::<UsageEvent>::empty());
    while i < ev.len()
        invariant
            all == records_view(ev@),
            i <= ev@.len(),
            strings_view(names@) == event_models(all.take(i as int)),
        decreases ev@.len() - i,
    {
        let rec = &ev[i];
        let ghost pre = all.take(i as int);
        let ghost post = all.take(i + 1);
        assert(post.drop_last() =~= pre);
        assert(post.last() == rec@);
        let mut j: usize = 0;
        while j < names.len() && !(names[j] == rec.model)
            invariant
                strings_view(names@) == event_models(pre),
                j <= names@.len(),
                forall|x: int| 0 <= x < j ==> event_models(pre)[x] != rec.model@,
            decreases names@.len() - j,
        {
            assert(strings_view(names@)[j as int] == names@[j as int]@);
            j = j + 1;
        }
        if j < names.len() {
            assert(strings_view(names@)[j as int] == names@[j as int]@);
            assert(event_models(pre).contains(rec.model@));
        } else {
            assert(!event_models(pre).contains(rec.model@)) by {
                if event_models(pre).contains(rec.model@) {
                    let x = choose|x: int| 0 <= x < event_models(pre).len() && event_models(pre)[x] == rec.model@;
                }
            }
            let ghost old_names = names@;
            names.push(rec.model.clone());
            assert(strings_view(names@) =~= strings_view(old_names).push(rec.model@));
        }
        i = i + 1;
    }
    assert(all.take(i as int) =~= all);
    names
}

/// The period summary of each model, in order of the model's first event.
pub fn build_model_summaries(
    ev: &Vec<UsageRecord>,
    entries: &Vec<EntryRecord>,
    dates: &Vec<String>,
) -> (models: Vec<ModelPeriodSummary>)
    requires
        groups_fit(records_view(ev@)),
        entry_records_view(entries@) == entries_of(records_view(ev@)),
    ensures
        summaries_view(models@) == period_models(records_view(ev@), strings_view(dates@)),
{
    let ghost all = records_view(ev@);
    let ghost dv = strings_view(dates@);
    let names = model_names(ev);
    let mut models: Vec<ModelPeriodSummary> = Vec::new();
    let mut q: usize = 0;
    while q < names.len()
        invariant
            all == records_view(ev@),
            dv == strings_view(dates@),
            groups_fit(all),
            entry_records_view(entries@) == entries_of(all),
            strings_view(names@) == event_models(all),
            q <= names@.len(),
            summaries_view(models@) == period_models(all, dv).take(q as int),
        decreases names@.len() - q,
    {
        let name = &names[q];
        assert(strings_view(names@)[q as int] == name@);
        assert(tally_fits(tally_of(all, None, Some(name@))));
        let (req, tok, out, hit, miss) = counters_where(ev, None, Some(name));
        let mut parts: Vec<Vec<String>> = Vec::new();
        let mut p: usize = 0;
        assert(dv.take(0).filter(model_used_on(all, name@)) =~= Seq::<Seq<char>>::empty()) by {
            reveal(Seq::filter);
        }
        while p < dates.len()
            invariant
                all == records_view(ev@),
                dv == strings_view(dates@),
                entry_records_view(entries@) == entries_of(all),
                p <= dates@.len(),
                parts@.map_values(|g: Vec<String>| strings_view(g@)) == dv.take(p as int).filter(
                    model_used_on(all, name@),
                ).map_values(|d: Seq<char>| cost_texts_of(all, Some(d), Some(name@))),
            decreases dates@.len() - p,
        {
            let date = &dates[p];
            assert(dv[p as int] == date@);
            assert(dv.take(p + 1) == dv.take(p as int).push(dv[p as int]));
            proof {
                dv.take(p as int).lemma_filter_push(dv[p as int], model_used_on(all, name@));
            }
            let ghost old_parts = parts@;
            match find_entry_costs(entries, date, name, Ghost(all)) {
                Some(c) => {
                    parts.push(c);
                    assert(parts@.map_values(|g: Vec<String>| strings_view(g@)) =~= old_parts.map_values(
                        |g: Vec<String>| strings_view(g@),
                    ).push(cost_texts_of(all, Some(date@), Some(name@))));
                },
                None => {},
            }
            assert(parts@.map_values(|g: Vec<String>| strings_view(g@)) =~= dv.take(p + 1).filter(
                model_used_on(all, name@),
            ).map_values(|d: Seq<char>| cost_texts_of(all, Some(d), Some(name@))));
            p = p + 1;
        }
        assert(dv.take(p as int) =~= dv);
        let m = ModelPeriodSummary {
            name: name.clone(),
            cost_parts: parts,
            api_requests: req,
            tokens: tok,
            output_tokens: out,
            cache_hit: hit,
            cache_miss: miss,
        };
        assert(m@ == model_summary(all, dv, name@));
        let ghost old_models = models@;
        models.push(m);
        assert(summaries_view(models@) =~= summaries_view(old_models).push(m@));
        assert(event_models(all)[q as int] == name@);
        assert(period_models(all, dv)[q as int] == model_summary(all, dv, name@));
        assert(period_models(all, dv).take(q + 1) =~= period_models(all, dv).take(q as int).push(
            model_summary(all, dv, name@),
        ));
        q = q + 1;
    }
    assert(period_models(all, dv).take(q as int) =~= period_models(all, dv));
    models
}


/// Flattens both responses into the daily breakdown (date order) and the
/// per-model period summaries (order of each model's first bucket).
pub fn flatten_responses(
    cost: &ByApiKeyCostResponse,
    amount: &ByApiKeyAmountResponse,
    _currency: &str,
) -> (r: (Vec<DailyItem>, Vec<ModelPeriodSummary>))
    requires
        responses_in_calendar(cost, amount),
        groups_fit(usage_events(cost, amount)),
    ensures
        is_daily_breakdown(days_view(r.0@), usage_events(cost, amount)),
        summaries_view(r.1@) == period_models(usage_events(cost, amount), dates_view(days_view(r.0@))),
        forall|i: int|
            0 <= i < r.1@.len() ==> (#[trigger] summaries_view(r.1@)[i]).cost_parts.flatten().to_multiset()
                == cost_texts_of(usage_events(cost, amount), None, Some(summaries_view(r.1@)[i].name)).to_multiset(),
{
    let ev = collect_events(cost, amount);
    let entries = group_entries(&ev);
    let dates = sorted_dates(&ev);
    let days = build_daily(&ev, &entries, &dates);
    let models = build_model_summaries(&ev, &entries, &dates);
    proof {
        assert forall|i: int| 0 <= i < models@.len() implies (#[trigger] summaries_view(models@)[i]).cost_parts.flatten().to_multiset()
            == cost_texts_of(usage_events(cost, amount), None, Some(summaries_view(models@)[i].name)).to_multiset() by {
            crate::accounting::law_breakdown_model_costs(days_view(days@), usage_events(cost, amount), i);
        }
    }
    (days, models)
}

fn first_non_empty_in(v: &Vec<String>) -> (r: Option<&String>)
    ensures
        match r {
            Some(s) => first_non_empty(strings_view(v@)) == Some(s@),
            None => first_non_empty(strings_view(v@)) is None,
        },
{
    let mut i: usize = 0;
    assert(strings_view(v@).skip(0) =~= strings_view(v@));
    while i < v.len()
        invariant
            i <= v@.len(),
            first_non_empty(strings_view(v@)) == first_non_empty(strings_view(v@).skip(i as int)),
        decreases v@.len() - i,
    {
        let ghost rest = strings_view(v@).skip(i as int);
        assert(rest[0] == v@[i as int]@);
        assert(rest.drop_first() =~= strings_view(v@).skip(i + 1));
        if v[i].as_str().unicode_len() > 0 {
            return Some(&v[i]);
        }
        i = i + 1;
    }
    None
}

pub proof fn lemma_first_non_empty_concat(a: Seq<Seq<char>>, b: Seq<Seq<char>>)
    ensures
        first_non_empty(a + b) == match first_non_empty(a) {
            Some(x) => Some(x),
            None => first_non_empty(b),
        },
    decreases a.len(),
{
    if a.len() > 0 {
        assert((a + b).drop_first() =~= a.drop_first() + b);
        assert((a + b)[0] == a[0]);
        lemma_first_non_empty_concat(a.drop_first(), b);
    } else {
        assert(a + b =~= b);
    }
}

/// The account's currency (see `resolved_currency`).
pub fn resolve_currency(summary: &SummaryCurrencies) -> (c: String)
    ensures
        c@ == resolved_currency(summary),
{
    proof {
        lemma_first_non_empty_concat(opt_strings_view(summary.normal_wallets), opt_strings_view(summary.bonus_wallets));
    }
    if let Some(c) = &summary.currency {
        if c.as_str().unicode_len() > 0 {
            return c.clone();
        }
    }
    if let Some(ws) = &summary.normal_wallets {
        if let Some(w) = first_non_empty_in(ws) {
            return w.clone();
        }
    }
    if let Some(ws) = &summary.bonus_wallets {
        if let Some(w) = first_non_empty_in(ws) {
            return w.clone();
        }
    }
    proof {
        reveal_strlit("CNY");
    }
    String::from_str("CNY")
}

/// Positions of the entries of `currencies` equal to `currency`, in order.
pub open spec fn positions_of(currencies: Seq<Seq<char>>, currency: Seq<char>) -> Seq<int> {
    Seq::new(currencies.len(), |i: int| i).filter(|i: int| currencies[i] == currency)
}

/// The wallets held in `currency`: `(false, i)` for the `i`-th normal wallet,
/// `(true, j)` for the `j`-th bonus wallet, normal wallets first.
pub open spec fn wallets_in(s: &SummaryCurrencies, currency: Seq<char>) -> Seq<(bool, int)> {
    positions_of(opt_strings_view(s.normal_wallets), currency).map_values(|i: int| (false, i))
        + positions_of(opt_strings_view(s.bonus_wallets), currency).map_values(|i: int| (true, i))
}

fn positions_in(v: &Vec<String>, currency: &String) -> (idx: Vec<usize>)
    ensures
        idx@.map_values(|i: usize| i as int) == positions_of(strings_view(v@), currency@),
{
    let ghost all = strings_view(v@);
    let ghost pred = |i: int| all[i] == currency@;
    let ghost range = Seq::new(all.len(), |i: int| i);
    let mut idx: Vec<usize> = Vec::new();
    let mut i: usize = 0;
    assert(range.take(0).filter(pred) =~= Seq::<int>::empty()) by {
        reveal(Seq::filter);
    }
    while i < v.len()
        invariant
            all == strings_view(v@),
            range == Seq::new(all.len(), |i: int| i),
            pred == (|i: int| all[i] == currency@),
            i <= v@.len(),
            idx@.map_values(|x: usize| x as int) == range.take(i as int).filter(pred),
        decreases v@.len() - i,
    {
        assert(all[i as int] == v@[i as int]@);
        assert(range.take(i + 1) =~= range.take(i as int).push(i as int));
        proof {
            range.take(i as int).lemma_filter_push(i as int, pred);
        }
        let ghost old_idx = idx@;
        if v[i] == *currency {
            idx.push(i);
            assert(idx@.map_values(|x: usize| x as int) =~= old_idx.map_values(|x: usize| x as int).push(i as int));
        }
        i = i + 1;
    }
    assert(range.take(i as int) =~= range);
    idx
}

/// The wallets whose balance makes up the account balance when the summary
/// gives none: those held in the account's currency (see `wallets_in`).
pub fn wallets_in_currency(summary: &SummaryCurrencies, currency: &String) -> (w: Vec<(bool, usize)>)
    ensures
        w@.map_values(|p: (bool, usize)| (p.0, p.1 as int)) == wallets_in(summary, currency@),
{
    let empty: Vec<String> = Vec::new();
    let normal: &Vec<String> = match &summary.normal_wallets {
        Some(v) => v,
        None => &empty,
    };
    let bonus: &Vec<String> = match &summary.bonus_wallets {
        Some(v) => v,
        None => &empty,
    };
    assert(opt_strings_view(summary.normal_wallets) =~= strings_view(normal@));
    assert(opt_strings_view(summary.bonus_wallets) =~= strings_view(bonus@));
    let a = positions_in(normal, currency);
    let b = positions_in(bonus, currency);
    let ghost pa = positions_of(strings_view(normal@), currency@);
    let ghost pb = positions_of(strings_view(bonus@), currency@);
    let mut w: Vec<(bool, usize)> = Vec::new();
    let mut i: usize = 0;
    while i < a.len()
        invariant
            a@.map_values(|x: usize| x as int) == pa,
            i <= a@.len(),
            w@.map_values(|p: (bool, usize)| (p.0, p.1 as int)) == pa.take(i as int).map_values(|x: int| (false, x)),
        decreases a@.len() - i,
    {
        let ghost old_w = w@;
        w.push((false, a[i]));
        assert(a@.map_values(|x: usize| x as int)[i as int] == a@[i as int] as int);
        assert(pa[i as int] == a@[i as int] as int);
        assert(w@.map_values(|p: (bool, usize)| (p.0, p.1 as int)) =~= old_w.map_values(
            |p: (bool, usize)| (p.0, p.1 as int),
        ).push((false, pa[i as int])));
        assert(pa.take(i + 1) =~= pa.take(i as int).push(pa[i as int]));
        assert(w@.map_values(|p: (bool, usize)| (p.0, p.1 as int)) =~= pa.take(i + 1).map_values(|x: int| (false, x)));
        i = i + 1;
    }
    assert(pa.take(i as int) =~= pa);
    let ghost wa = w@.map_values(|p: (bool, usize)| (p.0, p.1 as int));
    let mut j: usize = 0;
    while j < b.len()
        invariant
            b@.map_values(|x: usize| x as int) == pb,
            j <= b@.len(),
            w@.map_values(|p: (bool, usize)| (p.0, p.1 as int)) == wa + pb.take(j as int).map_values(|x: int| (true, x)),
        decreases b@.len() - j,
    {
        let ghost old_w = w@;
        w.push((true, b[j]));
        assert(b@.map_values(|x: usize| x as int)[j as int] == b@[j as int] as int);
        assert(pb[j as int] == b@[j as int] as int);
        assert(w@.map_values(|p: (bool, usize)| (p.0, p.1 as int)) =~= old_w.map_values(
            |p: (bool, usize)| (p.0, p.1 as int),
        ).push((true, pb[j as int])));
        assert(pb.take(j + 1) =~= pb.take(j as int).push(pb[j as int]));
        assert(w@.map_values(|p: (bool, usize)| (p.0, p.1 as int)) =~= wa + pb.take(j + 1).map_values(|x: int| (true, x)));
        j = j + 1;
    }
    assert(pb.take(j as int) =~= pb);
    w
}

/// The float-free dashboard: the account currency, the period counters
/// over every bucket, the per-model summaries and the daily breakdown.
pub fn aggregate(
    summary: &SummaryCurrencies,
    amount_response: &ByApiKeyAmountResponse,
    cost_response: &ByApiKeyCostResponse,
) -> (data: AggregatedData)
    requires
        responses_in_calendar(cost_response, amount_response),
        usage_fits(cost_response, amount_response),
    ensures
        data.currency@ == resolved_currency(summary),
        is_daily_breakdown(days_view(data.daily_items@), usage_events(cost_response, amount_response)),
        summaries_view(data.models@) == period_models(
            usage_events(cost_response, amount_response),
            dates_view(days_view(data.daily_items@)),
        ),
        forall|i: int|
            0 <= i < data.models@.len() ==> (#[trigger] summaries_view(data.models@)[i]).cost_parts.flatten().to_multiset()
                == cost_texts_of(
                usage_events(cost_response, amount_response),
                None,
                Some(summaries_view(data.models@)[i].name),
            ).to_multiset(),
        data.period_api_requests == tally_of(usage_events(cost_response, amount_response), None, None).requests,
        data.period_tokens == tally_of(usage_events(cost_response, amount_response), None, None).tokens,
        data.period_output_tokens == tally_of(usage_events(cost_response, amount_response), None, None).output,
        data.period_cache_hit == tally_of(usage_events(cost_response, amount_response), None, None).hit,
        data.period_cache_miss == tally_of(usage_events(cost_response, amount_response), None, None).miss,
{
    let currency = resolve_currency(summary);
    let ev = collect_events(cost_response, amount_response);
    proof {
        lemma_groups_fit(records_view(ev@));
    }
    let entries = group_entries(&ev);
    let dates = sorted_dates(&ev);
    let daily_items = build_daily(&ev, &entries, &dates);
    let models = build_model_summaries(&ev, &entries, &dates);
    let (req, tok, out, hit, miss) = counters_where(&ev, None, None);
    proof {
        assert forall|i: int| 0 <= i < models@.len() implies (#[trigger] summaries_view(models@)[i]).cost_parts.flatten().to_multiset()
            == cost_texts_of(usage_events(cost_response, amount_response), None, Some(summaries_view(models@)[i].name)).to_multiset() by {
            crate::accounting::law_breakdown_model_costs(
                days_view(daily_items@),
                usage_events(cost_response, amount_response),
                i,
            );
        }
    }
    AggregatedData {
        currency,
        period_api_requests: req,
        period_tokens: tok,
        period_output_tokens: out,
        period_cache_hit: hit,
        period_cache_miss: miss,
        models,
        daily_items,
    }
}


fn bucket_time_ok(time: i64) -> (ok: bool)
    ensures
        ok == in_calendar(day_of_timestamp(time as int)),
{
    let day = epoch_day_of_timestamp(time);
    MIN_EPOCH_DAY as i64 <= day && day <= MAX_EPOCH_DAY as i64
}

fn calendar_check(cost: &ByApiKeyCostResponse, amount: &ByApiKeyAmountResponse) -> (ok: bool)
    ensures
        ok == responses_in_calendar(cost, amount),
{
    let mut g: usize = 0;
    while g < cost.data.len()
        invariant
            g <= cost.data@.len(),
            forall|g2: int, s: int, b: int|
                0 <= g2 < g && 0 <= s < cost.data@[g2].series@.len() && 0 <= b
                    < cost.data@[g2].series@[s].buckets@.len() ==> in_calendar(
                    day_of_timestamp(#[trigger] cost.data@[g2].series@[s].buckets@[b].time as int),
                ),
        decreases cost.data@.len() - g,
    {
        let group = &cost.data[g];
        let mut s: usize = 0;
        while s < group.series.len()
            invariant
                g < cost.data@.len(),
                *group == cost.data@[g as int],
                s <= group.series@.len(),
                forall|g2: int, s2: int, b: int|
                    0 <= g2 < g && 0 <= s2 < cost.data@[g2].series@.len() && 0 <= b
                        < cost.data@[g2].series@[s2].buckets@.len() ==> in_calendar(
                        day_of_timestamp(#[trigger] cost.data@[g2].series@[s2].buckets@[b].time as int),
                    ),
                forall|s2: int, b: int|
                    0 <= s2 < s && 0 <= b < group.series@[s2].buckets@.len() ==> in_calendar(
                        day_of_timestamp(#[trigger] group.series@[s2].buckets@[b].time as int),
                    ),
            decreases group.series@.len() - s,
        {
            let series = &group.series[s];
            let mut b: usize = 0;
            while b < series.buckets.len()
                invariant
                    g < cost.data@.len(),
                    *group == cost.data@[g as int],
                    s < group.series@.len(),
                    *series == group.series@[s as int],
                    b <= series.buckets@.len(),
                    forall|b2: int| 0 <= b2 < b ==> in_calendar(
                        day_of_timestamp(#[trigger] series.buckets@[b2].time as int),
                    ),
                decreases series.buckets@.len() - b,
            {
                if !bucket_time_ok(series.buckets[b].time) {
                    assert(!in_calendar(day_of_timestamp(cost.data@[g as int].series@[s as int].buckets@[b as int].time as int)));
                    return false;
                }
                b = b + 1;
            }
            s = s + 1;
        }
        g = g + 1;
    }
    let mut s: usize = 0;
    while s < amount.series.len()
        invariant
            s <= amount.series@.len(),
            forall|g2: int, s2: int, b: int|
                0 <= g2 < cost.data@.len() && 0 <= s2 < cost.data@[g2].series@.len() && 0 <= b
                    < cost.data@[g2].series@[s2].buckets@.len() ==> in_calendar(
                    day_of_timestamp(#[trigger] cost.data@[g2].series@[s2].buckets@[b].time as int),
                ),
            forall|s2: int, b: int|
                0 <= s2 < s && 0 <= b < amount.series@[s2].buckets@.len() ==> in_calendar(
                    day_of_timestamp(#[trigger] amount.series@[s2].buckets@[b].time as int),
                ),
        decreases amount.series@.len() - s,
    {
        let series = &amount.series[s];
        let mut b: usize = 0;
        while b < series.buckets.len()
            invariant
                s < amount.series@.len(),
                *series == amount.series@[s as int],
                b <= series.buckets@.len(),
                forall|b2: int| 0 <= b2 < b ==> in_calendar(
                    day_of_timestamp(#[trigger] series.buckets@[b2].time as int),
                ),
            decreases series.buckets@.len() - b,
        {
            if !bucket_time_ok(series.buckets[b].time) {
                assert(!in_calendar(day_of_timestamp(amount.series@[s as int].buckets@[b as int].time as int)));
                return false;
            }
            b = b + 1;
        }
        s = s + 1;
    }
    true
}

/// Whether the summed counters of the events fit in `u64`.
fn fits_check(ev: &Vec<UsageRecord>) -> (ok: bool)
    ensures
        ok == tally_fits(tally_of(records_view(ev@), None, None)),
{
    let ghost all = records_view(ev@);
    let mut req: u128 = 0;
    let mut tok: u128 = 0;
    let mut i: usize = 0;
    assert(all.take(0) =~= Seq::<UsageEvent>::empty());
    while i < ev.len()
        invariant
            all == records_view(ev@),
            i <= ev@.len(),
            req == tally_of(all.take(i as int), None, None).requests,
            tok == tally_of(all.take(i as int), None, None).tokens,
            req <= u64::MAX,
            tok <= u64::MAX,
        decreases ev@.len() - i,
    {
        let rec = &ev[i];
        let ghost post = all.take(i + 1);
        assert(post.drop_last() =~= all.take(i as int));
        assert(post.last() == rec@);
        req = req + rec.requests as u128;
        tok = tok + (rec.output as u128 + rec.hit as u128 + rec.miss as u128);
        if req > u64::MAX as u128 || tok > u64::MAX as u128 {
            proof {
                lemma_tally_le_prefix(all, i + 1, None, None);
            }
            return false;
        }
        i = i + 1;
    }
    assert(all.take(i as int) =~= all);
    true
}

/// Whether `aggregate` and `flatten_responses` accept these responses:
/// every bucket falls on a date chrono represents, and the summed requests
/// and tokens fit in `u64`.
pub fn responses_supported(cost: &ByApiKeyCostResponse, amount: &ByApiKeyAmountResponse) -> (ok: bool)
    ensures
        ok == (responses_in_calendar(cost, amount) && usage_fits(cost, amount)),
{
    if !calendar_check(cost, amount) {
        return false;
    }
    let ev = collect_events(cost, amount);
    fits_check(&ev)
}


/// Token count for display: billions, millions (two decimals), thousands
/// (one decimal), each the quotient in binary64 printed with that many
/// decimals (see `ratio_text`); plain below a thousand.
pub open spec fn tokens_text(n: nat) -> Seq<char> {
    if n >= 1_000_000_000 {
        ratio_text(n, 1_000_000_000, 100, 2).push('B')
    } else if n >= 1_000_000 {
        ratio_text(n, 1_000_000, 100, 2).push('M')
    } else if n >= 1_000 {
        ratio_text(n, 1_000, 10, 1).push('K')
    } else {
        decimal(n)
    }
}

/// Count for display: millions with two decimals (the binary64 quotient,
/// see `ratio_text`), the plain number below a million.
pub open spec fn number_text(n: nat) -> Seq<char> {
    if n >= 1_000_000 {
        ratio_text(n, 1_000_000, 100, 2).push('M')
    } else {
        decimal(n)
    }
}

/// Formats a token count: `1.23B`, `1.23M`, `1.5K` or `500`.
pub fn format_tokens(n: u64) -> (s: String)
    ensures
        s@ == tokens_text(n as nat),
{
    let mut s = String::new();
    if n >= 1_000_000_000 {
        push_ratio(&mut s, n, 1_000_000_000, 100, 2);
        s.push('B');
    } else if n >= 1_000_000 {
        push_ratio(&mut s, n, 1_000_000, 100, 2);
        s.push('M');
    } else if n >= 1_000 {
        push_ratio(&mut s, n, 1_000, 10, 1);
        s.push('K');
    } else {
        push_decimal(&mut s, n);
    }
    s
}

/// Formats a count: `275.65M` from a million on, else the plain number.
pub fn format_number(n: u64) -> (s: String)
    ensures
        s@ == number_text(n as nat),
{
    let mut s = String::new();
    if n >= 1_000_000 {
        push_ratio(&mut s, n, 1_000_000, 100, 2);
        s.push('M');
    } else {
        push_decimal(&mut s, n);
    }
    s
}


// ── Time ranges ─────────────────────────────────────────────────

/// The half-open range of timestamps for a named period ending today:
/// from midnight UTC of its first day to midnight UTC after its last day.
/// `today` is the current epoch day; unknown names mean `7d`.
pub open spec fn period_range(period: Seq<char>, today: int) -> (int, int) {
    if period == "today"@ {
        (midnight(today), midnight(today + 1))
    } else if period == "7d"@ {
        (midnight(today - 6), midnight(today + 1))
    } else if period == "30d"@ {
        (midnight(today - 29), midnight(today + 1))
    } else if period == "this-month"@ {
        (midnight(month_start_of(today as i32) as int), midnight(today + 1))
    } else if period == "last-month"@ {
        let first_this = month_start_of(today as i32) as int;
        (midnight(month_start_of((first_this - 1) as i32) as int), midnight(first_this))
    } else {
        (midnight(today - 6), midnight(today + 1))
    }
}

/// Start and end timestamps of a named period for the given current day.
pub fn time_range_for(period: &str, today: i32) -> (r: (i64, i64))
    requires
        MIN_EPOCH_DAY + 31 <= today <= MAX_EPOCH_DAY,
    ensures
        (r.0 as int, r.1 as int) == period_range(period@, today as int),
        period@ == "this-month"@ ==> r.0 == midnight(month_start_of(today) as int) && midnight(today - 30) <= r.0
            <= midnight(today as int) && r.1 == midnight(today + 1),
        period@ == "last-month"@ ==> r.1 == midnight(month_start_of(today) as int) && r.0 + 86400 <= r.1 && r.1
            <= r.0 + 31 * 86400,
{
    proof {
        law_month_periods(today as int);
        reveal_strlit("today");
        reveal_strlit("7d");
        reveal_strlit("30d");
        reveal_strlit("this-month");
        reveal_strlit("last-month");
        assert("this-month"@.len() != "today"@.len() && "this-month"@.len() != "7d"@.len() && "this-month"@.len()
            != "30d"@.len());
        assert("last-month"@.len() != "today"@.len() && "last-month"@.len() != "7d"@.len() && "last-month"@.len()
            != "30d"@.len() && "last-month"@[0] != "this-month"@[0]);
    }
    let t = today as i64;
    if str_equal(period, "today") {
        (midnight_timestamp(t), midnight_timestamp(t + 1))
    } else if str_equal(period, "7d") {
        (midnight_timestamp(t - 6), midnight_timestamp(t + 1))
    } else if str_equal(period, "30d") {
        (midnight_timestamp(t - 29), midnight_timestamp(t + 1))
    } else if str_equal(period, "this-month") {
        let first = month_start(today);
        (midnight_timestamp(first as i64), midnight_timestamp(t + 1))
    } else if str_equal(period, "last-month") {
        let first_this = month_start(today);
        let first_last = month_start(first_this - 1);
        (midnight_timestamp(first_last as i64), midnight_timestamp(first_this as i64))
    } else {
        (midnight_timestamp(t - 6), midnight_timestamp(t + 1))
    }
}

/// The range of a named period ending on the day of a clock reading
/// (seconds since the epoch), `None` when `clock_day` gives no day.
pub open spec fn range_at_clock(period: Seq<char>, clock: Option<u64>) -> Option<(int, int)> {
    match clock_day(clock) {
        Some(today) => Some(period_range(period, today)),
        None => None,
    }
}

/// Start and end timestamps of a named period ending on the day of a
/// clock reading (see `range_at_clock`).
pub fn range_at(period: &str, clock: Option<u64>) -> (r: Option<(i64, i64)>)
    ensures
        match r {
            Some(got) => range_at_clock(period@, clock) == Some((got.0 as int, got.1 as int)),
            None => range_at_clock(period@, clock) is None,
        },
{
    match day_of_clock(clock) {
        Some(today) => Some(time_range_for(period, today)),
        None => None,
    }
}

/// Start and end timestamps of a named period ending today (UTC clock);
/// `None` when the clock reads before 1970 or at the calendar's end.
pub fn compute_time_range(period: &str) -> (r: Option<(i64, i64)>)
    ensures
        r matches Some(got) ==> exists|today: int|
            0 <= today < MAX_EPOCH_DAY && (got.0 as int, got.1 as int) == period_range(period@, today),
{
    let clock = clock_seconds();
    let r = range_at(period, clock);
    proof {
        if let Some(got) = r {
            let today = clock_day(clock)->0;
            assert((got.0 as int, got.1 as int) == period_range(period@, today));
        }
    }
    r
}

/// The range chosen by explicit `YYYY-MM-DD` dates: from midnight of the
/// start date to midnight after the end date, or the parse/ordering error.
pub open spec fn dates_range(start_text: Seq<char>, end_text: Seq<char>) -> Result<(int, int), Seq<char>> {
    parsed_dates_range(start_text, end_text, ymd_parse_of(start_text), ymd_parse_of(end_text))
}

/// The range of explicit dates given how each text parsed (an epoch day or
/// the parser's message): the first parse error, the ordering error, or
/// midnight of the start date to midnight after the end date.
pub open spec fn parsed_dates_range(
    start_text: Seq<char>,
    end_text: Seq<char>,
    start: Result<i32, Seq<char>>,
    end: Result<i32, Seq<char>>,
) -> Result<(int, int), Seq<char>> {
    match start {
        Err(e) => Err("invalid start date '"@ + start_text + "': "@ + e),
        Ok(s) => match end {
            Err(e) => Err("invalid end date '"@ + end_text + "': "@ + e),
            Ok(t) => if t < s {
                Err("end date "@ + end_text + " is before start date "@ + start_text)
            } else {
                Ok((midnight(s as int), midnight(t + 1)))
            },
        },
    }
}

pub open spec fn parse_view(r: Result<i32, String>) -> Result<i32, Seq<char>> {
    match r {
        Ok(d) => Ok(d),
        Err(e) => Err(e@),
    }
}

/// chrono cannot name the day after the end date: `end + 1 day` panics.
pub open spec fn dates_range_overflows(start_text: Seq<char>, end_text: Seq<char>) -> bool {
    ymd_parse_of(start_text) is Ok && ymd_parse_of(end_text) == Ok::<i32, Seq<char>>(MAX_EPOCH_DAY)
}

/// Start and end timestamps for explicit dates, given how each text parsed
/// (see `parsed_dates_range`).
pub fn range_from_parsed(start_str: &str, end_str: &str, start: Result<i32, String>, end: Result<i32, String>) -> (r:
    Result<(i64, i64), DeepSeekError>)
    requires
        start matches Ok(s) ==> in_calendar(s as int),
        end matches Ok(t) ==> in_calendar(t as int),
        start is Ok ==> (end matches Ok(t) ==> t < MAX_EPOCH_DAY),
    ensures
        match (r, parsed_dates_range(start_str@, end_str@, parse_view(start), parse_view(end))) {
            (Ok(got), Ok(want)) => (got.0 as int, got.1 as int) == want,
            (Err(DeepSeekError::Parse(m)), Err(want)) => m@ == want,
            _ => false,
        },
{
    let start = match start {
        Ok(d) => d,
        Err(e) => {
            let mut m = String::from_str("invalid start date '");
            m.append(start_str);
            m.append("': ");
            m.append(e.as_str());
            return Err(DeepSeekError::Parse(m));
        },
    };
    let end = match end {
        Ok(d) => d,
        Err(e) => {
            let mut m = String::from_str("invalid end date '");
            m.append(end_str);
            m.append("': ");
            m.append(e.as_str());
            return Err(DeepSeekError::Parse(m));
        },
    };
    if end < start {
        let mut m = String::from_str("end date ");
        m.append(end_str);
        m.append(" is before start date ");
        m.append(start_str);
        return Err(DeepSeekError::Parse(m));
    }
    Ok((midnight_timestamp(start as i64), midnight_timestamp(end as i64 + 1)))
}

/// Start and end timestamps for explicit `YYYY-MM-DD` dates; the end is
/// exclusive (midnight after the end date).
pub fn compute_time_range_from_dates(start_str: &str, end_str: &str) -> (r: Result<(i64, i64), DeepSeekError>)
    requires
        !dates_range_overflows(start_str@, end_str@),
    ensures
        match (r, dates_range(start_str@, end_str@)) {
            (Ok(got), Ok(want)) => (got.0 as int, got.1 as int) == want,
            (Err(DeepSeekError::Parse(m)), Err(want)) => m@ == want,
            _ => false,
        },
{
    let start = parse_ymd(start_str);
    let end = parse_ymd(end_str);
    range_from_parsed(start_str, end_str, start, end)
}


/// The current month runs from midnight of the first day of today's month
/// (chrono's `with_day(1)`) to midnight after today; the previous month
/// ends exactly where the current month starts and begins on the first day
/// of the month before it.
pub proof fn law_month_periods(today: int)
    ensures
        period_range("this-month"@, today).0 == midnight(month_start_of(today as i32) as int),
        period_range("this-month"@, today).1 == midnight(today + 1),
        period_range("last-month"@, today).1 == period_range("this-month"@, today).0,
        period_range("last-month"@, today).0 == midnight(
            month_start_of((month_start_of(today as i32) - 1) as i32) as int,
        ),
{
    reveal_strlit("today");
    reveal_strlit("7d");
    reveal_strlit("30d");
    reveal_strlit("this-month");
    reveal_strlit("last-month");
    assert("this-month"@ != "today"@ && "this-month"@ != "7d"@ && "this-month"@ != "30d"@) by {
        assert("this-month"@.len() != "today"@.len());
        assert("this-month"@.len() != "7d"@.len());
        assert("this-month"@.len() != "30d"@.len());
    }
    assert("last-month"@ != "today"@ && "last-month"@ != "7d"@ && "last-month"@ != "30d"@ && "last-month"@
        != "this-month"@) by {
        assert("last-month"@.len() != "today"@.len());
        assert("last-month"@.len() != "7d"@.len());
        assert("last-month"@.len() != "30d"@.len());
        assert("last-month"@[0] != "this-month"@[0]);
    }
}

/// The fixed-length periods span whole days ending with today: `today`
/// one day, `7d` seven, `30d` thirty; a name that is none of the five
/// periods means `7d`.
pub proof fn law_period_lengths(period: Seq<char>, today: int)
    ensures
        period == "today"@ ==> period_range(period, today).1 - period_range(period, today).0 == 86400,
        period == "7d"@ ==> period_range(period, today).1 - period_range(period, today).0 == 7 * 86400,
        period == "30d"@ ==> period_range(period, today).1 - period_range(period, today).0 == 30 * 86400,
        period != "today"@ && period != "7d"@ && period != "30d"@ && period != "this-month"@ && period
            != "last-month"@ ==> period_range(period, today) == period_range("7d"@, today),
        period_range(period, today).1 == midnight(today + 1) || period == "last-month"@,
{
    reveal_strlit("today");
    reveal_strlit("7d");
    reveal_strlit("30d");
    reveal_strlit("this-month");
    reveal_strlit("last-month");
    assert("7d"@ != "today"@) by {
        assert("7d"@.len() != "today"@.len());
    }
    assert("30d"@ != "today"@ && "30d"@ != "7d"@) by {
        assert("30d"@[1] != "7d"@[1]);
    }
    if period == "7d"@ {
        assert(period_range(period, today).1 - period_range(period, today).0 == (today + 1) * 86400 - (today - 6)
            * 86400);
    }
    if period == "30d"@ {
        assert(period_range(period, today).1 - period_range(period, today).0 == (today + 1) * 86400 - (today - 29)
            * 86400);
    }
    if period == "today"@ {
        assert(period_range(period, today).1 - period_range(period, today).0 == (today + 1) * 86400 - today
            * 86400);
    }
}

/// Explicit dates give a non-empty range of whole days, from midnight of
/// the start date to midnight after the end date.
pub proof fn law_dates_range_whole_days(start_text: Seq<char>, end_text: Seq<char>)
    ensures
        dates_range(start_text, end_text) matches Ok(r) ==> r.0 < r.1 && (r.1 - r.0) % 86400 == 0
            && r.0 % 86400 == 0,
{
    if let Ok(r) = dates_range(start_text, end_text) {
        let s = ymd_parse_of(start_text)->Ok_0 as int;
        let t = ymd_parse_of(end_text)->Ok_0 as int;
        assert(r.1 - r.0 == (t + 1 - s) * 86400);
        assert((t + 1 - s) * 86400 >= 86400) by (nonlinear_arith)
            requires
                t >= s,
        ;
        assert(((t + 1 - s) * 86400) % 86400 == 0) by (nonlinear_arith);
        assert((s * 86400) % 86400 == 0) by (nonlinear_arith);
    }
}


/// The account currency is never empty: the declared currency when it is
/// not empty, else one of the wallets' currencies, else `CNY`.
pub proof fn law_resolved_currency(s: &SummaryCurrencies)
    ensures
        resolved_currency(s).len() > 0,
        (s.currency is Some && s.currency->0@.len() > 0) ==> resolved_currency(s) == s.currency->0@,
        resolved_currency(s) == seq!['C', 'N', 'Y'] || (s.currency is Some && s.currency->0@ == resolved_currency(s))
            || wallet_currencies(s).contains(resolved_currency(s)),
{
    lemma_first_non_empty_member(wallet_currencies(s));
}

proof fn lemma_first_non_empty_member(s: Seq<Seq<char>>)
    ensures
        first_non_empty(s) matches Some(w) ==> w.len() > 0 && s.contains(w),
    decreases s.len(),
{
    if s.len() > 0 && s[0].len() == 0 {
        lemma_first_non_empty_member(s.drop_first());
        if let Some(w) = first_non_empty(s.drop_first()) {
            let j = choose|j: int| 0 <= j < s.drop_first().len() && s.drop_first()[j] == w;
            assert(s[j + 1] == w);
        }
    } else if s.len() > 0 {
        assert(s[0] == s[0]);
    }
}

proof fn lemma_positions_of(l: Seq<Seq<char>>, c: Seq<char>)
    ensures
        forall|k: int|
            0 <= k < positions_of(l, c).len() ==> 0 <= #[trigger] positions_of(l, c)[k] < l.len() && l[positions_of(
                l,
                c,
            )[k]] == c,
        forall|i: int| 0 <= i < l.len() && #[trigger] l[i] == c ==> positions_of(l, c).contains(i),
{
    broadcast use vstd::seq_lib::group_filter_ensures, Seq::lemma_filter_contains_rev;

    let r = Seq::new(l.len(), |i: int| i);
    let pred = |i: int| l[i] == c;
    let p = positions_of(l, c);
    assert forall|k: int| 0 <= k < p.len() implies 0 <= #[trigger] p[k] < l.len() && l[p[k]] == c by {
        assert(p.contains(p[k]));
        assert(r.contains(p[k]));
    }
    assert forall|i: int| 0 <= i < l.len() && #[trigger] l[i] == c implies p.contains(i) by {
        assert(r[i] == i);
        assert(r.filter(pred).contains(r[i]));
    }
}

/// Every wallet picked for the balance is held in the account currency,
/// and every wallet held in it is picked.
pub proof fn law_wallets_in_currency(s: &SummaryCurrencies, currency: Seq<char>)
    ensures
        forall|k: int|
            0 <= k < wallets_in(s, currency).len() ==> {
                let (bonus, i) = #[trigger] wallets_in(s, currency)[k];
                let list = if bonus {
                    opt_strings_view(s.bonus_wallets)
                } else {
                    opt_strings_view(s.normal_wallets)
                };
                0 <= i < list.len() && list[i] == currency
            },
        forall|i: int|
            0 <= i < opt_strings_view(s.normal_wallets).len() && #[trigger] opt_strings_view(s.normal_wallets)[i]
                == currency ==> wallets_in(s, currency).contains((false, i)),
        forall|i: int|
            0 <= i < opt_strings_view(s.bonus_wallets).len() && #[trigger] opt_strings_view(s.bonus_wallets)[i]
                == currency ==> wallets_in(s, currency).contains((true, i)),
{
    let nl = opt_strings_view(s.normal_wallets);
    let bl = opt_strings_view(s.bonus_wallets);
    lemma_positions_of(nl, currency);
    lemma_positions_of(bl, currency);
    let a = positions_of(nl, currency);
    let b = positions_of(bl, currency);
    let w = wallets_in(s, currency);
    assert forall|k: int| 0 <= k < w.len() implies {
        let (bonus, i) = #[trigger] w[k];
        let list = if bonus {
            bl
        } else {
            nl
        };
        0 <= i < list.len() && list[i] == currency
    } by {
        if k < a.len() {
            assert(w[k] == (false, a[k]));
        } else {
            assert(w[k] == (true, b[k - a.len()]));
        }
    }
    assert forall|i: int| 0 <= i < nl.len() && #[trigger] nl[i] == currency implies w.contains((false, i)) by {
        assert(a.contains(i));
        let j = choose|j: int| 0 <= j < a.len() && a[j] == i;
        assert(w[j] == (false, i));
    }
    assert forall|i: int| 0 <= i < bl.len() && #[trigger] bl[i] == currency implies w.contains((true, i)) by {
        assert(b.contains(i));
        let j = choose|j: int| 0 <= j < b.len() && b[j] == i;
        assert(w[a.len() + j] == (true, i));
    }
}

/// Between a million and a billion, a token count reads as the plain count
/// does (millions with two decimals); below a thousand both are the number.
pub proof fn law_token_and_count_texts_agree(n: nat)
    ensures
        1_000_000 <= n < 1_000_000_000 ==> tokens_text(n) == number_text(n),
        n < 1_000 ==> tokens_text(n) == decimal(n) && number_text(n) == decimal(n),
{
}

} // verus!
