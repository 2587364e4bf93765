use deepseek_cli::types::{
    AmountBucket, AmountSeriesItem, ApiKeyMeta, ByApiKeyAmountResponse, ByApiKeyCostResponse,
    CostCurrencyGroup, CostSeriesItem, MetricAmount, NewCostBucket, SummaryCurrencies, UsageMetrics,
};
use deepseek_cli::usage::{aggregate, flatten_responses, resolve_currency, responses_supported, wallets_in_currency};
use deepseek_cli::types::metric_count;

fn key() -> ApiKeyMeta {
    ApiKeyMeta {
        tracking_id: "test".into(),
        name: "test-key".into(),
        sensitive_id: "sk-test".into(),
        valid: true,
    }
}

fn metrics(response: u64, request: u64, hit: u64, miss: u64) -> UsageMetrics {
    UsageMetrics {
        response_token: response,
        request,
        prompt_cache_hit_token: hit,
        prompt_cache_miss_token: miss,
    }
}

fn amount(series: Vec<(&str, Vec<(i64, UsageMetrics)>)>) -> ByApiKeyAmountResponse {
    ByApiKeyAmountResponse {
        start: 0,
        end: 0,
        bucket: 86400,
        models: series.iter().map(|s| s.0.to_string()).collect(),
        series: series
            .into_iter()
            .map(|(model, buckets)| AmountSeriesItem {
                api_key: key(),
                model: model.into(),
                buckets: buckets.into_iter().map(|(time, usage)| AmountBucket { time, usage }).collect(),
            })
            .collect(),
    }
}

fn cost(series: Vec<(&str, Vec<(i64, &str)>)>) -> ByApiKeyCostResponse {
    ByApiKeyCostResponse {
        start: 0,
        end: 0,
        bucket: 86400,
        models: series.iter().map(|s| s.0.to_string()).collect(),
        data: vec![CostCurrencyGroup {
            currency: "CNY".into(),
            series: series
                .into_iter()
                .map(|(model, buckets)| CostSeriesItem {
                    api_key: key(),
                    model: model.into(),
                    buckets: buckets
                        .into_iter()
                        .map(|(time, c)| NewCostBucket { time, cost: c.into() })
                        .collect(),
                })
                .collect(),
        }],
    }
}

#[test]
fn test_aggregate_basic() {
    let summary = SummaryCurrencies {
        currency: Some("CNY".into()),
        normal_wallets: None,
        bonus_wallets: None,
    };
    let amount = amount(vec![("deepseek-v4-pro", vec![(0, metrics(1000, 5, 5000, 500))])]);
    let cost = cost(vec![("deepseek-v4-pro", vec![(0, "0.00")])]);
    assert!(responses_supported(&cost, &amount));

    let result = aggregate(&summary, &amount, &cost);
    assert_eq!(result.currency, "CNY");
    assert_eq!(result.period_api_requests, 5);
    assert_eq!(result.period_tokens, 6500);
    assert_eq!(result.period_output_tokens, 1000);
    assert_eq!(result.period_cache_hit, 5000);
    assert_eq!(result.period_cache_miss, 500);
    let rate = result.period_cache_hit as f64 / (result.period_cache_hit + result.period_cache_miss) as f64;
    assert!((rate - 5000.0 / 5500.0).abs() < 1e-6);
    assert_eq!(result.models.len(), 1);
    assert_eq!(result.models[0].name, "deepseek-v4-pro");
    assert_eq!(result.models[0].cost_parts, vec![vec!["0.00".to_string()]]);
    assert_eq!(result.models[0].api_requests, 5);
    assert_eq!(result.models[0].tokens, 6500);
    assert_eq!(result.models[0].output_tokens, 1000);
    assert_eq!(result.models[0].cache_hit, 5000);
    assert_eq!(result.models[0].cache_miss, 500);
    assert_eq!(result.daily_items.len(), 1);
    assert_eq!(result.daily_items[0].date, "1970-01-01");
}

#[test]
fn breakdown_by_day_and_model() {
    let day = 86400;
    let amount = amount(vec![
        ("flash", vec![(2 * day + 5, metrics(10, 1, 20, 30)), (day, metrics(1, 1, 1, 1))]),
        ("pro", vec![(2 * day, metrics(100, 2, 200, 300))]),
    ]);
    let cost = cost(vec![
        ("pro", vec![(2 * day, "1.50"), (2 * day + 10, "0.25")]),
        ("flash", vec![(day, "0.10")]),
    ]);
    let (days, models) = flatten_responses(&cost, &amount, "CNY");
    let dates: Vec<&str> = days.iter().map(|d| d.date.as_str()).collect();
    assert_eq!(dates, vec!["1970-01-02", "1970-01-03"]);
    // Day two: pro first (its first bucket comes first), then flash.
    let second = &days[1];
    assert_eq!(second.api_requests, 3);
    assert_eq!(second.tokens, 60 + 600);
    let names: Vec<&str> = second.models.iter().map(|m| m.name.as_str()).collect();
    assert_eq!(names, vec!["pro", "flash"]);
    assert_eq!(second.models[0].cost_parts, vec![vec!["1.50".to_string(), "0.25".to_string()]]);
    assert!(second.models[1].cost_parts[0].is_empty());
    // Model summaries: order of first bucket; costs grouped by day in date order.
    let names: Vec<&str> = models.iter().map(|m| m.name.as_str()).collect();
    assert_eq!(names, vec!["pro", "flash"]);
    assert_eq!(models[1].cost_parts, vec![vec!["0.10".to_string()], vec![]]);
    assert_eq!(models[1].api_requests, 2);
    // Conservation: days and models both add up to the period.
    let by_days: u64 = days.iter().map(|d| d.tokens).sum();
    let by_models: u64 = models.iter().map(|m| m.tokens).sum();
    assert_eq!(by_days, by_models);
    assert_eq!(by_days, 3 + 60 + 600);
    for d in &days {
        assert_eq!(d.tokens, d.models.iter().map(|m| m.tokens).sum::<u64>());
    }
}

#[test]
fn negative_timestamps_truncate_toward_zero() {
    // -1 s is day 0 by truncating division, as the platform data is read.
    let amount = amount(vec![("m", vec![(-1, metrics(1, 1, 0, 0)), (-86400, metrics(1, 1, 0, 0))])]);
    let cost = cost(vec![]);
    let (days, _) = flatten_responses(&cost, &amount, "CNY");
    let dates: Vec<&str> = days.iter().map(|d| d.date.as_str()).collect();
    assert_eq!(dates, vec!["1969-12-31", "1970-01-01"]);
}

#[test]
fn unsupported_responses() {
    let too_far = amount(vec![("m", vec![(i64::MAX, metrics(0, 0, 0, 0))])]);
    assert!(!responses_supported(&cost(vec![]), &too_far));
    let overflow = amount(vec![("m", vec![(0, metrics(u64::MAX, 0, 0, 0)), (0, metrics(1, 0, 0, 0))])]);
    assert!(!responses_supported(&cost(vec![]), &overflow));
    let fine = amount(vec![("m", vec![(0, metrics(u64::MAX, 0, 0, 0))])]);
    assert!(responses_supported(&cost(vec![]), &fine));
}

#[test]
fn currency_resolution() {
    let s = |c: Option<&str>, n: Option<Vec<&str>>, b: Option<Vec<&str>>| SummaryCurrencies {
        currency: c.map(|x| x.to_string()),
        normal_wallets: n.map(|v| v.into_iter().map(|x| x.to_string()).collect()),
        bonus_wallets: b.map(|v| v.into_iter().map(|x| x.to_string()).collect()),
    };
    assert_eq!(resolve_currency(&s(Some("USD"), Some(vec!["CNY"]), None)), "USD");
    assert_eq!(resolve_currency(&s(Some(""), Some(vec!["", "USD"]), Some(vec!["CNY"]))), "USD");
    assert_eq!(resolve_currency(&s(None, Some(vec![""]), Some(vec!["EUR"]))), "EUR");
    assert_eq!(resolve_currency(&s(None, None, None)), "CNY");
    let w = s(None, Some(vec!["CNY", "USD", "CNY"]), Some(vec!["CNY"]));
    assert_eq!(wallets_in_currency(&w, &"CNY".to_string()), vec![(false, 0), (false, 2), (true, 0)]);
}

#[test]
fn metric_amounts() {
    assert_eq!(metric_count(&MetricAmount::Number(Some(42))), 42);
    assert_eq!(metric_count(&MetricAmount::Number(None)), 0);
    assert_eq!(metric_count(&MetricAmount::Text("17".into())), 17);
    assert_eq!(metric_count(&MetricAmount::Text("1.5".into())), 0);
    assert_eq!(metric_count(&MetricAmount::Other), 0);
    assert_eq!(metrics(1000, 5, 5000, 500).total(), 6500);
}

#[test]
fn flattening_needs_only_daily_and_model_sums() {
    let day = 86400;
    let amount = amount(vec![
        ("a", vec![(0, metrics(u64::MAX - 10, 1, 0, 0))]),
        ("b", vec![(day, metrics(u64::MAX - 10, 1, 0, 0))]),
    ]);
    let cost = cost(vec![]);
    // The period total overflows, so the whole dashboard is refused ...
    assert!(!responses_supported(&cost, &amount));
    // ... but every day and every model fits, which is all the flattening sums.
    let (days, models) = flatten_responses(&cost, &amount, "CNY");
    assert_eq!(days.len(), 2);
    assert_eq!(days[0].tokens, u64::MAX - 10);
    assert_eq!(models.len(), 2);
    assert_eq!(models[1].tokens, u64::MAX - 10);
}
