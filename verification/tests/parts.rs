use nanobot_obp::attempts;
use nanobot_obp::attempts::{Attempt, AttemptSpec};
use nanobot_obp::balance;
use nanobot_obp::balance::DeepSeekBalanceSnapshot;
use nanobot_obp::billing;
use nanobot_obp::channel::Channel;
use nanobot_obp::clock;
use nanobot_obp::config::RouterConfig;
use nanobot_obp::hints::RouteHints;
use nanobot_obp::numeral;
use nanobot_obp::ordered::OrderedMap;
use nanobot_obp::protocol::ApiProtocol;
use nanobot_obp::stats;
use nanobot_obp::stats::{UsageBreakdown, UsageBucket, UsageStats};
use nanobot_obp::text;
use nanobot_obp::trial;

fn bucket(requests: u64, cost: u128) -> UsageBucket {
    UsageBucket {
        requests,
        cost_nano_cny: cost,
        ..UsageBucket::default()
    }
}

#[test]
fn white_space_is_that_of_std() {
    for c in '\0'..=char::MAX {
        assert_eq!(text::is_white_space(c), c.is_whitespace(), "{c:?}");
    }
}

#[test]
fn joined_texts_are_split_again() {
    let parts = vec!["a".to_string(), "".to_string(), "渠道".to_string()];
    assert_eq!(text::split(&text::join(&parts, ","), ','), parts);
}

#[test]
fn numbers_have_their_own_numerals() {
    for a in 0u128..300 {
        assert_eq!(numeral::to_hex(a), format!("{a:x}"));
        assert_eq!(numeral::to_decimal(a), a.to_string());
    }
}

#[test]
fn times_are_taken_apart() {
    assert_eq!(clock::seconds_in(Some((5, 999_999_999))), 5);
    assert_eq!(clock::seconds_in(None), 0);
    assert_eq!(clock::nanoseconds_in(Some((5, 7))), 5_000_000_007);
    assert_eq!(clock::nanoseconds_in(None), 0);
    assert_eq!(clock::calendar_seconds(9), 9);
    assert_eq!(clock::calendar_seconds(u64::MAX), clock::LATEST_SECS);
}

#[test]
fn reasons_of_hints() {
    let hints = RouteHints {
        purpose: "Weather".to_string(),
        intent: "do a Code_Review".to_string(),
    };
    assert_eq!(
        hints.pro_reason(),
        Some("intent hint matched: do a Code_Review".to_string())
    );
    assert_eq!(
        hints.light_reason(),
        Some("purpose hint keeps default: Weather".to_string())
    );
    assert_eq!(RouteHints::default().pro_reason(), None);
}

#[test]
fn specifications_are_added_once() {
    let mut specs: Vec<AttemptSpec> = vec![];
    let router = RouterConfig::default();
    for _ in 0..2 {
        attempts::add_role_attempts(
            &mut specs,
            &router,
            "pro".to_string(),
            "deepseek-v4-pro".to_string(),
            false,
        );
    }
    let listed: Vec<(&str, &str)> = specs
        .iter()
        .map(|spec| (spec.role.as_str(), spec.group.as_str()))
        .collect();
    assert_eq!(listed, vec![("pro", "deepseek"), ("pro", "")]);
    attempts::add_attempt_spec(
        &mut specs,
        "pro".to_string(),
        "deepseek".to_string(),
        "deepseek-v4-pro".to_string(),
        true,
    );
    assert_eq!(specs.len(), 2);
    assert!(!specs[0].fallback);
}

fn attempt(kind: &str) -> Attempt {
    Attempt {
        channel: Channel {
            kind: kind.to_string(),
            ..Channel::default()
        },
        actual_model: "m".to_string(),
        role: "default".to_string(),
        group: "".to_string(),
        reason: "".to_string(),
    }
}

#[test]
fn streams_stay_in_their_format() {
    let format = |kind: &str, stream: bool| {
        trial::upstream_format(&attempt(kind), stream, ApiProtocol::OpenAI)
    };
    assert_eq!(format("openai", true), Some(ApiProtocol::OpenAI));
    assert_eq!(format("anthropic", true), None);
    assert_eq!(format("anthropic", false), Some(ApiProtocol::Anthropic));
    assert_eq!(format("other", false), None);
    assert!(trial::is_retryable(&vec![500, 502], 502));
    assert!(!trial::is_retryable(&vec![500, 502], 200));
}

#[test]
fn deepseek_channels_are_known() {
    let with = |name: &str, group: &str, base: &str, cost_model: &str| Channel {
        name: name.to_string(),
        group: group.to_string(),
        base: base.to_string(),
        cost_model: cost_model.to_string(),
        ..Channel::default()
    };
    assert!(balance::is_deepseek_channel(&with("My DeepSeek", "", "", "")));
    assert!(balance::is_deepseek_channel(&with("", "DEEPSEEK", "", "")));
    assert!(balance::is_deepseek_channel(&with("", "", "https://API.deepseek.com", "")));
    assert!(balance::is_deepseek_channel(&with("", "", "", "deepseek-v4")));
    assert!(!balance::is_deepseek_channel(&with("x", "deepseek2", "https://x.test", "y")));
    assert_eq!(
        balance::balance_http_error(402, " no\u{ff} money \n".as_bytes()),
        "HTTP 402 no\u{ff} money"
    );
    assert_eq!(balance::balance_http_error(500, b"a\xffb"), "HTTP 500 a\u{fffd}b");
}

fn snapshot(ts: i64, name: &str) -> DeepSeekBalanceSnapshot<u64> {
    DeepSeekBalanceSnapshot {
        ts,
        day: "".to_string(),
        time: "".to_string(),
        account_id: name.to_string(),
        channel_id: None,
        channel: "".to_string(),
        is_available: true,
        currency: "CNY".to_string(),
        total_balance: 1,
        granted_balance: 0,
        topped_up_balance: 0,
    }
}

#[test]
fn snapshots_of_one_time_keep_their_order() {
    let sorted = balance::sort_by_time(vec![
        snapshot(2, "a"),
        snapshot(1, "b"),
        snapshot(2, "c"),
        snapshot(1, "d"),
    ]);
    let names: Vec<&str> = sorted.iter().map(|item| item.account_id.as_str()).collect();
    assert_eq!(names, vec!["b", "d", "a", "c"]);
}

#[test]
fn what_is_left_goes_to_the_default_source() {
    let mut existing: OrderedMap<UsageBucket> = OrderedMap::new();
    existing.insert("known".to_string(), bucket(3, 30));
    existing.insert("unknown-source".to_string(), bucket(5, 5));
    existing.insert("empty".to_string(), bucket(0, 0));
    let filled = billing::backfill_source_map(&existing, &bucket(10, 40), "home");
    assert_eq!(filled.len(), 2);
    assert_eq!(filled.get("known").unwrap().requests, 3);
    assert_eq!(filled.get("home").unwrap().requests, 7);
    assert_eq!(filled.get("home").unwrap().cost_nano_cny, 10);
    let rest = stats::subtract_buckets(&bucket(1, 1), &vec![bucket(5, 5)]);
    assert!(!stats::bucket_has_usage(&rest));
    assert!(billing::requests_fit(&existing));
    existing.insert("huge".to_string(), bucket(u64::MAX, 0));
    assert!(!billing::requests_fit(&existing));
}

#[test]
fn periods_are_filled_one_by_one() {
    let mut existing: OrderedMap<OrderedMap<UsageBucket>> = OrderedMap::new();
    stats::insert_nested(&mut existing, "known", "d1", bucket(1, 0));
    stats::insert_nested(&mut existing, "known", "d3", bucket(9, 0));
    let mut totals: OrderedMap<UsageBucket> = OrderedMap::new();
    totals.insert("d1".to_string(), bucket(4, 0));
    totals.insert("d2".to_string(), bucket(2, 0));
    let filled = billing::backfill_source_nested_map(&existing, &totals, "home");
    assert_eq!(filled.get("known").unwrap().len(), 1);
    assert_eq!(filled.get("home").unwrap().get("d1").unwrap().requests, 3);
    assert_eq!(filled.get("home").unwrap().get("d2").unwrap().requests, 2);
}

#[test]
fn parts_take_in_models_and_sources() {
    let mut part = UsageBreakdown::default();
    part.backfill_single_source("s", Some("2026-01"));
    assert!(part.by_source.is_empty());
    part.add_model_bucket("m", &bucket(2, 7), Some("2026-01"));
    part.add_model_bucket("n", &bucket(3, 0), None);
    assert_eq!(part.total.requests, 5);
    assert_eq!(part.by_month.get("2026-01").unwrap().requests, 2);
    part.backfill_single_source("s", Some("2026-01"));
    assert_eq!(part.by_source.get("s").unwrap().requests, 5);
    assert_eq!(
        part.by_source_month
            .get("s")
            .unwrap()
            .get("2026-01")
            .unwrap()
            .cost_nano_cny,
        7
    );
}

#[test]
fn full_sources_stay_as_they_are() {
    let mut ledger = UsageStats::default();
    ledger.total = bucket(3, 0);
    ledger.by_source.insert("known".to_string(), bucket(3, 0));
    ledger.backfill_default_source("home");
    assert_eq!(ledger.by_source.len(), 1);
    ledger.total = bucket(4, 0);
    ledger.backfill_default_source("home");
    assert_eq!(ledger.by_source.get("home").unwrap().requests, 1);
}

#[test]
fn accounts_are_reported_in_order() {
    let mut usd = snapshot(3, "b");
    usd.currency = "USD".to_string();
    let histories = balance::account_histories(&vec![
        snapshot(1, "c"),
        usd,
        snapshot(2, "b"),
        snapshot(4, "a"),
        snapshot(5, "b"),
    ]);
    let keys: Vec<(&str, &str)> = histories
        .iter()
        .map(|item| (item.current.account_id.as_str(), item.current.currency.as_str()))
        .collect();
    assert_eq!(keys, vec![("a", "CNY"), ("b", "CNY"), ("b", "USD"), ("c", "CNY")]);
}
