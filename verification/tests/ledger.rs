use nanobot_obp::stats::{UsageBucket, UsageStats};
use nanobot_obp::usage::{RequestLog, TokenUsage};

fn usage(prompt: u64, cached: u64, completion: u64) -> TokenUsage {
    TokenUsage {
        prompt_tokens: prompt,
        cached_tokens: cached,
        completion_tokens: completion,
        total_tokens: prompt + completion,
    }
}

#[test]
fn record_splits_paid_and_free_usage() {
    let mut stats = UsageStats::default();
    stats.record(RequestLog::new(
        "test-request-1".to_string(),
        "default-nanobot".to_string(),
        None,
        "DeepSeek".to_string(),
        "deepseek-v4-flash".to_string(),
        "deepseek-v4-flash".to_string(),
        "default".to_string(),
        "test".to_string(),
        200,
        100,
        usage(1_000, 100, 200),
        None,
        None,
    ));
    stats.record(RequestLog::new(
        "test-request-2".to_string(),
        "default-nanobot".to_string(),
        None,
        "LongCat".to_string(),
        "deepseek-v4-flash".to_string(),
        "LongCat-Flash-Chat".to_string(),
        "emergency".to_string(),
        "test".to_string(),
        200,
        100,
        usage(2_000, 0, 100),
        None,
        None,
    ));

    assert_eq!(stats.total.requests, 2);
    assert_eq!(stats.paid.total.requests, 1);
    assert_eq!(stats.free.total.requests, 1);
    assert_eq!(stats.paid.total.total_tokens, 1_200);
    assert_eq!(stats.free.total.total_tokens, 2_100);
    assert!(stats.paid.total.cost_nano_cny > 0);
    assert_eq!(stats.free.total.cost_nano_cny, 0);
}

#[test]
fn rebuild_billing_from_model_totals_for_legacy_stats() {
    let mut stats = UsageStats::default();
    let mut paid = UsageBucket::default();
    paid.requests = 3;
    paid.success = 3;
    paid.total_tokens = 300;
    paid.cost_nano_cny = 120_000_000;
    let mut free = UsageBucket::default();
    free.requests = 5;
    free.success = 5;
    free.total_tokens = 500;

    stats.by_model.insert("deepseek-v4-flash".to_string(), paid);
    stats.by_model.insert("LongCat-Flash-Chat".to_string(), free);
    let mut month = UsageBucket::default();
    month.add_bucket(&paid);
    month.add_bucket(&free);
    stats.by_month.insert("2026-05".to_string(), month);

    stats.rebuild_billing_if_empty();

    assert_eq!(stats.paid.total.requests, 3);
    assert_eq!(stats.free.total.requests, 5);
    assert_eq!(
        stats.paid.by_month.get("2026-05").map(|b| b.total_tokens),
        Some(300)
    );
    assert_eq!(
        stats.free.by_month.get("2026-05").map(|b| b.total_tokens),
        Some(500)
    );
}

#[test]
fn rebuild_billing_replaces_incomplete_partial_billing() {
    let mut stats = UsageStats::default();
    stats.total.requests = 6;
    let mut paid = UsageBucket::default();
    paid.requests = 2;
    paid.success = 2;
    paid.total_tokens = 200;
    paid.cost_nano_cny = 200_000_000;
    let mut free = UsageBucket::default();
    free.requests = 4;
    free.success = 4;
    free.total_tokens = 400;
    stats.by_model.insert("deepseek-v4-flash".to_string(), paid);
    stats.by_model.insert("LongCat-Flash-Chat".to_string(), free);
    stats.paid.total.requests = 1;

    stats.rebuild_billing_if_empty();

    assert_eq!(stats.paid.total.requests, 2);
    assert_eq!(stats.free.total.requests, 4);
}

#[test]
fn rebuild_billing_uses_synthetic_source_for_multi_source_legacy_stats() {
    let mut stats = UsageStats::default();
    let mut paid = UsageBucket::default();
    paid.requests = 2;
    paid.success = 2;
    paid.total_tokens = 200;
    paid.cost_nano_cny = 200_000_000;
    let mut free = UsageBucket::default();
    free.requests = 4;
    free.success = 4;
    free.total_tokens = 400;
    stats.by_model.insert("deepseek-v4-flash".to_string(), paid);
    stats.by_model.insert("LongCat-Flash-Chat".to_string(), free);
    let mut total = UsageBucket::default();
    total.add_bucket(&paid);
    total.add_bucket(&free);
    stats.by_month.insert("2026-05".to_string(), total);
    stats.by_source.insert("default-nanobot".to_string(), total);
    stats.by_source.insert("codex-test".to_string(), total);

    stats.rebuild_billing_if_empty();

    assert_eq!(
        stats
            .paid
            .by_source_month
            .get("历史来源未拆分")
            .and_then(|periods| periods.get("2026-05"))
            .map(|bucket| bucket.total_tokens),
        Some(200)
    );
}

#[test]
fn rebuild_billing_keeps_single_source_visible_for_legacy_stats() {
    let mut stats = UsageStats::default();
    let mut paid = UsageBucket::default();
    paid.requests = 2;
    paid.success = 2;
    paid.total_tokens = 200;
    paid.cost_nano_cny = 200_000_000;
    let mut free = UsageBucket::default();
    free.requests = 4;
    free.success = 4;
    free.total_tokens = 400;
    stats.by_model.insert("deepseek-v4-flash".to_string(), paid);
    stats.by_model.insert("LongCat-Flash-Chat".to_string(), free);
    let mut total = UsageBucket::default();
    total.add_bucket(&paid);
    total.add_bucket(&free);
    stats.by_month.insert("2026-05".to_string(), total);
    stats.by_source.insert("default-nanobot".to_string(), total);

    stats.rebuild_billing_if_empty();

    assert_eq!(
        stats
            .paid
            .by_source_month
            .get("default-nanobot")
            .and_then(|periods| periods.get("2026-05"))
            .map(|bucket| bucket.total_tokens),
        Some(200)
    );
    assert_eq!(
        stats
            .free
            .by_source_month
            .get("default-nanobot")
            .and_then(|periods| periods.get("2026-05"))
            .map(|bucket| bucket.total_tokens),
        Some(400)
    );
}
