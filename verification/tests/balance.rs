use nanobot_obp::balance;
use nanobot_obp::balance::{
    BalanceError, BalanceRefresh, DeepSeekAccount, DeepSeekBalanceQuery, DeepSeekBalanceSnapshot,
    DeepSeekBalanceStore,
};
use nanobot_obp::channel::Channel;
use nanobot_obp::json::Json;
use nanobot_obp::stats::UsageBucket;
use std::hash::{Hash, Hasher};

fn account() -> DeepSeekAccount {
    DeepSeekAccount {
        account_id: "deepseek-test".to_string(),
        channel_id: Some(1),
        channel: "DeepSeek".to_string(),
        key: "sk-test".to_string(),
        balance_url: "https://api.deepseek.com/user/balance".to_string(),
    }
}

fn amount(value: &Option<Json>) -> f64 {
    match value {
        Some(Json::Text(text)) => text.parse().unwrap_or(0.0),
        Some(Json::Number(number)) => number.as_f64().unwrap_or(0.0),
        _ => 0.0,
    }
}

fn official() -> Json {
    let mut info = Json::object();
    info.set("currency", Json::text("CNY"));
    info.set("total_balance", Json::text("110.00"));
    info.set("granted_balance", Json::text("10.00"));
    info.set("topped_up_balance", Json::text("100.00"));
    let mut value = Json::object();
    value.set("is_available", Json::Bool(true));
    value.set("balance_infos", Json::Array(vec![info]));
    value
}

#[test]
fn parses_official_balance_response() {
    let snapshots = balance::parse_balance_response(&account(), &official());
    assert_eq!(snapshots.len(), 1);
    assert!(snapshots[0].is_available);
    assert_eq!(snapshots[0].currency, "CNY");
    assert_eq!(amount(&snapshots[0].total_balance), 110.0);
    assert_eq!(amount(&snapshots[0].topped_up_balance), 100.0);
}

#[test]
fn normalizes_deepseek_balance_url() {
    assert_eq!(
        balance::deepseek_balance_url("https://api.deepseek.com/v1"),
        "https://api.deepseek.com/user/balance"
    );
    assert_eq!(
        balance::deepseek_balance_url("https://api.deepseek.com"),
        "https://api.deepseek.com/user/balance"
    );
}

#[test]
fn deduplicates_channels_with_same_key() {
    let channels = vec![
        Channel {
            name: "DeepSeek Flash".to_string(),
            key: "sk-same".to_string(),
            base: "https://api.deepseek.com".to_string(),
            group: "deepseek".to_string(),
            ..Channel::default()
        },
        Channel {
            name: "DeepSeek Pro".to_string(),
            key: "sk-same".to_string(),
            base: "https://api.deepseek.com".to_string(),
            models: "deepseek-v4-pro".to_string(),
            ..Channel::default()
        },
    ];
    assert_eq!(balance::select_deepseek_accounts(&channels).len(), 1);
}

#[test]
fn ignores_compat_model_aliases_on_non_deepseek_channels() {
    let channels = vec![Channel {
        name: "Gemini Fallback".to_string(),
        key: "sk-gemini".to_string(),
        base: "http://127.0.0.1:8000/v1".to_string(),
        models: "gemini-flash,deepseek-v4-flash".to_string(),
        group: "gemini".to_string(),
        cost_model: "free-gemini-web".to_string(),
        ..Channel::default()
    }];
    assert_eq!(balance::select_deepseek_accounts(&channels).len(), 0);
}

#[test]
fn balance_addresses_lose_their_version() {
    assert_eq!(
        balance::deepseek_balance_url("  https://x.test//v1// "),
        "https://x.test/user/balance"
    );
    assert_eq!(
        balance::deepseek_balance_url(""),
        "https://api.deepseek.com/user/balance"
    );
    assert_eq!(
        balance::deepseek_balance_url("/v1"),
        "https://api.deepseek.com/user/balance"
    );
}

#[test]
fn accounts_are_named_by_the_hash_of_their_key() {
    let mut first = Channel::default();
    first.id = Some(7);
    first.key = " sk-one ".to_string();
    first.group = "DeepSeek".to_string();
    let mut second = first.clone();
    second.key = "sk-two".to_string();
    let mut hidden = first.clone();
    hidden.key = "***".to_string();
    let mut off = first.clone();
    off.key = "sk-three".to_string();
    off.status = "disabled".to_string();
    let accounts = balance::select_deepseek_accounts_at(&[first, second, hidden, off], 0);
    assert_eq!(accounts.len(), 2);
    assert_eq!(accounts[0].key, "sk-one");
    assert_eq!(accounts[0].channel, "DeepSeek");
    assert_eq!(accounts[0].channel_id, Some(7));
    assert!(accounts[0].account_id != accounts[1].account_id);
    let digits = accounts[0].account_id.strip_prefix("deepseek-").unwrap();
    assert_eq!(digits.len(), 16);
    assert_eq!(digits, balance::stable_hash("sk-one"));
    assert!(balance::stable_hash("sk-one") != "sk-one");
}

#[test]
fn hashes_are_sixteen_digits() {
    assert_eq!(balance::hash_digits(0), "0000000000000000");
    assert_eq!(balance::hash_digits(0xabc), "0000000000000abc");
    assert_eq!(balance::hash_digits(u64::MAX), "ffffffffffffffff");
}

#[test]
fn hash_is_that_of_a_fresh_default_hasher() {
    let mut hasher = std::collections::hash_map::DefaultHasher::new();
    "sk-test".hash(&mut hasher);
    assert_eq!(
        balance::stable_hash("sk-test"),
        format!("{:016x}", hasher.finish())
    );
}

#[test]
fn balances_are_read_from_an_answer() {
    let body = official().to_bytes().unwrap();
    let Ok(found) = balance::read_balances_at(&account(), 200, &body, 0) else {
        panic!("no balances");
    };
    assert_eq!(found.len(), 1);
    assert_eq!(found[0].time, "1970-01-01 08:00:00");
    assert_eq!(found[0].day, "1970-01-01");
    assert_eq!(amount(&found[0].granted_balance), 10.0);
    let Err(BalanceError::Refused(said)) = balance::read_balances(&account(), 401, b" no key ")
    else {
        panic!("not refused");
    };
    assert_eq!(said, "HTTP 401 no key");
    let Err(BalanceError::NotJson(said)) = balance::read_balances(&account(), 200, b"<html>")
    else {
        panic!("read");
    };
    assert_eq!(said, "JSON 解析失败：expected value at line 1 column 1");
    let Ok(none) = balance::read_balances(&account(), 204, b"{}") else {
        panic!("refused");
    };
    assert!(none.is_empty());
}

#[test]
fn currency_defaults_to_yuan() {
    let mut value = Json::object();
    value.set("balance_infos", Json::Array(vec![Json::object()]));
    let found = balance::parse_balance_response_at(&account(), &value, 0);
    assert_eq!(found[0].currency, "CNY");
    assert!(!found[0].is_available);
    assert_eq!(amount(&found[0].total_balance), 0.0);
}

fn snapshot(ts: i64, account_id: &str, currency: &str, total: f64) -> DeepSeekBalanceSnapshot<f64> {
    DeepSeekBalanceSnapshot {
        ts,
        day: "day".to_string(),
        time: format!("time {ts}"),
        account_id: account_id.to_string(),
        channel_id: None,
        channel: "c".to_string(),
        is_available: true,
        currency: currency.to_string(),
        total_balance: total,
        granted_balance: 0.0,
        topped_up_balance: 0.0,
    }
}

#[test]
fn histories_are_grouped_and_in_order() {
    let snapshots = vec![
        snapshot(30, "b", "CNY", 3.0),
        snapshot(10, "b", "CNY", 1.0),
        snapshot(5, "a", "USD", 9.0),
        snapshot(20, "b", "CNY", 2.0),
        snapshot(7, "a", "CNY", 8.0),
        snapshot(7, "a", "CNY", 7.0),
    ];
    let histories = balance::account_histories(&snapshots);
    let found: Vec<(String, String, f64, Option<f64>, f64)> = histories
        .iter()
        .map(|history| {
            (
                history.current.account_id.clone(),
                history.current.currency.clone(),
                history.first.total_balance,
                history.previous.as_ref().map(|item| item.total_balance),
                history.current.total_balance,
            )
        })
        .collect();
    assert_eq!(
        found,
        vec![
            ("a".to_string(), "CNY".to_string(), 8.0, Some(8.0), 7.0),
            ("a".to_string(), "USD".to_string(), 9.0, None, 9.0),
            ("b".to_string(), "CNY".to_string(), 1.0, Some(2.0), 3.0),
        ]
    );
    let report = balance::account_report(&histories[2], Some(-2.0), Some(-1.0));
    assert_eq!(report.checked_at, 30);
    assert_eq!(report.checked_time, "time 30");
    assert_eq!(report.spend_since_first, Some(-2.0));
    assert_eq!(report.spend_since_previous, Some(-1.0));
    assert_eq!(report.first_checked_time, Some("time 10".to_string()));
    assert_eq!(report.previous_checked_time, Some("time 20".to_string()));
    let alone = balance::account_report(&histories[1], Some(0.0), Some(1.0));
    assert_eq!(alone.spend_since_previous, None);
    assert_eq!(alone.previous_checked_time, None);
}

#[test]
fn only_the_latest_snapshots_are_kept() {
    let mut snapshots: Vec<DeepSeekBalanceSnapshot<f64>> = (0..503)
        .map(|i| snapshot(1_000 - i, "a", "CNY", i as f64))
        .collect();
    snapshots.push(snapshot(1_000, "a", "CNY", -1.0));
    let kept = balance::trim_snapshots(snapshots);
    assert_eq!(kept.len(), 500);
    assert_eq!(kept[0].ts, 502);
    assert_eq!(kept[498].total_balance, 0.0);
    assert_eq!(kept[499].total_balance, -1.0);
    let few = balance::trim_snapshots(vec![snapshot(2, "a", "CNY", 0.0), snapshot(1, "a", "CNY", 0.0)]);
    assert_eq!(few[0].ts, 1);
}

#[test]
fn reports_say_what_happened() {
    let store: DeepSeekBalanceStore<f64> = DeepSeekBalanceStore::default();
    assert!(!DeepSeekBalanceQuery::default().refresh);
    let mut refresh = BalanceRefresh::start(store.snapshots);
    let usage = UsageBucket::default();
    let empty = balance::assemble_report_at(&refresh, vec![], usage, usage, 0);
    assert!(!empty.ok);
    assert_eq!(empty.message, "还没有 DeepSeek 余额快照，点刷新后开始记录");
    assert_eq!(empty.local_usage.month, "1970-01");
    refresh.answered(vec![snapshot(1, "a", "CNY", 2.0)]);
    let accounts = |refresh: &BalanceRefresh<f64>| {
        balance::account_histories(&refresh.snapshots)
            .iter()
            .map(|history| balance::account_report(history, None, None))
            .collect::<Vec<_>>()
    };
    let fresh = balance::assemble_report_at(&refresh, accounts(&refresh), usage, usage, 0);
    assert!(fresh.ok && fresh.refreshed);
    assert_eq!(fresh.message, "DeepSeek 余额已刷新");
    assert_eq!(fresh.snapshot_count, 1);
    let saved = BalanceRefresh::start(refresh.snapshots.clone());
    let shown = balance::assemble_report_at(&saved, accounts(&saved), usage, usage, 0);
    assert!(shown.ok && !shown.refreshed);
    assert_eq!(shown.message, "显示最近一次 DeepSeek 余额快照");
    refresh.failed(&account(), "down");
    refresh.note_accounts(&vec![]);
    refresh.note_accounts(&vec![account()]);
    let failed = balance::assemble_report_at(&refresh, vec![], usage, usage, 0);
    assert!(!failed.ok);
    assert_eq!(
        failed.message,
        "DeepSeek: down；没有找到可用于查询余额的 DeepSeek 渠道"
    );
}

#[test]
fn amounts_can_be_put_into_a_snapshot() {
    let found = balance::parse_balance_response_at(&account(), &official(), 60);
    for item in found {
        let total = amount(&item.total_balance);
        let granted = amount(&item.granted_balance);
        let topped_up = amount(&item.topped_up_balance);
        let done = balance::with_amounts(item, total, granted, topped_up);
        assert_eq!(done.total_balance, 110.0);
        assert_eq!(done.granted_balance, 10.0);
        assert_eq!(done.topped_up_balance, 100.0);
        assert_eq!(done.ts, 60);
        assert_eq!(done.account_id, "deepseek-test");
    }
}
