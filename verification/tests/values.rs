use nanobot_obp::clock;
use nanobot_obp::config::{RouteProfile, RouterConfig};
use nanobot_obp::config;
use nanobot_obp::json;
use nanobot_obp::json::Json;
use nanobot_obp::numeral;
use nanobot_obp::ordered::OrderedMap;
use nanobot_obp::stats::{UsageBucket, UsageStats};
use nanobot_obp::text;
use nanobot_obp::usage;
use nanobot_obp::usage::{RequestLog, TokenUsage};

#[test]
fn text_is_trimmed_and_lowered() {
    for sample in ["", " a ", "\t\u{3000}x y\u{85}", "\u{200b}z"] {
        assert_eq!(text::trim(sample), sample.trim());
    }
    for sample in ["ABC", "ÀÉ", "ΑΣ", "İ", "渠道"] {
        assert_eq!(text::to_lowercase(sample), sample.to_lowercase());
    }
    assert_eq!(text::to_ascii_lowercase("AÉz"), "aÉz");
    assert!(text::eq_ignore_ascii_case("AbC", "aBc"));
    assert!(!text::eq_ignore_ascii_case("É", "é"));
    assert_eq!(text::trim_end_char("a//", '/'), "a");
    assert_eq!(text::trim_start_char("--a-", '-'), "a-");
}

#[test]
fn text_is_searched_and_cut() {
    assert!(text::contains("abcabd", "abd"));
    assert!(text::contains("a", ""));
    assert!(!text::contains("ab", "abc"));
    assert!(text::starts_with("data: x", "data:"));
    assert!(text::ends_with("x/v1", "/v1"));
    assert_eq!(text::split(",a,,b", ','), vec!["", "a", "", "b"]);
    assert_eq!(text::split("", ','), vec![""]);
    let parts = vec!["a".to_string(), "".to_string(), "b".to_string()];
    assert_eq!(text::join(&parts, "--"), "a----b");
    assert_eq!(text::take_chars("渠道ab", 3), "渠道a");
    assert_eq!(text::take_chars("ab", 3), "ab");
    assert_eq!(text::concat2("a", "b"), "ab");
    assert_eq!(text::concat3("a", "b", "c"), "abc");
    assert_eq!(text::chars_of("é1"), vec!['é', '1']);
    assert_eq!(text::copy_texts(&parts), parts);
}

#[test]
fn text_is_ordered_as_std_orders_it() {
    let words = ["", "a", "ab", "b", "Z", "é", "渠", "\u{10ffff}"];
    for a in words {
        for b in words {
            assert_eq!(text::precedes(a, b), a < b, "{a} {b}");
        }
    }
}

#[test]
fn numbers_are_written() {
    assert_eq!(numeral::to_decimal(0), "0");
    assert_eq!(numeral::to_decimal(u128::MAX), u128::MAX.to_string());
    assert_eq!(numeral::to_hex(48_879), "beef");
    assert_eq!(numeral::pad_zeros("7".to_string(), 3), "007");
    assert_eq!(numeral::pad_zeros("1234".to_string(), 3), "1234");
}

#[test]
fn maps_keep_their_keys_in_order() {
    let mut map: OrderedMap<u64> = OrderedMap::new();
    assert!(map.is_empty());
    for (key, value) in [("b", 2), ("a", 1), ("c", 3), ("b", 4)] {
        map.insert(key.to_string(), value);
    }
    assert_eq!(map.len(), 3);
    let listed: Vec<(String, u64)> = (0..map.len())
        .map(|i| {
            let (key, value) = map.entry_at(i);
            (key.clone(), *value)
        })
        .collect();
    assert_eq!(
        listed,
        vec![("a".to_string(), 1), ("b".to_string(), 4), ("c".to_string(), 3)]
    );
    assert_eq!(map.get("b"), Some(&4));
    assert!(!map.contains_key("d"));
    let copy = map.copied();
    assert_eq!(map.take("b"), Some(4));
    assert_eq!(map.take("b"), None);
    assert_eq!(map.len(), 2);
    assert_eq!(copy.len(), 3);
}

#[test]
fn clock_stands_after_the_epoch() {
    let secs = clock::unix_now_secs();
    assert!(secs > 1_600_000_000);
    assert!(clock::unix_now_nanos() >= (secs as u128) * 1_000_000_000);
    assert!(clock::now_unix_secs() as u64 >= secs);
}

#[test]
fn dates_of_shanghai() {
    assert_eq!(
        clock::shanghai_strings(0),
        ("1970-01-01".to_string(), "1970-01-01 08:00:00".to_string())
    );
    assert_eq!(
        clock::shanghai_strings(951_782_399),
        ("2000-02-29".to_string(), "2000-02-29 07:59:59".to_string())
    );
    assert_eq!(clock::shanghai_month(1_767_196_800), "2026-01");
    assert_eq!(clock::shanghai_month(1_767_196_799), "2025-12");
    assert_eq!(clock::civil_from_days(0), (1970, 1, 1));
    assert_eq!(clock::civil_from_days(-1), (1969, 12, 31));
    assert_eq!(clock::civil_from_days(11_016), (2000, 2, 29));
    assert_eq!(clock::civil_from_days(-719_468), (0, 3, 1));
}

#[test]
fn json_is_read_and_written() {
    let text = r#"{"b":[1,2.5,-3,"x",null,true],"a":{"n":18446744073709551615}}"#;
    let value = Json::parse_text(text).unwrap();
    assert_eq!(
        value.to_text(),
        r#"{"a":{"n":18446744073709551615},"b":[1,2.5,-3,"x",null,true]}"#
    );
    assert_eq!(value.to_bytes().unwrap(), value.to_text().into_bytes());
    let again = Json::parse(&value.to_bytes().unwrap()).unwrap();
    assert_eq!(again.to_text(), value.to_text());
    assert_eq!(value.copied().to_text(), value.to_text());
    assert!(Json::parse(b"{").is_none());
    assert!(Json::parse_text("").is_none());
    assert_eq!(value.get("a").unwrap().get("n").unwrap().as_u64(), Some(u64::MAX));
    let items = value.array_member("b").unwrap();
    assert_eq!(items[0].as_u64(), Some(1));
    assert_eq!(items[1].as_u64(), None);
    assert_eq!(items[2].as_u64(), None);
    assert_eq!(items[3].as_text(), Some("x"));
    assert_eq!(items[5].as_bool(), Some(true));
    assert!(value.is_object() && !items[0].is_object());
    assert_eq!(Json::whole(7).as_u64(), Some(7));
    assert_eq!(Json::text("q").to_text(), "\"q\"");
}

#[test]
fn json_members_are_set_and_put_in_order() {
    let mut value = Json::object();
    value.set("z", Json::whole(1));
    value.set("a", Json::text("t"));
    value.set("z", Json::whole(2));
    assert_eq!(value.to_text(), r#"{"a":"t","z":2}"#);
    assert_eq!(value.text_member("a"), Some("t"));
    assert_eq!(value.text_member("z"), None);
    let Json::Object(members) = value.in_key_order() else {
        panic!("no object");
    };
    let keys: Vec<&str> = members.iter().map(|(key, _)| key.as_str()).collect();
    assert_eq!(keys, vec!["a", "z"]);
    let mut list = Json::Array(vec![]);
    list.set("a", Json::Null);
    assert_eq!(list.to_text(), "[]");
}

#[test]
fn numbers_are_found_by_path() {
    let value = Json::parse_text(r#"{"a": {"b": 3, "c": "x"}, "d": 4}"#).unwrap();
    let paths = |list: &[&[&'static str]]| list.iter().map(|path| path.to_vec()).collect();
    assert_eq!(json::first_u64(Some(&value), &paths(&[&["a", "b"], &["d"]])), 3);
    assert_eq!(json::first_u64(Some(&value), &paths(&[&["a", "c"], &["x", "y"], &["d"]])), 4);
    assert_eq!(json::first_u64(Some(&value), &paths(&[&["z"]])), 0);
    assert_eq!(json::first_u64(None, &paths(&[&["d"]])), 0);
}

#[test]
fn tokens_are_read_from_responses() {
    let read = |text: &str| {
        let found = TokenUsage::from_response_bytes(text.as_bytes());
        (
            found.prompt_tokens,
            found.cached_tokens,
            found.completion_tokens,
            found.total_tokens,
        )
    };
    assert_eq!(
        read(r#"{"usage": {"prompt_tokens": 10, "completion_tokens": 5, "prompt_tokens_details": {"cached_tokens": 4}}}"#),
        (10, 4, 5, 15)
    );
    assert_eq!(
        read(r#"{"usage": {"input_tokens": 3, "output_tokens": 2, "cache_read_input_tokens": 9, "total_tokens": 99}}"#),
        (3, 3, 2, 99)
    );
    assert_eq!(
        read(r#"{"usage": {"prompt_cache_hit_tokens": 0, "prompt_cache_miss_tokens": 8}}"#),
        (8, 0, 0, 8)
    );
    assert_eq!(read("broken"), (0, 0, 0, 0));
    let json = Json::parse_text(r#"{"usage": {"prompt_tokens": 10, "cached_tokens": 4}}"#).unwrap();
    assert_eq!(TokenUsage::from_response(&json).uncached_prompt_tokens(), 6);
}

#[test]
fn costs_are_exact() {
    let tokens = TokenUsage {
        prompt_tokens: 1_000,
        cached_tokens: 100,
        completion_tokens: 200,
        total_tokens: 1_200,
    };
    assert_eq!(
        usage::estimate_cost_cny("deepseek-v4-flash", tokens),
        900 * 1_000 + 100 * 20 + 200 * 2_000
    );
    assert_eq!(
        usage::estimate_cost_cny("DeepSeek-V4-Pro", tokens),
        900 * 3_000 + 100 * 25 + 200 * 6_000
    );
    assert_eq!(usage::estimate_cost_cny("LongCat-Flash-Chat", tokens), 0);
    assert!(usage::is_paid_usage("deepseek-v4-flash", 0));
    assert!(usage::is_paid_usage("LongCat-Flash-Chat", 101));
    assert!(!usage::is_paid_usage("LongCat-Flash-Chat", 100));
    assert!(!usage::is_paid_usage("LongCat-Flash-Chat", 0));
    let prices = usage::pricing_snapshot();
    assert_eq!(prices.len(), 3);
    assert_eq!(prices.get("deepseek-v4-pro-full").unwrap().output, 24_000);
    assert!(!usage::price_for_model("gpt").is_paid());
    assert!(usage::price_for_model("my-v4-flash").is_paid());
}

fn log(source: &str, model: &str, status: u16) -> RequestLog {
    RequestLog::new_at(
        0,
        " ".to_string(),
        source.to_string(),
        None,
        "".to_string(),
        "asked".to_string(),
        model.to_string(),
        "".to_string(),
        "r".to_string(),
        status,
        7,
        TokenUsage {
            prompt_tokens: 1,
            cached_tokens: 0,
            completion_tokens: 1,
            total_tokens: 2,
        },
        None,
        Some(3),
    )
}

#[test]
fn logs_have_names_for_what_is_missing() {
    let one = log("", "", 200);
    assert_eq!(one.request_id, "unknown-request");
    assert_eq!(one.source, "unknown-source");
    assert_eq!(one.model, "unknown");
    assert_eq!(one.route, "default");
    assert_eq!(one.month, "1970-01");
    assert_eq!(one.day, "1970-01-01");
    assert_eq!(one.latency, "7ms");
    assert_eq!(one.uncached_prompt_tokens, 1);
    assert_eq!(one.first_text_ms, Some(3));
    assert_eq!(usage::normalize_key(" a ", "b"), "a");
}

#[test]
fn ledger_counts_each_request_once() {
    let mut stats = UsageStats::default();
    stats.record(log("s1", "deepseek-v4-flash", 200));
    stats.record(log("s2", "free", 500));
    stats.record(log("s1", "free", 302));
    assert_eq!(stats.total.requests, 3);
    assert_eq!(stats.total.success, 2);
    assert_eq!(stats.total.errors, 1);
    assert_eq!(stats.total.latency_ms, 21);
    assert_eq!(stats.by_source.get("s1").unwrap().requests, 2);
    assert_eq!(stats.by_source.get("s2").unwrap().errors, 1);
    assert_eq!(stats.by_model.get("free").unwrap().requests, 2);
    assert_eq!(stats.by_channel.get("unknown-channel").unwrap().requests, 3);
    assert_eq!(stats.by_day.get("1970-01-01").unwrap().requests, 3);
    let nested = stats.by_source_month.get("s1").unwrap();
    assert_eq!(nested.get("1970-01").unwrap().requests, 2);
    assert_eq!(stats.paid.total.requests + stats.free.total.requests, 3);
    assert_eq!(stats.paid.by_source.get("s1").unwrap().requests, 1);
    assert_eq!(stats.month_cost("1970-01"), 3_000);
    assert_eq!(stats.month_cost("1970-02"), 0);
    assert_eq!(stats.current_month_cost(), 0);
}

#[test]
fn only_recent_logs_are_kept() {
    let mut stats = UsageStats::default();
    for i in 0..205 {
        stats.record(log(&format!("s{i}"), "m", 200));
    }
    assert_eq!(stats.recent.len(), 200);
    assert_eq!(stats.recent[0].source, "s5");
    assert_eq!(stats.recent[199].source, "s204");
    assert_eq!(stats.total.requests, 205);
}

#[test]
fn buckets_add_up() {
    let mut a = UsageBucket::default();
    a.requests = u64::MAX;
    let mut b = UsageBucket::default();
    b.requests = 2;
    b.total_tokens = 5;
    a.add_bucket(&b);
    assert_eq!(a.requests, u64::MAX);
    assert_eq!(a.total_tokens, 5);
    a.add(&log("s", "m", 404));
    assert_eq!(a.errors, 1);
    assert_eq!(a.total_tokens, 7);
}

#[test]
fn ledger_is_repaired() {
    let mut stats = UsageStats::default();
    stats.record(log("", "deepseek-v4-flash", 200));
    stats.record(log("known", "free", 200));
    assert!(stats.by_source.contains_key("unknown-source"));
    assert!(stats.repair("default-nanobot"));
    assert!(!stats.by_source.contains_key("unknown-source"));
    assert_eq!(stats.by_source.get("default-nanobot").unwrap().requests, 1);
    assert_eq!(stats.by_source.get("known").unwrap().requests, 1);
    assert_eq!(stats.recent[0].source, "default-nanobot");
    assert_eq!(
        stats
            .by_source_day
            .get("default-nanobot")
            .unwrap()
            .get("1970-01-01")
            .unwrap()
            .requests,
        1
    );
    let by_source = stats.by_source.len();
    assert!(stats.repair("default-nanobot"));
    assert_eq!(stats.by_source.len(), by_source);
    let mut huge = UsageBucket::default();
    huge.requests = u64::MAX;
    stats.by_model.insert("huge".to_string(), huge);
    assert!(!stats.repair("other"));
    assert_eq!(stats.recent[0].source, "default-nanobot");
}

#[test]
fn router_is_filled_in() {
    let mut router = RouterConfig::default();
    router.default_alias_models = vec![];
    router.pro_alias_models = vec!["mine".to_string()];
    router.route_rules = vec![];
    router.route_profiles = OrderedMap::new();
    let mut own = RouteProfile::gemini_stack();
    own.default_model = "own".to_string();
    router.route_profiles.insert("gemini".to_string(), own);
    router.source_route_profiles = OrderedMap::new();
    let full = router.normalized();
    assert_eq!(full.default_alias_models.len(), 3);
    assert_eq!(full.pro_alias_models, vec!["mine"]);
    assert_eq!(full.route_rules.len(), 2);
    assert_eq!(full.route_profiles.get("gemini").unwrap().default_model, "own");
    assert_eq!(
        full.route_profiles.get("default").unwrap().backup_model,
        "MiniMax-M2.7"
    );
    assert!(!full.source_route_profiles.is_empty());
    let again = full.copied().normalized();
    assert_eq!(again.route_profiles.len(), full.route_profiles.len());
}

#[test]
fn sources_have_profiles() {
    let mut router = RouterConfig::default();
    router.source_route_profiles = OrderedMap::new();
    router.source_route_profiles.insert("*".to_string(), "gemini".to_string());
    router.source_route_profiles.insert("s".to_string(), "missing".to_string());
    assert_eq!(router.profile_name_for_source("s"), "missing");
    assert_eq!(router.profile_name_for_source("t"), "gemini");
    assert_eq!(router.effective_for_source("t").default_model, "gemini-flash");
    assert_eq!(router.effective_for_source("s").default_model, router.default_model);
    let profiles = config::default_route_profiles();
    assert_eq!(profiles.len(), 2);
    assert_eq!(
        config::default_source_route_profiles().get("guangzhou-nanobot"),
        Some(&"default".to_string())
    );
}

#[test]
fn tables_add_up() {
    let mut stats = UsageStats::default();
    for i in 0..30u16 {
        let model = ["deepseek-v4-flash", "free", ""][i as usize % 3];
        stats.record(log(&format!("s{}", i % 4), model, 200 + 150 * (i % 3)));
    }
    let sums = |table: &OrderedMap<UsageBucket>| {
        (0..table.len()).fold((0, 0, 0, 0, 0, 0), |sum, i| {
            let bucket = table.entry_at(i).1;
            (
                sum.0 + bucket.requests,
                sum.1 + bucket.success,
                sum.2 + bucket.errors,
                sum.3 + bucket.latency_ms,
                sum.4 + bucket.total_tokens,
                sum.5 + bucket.cost_nano_cny,
            )
        })
    };
    let counts = |bucket: &UsageBucket| {
        (
            bucket.requests,
            bucket.success,
            bucket.errors,
            bucket.latency_ms,
            bucket.total_tokens,
            bucket.cost_nano_cny,
        )
    };
    for table in [
        &stats.by_day,
        &stats.by_month,
        &stats.by_channel,
        &stats.by_source,
        &stats.by_model,
        &stats.by_route,
    ] {
        assert_eq!(sums(table), counts(&stats.total));
    }
    for part in [&stats.paid, &stats.free] {
        for table in [&part.by_day, &part.by_source, &part.by_model, &part.by_route] {
            assert_eq!(sums(table), counts(&part.total));
        }
    }
    assert_eq!(stats.total.requests, 30);
    assert_eq!(stats.total.success + stats.total.errors, 30);
    assert_eq!(stats.paid.total.requests + stats.free.total.requests, 30);
}
