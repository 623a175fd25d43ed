use nanobot_obp::attempts;
use nanobot_obp::attempts::{Attempt, AttemptSpec};
use nanobot_obp::channel::Channel;
use nanobot_obp::config::{RouteProfile, RouterConfig};
use nanobot_obp::hints::RouteHints;
use nanobot_obp::json::Json;
use nanobot_obp::protocol::ApiProtocol;
use nanobot_obp::routing;
use nanobot_obp::routing::{route_decision, route_decision_at, RouteDecision};
use nanobot_obp::stats::UsageStats;

fn object(members: Vec<(&str, Json)>) -> Json {
    let mut out = Json::object();
    for (key, value) in members {
        out.set(key, value);
    }
    out
}

fn message(role: &str, content: &str) -> Json {
    object(vec![
        ("role", Json::text(role)),
        ("content", Json::text(content)),
    ])
}

fn request(model: &str, messages: Vec<Json>) -> Json {
    object(vec![
        ("model", Json::text(model)),
        ("messages", Json::Array(messages)),
    ])
}

fn user(content: &str) -> Json {
    request("deepseek-v4-flash", vec![message("user", content)])
}

fn hints(purpose: &str, intent: &str) -> RouteHints {
    RouteHints {
        purpose: purpose.to_string(),
        intent: intent.to_string(),
    }
}

#[test]
fn heartbeat_routes_to_longcat_before_paid_default() {
    let router = RouterConfig::default();
    let body = request(
        "deepseek-v4-flash",
        vec![
            message(
                "system",
                "Read heartbeat.md and report if there is anything to do.",
            ),
            message(
                "user",
                "Review the following HEARTBEAT.md and decide whether there are active tasks.",
            ),
        ],
    );
    let decision = route_decision(
        &router,
        &UsageStats::default(),
        Some(&body),
        "deepseek-v4-flash",
        &RouteHints::default(),
    );

    assert_eq!(decision.role, "emergency");
    assert_eq!(decision.group, "longcat");
    assert_eq!(decision.desired_model, "LongCat-Flash-Chat");
    assert!(decision.reason.contains("free task"));
}

#[test]
fn stale_heartbeat_context_does_not_pin_emergency() {
    let router = RouterConfig::default();
    let body = request(
        "deepseek-v4-flash",
        vec![
            message("system", "Earlier we reviewed HEARTBEAT.md."),
            message("assistant", "The heartbeat check is done."),
            message("user", "Plain chat probe: reply OK."),
        ],
    );
    let decision = route_decision(
        &router,
        &UsageStats::default(),
        Some(&body),
        "deepseek-v4-flash",
        &RouteHints::default(),
    );

    assert_eq!(decision.role, "default");
    assert_eq!(decision.group, "deepseek");
    assert_eq!(decision.desired_model, "deepseek-v4-flash");
}

#[test]
fn gemini_preset_routes_legacy_default_request_to_gemini_default() {
    let mut router = RouterConfig::default();
    router.default_model = "gemini-flash".to_string();
    router.default_group = "gemini".to_string();
    router.pro_model = "gemini-pro".to_string();
    router.pro_group = "gemini".to_string();
    let body = request("deepseek-v4-flash", vec![message("user", "普通闲聊")]);
    let decision = route_decision(
        &router,
        &UsageStats::default(),
        Some(&body),
        "deepseek-v4-flash",
        &RouteHints::default(),
    );

    assert_eq!(decision.role, "default");
    assert_eq!(decision.group, "gemini");
    assert_eq!(decision.desired_model, "gemini-flash");
}

#[test]
fn gemini_profile_keeps_free_heartbeat_on_longcat() {
    let mut router = RouterConfig::default();
    RouteProfile::gemini_stack().apply_to(&mut router);
    let body = request("deepseek-v4-flash", vec![message("user", "heartbeat.md")]);
    let decision = route_decision(
        &router,
        &UsageStats::default(),
        Some(&body),
        "deepseek-v4-flash",
        &RouteHints::default(),
    );

    assert_eq!(decision.role, "emergency");
    assert_eq!(decision.group, "longcat");
    assert_eq!(decision.desired_model, "LongCat-Flash-Chat");
}

#[test]
fn replay_window_consolidation_routes_to_longcat() {
    let mut router = RouterConfig::default();
    RouteProfile::gemini_stack().apply_to(&mut router);
    let body = request(
        "deepseek-v4-flash",
        vec![
            message(
                "system",
                "Extract key facts from this conversation. Only output items matching these categories, skip everything else. Output as concise bullet points.",
            ),
            message("user", "[user] Work stress and producer role."),
        ],
    );
    let decision = route_decision(
        &router,
        &UsageStats::default(),
        Some(&body),
        "deepseek-v4-flash",
        &RouteHints::default(),
    );

    assert_eq!(decision.role, "emergency");
    assert_eq!(decision.group, "longcat");
    assert_eq!(decision.desired_model, "LongCat-Flash-Chat");
    assert!(decision.reason.contains("extract key facts"));
}

#[test]
fn source_profile_routes_default_nanobot_to_gemini() {
    let mut router = RouterConfig::default();
    RouteProfile::default_stack().apply_to(&mut router);
    router
        .source_route_profiles
        .insert("default-nanobot".to_string(), "gemini".to_string());
    router
        .source_route_profiles
        .insert("guangzhou-nanobot".to_string(), "default".to_string());
    let effective = router.effective_for_source("default-nanobot");
    let body = request("deepseek-v4-flash", vec![message("user", "普通闲聊")]);
    let decision = route_decision(
        &effective,
        &UsageStats::default(),
        Some(&body),
        "deepseek-v4-flash",
        &RouteHints::default(),
    );

    assert_eq!(decision.desired_model, "gemini-flash");
    assert_eq!(decision.group, "gemini");
}

#[test]
fn source_profile_routes_guangzhou_to_default() {
    let router = RouterConfig::default().normalized();
    let effective = router.effective_for_source("guangzhou-nanobot");
    let body = request("deepseek-v4-flash", vec![message("user", "普通闲聊")]);
    let decision = route_decision(
        &effective,
        &UsageStats::default(),
        Some(&body),
        "deepseek-v4-flash",
        &RouteHints::default(),
    );

    assert_eq!(decision.desired_model, "deepseek-v4-flash");
    assert_eq!(decision.group, "deepseek");
}

#[test]
fn gemini_target_channel_beats_requested_model_compat_channel() {
    let mut router = RouterConfig::default();
    router.default_model = "gemini-flash".to_string();
    router.default_group = "gemini".to_string();
    let decision = RouteDecision {
        requested_model: "deepseek-v4-flash".to_string(),
        desired_model: "gemini-flash".to_string(),
        role: "default".to_string(),
        group: "gemini".to_string(),
        reason: "test".to_string(),
    };
    let channels = vec![
        Channel {
            name: "DeepSeek".to_string(),
            models: "deepseek-v4-flash".to_string(),
            role: "default".to_string(),
            group: "deepseek".to_string(),
            priority: 10,
            ..Channel::default()
        },
        Channel {
            name: "Gemini".to_string(),
            models: "gemini-3.5-flash,gemini-flash".to_string(),
            model_mapping: r#"{"gemini-flash":"gemini-3.5-flash"}"#.to_string(),
            role: "backup".to_string(),
            group: "gemini".to_string(),
            priority: 90,
            ..Channel::default()
        },
    ];
    let mut index = 0;
    let attempts = attempts::build_attempts(
        &channels,
        &router,
        &decision,
        ApiProtocol::OpenAI,
        &mut index,
    );

    assert_eq!(attempts.first().unwrap().channel.name, "Gemini");
    assert_eq!(attempts.first().unwrap().actual_model, "gemini-3.5-flash");
}

#[test]
fn gemini_preset_routes_legacy_pro_request_to_gemini_pro() {
    let mut router = RouterConfig::default();
    router.default_model = "gemini-flash".to_string();
    router.default_group = "gemini".to_string();
    router.pro_model = "gemini-pro".to_string();
    router.pro_group = "gemini".to_string();
    let body = request("deepseek-v4-pro", vec![message("user", "需要深度分析")]);
    let decision = route_decision(
        &router,
        &UsageStats::default(),
        Some(&body),
        "deepseek-v4-pro",
        &RouteHints::default(),
    );

    assert_eq!(decision.role, "pro");
    assert_eq!(decision.group, "gemini");
    assert_eq!(decision.desired_model, "gemini-pro");
}

#[test]
fn heartbeat_routes_to_longcat_even_after_hard_limit() {
    let mut router = RouterConfig::default();
    router.monthly_hard_limit_nano_cny = 100_000_000;
    let mut stats = UsageStats::default();
    stats.total.cost_nano_cny = 99_000_000_000;
    let body = request("deepseek-v4-flash", vec![message("user", "heartbeat.md")]);
    let decision = route_decision(
        &router,
        &stats,
        Some(&body),
        "deepseek-v4-flash",
        &RouteHints::default(),
    );

    assert_eq!(decision.role, "emergency");
    assert_eq!(decision.group, "longcat");
    assert_eq!(decision.desired_model, "LongCat-Flash-Chat");
}

#[test]
fn heartbeat_beats_the_hard_limit_of_the_month() {
    let mut router = RouterConfig::default();
    router.monthly_hard_limit_nano_cny = 100_000_000;
    let decision = route_decision_at(
        &router,
        99_000_000_000,
        Some(&user("heartbeat.md")),
        "deepseek-v4-flash",
        &RouteHints::default(),
    );
    assert_eq!(decision.role, "emergency");
    assert_eq!(decision.reason, "free task pattern matched: heartbeat.md");
}

#[test]
fn hard_limit_sends_everything_else_to_backup() {
    let mut router = RouterConfig::default();
    router.monthly_hard_limit_nano_cny = 100_000_000;
    let decision = route_decision_at(
        &router,
        12_345_678_901,
        Some(&user("hello")),
        "deepseek-v4-pro",
        &RouteHints::default(),
    );
    assert_eq!(decision.role, "backup");
    assert_eq!(decision.desired_model, "coding-plan");
    assert_eq!(decision.reason, "monthly hard limit reached 12.35 CNY");
}

#[test]
fn hard_limit_of_zero_is_no_limit() {
    let mut router = RouterConfig::default();
    router.monthly_hard_limit_nano_cny = 0;
    let decision = route_decision_at(
        &router,
        u128::MAX,
        Some(&user("hello")),
        "deepseek-v4-flash",
        &RouteHints::default(),
    );
    assert_eq!(decision.role, "default");
}

#[test]
fn disabled_router_passes_the_model_through() {
    let mut router = RouterConfig::default();
    router.enabled = false;
    let decision = route_decision_at(
        &router,
        0,
        Some(&user("heartbeat.md")),
        "some-model",
        &RouteHints::default(),
    );
    assert_eq!(decision.role, "any");
    assert_eq!(decision.desired_model, "some-model");
    assert_eq!(decision.group, "");
    assert_eq!(decision.reason, "router disabled");
}

#[test]
fn dry_run_keeps_the_model_and_says_what_it_would_do() {
    let mut router = RouterConfig::default();
    router.dry_run = true;
    let decision = route_decision_at(
        &router,
        0,
        Some(&user("heartbeat.md")),
        "deepseek-v4-flash",
        &RouteHints::default(),
    );
    assert_eq!(decision.role, "any");
    assert_eq!(decision.desired_model, "deepseek-v4-flash");
    assert_eq!(
        decision.reason,
        "dry-run: would use emergency/LongCat-Flash-Chat because free task pattern matched: heartbeat.md"
    );
}

#[test]
fn models_asked_for_by_name_are_kept() {
    let router = RouterConfig::default();
    let route = |model: &str| routing::explicit_model_route(&router, model);
    assert!(route("").is_none());
    assert!(route(" Unknown ").is_none());
    assert!(route("DEEPSEEK-V4-FLASH").is_none());
    assert!(route("gpt-4o-mini").is_none());
    let pro = route(" deepseek-v4-pro ").unwrap();
    assert_eq!(pro.role, "pro");
    assert_eq!(pro.requested_model, "deepseek-v4-pro");
    assert_eq!(pro.reason, "requested configured pro model");
    assert_eq!(route("longcat-flash-chat").unwrap().role, "emergency");
    assert_eq!(route("coding-plan").unwrap().role, "backup");
    let other = route("somebody-else").unwrap();
    assert_eq!(other.role, "any");
    assert_eq!(other.desired_model, "somebody-else");
    assert_eq!(other.reason, "requested explicit model passthrough");
}

#[test]
fn downgrade_threshold_suppresses_the_larger_model() {
    let mut router = RouterConfig::default();
    router.monthly_hard_limit_nano_cny = 0;
    router.monthly_downgrade_nano_cny = 5_000_000_000;
    let hinted = hints("summary", "");
    let below = route_decision_at(
        &router,
        4_999_999_999,
        Some(&user("hello")),
        "deepseek-v4-flash",
        &hinted,
    );
    assert_eq!(below.role, "pro");
    assert_eq!(below.reason, "purpose hint matched: summary");
    let above = route_decision_at(
        &router,
        5_000_000_000,
        Some(&user("hello")),
        "deepseek-v4-flash",
        &hinted,
    );
    assert_eq!(above.role, "default");
    assert_eq!(
        above.reason,
        "monthly downgrade threshold reached 5.00 CNY; suppressed pro route (purpose hint matched: summary)"
    );
}

#[test]
fn hints_and_text_weigh_the_model() {
    let mut router = RouterConfig::default();
    router.pro_keywords = vec!["Quantum".to_string()];
    let decide = |text: &str, hinted: &RouteHints| {
        let decision =
            route_decision_at(&router, 0, Some(&user(text)), "deepseek-v4-flash", hinted);
        (decision.role, decision.reason)
    };
    let none = RouteHints::default();
    assert_eq!(
        decide("hello", &none),
        ("default".to_string(), "default lightweight route".to_string())
    );
    assert_eq!(
        decide("please do a Code Review", &none),
        ("pro".to_string(), "task pattern matched: code review".to_string())
    );
    assert_eq!(
        decide("请帮我做代码审查", &none),
        ("pro".to_string(), "task pattern matched: 代码审查".to_string())
    );
    assert_eq!(
        decide("about quantum things", &none),
        ("pro".to_string(), "keyword matched: Quantum".to_string())
    );
    assert_eq!(
        decide("please do a code review", &hints("", "weather")),
        (
            "default".to_string(),
            "intent hint keeps default: weather".to_string()
        )
    );
    assert_eq!(
        decide("please do a code review", &hints("weather", "")),
        ("pro".to_string(), "task pattern matched: code review".to_string())
    );
    assert_eq!(
        decide("hello", &hints("", "Deep ANALYSIS")),
        (
            "pro".to_string(),
            "intent hint matched: Deep ANALYSIS".to_string()
        )
    );
}

#[test]
fn unknown_model_with_pro_in_its_name_is_routed_to_pro() {
    let mut router = RouterConfig::default();
    router.default_alias_models = vec!["my-reasoner".to_string()];
    let decision = route_decision_at(
        &router,
        0,
        Some(&user("hello")),
        "my-reasoner",
        &RouteHints::default(),
    );
    assert_eq!(decision.role, "pro");
    assert_eq!(decision.reason, "requested pro/reasoner model");
}

#[test]
fn free_hints_mark_a_task() {
    let found = routing::free_longcat_trigger(&hints("", "Self-Check"), "", "");
    assert_eq!(found, Some("intent hint matched: Self-Check".to_string()));
    let found = routing::free_longcat_trigger(&hints("", ""), "{\"name\": \"heartbeat\"}", "");
    assert_eq!(found, Some("\"name\": \"heartbeat\"".to_string()));
    let found =
        routing::free_longcat_trigger(&hints("", ""), "", "output as concise bullet points");
    assert_eq!(found, Some("output as concise bullet points".to_string()));
    assert_eq!(routing::free_longcat_trigger(&hints("", ""), "hello", "hello"), None);
}

#[test]
fn amounts_are_written_with_two_decimals() {
    assert_eq!(routing::yuan(0), "0.00");
    assert_eq!(routing::yuan(4_999_999), "0.00");
    assert_eq!(routing::yuan(5_000_001), "0.01");
    assert_eq!(routing::yuan(125_000_000), "0.12");
    assert_eq!(routing::yuan(375_000_000), "0.38");
    assert_eq!(routing::yuan(99_000_000_000), "99.00");
    assert_eq!(routing::yuan(1_999_999_999), "2.00");
    assert_eq!(routing::yuan(165_000_000), "0.17");
    assert_eq!(routing::yuan(155_000_000), "0.15");
}

fn written_as_float(amount: u128) -> String {
    let digits = format!("{}.{:09}", amount / 1_000_000_000, amount % 1_000_000_000);
    format!("{:.2}", digits.parse::<f64>().unwrap())
}

#[test]
fn amounts_are_written_as_floats_are() {
    for half_cents in 0u128..200_000 {
        let amount = half_cents * 5_000_000;
        assert_eq!(routing::yuan(amount), written_as_float(amount));
    }
    let mut state: u128 = 88_172_645_463_325_252;
    for shift in 0..128 {
        for _ in 0..200 {
            state ^= state << 23;
            state ^= state >> 71;
            state ^= state << 41;
            let amount = state >> shift;
            assert_eq!(routing::yuan(amount), written_as_float(amount), "{amount}");
            let tie = amount / 10_000_000 * 10_000_000 / 2;
            assert_eq!(routing::yuan(tie), written_as_float(tie), "{tie}");
        }
    }
    for amount in [1, u128::MAX, 4_503_599_627_370_496_000_000_000] {
        assert_eq!(routing::yuan(amount), written_as_float(amount));
        assert_eq!(routing::yuan(amount - 1), written_as_float(amount - 1));
    }
}

#[test]
fn patterns_fit_models() {
    let fits = |pattern: &str, model: &str| routing::model_pattern_matches(pattern, model);
    assert!(fits("*", ""));
    assert!(fits("*", "anything"));
    assert!(fits("GPT-4o", "gpt-4o"));
    assert!(!fits("gpt-4", "gpt-4o"));
    assert!(fits("gpt*", "gpt-4o"));
    assert!(fits("gpt*", "my-gpt"));
    assert!(fits("*gpt*mini*", "x-gpt-4o-mini-y"));
    assert!(!fits("mini*gpt", "gpt-4o-mini"));
    assert!(!fits("aa*aa", "aaa"));
    assert!(fits("aa*aa", "aaaa"));
    assert!(fits("**", "x"));
}

#[test]
fn allowed_models_are_looked_up() {
    let mut router = RouterConfig::default();
    assert!(routing::external_model_allowed(&router, " DeepSeek-V4-Flash "));
    assert!(!routing::external_model_allowed(&router, "gpt-4o"));
    router.external_allowed_models = vec![];
    assert!(routing::external_model_allowed(&router, "gpt-4o"));
    router.external_allowed_models = vec!["  ".to_string()];
    assert!(!routing::external_model_allowed(&router, "gpt-4o"));
    router.external_allowed_models = vec!["gpt*".to_string()];
    assert!(routing::external_model_allowed(&router, "GPT-4o"));
    router.external_allowed_models = vec!["nope".to_string(), " * ".to_string()];
    assert!(routing::external_model_allowed(&router, "whatever"));
}

#[test]
fn words_and_hints_are_found() {
    assert!(routing::contains_any("the reasoner", &vec!["pro", "reasoner"]));
    assert!(!routing::contains_any("flash", &vec!["pro", "reasoner"]));
    assert!(routing::hint_matches(" Code_Review ", &vec!["REVIEW"]));
    assert!(!routing::hint_matches("   ", &vec![""]));
    assert!(routing::model_eq(" A ", "a"));
    assert!(!routing::model_eq("", " "));
    assert!(routing::model_in("b", &vec!["a".to_string(), " B ".to_string()]));
    assert!(!routing::model_in("c", &vec!["a".to_string()]));
}

#[test]
fn roles_have_groups_and_models() {
    let mut router = RouterConfig::default();
    router.pro_group = "  MIXED Case ".to_string();
    assert_eq!(routing::group_for_role(&router, "pro"), "mixed case");
    assert_eq!(routing::group_for_role(&router, "default"), "deepseek");
    assert_eq!(routing::group_for_role(&router, "emergency"), "longcat");
    assert_eq!(routing::group_for_role(&router, "backup"), "");
    assert_eq!(routing::group_for_role(&router, "any"), "");
    assert_eq!(routing::model_for_role(&router, "pro"), "deepseek-v4-pro");
    assert_eq!(routing::model_for_role(&router, "emergency"), "LongCat-Flash-Chat");
    assert_eq!(routing::model_for_role(&router, "backup"), "coding-plan");
    assert_eq!(routing::model_for_role(&router, "default"), "deepseek-v4-flash");
    assert_eq!(routing::model_for_role(&router, "any"), "deepseek-v4-flash");
    assert_eq!(attempts::fallback_roles("backup"), vec!["emergency", "any"]);
    assert_eq!(attempts::fallback_roles("pro"), vec!["emergency", "backup", "any"]);
    assert_eq!(attempts::fallback_roles("default"), vec!["emergency", "backup", "any"]);
    assert_eq!(attempts::fallback_roles("emergency"), vec!["backup", "any"]);
    assert_eq!(attempts::fallback_roles("any"), vec!["any"]);
}

fn channel(id: u64, name: &str, models: &str, role: &str, group: &str, priority: u32) -> Channel {
    Channel {
        id: Some(id),
        name: name.to_string(),
        models: models.to_string(),
        role: role.to_string(),
        group: group.to_string(),
        priority,
        ..Channel::default()
    }
}

fn decision(model: &str, role: &str, group: &str) -> RouteDecision {
    RouteDecision {
        requested_model: model.to_string(),
        desired_model: model.to_string(),
        role: role.to_string(),
        group: group.to_string(),
        reason: "because".to_string(),
    }
}

fn tried(attempts: &[Attempt]) -> Vec<(u64, String, String)> {
    attempts
        .iter()
        .map(|attempt| {
            (
                attempt.channel.id.unwrap(),
                attempt.actual_model.clone(),
                attempt.reason.clone(),
            )
        })
        .collect()
}

#[test]
fn searches_are_added_once() {
    let router = RouterConfig::default();
    let specs = attempts::attempt_specs(&router, &decision("m", "default", "deepseek"));
    let listed: Vec<(String, String, String, bool)> = specs
        .iter()
        .map(|spec: &AttemptSpec| {
            (
                spec.role.clone(),
                spec.group.clone(),
                spec.desired_model.clone(),
                spec.fallback,
            )
        })
        .collect();
    let spec = |role: &str, group: &str, model: &str, fallback: bool| {
        (role.to_string(), group.to_string(), model.to_string(), fallback)
    };
    assert_eq!(
        listed,
        vec![
            spec("default", "deepseek", "m", false),
            spec("default", "", "m", true),
            spec("emergency", "longcat", "LongCat-Flash-Chat", true),
            spec("emergency", "", "LongCat-Flash-Chat", true),
            spec("backup", "", "coding-plan", true),
            spec("any", "", "m", true),
        ]
    );
    let any = attempts::attempt_specs(&router, &decision("m", "any", ""));
    assert_eq!(any.len(), 1);
    assert!(!any[0].fallback);
}

#[test]
fn attempts_come_in_order_and_once() {
    let router = RouterConfig::default();
    let channels = vec![
        channel(1, "B", "m", "default", "deepseek", 50),
        channel(2, "A", "m", "default", "deepseek", 50),
        channel(3, "C", "m", "default", "other", 1),
        channel(4, "D", "*", "default", "deepseek", 1),
        channel(5, "E", "else", "default", "deepseek", 1),
    ];
    let mut index = 0;
    let found = attempts::build_attempts_at(
        &channels,
        &router,
        &decision("m", "default", "deepseek"),
        ApiProtocol::OpenAI,
        &mut index,
        0,
    );
    let because = "because".to_string();
    let fallback = "fallback to default".to_string();
    let listed = tried(&found);
    assert_eq!(
        listed[..4],
        [
            (2, "m".to_string(), because.clone()),
            (1, "m".to_string(), because.clone()),
            (4, "m".to_string(), because),
            (3, "m".to_string(), fallback),
        ]
    );
    for (i, a) in listed.iter().enumerate() {
        for b in listed.iter().skip(i + 1) {
            assert!((a.0, &a.1) != (b.0, &b.1));
        }
    }
    assert!(!listed.iter().any(|item| item.0 == 5));
}

#[test]
fn equal_channels_take_turns() {
    let router = RouterConfig::default();
    let channels = vec![
        channel(1, "A", "m", "any", "", 50),
        channel(2, "B", "m", "any", "", 50),
        channel(3, "C", "m", "any", "", 50),
    ];
    let mut index = 0;
    let mut firsts = vec![];
    for _ in 0..4 {
        let found = attempts::build_attempts_at(
            &channels,
            &router,
            &decision("m", "any", ""),
            ApiProtocol::OpenAI,
            &mut index,
            0,
        );
        firsts.push(found[0].channel.id.unwrap());
        assert_eq!(found.len(), 3);
    }
    assert_eq!(firsts, vec![1, 2, 3, 1]);
    assert_eq!(index, 4);
    let mut last = usize::MAX;
    attempts::build_attempts_at(
        &channels,
        &router,
        &decision("m", "any", ""),
        ApiProtocol::OpenAI,
        &mut last,
        0,
    );
    assert_eq!(last, usize::MAX);
}

#[test]
fn channels_out_of_use_or_of_unknown_kind_are_not_tried() {
    let router = RouterConfig::default();
    let mut off = channel(1, "A", "m", "any", "", 50);
    off.status = "disabled".to_string();
    let mut cooling = channel(2, "B", "m", "any", "", 50);
    cooling.status = "cooldown".to_string();
    cooling.disabled_until = Some(100);
    let mut strange = channel(3, "C", "m", "any", "", 50);
    strange.kind = "grpc".to_string();
    let channels = vec![off, cooling, strange];
    let attempts_at = |now: u64| {
        let mut index = 0;
        attempts::build_attempts_at(
            &channels,
            &router,
            &decision("m", "any", ""),
            ApiProtocol::OpenAI,
            &mut index,
            now,
        )
    };
    assert_eq!(attempts_at(99).len(), 0);
    let later = attempts_at(100);
    assert_eq!(later.len(), 1);
    assert_eq!(later[0].channel.name, "B");
}

#[test]
fn channels_of_the_same_format_come_first() {
    let mut anthropic = channel(1, "A", "m", "any", "", 1);
    anthropic.kind = "anthropic".to_string();
    let openai = channel(2, "B", "m", "any", "", 99);
    let channels = vec![anthropic, openai];
    let sorted = attempts::sort_candidates(&channels, "m", "m", ApiProtocol::OpenAI);
    assert_eq!(sorted[0].id, Some(2));
    let sorted = attempts::sort_candidates(&channels, "m", "m", ApiProtocol::Anthropic);
    assert_eq!(sorted[0].id, Some(1));
}

#[test]
fn sorting_is_stable() {
    let channels = vec![
        channel(9, "same", "m", "any", "", 5),
        channel(3, "same", "m", "any", "", 5),
        channel(7, "same", "m", "any", "", 4),
        channel(1, "same", "m", "any", "", 5),
    ];
    let sorted = attempts::sort_candidates(&channels, "m", "m", ApiProtocol::OpenAI);
    let ids: Vec<u64> = sorted.iter().map(|ch| ch.id.unwrap()).collect();
    assert_eq!(ids, vec![7, 9, 3, 1]);
}

#[test]
fn rotation_turns_the_best_channels_only() {
    let mut channels: Vec<Channel> = (0..5)
        .map(|id| channel(id, "x", "m", "any", "", 5))
        .collect();
    let mut index = 5;
    attempts::rotate_candidates(&mut index, &mut channels, 3);
    let ids: Vec<u64> = channels.iter().map(|ch| ch.id.unwrap()).collect();
    assert_eq!(ids, vec![2, 0, 1, 3, 4]);
    assert_eq!(index, 6);
    attempts::rotate_candidates(&mut index, &mut channels, 1);
    assert_eq!(index, 6);
}
