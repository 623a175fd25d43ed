use nanobot_obp::attempts::Attempt;
use nanobot_obp::channel::Channel;
use nanobot_obp::config::RouterConfig;
use nanobot_obp::gateway;
use nanobot_obp::hints::Header;
use nanobot_obp::json::Json;
use nanobot_obp::protocol::ApiProtocol;
use nanobot_obp::routing::RouteDecision;
use nanobot_obp::stats::UsageStats;
use nanobot_obp::trial;
use nanobot_obp::trial::{AttemptEvent, LoopStep, NextStep, TrialEntry, TrialLoop, TrialRecord};
use nanobot_obp::usage::TokenUsage;

fn channel(id: u64, models: &str) -> Channel {
    Channel {
        id: Some(id),
        name: format!("channel {id}"),
        models: models.to_string(),
        base: "https://up.test".to_string(),
        key: "sk-up".to_string(),
        ..Channel::default()
    }
}

fn request(body: &str) -> (Option<Json>, gateway::ProxyRequest) {
    gateway::read_request(&vec![], body.as_bytes())
}

#[test]
fn requests_are_described() {
    let headers = vec![Header {
        name: "x-obp-request-id".to_string(),
        value: Some("id-1".to_string()),
    }];
    let json = Json::parse_text(r#"{"model": "m", "stream": true, "source": "s"}"#).unwrap();
    let found = gateway::describe_request_at(&headers, Some(&json), 0);
    assert_eq!(found.requested_model, "m");
    assert!(found.stream);
    assert_eq!(found.source, "s");
    assert_eq!(found.request_id, "id-1");
    let (none, bare) = request("not json");
    assert!(none.is_none());
    assert_eq!(bare.requested_model, "unknown");
    assert!(!bare.stream);
    assert_eq!(bare.source, "unknown-source");
    assert!(bare.request_id.starts_with("obp-"));
    let (some, odd) = request(r#"{"model": 5, "stream": "yes"}"#);
    assert!(some.is_some());
    assert_eq!(odd.requested_model, "unknown");
    assert!(!odd.stream);
}

#[test]
fn errors_of_the_router_are_json() {
    let refusal = gateway::error_response(403, "say \"why\"");
    assert_eq!(refusal.status, 403);
    assert!(refusal.json);
    assert_eq!(
        refusal.body,
        r#"{"error":{"message":"say \"why\"","type":"obp_router_error"}}"#
    );
    assert_eq!(gateway::unreadable_body("too big").body, "Invalid request body: too big");
    assert_eq!(gateway::unreadable_body("").status, 400);
    assert_eq!(gateway::all_failed().status, 502);
    assert_eq!(gateway::all_failed().body, "All OBP upstream attempts failed");
    assert_eq!(gateway::internal_error().status, 500);
    assert_eq!(gateway::internal_error().body, "Internal Error");
    assert!(!gateway::internal_error().json);
}

#[test]
fn plans_or_refuses() {
    let mut router = RouterConfig::default();
    let channels = vec![channel(1, "*")];
    let (json, asked) = request(r#"{"model": "deepseek-v4-flash"}"#);
    let mut index = 0;
    let mut plan = |router: &RouterConfig, channels: &[Channel], asked: &gateway::ProxyRequest| {
        gateway::plan_request(
            router,
            channels,
            &UsageStats::default(),
            json.as_ref(),
            asked,
            ApiProtocol::OpenAI,
            &mut index,
        )
    };
    let Ok(found) = plan(&router, &channels, &asked) else {
        panic!("refused");
    };
    assert_eq!(found.attempts[0].channel.id, Some(1));
    assert_eq!(found.decision.role, "default");
    assert_eq!(found.retry_statuses, router.retry_statuses);
    let Err(empty) = plan(&router, &[], &asked) else {
        panic!("planned");
    };
    assert_eq!((empty.status, empty.body.as_str()), (404, "No channels available"));
    let Err(unable) = plan(&router, &[channel(2, "else")], &asked) else {
        panic!("planned");
    };
    assert_eq!(
        (unable.status, unable.body.as_str()),
        (404, "No active channels available")
    );
    let (_, strange) = request(r#"{"model": "gpt-9"}"#);
    let Err(denied) = plan(&router, &channels, &strange) else {
        panic!("planned");
    };
    assert_eq!(denied.status, 403);
    assert!(denied.body.contains("model_not_allowed: gpt-9"));
    router.external_enabled = false;
    let Err(closed) = plan(&router, &channels, &asked) else {
        panic!("planned");
    };
    assert_eq!(closed.status, 403);
    assert!(closed.body.contains("external_access_disabled"));
}

#[test]
fn plans_go_by_the_profile_of_the_source() {
    let router = RouterConfig::default();
    let (json, mut asked) = request(r#"{"model": "deepseek-v4-flash"}"#);
    asked.source = "default-nanobot".to_string();
    let mut index = 0;
    let Ok(found) = gateway::plan_request_at(
        &router,
        &[channel(1, "*")],
        0,
        json.as_ref(),
        &asked,
        ApiProtocol::OpenAI,
        &mut index,
        0,
    ) else {
        panic!("refused");
    };
    let effective = router.effective_for_source("default-nanobot");
    assert_eq!(found.decision.desired_model, effective.default_model);
}

#[test]
fn headers_are_filtered() {
    for name in ["host", "Authorization", "content-length", "X-Api-Key", "x-obp-source", "X-OBP-"] {
        assert!(!gateway::forwards_header(name), "{name}");
    }
    for name in ["accept", "x-obp-request-id", "X-OBP-Request-ID", "x-obp", "content-type"] {
        assert!(gateway::forwards_header(name), "{name}");
    }
    assert!(!gateway::returns_header("Content-Length"));
    assert!(gateway::returns_header("content-type"));
}

fn attempt(id: u64, kind: &str) -> Attempt {
    let mut on = channel(id, "*");
    on.kind = kind.to_string();
    Attempt {
        channel: on,
        actual_model: "real".to_string(),
        role: "pro".to_string(),
        group: "g".to_string(),
        reason: "why".to_string(),
    }
}

fn decision() -> RouteDecision {
    RouteDecision {
        requested_model: "asked".to_string(),
        desired_model: "wanted".to_string(),
        role: "pro".to_string(),
        group: "g".to_string(),
        reason: "why".to_string(),
    }
}

#[test]
fn clients_are_told_of_their_route() {
    let found = gateway::route_headers(&attempt(1, "openai"), &decision(), "src", "id", Some(3), None);
    let pairs: Vec<(&str, &str)> = found
        .iter()
        .map(|(name, value)| (name.as_str(), value.as_str()))
        .collect();
    assert_eq!(
        pairs,
        vec![
            ("x-obp-route", "pro"),
            ("x-obp-group", "g"),
            ("x-obp-requested-model", "asked"),
            ("x-obp-actual-model", "real"),
            ("x-obp-channel", "channel 1"),
            ("x-obp-reason", "why"),
            ("x-obp-source", "src"),
            ("x-obp-request-id", "id"),
            ("x-obp-first-chunk-ms", "3"),
        ]
    );
    let both = gateway::route_headers(&attempt(1, ""), &decision(), "", "", Some(1), Some(22));
    assert_eq!(both[9], ("x-obp-first-text-ms".to_string(), "22".to_string()));
}

#[test]
fn upstream_requests_are_made_up() {
    let sent = gateway::upstream_request(
        &attempt(1, "openai"),
        ApiProtocol::OpenAI,
        ApiProtocol::OpenAI,
        br#"{"model":"asked","n":1}"#,
    );
    assert_eq!(sent.url, "https://up.test/v1/chat/completions");
    assert_eq!(sent.body, br#"{"model":"real","n":1}"#.to_vec());
    assert_eq!(
        sent.auth,
        vec![("Authorization".to_string(), "Bearer sk-up".to_string())]
    );
    let sent = gateway::upstream_request(
        &attempt(1, "anthropic"),
        ApiProtocol::OpenAI,
        ApiProtocol::Anthropic,
        br#"{"model":"asked","messages":[]}"#,
    );
    assert_eq!(sent.url, "https://up.test/v1/messages");
    assert_eq!(
        sent.body,
        br#"{"max_tokens":4096,"messages":[],"model":"real"}"#.to_vec()
    );
}

#[test]
fn serial_channels_are_looked_up() {
    let mut one = channel(1, "gemini-flash");
    one.group = "Gemini".to_string();
    assert!(gateway::requires_serial_channel(&one, "gemini"));
    assert!(gateway::requires_serial_channel(&one, "x, *"));
    assert!(gateway::requires_serial_channel(&one, " UP.test ,"));
    assert!(!gateway::requires_serial_channel(&one, ""));
    assert!(!gateway::requires_serial_channel(&one, ", ,longcat"));
    assert_eq!(gateway::serial_channel_key(&one), "channel:1");
    one.id = None;
    one.name = " n ".to_string();
    assert_eq!(gateway::serial_channel_key(&one), "n|https://up.test");
    assert_eq!(gateway::serial_wait_timeout(None), 45_000);
    assert_eq!(gateway::serial_wait_timeout(Some("5")), 5);
    assert_eq!(gateway::serial_lock_closed("k"), "serial lock closed for k");
    assert_eq!(
        gateway::serial_channel_busy(5, "k"),
        "serial channel busy after 5ms: k"
    );
    assert_eq!(gateway::append_serial_wait("r", None), "r");
    assert_eq!(gateway::append_serial_wait("r", Some(0)), "r; serial channel");
    assert_eq!(
        gateway::append_serial_wait("r", Some(12)),
        "r; waited 12ms for serial channel"
    );
}

fn judged(event: AttemptEvent, more: bool) -> (Option<(String, u16)>, NextStep) {
    let (entry, step) = trial::judge(&event, "why", Some(0), more, &vec![429, 500]);
    (entry.map(|entry| (entry.reason, entry.status)), step)
}

fn probed(error: Option<&str>, timed_out: bool) -> AttemptEvent {
    AttemptEvent::StreamProbed {
        status: 200,
        error: error.map(|text| text.to_string()),
        timed_out,
        first_chunk_ms: Some(1),
        first_text_ms: None,
    }
}

#[test]
fn events_of_attempts_are_judged() {
    let entry = |reason: &str, status: u16| Some((reason.to_string(), status));
    assert_eq!(
        judged(AttemptEvent::Busy("busy".to_string()), true),
        (entry("why; busy", 504), NextStep::TryNext)
    );
    assert_eq!(
        judged(AttemptEvent::SendFailed("dns".to_string()), false),
        (entry("why; upstream error: dns", 502), NextStep::TryNext)
    );
    assert_eq!(
        judged(AttemptEvent::BodyFailed("cut".to_string()), true),
        (entry("why; body error: cut", 502), NextStep::TryNext)
    );
    assert_eq!(
        judged(AttemptEvent::StreamOpened(429), true),
        (entry("why; retryable status 429", 429), NextStep::TryNext)
    );
    assert_eq!(judged(AttemptEvent::StreamOpened(429), false), (None, NextStep::Probe));
    assert_eq!(judged(AttemptEvent::StreamOpened(200), true), (None, NextStep::Probe));
    assert_eq!(
        judged(probed(Some("reset"), false), false),
        (entry("why; stream probe error: reset", 502), NextStep::TryNext)
    );
    assert_eq!(
        judged(probed(None, true), true),
        (
            entry("why; first output timed out before client flush", 504),
            NextStep::TryNext
        )
    );
    assert_eq!(
        judged(probed(None, true), false),
        (entry("why; serial channel", 200), NextStep::Reply)
    );
    let answered = |status: u16| AttemptEvent::Answered {
        status,
        usage: TokenUsage::default(),
    };
    assert_eq!(
        judged(answered(500), true),
        (entry("why; serial channel", 500), NextStep::KeepAndTryNext)
    );
    assert_eq!(
        judged(answered(500), false),
        (entry("why; serial channel", 500), NextStep::Reply)
    );
    assert_eq!(
        judged(answered(404), true),
        (entry("why; serial channel", 404), NextStep::Reply)
    );
}

#[test]
fn attempts_are_gone_through() {
    let attempts = vec![
        attempt(1, "grpc"),
        attempt(2, "anthropic"),
        attempt(3, "openai"),
        attempt(4, "anthropic"),
    ];
    let mut way: TrialLoop<&str> = TrialLoop::start();
    assert!(matches!(
        way.advance(&attempts, false, ApiProtocol::OpenAI),
        LoopStep::Try(1)
    ));
    assert_eq!(way.settle(NextStep::KeepAndTryNext, "first"), None);
    assert!(matches!(
        way.advance(&attempts, false, ApiProtocol::OpenAI),
        LoopStep::Try(2)
    ));
    assert_eq!(way.settle(NextStep::TryNext, "dropped"), None);
    assert!(matches!(
        way.advance(&attempts, false, ApiProtocol::OpenAI),
        LoopStep::Try(3)
    ));
    assert!(matches!(
        way.advance(&attempts, false, ApiProtocol::OpenAI),
        LoopStep::Answer("first")
    ));
    let mut streamed: TrialLoop<&str> = TrialLoop::start();
    assert!(matches!(
        streamed.advance(&attempts, true, ApiProtocol::OpenAI),
        LoopStep::Try(2)
    ));
    assert_eq!(streamed.settle(NextStep::Reply, "done"), Some("done"));
    assert!(matches!(
        streamed.advance(&attempts, true, ApiProtocol::OpenAI),
        LoopStep::AllFailed
    ));
}

#[test]
fn third_failure_takes_a_channel_out_of_use() {
    let mut channels = vec![channel(1, "*"), channel(2, "*")];
    for failures in 1..=3 {
        trial::record_channel_result(&mut channels, Some(1), "channel 1", 500, 1_000);
        assert_eq!(channels[0].fail_count, failures);
        assert_eq!(channels[0].requests, failures as u64);
        assert_eq!(channels[0].is_active_at(1_000), failures < 3);
    }
    assert_eq!(channels[0].status, "cooldown");
    assert_eq!(channels[0].disabled_until, Some(1_120));
    assert!(!channels[0].is_active_at(1_119));
    assert!(channels[0].is_active_at(1_120));
    trial::record_channel_result(&mut channels, Some(1), "channel 1", 399, 1_001);
    assert_eq!(channels[0].fail_count, 0);
    assert_eq!(channels[0].status, "active");
    assert_eq!(channels[0].disabled_until, None);
    assert_eq!(channels[0].requests, 4);
    assert_eq!(channels[1].requests, 0);
    trial::record_channel_result(&mut channels, Some(1), "renamed", 500, 1_001);
    assert_eq!(channels[0].requests, 4);
}

#[test]
fn results_are_entered() {
    let mut channels = vec![channel(1, "*")];
    let mut stats = UsageStats::default();
    let on = channels[0].clone();
    let entry = TrialEntry {
        reason: "why".to_string(),
        status: 200,
        usage: TokenUsage {
            prompt_tokens: 10,
            cached_tokens: 0,
            completion_tokens: 5,
            total_tokens: 15,
        },
        first_chunk_ms: Some(1),
        first_text_ms: Some(2),
    };
    let record = TrialRecord {
        request_id: "id",
        source: "src",
        requested_model: "asked",
        actual_model: "deepseek-v4-flash",
        route: "default",
    };
    let log = trial::record_result_at(&mut channels, &mut stats, &on, &record, &entry, 7, 0, 0);
    assert_eq!(log.time, "1970-01-01 08:00:00");
    assert_eq!(log.cost_nano_cny, 10 * 1_000 + 5 * 2_000);
    assert_eq!(log.latency, "7ms");
    assert_eq!(stats.total.requests, 1);
    assert_eq!(stats.by_source.get("src").unwrap().total_tokens, 15);
    assert_eq!(channels[0].requests, 1);
    let log = trial::record_result(&mut channels, &mut stats, &on, &record, &entry, 7);
    assert!(log.ts > 1_600_000_000);
    assert_eq!(stats.total.requests, 2);
    assert_eq!(stats.recent.len(), 2);
    assert_eq!(channels[0].requests, 2);
}

#[test]
fn groups_are_logged() {
    let mut one = channel(1, "*");
    assert_eq!(trial::log_group(&one), "-");
    one.group = " g ".to_string();
    assert_eq!(trial::log_group(&one), "g");
}

fn walk(answers: &[(u16, &'static str)]) -> Option<&'static str> {
    let attempts: Vec<Attempt> = (0..answers.len() as u64)
        .map(|id| Attempt {
            channel: channel(id, "*"),
            actual_model: "m".to_string(),
            role: "default".to_string(),
            group: "".to_string(),
            reason: "r".to_string(),
        })
        .collect();
    let mut trials: TrialLoop<&'static str> = TrialLoop::start();
    loop {
        let at = match trials.advance(&attempts, false, ApiProtocol::OpenAI) {
            LoopStep::Try(at) => at,
            LoopStep::Answer(reply) => return Some(reply),
            LoopStep::AllFailed => return None,
        };
        let more = trials.has_more(&attempts);
        assert_eq!(more, at + 1 < attempts.len());
        let (status, reply) = answers[at];
        let event = if status == 0 {
            AttemptEvent::SendFailed("down".to_string())
        } else {
            AttemptEvent::Answered {
                status,
                usage: TokenUsage::default(),
            }
        };
        let (_, step) = trial::judge(&event, "r", None, more, &vec![500, 503]);
        if let Some(reply) = trials.settle(step, reply) {
            return Some(reply);
        }
    }
}

#[test]
fn client_gets_the_first_final_reply_or_the_last_kept() {
    assert_eq!(walk(&[(0, "a"), (500, "b"), (200, "c"), (200, "d")]), Some("c"));
    assert_eq!(walk(&[(500, "a"), (404, "b"), (200, "c")]), Some("b"));
    assert_eq!(walk(&[(500, "a"), (503, "b"), (0, "c")]), Some("b"));
    assert_eq!(walk(&[(500, "a"), (0, "b"), (503, "c")]), Some("c"));
    assert_eq!(walk(&[(0, "a"), (0, "b")]), None);
    assert_eq!(walk(&[]), None);
}
