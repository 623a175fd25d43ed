use nanobot_obp::hints;
use nanobot_obp::hints::{Header, RouteHints};
use nanobot_obp::json::Json;
use nanobot_obp::prompt;

fn header(name: &str, value: &str) -> Header {
    Header {
        name: name.to_string(),
        value: Some(value.to_string()),
    }
}

fn parse(text: &str) -> Json {
    Json::parse_text(text).unwrap()
}

#[test]
fn headers_are_read_by_name() {
    let headers = vec![
        header("X-Obp-Purpose", "  Code Review "),
        header("x-obp-purpose", "second"),
        Header {
            name: "x-raw".to_string(),
            value: None,
        },
    ];
    assert_eq!(hints::header_value(&headers, "x-obp-purpose"), "Code Review");
    assert_eq!(hints::header_hint(&headers, "x-obp-purpose"), "code review");
    assert_eq!(hints::header_value(&headers, "x-raw"), "");
    assert_eq!(hints::header_hint(&headers, "missing"), "");
}

#[test]
fn json_hints_are_found_in_their_places() {
    let keys = vec!["a", "b"];
    let direct = parse(r#"{"a": "  ", "b": " Two ", "obp": {"a": "One"}}"#);
    assert_eq!(hints::json_hint(Some(&direct), &keys), "two");
    assert_eq!(hints::json_hint_preserve(Some(&direct), &keys), "Two");
    let nested = parse(r#"{"a": 1, "obp": {"a": "third"}, "extra_body": {"b": "Second"}}"#);
    assert_eq!(hints::json_hint(Some(&nested), &keys), "second");
    assert_eq!(hints::json_hint_preserve(Some(&nested), &keys), "Second");
    let metadata = parse(r#"{"metadata": {"a": "X"}, "extra_body": {"a": "Y"}}"#);
    assert_eq!(hints::json_hint(Some(&metadata), &keys), "x");
    assert_eq!(hints::json_hint(None, &keys), "");
    assert_eq!(hints::json_hint_preserve(Some(&parse("[]")), &keys), "");
    assert_eq!(hints::json_direct_hint(&direct, &keys), Some("two".to_string()));
    assert_eq!(
        hints::json_direct_hint_preserve(&direct, &keys),
        Some("Two".to_string())
    );
    assert_eq!(hints::json_direct_hint(&nested, &keys), None);
}

#[test]
fn first_filled_value_is_taken() {
    let values = vec!["  ".to_string(), " AbC ".to_string(), "d".to_string()];
    assert_eq!(hints::first_non_empty(&values), "abc");
    assert_eq!(hints::first_non_empty_preserve(&values), "AbC");
    assert_eq!(hints::first_non_empty(&vec![]), "");
}

#[test]
fn hints_come_from_headers_before_json() {
    let headers = vec![header("x-obp-purpose", "SUMMARY")];
    let request = parse(r#"{"purpose": "other", "metadata": {"obp_intent": "Weather"}}"#);
    let found = RouteHints::from_request(&headers, Some(&request));
    assert_eq!(found.purpose, "summary");
    assert_eq!(found.intent, "weather");
    let none = RouteHints::from_request(&vec![], None);
    assert_eq!(none.purpose, "");
    assert_eq!(none.intent, "");
}

#[test]
fn sources_are_named() {
    let headers = vec![header("x-nanobot-source", " Guangzhou Nanobot! ")];
    assert_eq!(hints::request_source(&headers, None), "guangzhou-nanobot");
    let request = parse(r#"{"source": "from json"}"#);
    assert_eq!(hints::request_source(&vec![], Some(&request)), "from-json");
    assert_eq!(
        hints::request_source(&headers, Some(&request)),
        "guangzhou-nanobot"
    );
    assert_eq!(hints::request_source(&vec![], None), "unknown-source");
}

#[test]
fn source_names_are_short_and_plain() {
    assert_eq!(hints::sanitize_source("--a b/c--"), "a-b-c");
    assert_eq!(hints::sanitize_source("来源"), "unknown-source");
    assert_eq!(hints::sanitize_source(""), "unknown-source");
    assert_eq!(hints::sanitize_source("A_b.c:9"), "A_b.c:9");
    assert_eq!(hints::sanitize_source(&"x".repeat(200)).len(), 80);
}

#[test]
fn trace_names_are_short_and_plain() {
    assert_eq!(
        hints::sanitize_trace_id(" req/ 12-3 "),
        Some("req12-3".to_string())
    );
    assert_eq!(hints::sanitize_trace_id("---"), None);
    assert_eq!(hints::sanitize_trace_id("请求"), None);
    assert_eq!(hints::sanitize_trace_id(&"y".repeat(200)).unwrap().len(), 96);
    let once = hints::sanitize_trace_id("-a-!-b-").unwrap();
    assert_eq!(once, "a--b");
    assert_eq!(hints::sanitize_trace_id(&once), Some(once));
}

#[test]
fn requests_are_named() {
    let headers = vec![header("x-request-id", "One"), header("x-obp-request-id", "Two")];
    assert_eq!(hints::request_id(&headers, None), "Two");
    let request = parse(r#"{"request_id": "Three"}"#);
    assert_eq!(hints::request_id(&vec![], Some(&request)), "Three");
    assert_eq!(hints::request_id_at(&vec![], None, 255), "obp-ff");
    assert_eq!(hints::generated_request_id_at(0), "obp-0");
    let made_up = hints::generated_request_id();
    assert!(made_up.starts_with("obp-"));
    assert!(u128::from_str_radix(&made_up[4..], 16).unwrap() > 1_600_000_000_000_000_000);
}

#[test]
fn text_is_gathered_by_key() {
    let value = parse(
        r#"{"z": "last", "a": ["one", {"tool_calls": ["hidden"], "b": "two"}], "n": 5, "m": null}"#,
    );
    assert_eq!(prompt::extract_text(&value), "one\ntwo\n\n\nlast");
    let mut built = Json::object();
    built.set("z", Json::text("last"));
    built.set("a", Json::text("first"));
    assert_eq!(prompt::extract_text(&built), "first\nlast");
    assert_eq!(prompt::extract_text(&Json::Bool(true)), "");
}

#[test]
fn latest_text_is_the_last_of_the_user() {
    let request = parse(
        r#"{"messages": [
            {"role": "USER", "content": "first"},
            {"role": "user", "content": [{"type": "text", "text": "second"}]},
            {"role": "assistant", "content": "answer"}
        ]}"#,
    );
    assert_eq!(prompt::extract_routing_text(&request), "second\ntext");
    let no_user = parse(r#"{"messages": [{"role": "system", "content": "only"}]}"#);
    assert_eq!(prompt::extract_routing_text(&no_user), "only");
    let input = parse(r#"{"messages": [], "input": "given"}"#);
    assert_eq!(prompt::extract_routing_text(&input), "given");
    let bare = parse(r#"{"prompt": "p", "model": "m"}"#);
    assert_eq!(prompt::extract_routing_text(&bare), "m\np");
    let odd = parse(r#"{"messages": [{"role": "user", "name": "n"}]}"#);
    assert_eq!(prompt::extract_routing_text(&odd), "n\nuser");
}

#[test]
fn task_text_has_system_and_user() {
    let request = parse(
        r#"{"messages": [
            {"role": "system", "content": "old"},
            {"role": "system", "content": "rules"},
            {"role": "user", "content": "ask"}
        ]}"#,
    );
    assert_eq!(prompt::extract_free_task_routing_text(&request), "rules\nask");
    let none = parse(r#"{"messages": [{"role": "tool", "content": "x"}]}"#);
    assert_eq!(prompt::extract_free_task_routing_text(&none), "");
    let input = parse(r#"{"input": "given"}"#);
    assert_eq!(prompt::extract_free_task_routing_text(&input), "given");
}

#[test]
fn message_roles_ignore_case() {
    let message = parse(r#"{"role": "System", "content": "c"}"#);
    assert!(prompt::message_role_is(&message, "system"));
    assert!(!prompt::message_role_is(&message, "user"));
    assert!(!prompt::message_role_is(&parse("{}"), "user"));
    assert_eq!(prompt::message_content_text(&message), "c");
    assert_eq!(prompt::message_content_text(&parse(r#"{"b": "2", "a": "1"}"#)), "1\n2");
}
