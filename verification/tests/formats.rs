use nanobot_obp::channel::Channel;
use nanobot_obp::convert;
use nanobot_obp::json::Json;
use nanobot_obp::protocol;
use nanobot_obp::protocol::ApiProtocol;

fn text(bytes: Vec<u8>) -> String {
    String::from_utf8(bytes).unwrap()
}

#[test]
fn addresses_of_endpoints() {
    assert_eq!(
        protocol::openai_chat_url("https://x.test/"),
        "https://x.test/v1/chat/completions"
    );
    assert_eq!(
        protocol::openai_chat_url("https://x.test/v1"),
        "https://x.test/v1/chat/completions"
    );
    assert_eq!(
        protocol::anthropic_messages_url("https://x.test/mymessages"),
        "https://x.test/mymessages"
    );
    assert_eq!(
        ApiProtocol::Anthropic.target_url("https://x.test"),
        "https://x.test/v1/messages"
    );
    assert_eq!(protocol::endpoint_url("b", "e"), "b/v1/e");
}

#[test]
fn keys_go_into_headers() {
    let mut one = Channel::default();
    one.key = "sk".to_string();
    one.base = "https://api.ANTHROPIC.com".to_string();
    let own = ApiProtocol::Anthropic.auth_headers(&one);
    assert_eq!(own[0], ("x-api-key".to_string(), "sk".to_string()));
    let plain = ApiProtocol::OpenAI.auth_headers(&one);
    assert_eq!(plain, vec![("Authorization".to_string(), "Bearer sk".to_string())]);
    one.base = "https://proxy.test".to_string();
    assert_eq!(ApiProtocol::Anthropic.auth_headers(&one), plain);
}

#[test]
fn content_is_turned_into_text() {
    let content = |json: &str| protocol::content_to_text(&Json::parse_text(json).unwrap());
    assert_eq!(content(r#""plain""#), "plain");
    assert_eq!(
        content(r#"["a", {"type": "text", "text": "b"}, {"type": "image"}, {"type": "image_url"}, {"text": "c"}, {"type": "x"}, 5]"#),
        "a\nb\n[image]\n[image]\nc"
    );
    assert_eq!(content("null"), "null");
    assert_eq!(content(r#"{"b": 1, "a": 2}"#), r#"{"a":2,"b":1}"#);
    assert_eq!(content("[]"), "");
}

#[test]
fn models_are_put_into_requests() {
    assert_eq!(
        text(protocol::rewrite_model(br#"{"z":1,"model":"a"}"#, "b")),
        r#"{"model":"b","z":1}"#
    );
    assert_eq!(text(protocol::rewrite_model(b"[1, 2]", "b")), "[1, 2]");
    assert_eq!(text(protocol::rewrite_model(b"oops", "b")), "oops");
    assert_eq!(
        text(protocol::rewrite_openai_model(b"{}", "DeepSeek-V4-Pro")),
        r#"{"model":"DeepSeek-V4-Pro","reasoning_effort":"high","thinking":{"type":"enabled"}}"#
    );
    assert_eq!(
        text(protocol::rewrite_openai_model(
            br#"{"thinking":{"type":"disabled"}}"#,
            "deepseek-v4-pro"
        )),
        r#"{"model":"deepseek-v4-pro","reasoning_effort":"high","thinking":{"type":"disabled"}}"#
    );
    assert_eq!(
        text(protocol::rewrite_openai_model(b"{}", "deepseek-v4-flash")),
        r#"{"model":"deepseek-v4-flash"}"#
    );
}

#[test]
fn anthropic_requests_become_openai_ones() {
    let body = br#"{"model":"a","system":[{"type":"text","text":"rules"}],"messages":[{"role":"user","content":"hi"},{"content":[{"type":"text","text":"x"},{"type":"image"}]}],"max_tokens":9,"temperature":0.5,"top_p":1,"stream":false,"stop_sequences":["s"],"extra":1}"#;
    assert_eq!(
        text(convert::anthropic_request_to_openai(body, "m")),
        r#"{"max_tokens":9,"messages":[{"content":"rules","role":"system"},{"content":"hi","role":"user"},{"content":"x\n[image]","role":"user"}],"model":"m","stop":["s"],"stream":false,"temperature":0.5,"top_p":1}"#
    );
    assert_eq!(text(convert::anthropic_request_to_openai(b"oops", "m")), "oops");
    assert_eq!(
        text(convert::anthropic_request_to_openai(b"{}", "deepseek-v4-pro")),
        r#"{"messages":[],"model":"deepseek-v4-pro","reasoning_effort":"high","thinking":{"type":"enabled"}}"#
    );
}

#[test]
fn openai_requests_become_anthropic_ones() {
    let body = br#"{"model":"a","messages":[{"role":"system","content":"one"},{"role":"system","content":""},{"role":"system","content":"two"},{"role":"assistant","content":"hi"},{"role":"tool","content":"t"},{"content":5}],"max_completion_tokens":7,"stop":"s","stream":true}"#;
    assert_eq!(
        text(convert::openai_request_to_anthropic(body, "m")),
        r#"{"max_tokens":7,"messages":[{"content":"hi","role":"assistant"},{"content":"t","role":"user"},{"content":"5","role":"user"}],"model":"m","stop_sequences":"s","stream":true,"system":"one\n\ntwo"}"#
    );
    assert_eq!(
        text(convert::openai_request_to_anthropic(br#"{"max_tokens":null}"#, "m")),
        r#"{"max_tokens":null,"messages":[],"model":"m"}"#
    );
    assert_eq!(
        text(convert::openai_request_to_anthropic(b"[]", "m")),
        r#"{"max_tokens":4096,"messages":[],"model":"m"}"#
    );
}

#[test]
fn requests_go_upstream_in_the_right_format() {
    let body = br#"{"messages":[],"model":"a"}"#;
    let sent = |client, upstream| {
        text(convert::rewrite_body_for_upstream(body, "m", client, upstream))
    };
    assert_eq!(
        sent(ApiProtocol::OpenAI, ApiProtocol::OpenAI),
        r#"{"messages":[],"model":"m"}"#
    );
    assert_eq!(
        sent(ApiProtocol::Anthropic, ApiProtocol::Anthropic),
        r#"{"messages":[],"model":"m"}"#
    );
    assert_eq!(
        sent(ApiProtocol::Anthropic, ApiProtocol::OpenAI),
        r#"{"messages":[],"model":"m"}"#
    );
    assert_eq!(
        sent(ApiProtocol::OpenAI, ApiProtocol::Anthropic),
        r#"{"max_tokens":4096,"messages":[],"model":"m"}"#
    );
}

#[test]
fn openai_responses_become_anthropic_ones() {
    let body = br#"{"id":"x","model":"m","choices":[{"message":{"content":"hi","reasoning_content":"hm"},"finish_reason":"length"}],"usage":{"prompt_tokens":3,"completion_tokens":2,"prompt_tokens_details":{"cached_tokens":1}}}"#;
    assert_eq!(
        text(convert::openai_response_to_anthropic(body, 5)),
        r#"{"content":[{"thinking":"hm","type":"thinking"},{"text":"hi","type":"text"}],"id":"x","model":"m","role":"assistant","stop_reason":"max_tokens","type":"message","usage":{"cache_creation_input_tokens":0,"cache_read_input_tokens":1,"input_tokens":3,"output_tokens":2}}"#
    );
    assert_eq!(
        text(convert::openai_response_to_anthropic(b"{}", 5)),
        r#"{"content":[{"text":"","type":"text"}],"id":"msg_5","model":"unknown","role":"assistant","stop_reason":"end_turn","type":"message","usage":{"cache_creation_input_tokens":0,"cache_read_input_tokens":0,"input_tokens":0,"output_tokens":0}}"#
    );
    assert_eq!(text(convert::openai_response_to_anthropic(b"oops", 5)), "oops");
}

#[test]
fn anthropic_responses_become_openai_ones() {
    let body = br#"{"id":"x","model":"m","content":[{"type":"text","text":"hi"}],"stop_reason":"tool_use","usage":{"input_tokens":3,"output_tokens":2,"cache_read_input_tokens":1}}"#;
    assert_eq!(
        text(convert::anthropic_response_to_openai(body, 5)),
        r#"{"choices":[{"finish_reason":"tool_calls","index":0,"message":{"content":"hi","role":"assistant"}}],"created":5,"id":"x","model":"m","object":"chat.completion","usage":{"completion_tokens":2,"prompt_tokens":3,"prompt_tokens_details":{"cached_tokens":1},"total_tokens":5}}"#
    );
    let bare = text(convert::anthropic_response_to_openai(b"{}", 5));
    assert!(bare.contains(r#""id":"chatcmpl-5""#));
    assert!(bare.contains(r#""finish_reason":"stop""#));
}

#[test]
fn totals_of_tokens_do_not_overflow() {
    let body = br#"{"usage":{"input_tokens":18446744073709551615,"output_tokens":2}}"#;
    let out = text(convert::anthropic_response_to_openai(body, 0));
    assert!(out.contains(r#""total_tokens":18446744073709551615"#));
}

#[test]
fn responses_pass_through_or_are_converted() {
    let body = br#"{"choices":[]}"#;
    let sent = |status, client, upstream| {
        text(convert::rewrite_response_for_client(body, status, client, upstream))
    };
    let same = r#"{"choices":[]}"#;
    assert_eq!(sent(200, ApiProtocol::OpenAI, ApiProtocol::OpenAI), same);
    assert_eq!(sent(500, ApiProtocol::Anthropic, ApiProtocol::OpenAI), same);
    assert_eq!(sent(300, ApiProtocol::OpenAI, ApiProtocol::Anthropic), same);
    assert!(sent(299, ApiProtocol::Anthropic, ApiProtocol::OpenAI).contains("\"msg_"));
    assert!(sent(200, ApiProtocol::OpenAI, ApiProtocol::Anthropic).contains("\"chatcmpl-"));
    assert_eq!(
        convert::rewrite_response_for_client_at(
            body,
            200,
            ApiProtocol::Anthropic,
            ApiProtocol::OpenAI,
            9
        ),
        convert::openai_response_to_anthropic(body, 9)
    );
}

#[test]
fn reasons_come_back() {
    let there = vec![("length", "max_tokens"), ("tool_calls", "tool_use")];
    let back = vec![("max_tokens", "length"), ("tool_use", "tool_calls")];
    for reason in ["length", "tool_calls", "stop"] {
        let over = convert::mapped_reason(Some(reason), &there, "end_turn");
        let home = convert::mapped_reason(over.as_text(), &back, "stop");
        assert_eq!(home.as_text(), Some(reason));
    }
    assert_eq!(
        convert::mapped_reason(None, &there, "end_turn").as_text(),
        Some("end_turn")
    );
}

#[test]
fn answers_say_the_same_in_both_formats() {
    let given = Json::parse_text(
        r#"{"id":"x","model":"m","choices":[{"message":{"content":"two\nlines","reasoning_content":"hm"},"finish_reason":"length"}],"usage":{"prompt_tokens":3,"completion_tokens":2}}"#,
    )
    .unwrap();
    let there = convert::anthropic_response_from(&given, 5);
    assert_eq!(
        protocol::content_of(&there, "content"),
        "two\nlines"
    );
    let back = convert::openai_response_from(&there, 6);
    assert_eq!(
        back.to_text(),
        r#"{"choices":[{"finish_reason":"length","index":0,"message":{"content":"two\nlines","role":"assistant"}}],"created":6,"id":"x","model":"m","object":"chat.completion","usage":{"completion_tokens":2,"prompt_tokens":3,"prompt_tokens_details":{"cached_tokens":0},"total_tokens":5}}"#
    );
}

#[test]
fn requests_come_back_through_the_other_format() {
    let given = Json::parse_text(
        r#"{"max_tokens":7,"messages":[{"content":"hi","role":"user"},{"content":"ho","role":"assistant"}],"model":"a","stop_sequences":["s"],"system":"rules","temperature":0.5}"#,
    )
    .unwrap();
    let there = convert::openai_request_from(&given, "b");
    let back = convert::anthropic_request_from(&there, "a");
    assert_eq!(back.to_text(), given.to_text());
    let given = Json::parse_text(
        r#"{"messages":[{"content":"hi","role":"user"},{"content":"one","role":"system"},{"content":"two","role":"system"}]}"#,
    )
    .unwrap();
    let there = convert::anthropic_request_from(&given, "b");
    let back = convert::openai_request_from(&there, "a");
    assert_eq!(
        back.to_text(),
        r#"{"max_tokens":4096,"messages":[{"content":"one\n\ntwo","role":"system"},{"content":"hi","role":"user"}],"model":"a"}"#
    );
}
