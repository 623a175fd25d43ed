use nanobot_obp::admin;
use nanobot_obp::channel;
use nanobot_obp::channel::Channel;
use nanobot_obp::config::RouterConfig;
use nanobot_obp::json::Json;
use nanobot_obp::protocol::ApiProtocol;

fn channel(id: u64, models: &str) -> Channel {
    Channel {
        id: Some(id),
        name: format!("c{id}"),
        models: models.to_string(),
        key: format!("sk-{id}"),
        base: "https://up.test/".to_string(),
        ..Channel::default()
    }
}

#[test]
fn default_channel_takes_any_model() {
    let plain = Channel::default();
    assert_eq!(plain.kind, "openai");
    assert_eq!(plain.models, "*");
    assert_eq!(plain.status, "active");
    assert_eq!(plain.role, "default");
    assert_eq!(plain.priority, 100);
    assert!(plain.is_active());
    assert!(plain.supports_model("whatever"));
}

#[test]
fn states_of_a_channel() {
    let mut one = Channel::default();
    for status in ["", "  ", "Active", " ACTIVE "] {
        one.status = status.to_string();
        assert!(one.is_active_at(0), "{status}");
    }
    for status in ["cooldown", "ERROR"] {
        one.status = status.to_string();
        one.disabled_until = Some(10);
        assert!(!one.is_active_at(9));
        assert!(one.is_active_at(10));
        one.disabled_until = None;
        assert!(one.is_active_at(0));
    }
    one.status = "disabled".to_string();
    assert!(!one.is_active());
}

#[test]
fn role_and_group_are_in_lower_case() {
    let mut one = Channel::default();
    one.role = "  ".to_string();
    one.group = " DeepSeek ".to_string();
    assert_eq!(one.role_key(), "default");
    assert_eq!(one.group_key(), "deepseek");
    one.role = " PRO ".to_string();
    assert_eq!(one.role_key(), "pro");
    one.group = "ÄÖ".to_string();
    assert_eq!(one.group_key(), "äö");
}

#[test]
fn models_are_listed() {
    let one = channel(1, " A ,b,,B, * ");
    assert!(one.supports_model(" a "));
    assert!(one.supports_model("B"));
    assert!(!one.supports_model("c"));
    let set = one.model_set();
    assert_eq!(set.len(), 3);
    assert!(set.contains_key("*"));
    assert_eq!(one.first_model(), Some("A".to_string()));
    assert_eq!(channel::first_configured_model("*, ,x"), Some("x".to_string()));
    assert_eq!(channel::first_configured_model("*"), None);
}

#[test]
fn matches_are_ranked() {
    let mut one = channel(1, "a,b");
    one.model_mapping = r#"{"C": "mapped", "d": 5}"#.to_string();
    assert_eq!(one.model_match_rank("A", "x"), (0, 9));
    assert_eq!(one.model_match_rank("c", "C"), (1, 1));
    assert_eq!(one.model_match_rank("", "d"), (9, 9));
    one.models = "*".to_string();
    assert_eq!(one.model_match_rank("a", "c"), (3, 1));
    assert_eq!(one.single_model_match_rank("  "), 9);
    one.model_mapping = "not json".to_string();
    assert_eq!(one.single_model_match_rank("c"), 3);
    assert!(one.mapping_value().is_none());
    let mapping = Json::parse_text(r#"{"c": "mapped"}"#).unwrap();
    assert_eq!(one.match_rank_with(Some(&mapping), "c"), 1);
}

#[test]
fn models_are_mapped() {
    let mut one = channel(1, "a,b");
    one.model_mapping = r#"{"Want": "w1", "ask": "a1", "ASK": "a2"}"#.to_string();
    assert_eq!(one.mapped_model("ask", "want"), "w1");
    assert_eq!(one.mapped_model("ask", "b"), "a1");
    assert_eq!(one.mapped_model("Ask", ""), "a2");
    assert_eq!(one.mapped_model("a", "b"), "b");
    assert_eq!(one.mapped_model("a", "z"), "a");
    assert_eq!(one.mapped_model("y", "z"), "a");
    one.models = "*".to_string();
    assert_eq!(one.mapped_model("y", "z"), "z");
    assert_eq!(one.mapped_model("y", " "), "y");
    let mapping = Json::parse_text(r#"{"y": "other"}"#).unwrap();
    assert_eq!(one.mapped_model_with(Some(&mapping), "y", "z"), "other");
    assert_eq!(channel::lookup_mapping(Some(&mapping), "Y"), Some("other".to_string()));
    assert_eq!(channel::lookup_mapping(None, "y"), None);
}

#[test]
fn formats_of_channels() {
    let kind = |text: &str| {
        let mut one = Channel::default();
        one.kind = text.to_string();
        one
    };
    for text in ["", "openai", " OpenAI-Compatible "] {
        assert_eq!(ApiProtocol::from_channel(&kind(text)), Some(ApiProtocol::OpenAI));
    }
    for text in ["Anthropic", "anthropic-api"] {
        assert_eq!(ApiProtocol::from_channel(&kind(text)), Some(ApiProtocol::Anthropic));
    }
    assert_eq!(ApiProtocol::from_channel(&kind("other")), None);
    let rank = |text: &str| ApiProtocol::channel_match_rank(&kind(text), ApiProtocol::OpenAI);
    assert_eq!((rank("openai"), rank("anthropic"), rank("other")), (0, 1, 2));
}

#[test]
fn models_are_offered() {
    let mut router = RouterConfig::default();
    router.external_allowed_models = vec![" m1 ".to_string(), "*".to_string(), "".to_string()];
    let mut off = channel(3, "hidden");
    off.status = "disabled".to_string();
    let channels = vec![channel(1, "z,m1, *"), channel(2, "a"), off];
    let ids = admin::offered_models_at(&router, &channels, 0);
    assert_eq!(ids, vec!["a", "m1", "z"]);
    let json = admin::list_models(&router, &channels);
    assert_eq!(
        json.to_text(),
        concat_models(&["a", "m1", "z"])
    );
}

fn concat_models(ids: &[&str]) -> String {
    let items: Vec<String> = ids
        .iter()
        .map(|id| format!(r#"{{"created":0,"id":"{id}","object":"model","owned_by":"obp"}}"#))
        .collect();
    format!(r#"{{"data":[{}],"object":"list"}}"#, items.join(","))
}

#[test]
fn keys_are_covered() {
    let mut open = channel(2, "*");
    open.key = "  ".to_string();
    let shown = admin::redacted_channels(&[channel(1, "*"), open]);
    assert_eq!(shown[0].key, "***");
    assert_eq!(shown[1].key, "  ");
    assert_eq!(shown[0].base, "https://up.test/");
}

#[test]
fn channels_are_added_replaced_and_deleted() {
    let mut channels = vec![channel(1, "*")];
    let added = admin::add_channel_as(&mut channels, channel(9, "x"), 2);
    assert_eq!(added.id, Some(2));
    assert_eq!(channels[1].models, "x");
    let timed = admin::add_channel(&mut channels, channel(9, "y"));
    assert!(timed.id.unwrap() > 1_600_000_000);
    assert_eq!(channels.len(), 3);
    let mut update = channel(7, "new");
    update.key = " *** ".to_string();
    assert!(admin::update_channel(&mut channels, 1, update.clone()));
    assert_eq!(channels[0].id, Some(1));
    assert_eq!(channels[0].models, "new");
    assert_eq!(channels[0].key, "sk-1");
    update.key = "fresh".to_string();
    assert!(admin::update_channel(&mut channels, 1, update.clone()));
    assert_eq!(channels[0].key, "fresh");
    assert!(!admin::update_channel(&mut channels, 404, update));
    admin::delete_channel(&mut channels, 1);
    assert_eq!(channels.len(), 2);
    assert_eq!(channels[0].id, Some(2));
    admin::delete_channel(&mut channels, 1);
    assert_eq!(channels.len(), 2);
}

#[test]
fn shown_channel_can_be_saved_again() {
    let mut channels = vec![channel(1, "*")];
    let shown = admin::redacted_channels(&channels).remove(0);
    assert!(admin::update_channel(&mut channels, 1, shown));
    assert_eq!(channels[0].key, "sk-1");
}

#[test]
fn tests_use_the_saved_key() {
    let channels = vec![channel(1, "*")];
    let mut given = channel(1, "*");
    given.key = "***".to_string();
    assert_eq!(admin::channel_to_test(given.clone(), &channels).key, "sk-1");
    given.id = Some(2);
    assert_eq!(admin::channel_to_test(given.clone(), &channels).key, "***");
    given.id = None;
    assert_eq!(admin::channel_to_test(given.clone(), &channels).key, "***");
    given.id = Some(1);
    given.key = "own".to_string();
    assert_eq!(admin::channel_to_test(given, &channels).key, "own");
}

#[test]
fn tests_are_noted() {
    let mut channels = vec![channel(1, "*")];
    assert!(admin::note_test_at(&mut channels, 1, true, 42));
    assert_eq!(channels[0].last_test, Some("42: ok".to_string()));
    assert!(admin::note_test(&mut channels, 1, false));
    assert!(channels[0].last_test.as_ref().unwrap().ends_with(": failed"));
    assert!(!admin::note_test_at(&mut channels, 2, true, 42));
    assert!(admin::now_label().parse::<u64>().unwrap() > 1_600_000_000);
    assert_eq!(admin::now_label_at(7), "7");
}

#[test]
fn test_addresses() {
    assert_eq!(
        admin::openai_chat_url("https://x.test"),
        "https://x.test/v1/chat/completions"
    );
    assert_eq!(
        admin::openai_chat_url("https://x.test/v1//"),
        "https://x.test/v1/chat/completions"
    );
    assert_eq!(
        admin::openai_chat_url("https://x.test/api/chat/completions"),
        "https://x.test/api/chat/completions"
    );
    assert_eq!(
        admin::anthropic_messages_url("https://x.test/v1"),
        "https://x.test/v1/messages"
    );
    assert_eq!(
        admin::anthropic_messages_url("https://x.test/messages/"),
        "https://x.test/messages"
    );
    assert_eq!(
        admin::anthropic_messages_url("https://x.test/mymessages"),
        "https://x.test/mymessages/v1/messages"
    );
}

fn planned(one: &Channel) -> admin::ChannelTest {
    let Ok(test) = admin::plan_channel_test(one, "small-model") else {
        panic!("not planned");
    };
    test
}

#[test]
fn channel_tests_are_planned() {
    let test = planned(&channel(1, "*"));
    assert_eq!(test.url, "https://up.test/v1/chat/completions");
    assert_eq!(test.model, "gpt-4o-mini");
    assert_eq!(
        test.headers,
        vec![("Authorization".to_string(), "Bearer sk-1".to_string())]
    );
    assert_eq!(
        test.body.unwrap().to_text(),
        r#"{"max_tokens":16,"messages":[{"content":"ping","role":"user"}],"model":"gpt-4o-mini","stream":false}"#
    );
    let mut anthropic = channel(1, "*");
    anthropic.kind = "Anthropic".to_string();
    anthropic.base = "https://api.Anthropic.com".to_string();
    let test = planned(&anthropic);
    assert_eq!(test.url, "https://api.Anthropic.com/v1/messages");
    assert_eq!(test.model, "small-model");
    assert_eq!(
        test.headers,
        vec![
            ("x-api-key".to_string(), "sk-1".to_string()),
            ("anthropic-version".to_string(), "2023-06-01".to_string()),
        ]
    );
    assert_eq!(
        test.body.unwrap().to_text(),
        r#"{"max_tokens":16,"messages":[{"content":"ping","role":"user"}],"model":"small-model"}"#
    );
    anthropic.models = "m1,m2".to_string();
    assert_eq!(planned(&anthropic).model, "m1");
    let mut other = channel(1, "*");
    other.kind = "other".to_string();
    let test = planned(&other);
    assert_eq!(test.url, "https://up.test");
    assert_eq!(test.model, "connectivity");
    assert!(test.body.is_none());
    assert_eq!(test.headers.len(), 2);
}

#[test]
fn channels_without_address_or_key_are_not_tested() {
    let refused = |one: &Channel| match admin::plan_channel_test(one, "m") {
        Ok(_) => panic!("planned"),
        Err(reason) => reason,
    };
    let mut one = channel(1, "*");
    one.key = "***".to_string();
    assert_eq!(refused(&one), "API Key 不能为空；编辑已保存渠道时可以保留 ***");
    one.base = " ".to_string();
    assert_eq!(refused(&one), "Base URL 不能为空");
}

#[test]
fn results_of_tests_are_told() {
    let answered = admin::response_to_test_result(200, " a\n b\t", "m", "u", 5_500_000);
    assert_eq!(
        answered.to_text(),
        r#"{"latency_ms":5,"message":"测试通过；模型 m；a b","model":"m","ok":true,"status":200,"url":"u"}"#
    );
    let failed = admin::response_to_test_result(404, "", "m", "u", 0);
    assert_eq!(failed.get("ok").unwrap().as_bool(), Some(false));
    assert_eq!(failed.text_member("message"), Some("测试失败；模型 m；"));
    let broken = admin::failed_test_result("dns", 1_000_000);
    assert_eq!(
        broken.to_text(),
        r#"{"latency_ms":1,"message":"请求失败：dns","ok":false,"status":0}"#
    );
    assert_eq!(
        admin::test_result(true, 1, "x", 0).to_text(),
        r#"{"latency_ms":0,"message":"x","ok":true,"status":1}"#
    );
}

#[test]
fn shown_text_is_compact() {
    for text in ["", "  ", "a", " a  b ", "a\u{3000}b\nc", "x y"] {
        let compact = text.split_whitespace().collect::<Vec<_>>().join(" ");
        assert_eq!(admin::trim_for_display(text), compact);
    }
    let long = "word ".repeat(100);
    assert_eq!(admin::trim_for_display(&long).chars().count(), 180);
}

#[test]
fn ranks_go_with_what_is_served() {
    let mut one = channel(1, "a, Ünï,,*");
    for mapping in ["", r#"{"b": "x"}"#] {
        one.model_mapping = mapping.to_string();
        for models in ["a, Ünï,,*", "*", "", " , "] {
            one.models = models.to_string();
            for desired in ["a", "b", "ünÏ", "c", "*"] {
                for requested in ["A", "b", "İ"] {
                    let (d, r) = one.model_match_rank(desired, requested);
                    assert!([0, 1, 3, 9].contains(&d) && [0, 1, 3, 9].contains(&r));
                    assert_eq!(one.model_match_rank(requested, desired), (r, d));
                    if d == 0 || d == 3 {
                        assert!(one.supports_model(desired));
                    }
                    if d == 9 {
                        assert!(!one.supports_model(desired));
                    }
                }
            }
        }
    }
}

#[test]
fn channels_are_asked_for_what_they_serve() {
    for models in ["*", "", "x, Ünï", "*,x", " , İ"] {
        let one = channel(1, models);
        for desired in ["", "x", "ünï", "other", "İ"] {
            for requested in ["", "X", "y"] {
                let asked = one.mapped_model(requested, desired);
                assert!(one.supports_model(&asked), "{models} {asked}");
                if !desired.is_empty() && one.supports_model(desired) {
                    assert_eq!(asked, desired);
                }
            }
        }
    }
}

#[test]
fn mappings_are_searched_by_ascending_key() {
    let built = Json::Object(vec![
        ("Ab".to_string(), Json::text("first listed")),
        ("AB".to_string(), Json::text("first in order")),
    ]);
    assert_eq!(
        channel::lookup_mapping(Some(&built), "ab"),
        Some("first in order".to_string())
    );
    assert_eq!(
        channel::lookup_mapping(Some(&built), "Ab"),
        Some("first listed".to_string())
    );
    let read = Json::parse_text(r#"{"Ab": "x", "AB": "y"}"#).unwrap();
    assert_eq!(channel::lookup_mapping(Some(&read), "ab"), Some("y".to_string()));
    assert_eq!(channel::lookup_mapping(Some(&Json::text("ab")), "ab"), None);
}
