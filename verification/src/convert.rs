//! Requests and responses of one wire format, turned into those of the other.
use crate::clock;
use crate::json;
use crate::json::{Json, JsonTree};
use crate::numeral;
use crate::protocol;
use crate::protocol::ApiProtocol;
use crate::text;
use vstd::prelude::*;
use vstd::string::*;

verus! {

/// The messages of an Anthropic request in the OpenAI format.
pub open spec fn plain_messages(items: Seq<JsonTree>) -> Seq<JsonTree> {
    Seq::new(
        items.len(),
        |i: int|
            protocol::message_tree(
                protocol::role_of(items[i]),
                protocol::content_member(items[i], "content"@),
            ),
    )
}

/// The items of the member `messages`; none where it is no array.
pub open spec fn messages_of(request: JsonTree) -> Seq<JsonTree> {
    match json::array_member(request, "messages"@) {
        Some(items) => items,
        None => Seq::empty(),
    }
}

/// The message that carries the system prompt of an Anthropic request.
pub open spec fn system_message(request: JsonTree) -> Seq<JsonTree> {
    let system = protocol::content_member(request, "system"@);
    if system.len() == 0 {
        Seq::empty()
    } else {
        seq![protocol::message_tree("system"@, system)]
    }
}

/// The members that an Anthropic request hands on, with their names in the OpenAI
/// format.
pub open spec fn to_openai_fields() -> Seq<(Seq<char>, Seq<char>)> {
    seq![
        ("max_tokens"@, "max_tokens"@),
        ("temperature"@, "temperature"@),
        ("top_p"@, "top_p"@),
        ("stream"@, "stream"@),
        ("stop_sequences"@, "stop"@),
    ]
}

/// An Anthropic request in the OpenAI format, for the model `model`.
pub open spec fn openai_request(request: JsonTree, model: Seq<char>) -> JsonTree {
    let members = seq![
        ("model"@, JsonTree::Text(model)),
        (
            "messages"@,
            JsonTree::Array(system_message(request) + plain_messages(messages_of(request))),
        ),
    ];
    protocol::with_model_defaults(
        JsonTree::Object(protocol::with_copies(request, members, to_openai_fields())),
        model,
    )
}

/// An Anthropic request in the OpenAI format, for the model `model`.
pub fn openai_request_from(request: &Json, model: &str) -> (r: Json)
    ensures
        r.tree() == openai_request(request.tree(), model@),
{
    let mut messages: Vec<Json> = Vec::new();
    let system: String = protocol::content_of(request, "system");
    if !system.as_str().is_empty() {
        messages.push(protocol::message("system", system.as_str()));
    }
    assert(json::trees(messages@) =~= system_message(request.tree()));
    if let Some(items) = request.array_member("messages") {
        let ghost all = json::trees(items@);
        let ghost head = system_message(request.tree());
        let mut i: usize = 0;
        assert(head + plain_messages(all).take(0) =~= head);
        while i < items.len()
            invariant
                i <= items@.len(),
                all == json::trees(items@),
                json::trees(messages@) == head + plain_messages(all).take(i as int),
            decreases items@.len() - i,
        {
            let role: String = protocol::role_in(&items[i]);
            let content: String = protocol::content_of(&items[i], "content");
            let ghost before = messages@;
            let next: Json = protocol::message(role.as_str(), content.as_str());
            messages.push(next);
            assert(json::trees(messages@) =~= json::trees(before).push(next.tree()));
            assert(json::trees(messages@) =~= head + plain_messages(all).take(i + 1));
            i += 1;
        }
        assert(plain_messages(all).take(all.len() as int) =~= plain_messages(all));
    } else {
        assert(system_message(request.tree()) + plain_messages(Seq::<JsonTree>::empty())
            =~= system_message(request.tree()));
    }
    let mut out: Json = protocol::object2(
        "model",
        Json::text(model),
        "messages",
        Json::Array(messages),
    );
    let fields: Vec<(&str, &str)> = vec![
        ("max_tokens", "max_tokens"),
        ("temperature", "temperature"),
        ("top_p", "top_p"),
        ("stream", "stream"),
        ("stop_sequences", "stop"),
    ];
    assert(protocol::name_pairs(fields@) =~= to_openai_fields());
    protocol::copy_json_fields(request, &mut out, &fields);
    protocol::apply_openai_model_defaults(&mut out, model);
    out
}

/// The bytes of an Anthropic request in the OpenAI format.
pub open spec fn openai_request_bytes(body: Seq<u8>, model: Seq<char>) -> Seq<u8> {
    match json::parsed_bytes(body) {
        Some(request) => protocol::bytes_or(
            openai_request(request, model),
            protocol::openai_rewritten(body, model),
        ),
        None => body,
    }
}

/// The bytes of an Anthropic request in the OpenAI format; what is not JSON stays
/// as it is.
pub fn anthropic_request_to_openai(body: &[u8], model: &str) -> (r: Vec<u8>)
    ensures
        r@ == openai_request_bytes(body@, model@),
{
    match Json::parse(body) {
        Some(request) => protocol::json_bytes_or(
            &openai_request_from(&request, model),
            protocol::rewrite_openai_model(body, model),
        ),
        None => protocol::rewrite_openai_model(body, model),
    }
}

/// The system prompts among the messages of an OpenAI request.
pub open spec fn system_prompts(items: Seq<JsonTree>) -> Seq<Seq<char>>
    decreases items.len(),
{
    if items.len() == 0 {
        Seq::empty()
    } else {
        let before = system_prompts(items.drop_last());
        let content = protocol::content_member(items.last(), "content"@);
        if protocol::role_of(items.last()) == "system"@ && content.len() > 0 {
            before.push(content)
        } else {
            before
        }
    }
}

/// The other messages of an OpenAI request, each from the assistant or the user.
pub open spec fn dialogue(items: Seq<JsonTree>) -> Seq<JsonTree>
    decreases items.len(),
{
    if items.len() == 0 {
        Seq::empty()
    } else {
        let before = dialogue(items.drop_last());
        let role = protocol::role_of(items.last());
        if role == "system"@ {
            before
        } else {
            before.push(
                protocol::message_tree(
                    if role == "assistant"@ {
                        "assistant"@
                    } else {
                        "user"@
                    },
                    protocol::content_member(items.last(), "content"@),
                ),
            )
        }
    }
}

/// The limit on the answer of an OpenAI request; 4096 tokens where none is given.
pub open spec fn answer_limit(request: JsonTree) -> JsonTree {
    match request.get("max_tokens"@) {
        Some(limit) => limit,
        None => match request.get("max_completion_tokens"@) {
            Some(limit) => limit,
            None => JsonTree::Number(json::whole_number(4096)),
        },
    }
}

/// The members that an OpenAI request hands on, with their names in the Anthropic
/// format.
pub open spec fn to_anthropic_fields() -> Seq<(Seq<char>, Seq<char>)> {
    seq![
        ("temperature"@, "temperature"@),
        ("top_p"@, "top_p"@),
        ("stream"@, "stream"@),
        ("stop"@, "stop_sequences"@),
    ]
}

/// An OpenAI request in the Anthropic format, for the model `model`.
pub open spec fn anthropic_request(request: JsonTree, model: Seq<char>) -> JsonTree {
    let items = messages_of(request);
    let prompts = system_prompts(items);
    let members = seq![
        ("model"@, JsonTree::Text(model)),
        ("max_tokens"@, answer_limit(request)),
        ("messages"@, JsonTree::Array(dialogue(items))),
    ];
    let with_system = if prompts.len() == 0 {
        members
    } else {
        members.push(("system"@, JsonTree::Text(text::joined(prompts, "\n\n"@))))
    };
    JsonTree::Object(protocol::with_copies(request, with_system, to_anthropic_fields()))
}

/// An OpenAI request in the Anthropic format, for the model `model`.
pub fn anthropic_request_from(request: &Json, model: &str) -> (r: Json)
    ensures
        r.tree() == anthropic_request(request.tree(), model@),
{
    let mut messages: Vec<Json> = Vec::new();
    let mut prompts: Vec<String> = Vec::new();
    assert(json::trees(messages@) =~= Seq::<JsonTree>::empty());
    assert(text::texts(prompts@) =~= Seq::<Seq<char>>::empty());
    if let Some(items) = request.array_member("messages") {
        let ghost all = json::trees(items@);
        let mut i: usize = 0;
        assert(all.take(0) =~= Seq::<JsonTree>::empty());
        while i < items.len()
            invariant
                i <= items@.len(),
                all == json::trees(items@),
                json::trees(messages@) == dialogue(all.take(i as int)),
                text::texts(prompts@) == system_prompts(all.take(i as int)),
            decreases items@.len() - i,
        {
            assert(all.take(i + 1).drop_last() =~= all.take(i as int));
            let role: String = protocol::role_in(&items[i]);
            let content: String = protocol::content_of(&items[i], "content");
            if text::same_text(role.as_str(), "system") {
                if !content.as_str().is_empty() {
                    let ghost before = prompts@;
                    let ghost prompt = content;
                    prompts.push(content);
                    assert(text::texts(prompts@) =~= text::texts(before).push(prompt@));
                }
            } else {
                let speaker: &str = if text::same_text(role.as_str(), "assistant") {
                    "assistant"
                } else {
                    "user"
                };
                let ghost before = messages@;
                let next: Json = protocol::message(speaker, content.as_str());
                messages.push(next);
                assert(json::trees(messages@) =~= json::trees(before).push(next.tree()));
            }
            i += 1;
        }
        assert(all.take(all.len() as int) =~= all);
    }
    let limit: Json = match request.get("max_tokens") {
        Some(limit) => limit.copied(),
        None => match request.get("max_completion_tokens") {
            Some(limit) => limit.copied(),
            None => Json::whole(4096),
        },
    };
    let mut members: Vec<(String, Json)> = vec![
        ("model".to_owned(), Json::text(model)),
        ("max_tokens".to_owned(), limit),
        ("messages".to_owned(), Json::Array(messages)),
    ];
    let ghost start = seq![
        ("model"@, JsonTree::Text(model@)),
        ("max_tokens"@, answer_limit(request.tree())),
        ("messages"@, JsonTree::Array(dialogue(messages_of(request.tree())))),
    ];
    assert(json::member_trees(members@) =~= start);
    if prompts.len() > 0 {
        let ghost before = members@;
        let system: Json = Json::Text(text::join(&prompts, "\n\n"));
        members.push(("system".to_owned(), system));
        assert(json::member_trees(members@) =~= start.push(("system"@, system.tree())));
    }
    let mut out: Json = Json::Object(members);
    let fields: Vec<(&str, &str)> = vec![
        ("temperature", "temperature"),
        ("top_p", "top_p"),
        ("stream", "stream"),
        ("stop", "stop_sequences"),
    ];
    assert(protocol::name_pairs(fields@) =~= to_anthropic_fields());
    protocol::copy_json_fields(request, &mut out, &fields);
    out
}

/// The bytes of an OpenAI request in the Anthropic format.
pub open spec fn anthropic_request_bytes(body: Seq<u8>, model: Seq<char>) -> Seq<u8> {
    match json::parsed_bytes(body) {
        Some(request) => protocol::bytes_or(
            anthropic_request(request, model),
            protocol::anthropic_rewritten(body, model),
        ),
        None => body,
    }
}

/// The bytes of an OpenAI request in the Anthropic format; what is not JSON stays
/// as it is.
pub fn openai_request_to_anthropic(body: &[u8], model: &str) -> (r: Vec<u8>)
    ensures
        r@ == anthropic_request_bytes(body@, model@),
{
    match Json::parse(body) {
        Some(request) => protocol::json_bytes_or(
            &anthropic_request_from(&request, model),
            protocol::rewrite_model(body, model),
        ),
        None => protocol::rewrite_model(body, model),
    }
}

/// The request of a client as it goes upstream.
pub open spec fn upstream_body(
    body: Seq<u8>,
    model: Seq<char>,
    client: ApiProtocol,
    upstream: ApiProtocol,
) -> Seq<u8> {
    match (client, upstream) {
        (ApiProtocol::OpenAI, ApiProtocol::OpenAI) => protocol::openai_rewritten(body, model),
        (ApiProtocol::Anthropic, ApiProtocol::Anthropic) => protocol::anthropic_rewritten(
            body,
            model,
        ),
        (ApiProtocol::Anthropic, ApiProtocol::OpenAI) => openai_request_bytes(body, model),
        (ApiProtocol::OpenAI, ApiProtocol::Anthropic) => anthropic_request_bytes(body, model),
    }
}

/// The request of a client as it goes upstream: for the model `model`, in the
/// format of the upstream endpoint.
pub fn rewrite_body_for_upstream(
    body: &[u8],
    model: &str,
    client_protocol: ApiProtocol,
    upstream_protocol: ApiProtocol,
) -> (r: Vec<u8>)
    ensures
        r@ == upstream_body(body@, model@, client_protocol, upstream_protocol),
{
    match (client_protocol, upstream_protocol) {
        (ApiProtocol::OpenAI, ApiProtocol::OpenAI) => protocol::rewrite_openai_model(body, model),
        (ApiProtocol::Anthropic, ApiProtocol::Anthropic) => protocol::rewrite_model(body, model),
        (ApiProtocol::Anthropic, ApiProtocol::OpenAI) => anthropic_request_to_openai(body, model),
        (ApiProtocol::OpenAI, ApiProtocol::Anthropic) => openai_request_to_anthropic(body, model),
    }
}

/// What `reason` is called on the other side.
pub open spec fn renamed(
    reason: Option<Seq<char>>,
    mappings: Seq<(Seq<char>, Seq<char>)>,
    default: Seq<char>,
) -> Seq<char>
    decreases mappings.len(),
{
    if mappings.len() == 0 {
        default
    } else if reason == Some(mappings[0].0) {
        mappings[0].1
    } else {
        renamed(reason, mappings.skip(1), default)
    }
}

/// What `reason` is called on the other side.
pub fn mapped_reason(reason: Option<&str>, mappings: &Vec<(&str, &str)>, default: &str) -> (r: Json)
    ensures
        r.tree() == JsonTree::Text(
            renamed(text::maybe_str(reason), protocol::name_pairs(mappings@), default@),
        ),
{
    if let Some(given) = reason {
        let ghost all = protocol::name_pairs(mappings@);
        let mut i: usize = 0;
        assert(all.skip(0) =~= all);
        while i < mappings.len()
            invariant
                i <= mappings@.len(),
                all == protocol::name_pairs(mappings@),
                reason == Some(given),
                renamed(Some(given@), all, default@) == renamed(
                    Some(given@),
                    all.skip(i as int),
                    default@,
                ),
            decreases mappings@.len() - i,
        {
            if text::same_text(given, mappings[i].0) {
                return Json::text(mappings[i].1);
            }
            assert(all.skip(i as int).skip(1) =~= all.skip(i + 1));
            i += 1;
        }
        Json::text(default)
    } else {
        proof {
            lemma_unnamed(protocol::name_pairs(mappings@), default@);
        }
        Json::text(default)
    }
}

proof fn lemma_unnamed(mappings: Seq<(Seq<char>, Seq<char>)>, default: Seq<char>)
    ensures
        renamed(None, mappings, default) == default,
    decreases mappings.len(),
{
    if mappings.len() > 0 {
        lemma_unnamed(mappings.skip(1), default);
    }
}

/// The first item of the member `key`, where it is an array that has one.
pub open spec fn first_item(tree: JsonTree, key: Seq<char>) -> Option<JsonTree> {
    match json::array_member(tree, key) {
        Some(items) => if items.len() > 0 {
            Some(items[0])
        } else {
            None
        },
        None => None,
    }
}

/// The member `key` of `tree`, or the text `fallback` where there is none.
pub open spec fn member_or(tree: JsonTree, key: Seq<char>, fallback: Seq<char>) -> JsonTree {
    match tree.get(key) {
        Some(value) => value,
        None => JsonTree::Text(fallback),
    }
}

/// The whole number `n`.
pub open spec fn number_tree(n: u64) -> JsonTree {
    JsonTree::Number(json::whole_number(n))
}

/// The parts of the answer of an OpenAI response: what the model thought, where
/// it says so, and the text.
pub open spec fn answer_parts(message: Option<JsonTree>) -> Seq<JsonTree> {
    let said = match message {
        Some(value) => protocol::content_member(value, "content"@),
        None => Seq::<char>::empty(),
    };
    let part = JsonTree::Object(
        seq![("type"@, JsonTree::Text("text"@)), ("text"@, JsonTree::Text(said))],
    );
    match json::text_in(json::member_of(message, "reasoning_content"@)) {
        Some(thought) if thought.len() > 0 => seq![
            JsonTree::Object(
                seq![
                    ("type"@, JsonTree::Text("thinking"@)),
                    ("thinking"@, JsonTree::Text(thought)),
                ],
            ),
            part,
        ],
        _ => seq![part],
    }
}

/// Where an OpenAI response gives the size of the prompt.
pub open spec fn openai_prompt_paths() -> Seq<Seq<Seq<char>>> {
    seq![seq!["prompt_tokens"@], seq!["input_tokens"@]]
}

/// Where an OpenAI response gives the size of the answer.
pub open spec fn openai_answer_paths() -> Seq<Seq<Seq<char>>> {
    seq![seq!["completion_tokens"@], seq!["output_tokens"@]]
}

/// Where an OpenAI response gives the part of the prompt that was in a cache.
pub open spec fn openai_cached_paths() -> Seq<Seq<Seq<char>>> {
    seq![
        seq!["prompt_tokens_details"@, "cached_tokens"@],
        seq!["input_tokens_details"@, "cached_tokens"@],
        seq!["cache_read_input_tokens"@],
    ]
}

/// Why an OpenAI response ended, in the words of the Anthropic format.
pub open spec fn stop_reasons() -> Seq<(Seq<char>, Seq<char>)> {
    seq![("length"@, "max_tokens"@), ("tool_calls"@, "tool_use"@)]
}

/// The tokens of an OpenAI response, in the Anthropic format.
pub open spec fn anthropic_usage(usage: Option<JsonTree>) -> JsonTree {
    JsonTree::Object(
        seq![
            ("input_tokens"@, number_tree(json::first_number(usage, openai_prompt_paths()))),
            ("output_tokens"@, number_tree(json::first_number(usage, openai_answer_paths()))),
            ("cache_creation_input_tokens"@, number_tree(0)),
            (
                "cache_read_input_tokens"@,
                number_tree(json::first_number(usage, openai_cached_paths())),
            ),
        ],
    )
}

/// An OpenAI response in the Anthropic format, at the time `now`.
pub open spec fn anthropic_response(response: JsonTree, now: u64) -> JsonTree {
    let choice = first_item(response, "choices"@);
    JsonTree::Object(
        seq![
            ("id"@, member_or(response, "id"@, "msg_"@ + numeral::decimal(now as int))),
            ("type"@, JsonTree::Text("message"@)),
            ("role"@, JsonTree::Text("assistant"@)),
            ("model"@, member_or(response, "model"@, "unknown"@)),
            ("content"@, JsonTree::Array(answer_parts(json::member_of(choice, "message"@)))),
            (
                "stop_reason"@,
                JsonTree::Text(
                    renamed(
                        json::text_in(json::member_of(choice, "finish_reason"@)),
                        stop_reasons(),
                        "end_turn"@,
                    ),
                ),
            ),
            ("usage"@, anthropic_usage(response.get("usage"@))),
        ],
    )
}

/// The first item of the member `key`.
fn first_of<'a>(value: &'a Json, key: &str) -> (r: Option<&'a Json>)
    ensures
        json::maybe_tree_ref(r) == first_item(value.tree(), key@),
{
    match value.array_member(key) {
        Some(items) => if items.len() > 0 {
            Some(&items[0])
        } else {
            None
        },
        None => None,
    }
}

/// The member `key` of `value`, or the text `fallback` where there is none.
fn copy_or(value: &Json, key: &str, fallback: &str) -> (r: Json)
    ensures
        r.tree() == member_or(value.tree(), key@, fallback@),
{
    match value.get(key) {
        Some(found) => found.copied(),
        None => Json::text(fallback),
    }
}

proof fn lemma_read_number(
    usage: JsonTree,
    key: Seq<char>,
    n: u64,
    paths: Seq<Seq<Seq<char>>>,
)
    requires
        usage.get(key) == Some(number_tree(n)),
        number_tree(n).as_u64() == Some(n),
        paths.len() > 0,
        paths[0] == seq![key],
    ensures
        json::first_number(Some(usage), paths) == n,
{
    let path = paths[0];
    assert(path.skip(1) =~= Seq::<Seq<char>>::empty());
    assert(json::at_path(usage.get(key), path.skip(1)) == usage.get(key));
    assert(json::at_path(Some(usage), path) == usage.get(key));
}

proof fn lemma_read_nested_number(
    usage: JsonTree,
    outer: Seq<char>,
    key: Seq<char>,
    n: u64,
    paths: Seq<Seq<Seq<char>>>,
)
    requires
        json::member_of(usage.get(outer), key) == Some(number_tree(n)),
        number_tree(n).as_u64() == Some(n),
        paths.len() > 0,
        paths[0] == seq![outer, key],
    ensures
        json::first_number(Some(usage), paths) == n,
{
    let path = paths[0];
    let rest = path.skip(1);
    assert(rest =~= seq![key]);
    assert(rest.skip(1) =~= Seq::<Seq<char>>::empty());
    let inner = usage.get(outer);
    assert(json::at_path(inner->0.get(key), rest.skip(1)) == inner->0.get(key));
    assert(json::at_path(inner, rest) == inner->0.get(key));
    assert(json::at_path(Some(usage), path) == inner->0.get(key));
}

proof fn lemma_anthropic_usage_found(response: JsonTree, now: u64)
    ensures
        ({
            let source = response.get("usage"@);
            let usage = anthropic_usage(source);
            &&& anthropic_response(response, now).get("usage"@) == Some(usage)
            &&& usage.get("input_tokens"@) == Some(
                number_tree(json::first_number(source, openai_prompt_paths())),
            )
            &&& usage.get("output_tokens"@) == Some(
                number_tree(json::first_number(source, openai_answer_paths())),
            )
            &&& usage.get("cache_read_input_tokens"@) == Some(
                number_tree(json::first_number(source, openai_cached_paths())),
            )
        }),
{
    reveal_strlit("id");
    reveal_strlit("type");
    reveal_strlit("role");
    reveal_strlit("model");
    reveal_strlit("content");
    reveal_strlit("stop_reason");
    reveal_strlit("usage");
    reveal_strlit("input_tokens");
    reveal_strlit("output_tokens");
    reveal_strlit("cache_creation_input_tokens");
    reveal_strlit("cache_read_input_tokens");
    let members = anthropic_response(response, now)->Object_0;
    assert("model"@[0] == 'm' && "usage"@[0] == 'u');
    json::lemma_place_of(members, "usage"@, 6);
    assert("input_tokens"@.len() == 12 && "output_tokens"@.len() == 13);
    assert("cache_creation_input_tokens"@.len() == 27 && "cache_read_input_tokens"@.len() == 23);
    let tokens = anthropic_usage(response.get("usage"@))->Object_0;
    json::lemma_place_of(tokens, "input_tokens"@, 0);
    json::lemma_place_of(tokens, "output_tokens"@, 1);
    json::lemma_place_of(tokens, "cache_read_input_tokens"@, 3);
}

/// An OpenAI response in the Anthropic format, at the time `now`. The tokens that
/// it tells of are those of the OpenAI response.
pub fn anthropic_response_from(response: &Json, now: u64) -> (r: Json)
    ensures
        r.tree() == anthropic_response(response.tree(), now),
        json::first_number(r.tree().get("usage"@), anthropic_prompt_paths()) == json::first_number(
            response.tree().get("usage"@),
            openai_prompt_paths(),
        ),
        json::first_number(r.tree().get("usage"@), anthropic_answer_paths()) == json::first_number(
            response.tree().get("usage"@),
            openai_answer_paths(),
        ),
        json::first_number(r.tree().get("usage"@), anthropic_cached_paths()) == json::first_number(
            response.tree().get("usage"@),
            openai_cached_paths(),
        ),
{
    let choice: Option<&Json> = first_of(response, "choices");
    let message: Option<&Json> = json::member_in(choice, "message");
    let said: String = match message {
        Some(message) => protocol::content_of(message, "content"),
        None => String::new(),
    };
    let thought: &str = match json::text_found(json::member_in(message, "reasoning_content")) {
        Some(thought) => thought,
        None => {
            proof {
                reveal_strlit("");
            }
            ""
        },
    };
    let mut content: Vec<Json> = Vec::new();
    if !thought.is_empty() {
        content.push(
            protocol::object2("type", Json::text("thinking"), "thinking", Json::text(thought)),
        );
    }
    content.push(
        protocol::object2("type", Json::text("text"), "text", Json::text(said.as_str())),
    );
    assert(json::trees(content@) =~= answer_parts(json::maybe_tree_ref(message)));
    let usage: Option<&Json> = response.get("usage");
    let paths: Vec<Vec<&str>> = vec![vec!["prompt_tokens"], vec!["input_tokens"]];
    assert(json::path_names(paths@) =~~= openai_prompt_paths());
    let input_tokens: u64 = json::first_u64(usage, &paths);
    let paths: Vec<Vec<&str>> = vec![vec!["completion_tokens"], vec!["output_tokens"]];
    assert(json::path_names(paths@) =~~= openai_answer_paths());
    let output_tokens: u64 = json::first_u64(usage, &paths);
    let paths: Vec<Vec<&str>> = vec![
        vec!["prompt_tokens_details", "cached_tokens"],
        vec!["input_tokens_details", "cached_tokens"],
        vec!["cache_read_input_tokens"],
    ];
    assert(json::path_names(paths@) =~~= openai_cached_paths());
    let cached_tokens: u64 = json::first_u64(usage, &paths);
    let tokens: Vec<(String, Json)> = vec![
        ("input_tokens".to_owned(), Json::whole(input_tokens)),
        ("output_tokens".to_owned(), Json::whole(output_tokens)),
        ("cache_creation_input_tokens".to_owned(), Json::whole(0)),
        ("cache_read_input_tokens".to_owned(), Json::whole(cached_tokens)),
    ];
    assert(json::member_trees(tokens@) =~= anthropic_usage(
        response.tree().get("usage"@),
    )->Object_0);
    let reasons: Vec<(&str, &str)> = vec![("length", "max_tokens"), ("tool_calls", "tool_use")];
    assert(protocol::name_pairs(reasons@) =~= stop_reasons());
    let made_up: String = text::concat2("msg_", numeral::to_decimal(now as u128).as_str());
    let members: Vec<(String, Json)> = vec![
        ("id".to_owned(), copy_or(response, "id", made_up.as_str())),
        ("type".to_owned(), Json::text("message")),
        ("role".to_owned(), Json::text("assistant")),
        ("model".to_owned(), copy_or(response, "model", "unknown")),
        ("content".to_owned(), Json::Array(content)),
        (
            "stop_reason".to_owned(),
            mapped_reason(json::text_found(json::member_in(choice, "finish_reason")), &reasons, "end_turn"),
        ),
        ("usage".to_owned(), Json::Object(tokens)),
    ];
    assert(json::member_trees(members@) =~= anthropic_response(response.tree(), now)->Object_0);
    proof {
        lemma_anthropic_usage_found(response.tree(), now);
        let usage = anthropic_usage(response.tree().get("usage"@));
        lemma_read_number(usage, "input_tokens"@, input_tokens, anthropic_prompt_paths());
        lemma_read_number(usage, "output_tokens"@, output_tokens, anthropic_answer_paths());
        lemma_read_number(
            usage,
            "cache_read_input_tokens"@,
            cached_tokens,
            anthropic_cached_paths(),
        );
    }
    Json::Object(members)
}

/// Where an Anthropic response gives the size of the prompt.
pub open spec fn anthropic_prompt_paths() -> Seq<Seq<Seq<char>>> {
    seq![seq!["input_tokens"@], seq!["prompt_tokens"@]]
}

/// Where an Anthropic response gives the size of the answer.
pub open spec fn anthropic_answer_paths() -> Seq<Seq<Seq<char>>> {
    seq![seq!["output_tokens"@], seq!["completion_tokens"@]]
}

/// Where an Anthropic response gives the part of the prompt that was in a cache.
pub open spec fn anthropic_cached_paths() -> Seq<Seq<Seq<char>>> {
    seq![
        seq!["cache_read_input_tokens"@],
        seq!["cached_tokens"@],
        seq!["prompt_tokens_details"@, "cached_tokens"@],
    ]
}

/// Why an Anthropic response ended, in the words of the OpenAI format.
pub open spec fn finish_reasons() -> Seq<(Seq<char>, Seq<char>)> {
    seq![("max_tokens"@, "length"@), ("tool_use"@, "tool_calls"@)]
}

/// The tokens of an Anthropic response, in the OpenAI format.
pub open spec fn openai_usage(usage: Option<JsonTree>) -> JsonTree {
    let prompt = json::first_number(usage, anthropic_prompt_paths());
    let answer = json::first_number(usage, anthropic_answer_paths());
    JsonTree::Object(
        seq![
            ("prompt_tokens"@, number_tree(prompt)),
            ("completion_tokens"@, number_tree(answer)),
            ("total_tokens"@, number_tree(prompt.saturating_add(answer))),
            (
                "prompt_tokens_details"@,
                JsonTree::Object(
                    seq![
                        (
                            "cached_tokens"@,
                            number_tree(json::first_number(usage, anthropic_cached_paths())),
                        ),
                    ],
                ),
            ),
        ],
    )
}

/// The answer of an Anthropic response, in the OpenAI format.
pub open spec fn openai_choice(response: JsonTree) -> JsonTree {
    JsonTree::Object(
        seq![
            ("index"@, number_tree(0)),
            (
                "message"@,
                protocol::message_tree(
                    "assistant"@,
                    protocol::content_member(response, "content"@),
                ),
            ),
            (
                "finish_reason"@,
                JsonTree::Text(
                    renamed(
                        json::text_member(response, "stop_reason"@),
                        finish_reasons(),
                        "stop"@,
                    ),
                ),
            ),
        ],
    )
}

/// An Anthropic response in the OpenAI format, at the time `now`.
pub open spec fn openai_response(response: JsonTree, now: u64) -> JsonTree {
    JsonTree::Object(
        seq![
            ("id"@, member_or(response, "id"@, "chatcmpl-"@ + numeral::decimal(now as int))),
            ("object"@, JsonTree::Text("chat.completion"@)),
            ("created"@, number_tree(now)),
            ("model"@, member_or(response, "model"@, "unknown"@)),
            ("choices"@, JsonTree::Array(seq![openai_choice(response)])),
            ("usage"@, openai_usage(response.get("usage"@))),
        ],
    )
}

proof fn lemma_openai_usage_found(response: JsonTree, now: u64)
    ensures
        ({
            let source = response.get("usage"@);
            let usage = openai_usage(source);
            &&& openai_response(response, now).get("usage"@) == Some(usage)
            &&& usage.get("prompt_tokens"@) == Some(
                number_tree(json::first_number(source, anthropic_prompt_paths())),
            )
            &&& usage.get("completion_tokens"@) == Some(
                number_tree(json::first_number(source, anthropic_answer_paths())),
            )
            &&& json::member_of(usage.get("prompt_tokens_details"@), "cached_tokens"@) == Some(
                number_tree(json::first_number(source, anthropic_cached_paths())),
            )
        }),
{
    reveal_strlit("id");
    reveal_strlit("object");
    reveal_strlit("created");
    reveal_strlit("model");
    reveal_strlit("choices");
    reveal_strlit("usage");
    reveal_strlit("prompt_tokens");
    reveal_strlit("completion_tokens");
    reveal_strlit("total_tokens");
    reveal_strlit("prompt_tokens_details");
    let members = openai_response(response, now)->Object_0;
    assert("model"@[0] == 'm' && "usage"@[0] == 'u');
    json::lemma_place_of(members, "usage"@, 5);
    assert("prompt_tokens"@.len() == 13 && "completion_tokens"@.len() == 17);
    assert("total_tokens"@.len() == 12 && "prompt_tokens_details"@.len() == 21);
    let tokens = openai_usage(response.get("usage"@))->Object_0;
    json::lemma_place_of(tokens, "prompt_tokens"@, 0);
    json::lemma_place_of(tokens, "completion_tokens"@, 1);
    json::lemma_place_of(tokens, "prompt_tokens_details"@, 3);
    json::lemma_place_of(tokens[3].1->Object_0, "cached_tokens"@, 0);
}

/// An Anthropic response in the OpenAI format, at the time `now`. The tokens that
/// it tells of are those of the Anthropic response.
pub fn openai_response_from(response: &Json, now: u64) -> (r: Json)
    ensures
        r.tree() == openai_response(response.tree(), now),
        json::first_number(r.tree().get("usage"@), openai_prompt_paths()) == json::first_number(
            response.tree().get("usage"@),
            anthropic_prompt_paths(),
        ),
        json::first_number(r.tree().get("usage"@), openai_answer_paths()) == json::first_number(
            response.tree().get("usage"@),
            anthropic_answer_paths(),
        ),
        json::first_number(r.tree().get("usage"@), openai_cached_paths()) == json::first_number(
            response.tree().get("usage"@),
            anthropic_cached_paths(),
        ),
{
    let content: String = protocol::content_of(response, "content");
    let usage: Option<&Json> = response.get("usage");
    let paths: Vec<Vec<&str>> = vec![vec!["input_tokens"], vec!["prompt_tokens"]];
    assert(json::path_names(paths@) =~~= anthropic_prompt_paths());
    let prompt_tokens: u64 = json::first_u64(usage, &paths);
    let paths: Vec<Vec<&str>> = vec![vec!["output_tokens"], vec!["completion_tokens"]];
    assert(json::path_names(paths@) =~~= anthropic_answer_paths());
    let completion_tokens: u64 = json::first_u64(usage, &paths);
    let paths: Vec<Vec<&str>> = vec![
        vec!["cache_read_input_tokens"],
        vec!["cached_tokens"],
        vec!["prompt_tokens_details", "cached_tokens"],
    ];
    assert(json::path_names(paths@) =~~= anthropic_cached_paths());
    let cached_tokens: u64 = json::first_u64(usage, &paths);
    let details: Vec<(String, Json)> = vec![
        ("cached_tokens".to_owned(), Json::whole(cached_tokens)),
    ];
    assert(json::member_trees(details@) =~= seq![("cached_tokens"@, number_tree(cached_tokens))]);
    let tokens: Vec<(String, Json)> = vec![
        ("prompt_tokens".to_owned(), Json::whole(prompt_tokens)),
        ("completion_tokens".to_owned(), Json::whole(completion_tokens)),
        (
            "total_tokens".to_owned(),
            Json::whole(prompt_tokens.saturating_add(completion_tokens)),
        ),
        ("prompt_tokens_details".to_owned(), Json::Object(details)),
    ];
    assert(json::member_trees(tokens@) =~= openai_usage(response.tree().get("usage"@))->Object_0);
    let reasons: Vec<(&str, &str)> = vec![("max_tokens", "length"), ("tool_use", "tool_calls")];
    assert(protocol::name_pairs(reasons@) =~= finish_reasons());
    let choice: Vec<(String, Json)> = vec![
        ("index".to_owned(), Json::whole(0)),
        ("message".to_owned(), protocol::message("assistant", content.as_str())),
        (
            "finish_reason".to_owned(),
            mapped_reason(response.text_member("stop_reason"), &reasons, "stop"),
        ),
    ];
    assert(json::member_trees(choice@) =~= openai_choice(response.tree())->Object_0);
    let choices: Vec<Json> = vec![Json::Object(choice)];
    assert(json::trees(choices@) =~= seq![openai_choice(response.tree())]);
    let made_up: String = text::concat2("chatcmpl-", numeral::to_decimal(now as u128).as_str());
    let members: Vec<(String, Json)> = vec![
        ("id".to_owned(), copy_or(response, "id", made_up.as_str())),
        ("object".to_owned(), Json::text("chat.completion")),
        ("created".to_owned(), Json::whole(now)),
        ("model".to_owned(), copy_or(response, "model", "unknown")),
        ("choices".to_owned(), Json::Array(choices)),
        ("usage".to_owned(), Json::Object(tokens)),
    ];
    assert(json::member_trees(members@) =~= openai_response(response.tree(), now)->Object_0);
    proof {
        lemma_openai_usage_found(response.tree(), now);
        let usage = openai_usage(response.tree().get("usage"@));
        lemma_read_number(usage, "prompt_tokens"@, prompt_tokens, openai_prompt_paths());
        lemma_read_number(usage, "completion_tokens"@, completion_tokens, openai_answer_paths());
        lemma_read_nested_number(
            usage,
            "prompt_tokens_details"@,
            "cached_tokens"@,
            cached_tokens,
            openai_cached_paths(),
        );
    }
    Json::Object(members)
}

/// The bytes of an OpenAI response in the Anthropic format.
pub open spec fn anthropic_response_bytes(body: Seq<u8>, now: u64) -> Seq<u8> {
    match json::parsed_bytes(body) {
        Some(response) => protocol::bytes_or(anthropic_response(response, now), body),
        None => body,
    }
}

/// The bytes of an Anthropic response in the OpenAI format.
pub open spec fn openai_response_bytes(body: Seq<u8>, now: u64) -> Seq<u8> {
    match json::parsed_bytes(body) {
        Some(response) => protocol::bytes_or(openai_response(response, now), body),
        None => body,
    }
}

/// The bytes of an OpenAI response in the Anthropic format, at the time `now`;
/// what is not JSON stays as it is.
pub fn openai_response_to_anthropic(body: &[u8], now: u64) -> (r: Vec<u8>)
    ensures
        r@ == anthropic_response_bytes(body@, now),
{
    match Json::parse(body) {
        Some(response) => protocol::json_bytes_or(
            &anthropic_response_from(&response, now),
            protocol::copy_bytes(body),
        ),
        None => protocol::copy_bytes(body),
    }
}

/// The bytes of an Anthropic response in the OpenAI format, at the time `now`;
/// what is not JSON stays as it is.
pub fn anthropic_response_to_openai(body: &[u8], now: u64) -> (r: Vec<u8>)
    ensures
        r@ == openai_response_bytes(body@, now),
{
    match Json::parse(body) {
        Some(response) => protocol::json_bytes_or(
            &openai_response_from(&response, now),
            protocol::copy_bytes(body),
        ),
        None => protocol::copy_bytes(body),
    }
}

/// The response of an upstream endpoint as it goes to the client.
pub open spec fn client_body(
    body: Seq<u8>,
    status: u16,
    client: ApiProtocol,
    upstream: ApiProtocol,
    now: u64,
) -> Seq<u8> {
    if client == upstream || !(200 <= status < 300) {
        body
    } else if client == ApiProtocol::Anthropic {
        anthropic_response_bytes(body, now)
    } else {
        openai_response_bytes(body, now)
    }
}

/// The response of an upstream endpoint as it goes to the client, at the time
/// `now`: in the format of the client, where it tells of success.
pub fn rewrite_response_for_client_at(
    body: &[u8],
    status: u16,
    client_protocol: ApiProtocol,
    upstream_protocol: ApiProtocol,
    now: u64,
) -> (r: Vec<u8>)
    ensures
        r@ == client_body(body@, status, client_protocol, upstream_protocol, now),
{
    if client_protocol == upstream_protocol || status < 200 || status >= 300 {
        return protocol::copy_bytes(body);
    }
    match client_protocol {
        ApiProtocol::Anthropic => openai_response_to_anthropic(body, now),
        ApiProtocol::OpenAI => anthropic_response_to_openai(body, now),
    }
}

/// The response of an upstream endpoint as it goes to the client now.
pub fn rewrite_response_for_client(
    body: &[u8],
    status: u16,
    client_protocol: ApiProtocol,
    upstream_protocol: ApiProtocol,
) -> (r: Vec<u8>)
    ensures
        exists|now: u64|
            r@ == #[trigger] client_body(body@, status, client_protocol, upstream_protocol, now),
{
    let now: u64 = clock::unix_now_secs();
    rewrite_response_for_client_at(body, status, client_protocol, upstream_protocol, now)
}

/// A response goes to the client as it came where both sides speak the same
/// format, and where it does not tell of success.
pub proof fn law_response_passes_through(
    body: Seq<u8>,
    status: u16,
    client: ApiProtocol,
    upstream: ApiProtocol,
    now: u64,
)
    requires
        client == upstream || status < 200 || status >= 300,
    ensures
        client_body(body, status, client, upstream, now) == body,
{
}

proof fn lemma_copies_keep(
    from: JsonTree,
    members: Seq<(Seq<char>, JsonTree)>,
    fields: Seq<(Seq<char>, Seq<char>)>,
    key: Seq<char>,
)
    requires
        forall|i: int| 0 <= i < fields.len() ==> (#[trigger] fields[i]).1 != key,
    ensures
        JsonTree::Object(protocol::with_copies(from, members, fields)).get(key)
            == JsonTree::Object(members).get(key),
    decreases fields.len(),
{
    if fields.len() > 0 {
        let rest = fields.drop_last();
        let last = fields[fields.len() - 1];
        assert forall|i: int| 0 <= i < rest.len() implies (#[trigger] rest[i]).1 != key by {
            assert(rest[i] == fields[i]);
        }
        lemma_copies_keep(from, members, rest, key);
        let before = protocol::with_copies(from, members, rest);
        if let Some(value) = from.get(last.0) {
            json::law_member_is_found(before, last.1, value, key);
        }
    }
}

proof fn lemma_defaults_keep(tree: JsonTree, model: Seq<char>, key: Seq<char>)
    requires
        key != "thinking"@,
        key != "reasoning_effort"@,
    ensures
        protocol::with_model_defaults(tree, model).get(key) == tree.get(key),
{
    if let JsonTree::Object(members) = tree {
        let thinking = JsonTree::Object(seq![("type"@, JsonTree::Text("enabled"@))]);
        let first = protocol::with_absent(members, "thinking"@, thinking);
        json::law_member_is_found(members, "thinking"@, thinking, key);
        json::law_member_is_found(
            first,
            "reasoning_effort"@,
            JsonTree::Text("high"@),
            key,
        );
    }
}

/// Whatever model a request asks for, the request that goes upstream asks for
/// the model of the attempt.
pub proof fn law_upstream_names_model(request: JsonTree, model: Seq<char>)
    ensures
        openai_request(request, model).get("model"@) == Some(JsonTree::Text(model)),
        anthropic_request(request, model).get("model"@) == Some(JsonTree::Text(model)),
        request is Object ==> protocol::with_model(request, model).get("model"@) == Some(
            JsonTree::Text(model),
        ) && protocol::with_model_defaults(protocol::with_model(request, model), model).get(
            "model"@,
        ) == Some(JsonTree::Text(model)),
{
    reveal_strlit("model");
    reveal_strlit("thinking");
    reveal_strlit("reasoning_effort");
    reveal_strlit("max_tokens");
    reveal_strlit("temperature");
    reveal_strlit("top_p");
    reveal_strlit("stream");
    reveal_strlit("stop");
    reveal_strlit("stop_sequences");
    let key = "model"@;
    assert("model"@.len() == 5 && "max_tokens"@.len() == 10 && "temperature"@.len() == 11);
    assert("stream"@.len() == 6 && "stop"@.len() == 4 && "stop_sequences"@.len() == 14);
    assert("model"@[0] == 'm' && "top_p"@[0] == 't');
    let items = messages_of(request);
    let plain = seq![
        ("model"@, JsonTree::Text(model)),
        ("messages"@, JsonTree::Array(system_message(request) + plain_messages(items))),
    ];
    json::lemma_place_of(plain, key, 0);
    lemma_copies_keep(request, plain, to_openai_fields(), key);
    lemma_defaults_keep(
        JsonTree::Object(protocol::with_copies(request, plain, to_openai_fields())),
        model,
        key,
    );
    let prompts = system_prompts(items);
    let members = seq![
        ("model"@, JsonTree::Text(model)),
        ("max_tokens"@, answer_limit(request)),
        ("messages"@, JsonTree::Array(dialogue(items))),
    ];
    let with_system = if prompts.len() == 0 {
        members
    } else {
        members.push(("system"@, JsonTree::Text(text::joined(prompts, "\n\n"@))))
    };
    json::lemma_place_of(with_system, key, 0);
    lemma_copies_keep(request, with_system, to_anthropic_fields(), key);
    if let JsonTree::Object(given) = request {
        json::law_member_is_found(given, key, JsonTree::Text(model), key);
        lemma_defaults_keep(protocol::with_model(request, model), model, key);
    }
}

/// A request for the larger DeepSeek model thinks; one that says how is left as
/// it is.
pub proof fn law_given_thinking_is_kept(request: JsonTree, model: Seq<char>)
    requires
        request is Object,
    ensures
        ({
            let out = protocol::with_model_defaults(request, model);
            let larger = text::contains_text(text::lowercase(model), "deepseek-v4-pro"@);
            &&& !larger ==> out == request
            &&& larger ==> out.get("thinking"@) is Some && out.get("reasoning_effort"@) is Some
            &&& request.get("thinking"@) is Some ==> out.get("thinking"@) == request.get(
                "thinking"@,
            )
            &&& request.get("reasoning_effort"@) is Some ==> out.get("reasoning_effort"@)
                == request.get("reasoning_effort"@)
        }),
{
    reveal_strlit("thinking");
    reveal_strlit("reasoning_effort");
    let members = request->Object_0;
    let thinking = JsonTree::Object(seq![("type"@, JsonTree::Text("enabled"@))]);
    let effort = JsonTree::Text("high"@);
    let first = protocol::with_absent(members, "thinking"@, thinking);
    json::lemma_found_place(members, "thinking"@);
    json::lemma_found_place(members, "reasoning_effort"@);
    json::lemma_found_place(first, "reasoning_effort"@);
    json::law_member_is_found(members, "thinking"@, thinking, "reasoning_effort"@);
    json::law_member_is_found(first, "reasoning_effort"@, effort, "thinking"@);
}

/// Why an answer ended comes back in the words in which it was given, once it has
/// been through the other format; what that format has no word for comes back as
/// the plain end of an answer.
pub proof fn law_reasons_come_back(reason: Seq<char>)
    ensures
        ({
            let there = renamed(Some(reason), stop_reasons(), "end_turn"@);
            let back = renamed(Some(there), finish_reasons(), "stop"@);
            back == (if reason == "length"@ || reason == "tool_calls"@ {
                reason
            } else {
                "stop"@
            })
        }),
        ({
            let there = renamed(Some(reason), finish_reasons(), "stop"@);
            let back = renamed(Some(there), stop_reasons(), "end_turn"@);
            back == (if reason == "max_tokens"@ || reason == "tool_use"@ {
                reason
            } else {
                "end_turn"@
            })
        }),
{
    reveal_strlit("length");
    reveal_strlit("tool_calls");
    reveal_strlit("stop");
    reveal_strlit("max_tokens");
    reveal_strlit("tool_use");
    reveal_strlit("end_turn");
    assert("length"@.len() == 6 && "tool_calls"@.len() == 10 && "stop"@.len() == 4);
    assert("max_tokens"@.len() == 10 && "tool_use"@.len() == 8 && "end_turn"@.len() == 8);
    assert("max_tokens"@[0] == 'm' && "tool_calls"@[0] == 't');
    assert("tool_use"@[0] == 't' && "end_turn"@[0] == 'e');
    reveal_with_fuel(renamed, 3);
}

/// The text of the answer of an OpenAI response.
pub open spec fn openai_text(response: JsonTree) -> Seq<char> {
    match json::member_of(first_item(response, "choices"@), "message"@) {
        Some(message) => protocol::content_member(message, "content"@),
        None => Seq::<char>::empty(),
    }
}

/// The text of the answer of an Anthropic response.
pub open spec fn anthropic_text(response: JsonTree) -> Seq<char> {
    protocol::content_member(response, "content"@)
}

proof fn lemma_message_read(role: Seq<char>, content: Seq<char>)
    ensures
        protocol::role_of(protocol::message_tree(role, content)) == role,
        protocol::content_member(protocol::message_tree(role, content), "content"@) == content,
{
    reveal_strlit("role");
    reveal_strlit("content");
    assert("role"@.len() == 4 && "content"@.len() == 7);
    let members = protocol::message_tree(role, content)->Object_0;
    json::lemma_place_of(members, "role"@, 0);
    json::lemma_place_of(members, "content"@, 1);
}

proof fn lemma_parts_read(message: Option<JsonTree>)
    ensures
        protocol::content_text(JsonTree::Array(answer_parts(message))) == (match message {
            Some(value) => protocol::content_member(value, "content"@),
            None => Seq::<char>::empty(),
        }),
{
    reveal_strlit("type");
    reveal_strlit("text");
    reveal_strlit("thinking");
    reveal_strlit("image");
    reveal_strlit("image_url");
    assert("type"@.len() == 4 && "text"@.len() == 4 && "thinking"@.len() == 8);
    assert("image"@.len() == 5 && "image_url"@.len() == 9);
    assert("type"@[1] == 'y' && "text"@[1] == 'e');
    let parts = answer_parts(message);
    let said = parts.last();
    json::lemma_place_of(said->Object_0, "type"@, 0);
    json::lemma_place_of(said->Object_0, "text"@, 1);
    let text = protocol::part_text(said)->0;
    if parts.len() == 2 {
        let thought = parts[0];
        json::lemma_place_of(thought->Object_0, "type"@, 0);
        json::lemma_place_of(thought->Object_0, "text"@, 2);
        assert(protocol::part_text(thought) is None);
        assert(parts.drop_last() =~= seq![thought]);
        assert(parts.drop_last().drop_last() =~= Seq::<JsonTree>::empty());
    } else {
        assert(parts.drop_last() =~= Seq::<JsonTree>::empty());
    }
    reveal_with_fuel(protocol::part_texts, 3);
    assert(protocol::part_texts(parts) =~= seq![text]);
}

/// An answer says the same in the other format: its text, its model and, where
/// it has one, its id.
pub proof fn law_answer_is_kept(response: JsonTree, now: u64)
    ensures
        ({
            let out = anthropic_response(response, now);
            &&& anthropic_text(out) == openai_text(response)
            &&& response.get("model"@) is Some ==> out.get("model"@) == response.get("model"@)
            &&& response.get("id"@) is Some ==> out.get("id"@) == response.get("id"@)
        }),
        ({
            let out = openai_response(response, now);
            &&& openai_text(out) == anthropic_text(response)
            &&& response.get("model"@) is Some ==> out.get("model"@) == response.get("model"@)
            &&& response.get("id"@) is Some ==> out.get("id"@) == response.get("id"@)
        }),
{
    reveal_strlit("id");
    reveal_strlit("type");
    reveal_strlit("role");
    reveal_strlit("model");
    reveal_strlit("content");
    reveal_strlit("object");
    reveal_strlit("created");
    reveal_strlit("choices");
    reveal_strlit("index");
    reveal_strlit("message");
    assert("id"@.len() == 2 && "type"@.len() == 4 && "role"@.len() == 4 && "model"@.len() == 5);
    assert("content"@.len() == 7 && "object"@.len() == 6 && "created"@.len() == 7);
    assert("created"@[1] == 'r' && "choices"@[1] == 'h' && "index"@.len() == 5);
    let there = anthropic_response(response, now)->Object_0;
    json::lemma_place_of(there, "id"@, 0);
    json::lemma_place_of(there, "model"@, 3);
    json::lemma_place_of(there, "content"@, 4);
    lemma_parts_read(json::member_of(first_item(response, "choices"@), "message"@));
    let back = openai_response(response, now)->Object_0;
    json::lemma_place_of(back, "id"@, 0);
    json::lemma_place_of(back, "model"@, 3);
    json::lemma_place_of(back, "choices"@, 4);
    let choice = openai_choice(response)->Object_0;
    json::lemma_place_of(choice, "message"@, 1);
    lemma_message_read("assistant"@, anthropic_text(response));
}

proof fn lemma_copied(
    from: JsonTree,
    members: Seq<(Seq<char>, JsonTree)>,
    fields: Seq<(Seq<char>, Seq<char>)>,
    k: int,
)
    requires
        0 <= k < fields.len(),
        forall|i: int| 0 <= i < fields.len() && i != k ==> (#[trigger] fields[i]).1 != fields[k].1,
    ensures
        JsonTree::Object(protocol::with_copies(from, members, fields)).get(fields[k].1) == (
        match from.get(fields[k].0) {
            Some(value) => Some(value),
            None => JsonTree::Object(members).get(fields[k].1),
        }),
    decreases fields.len(),
{
    let key = fields[k].1;
    let rest = fields.drop_last();
    let last = fields.last();
    let before = protocol::with_copies(from, members, rest);
    assert forall|i: int| 0 <= i < rest.len() && i != k implies (#[trigger] rest[i]).1 != key by {
        assert(rest[i] == fields[i]);
    }
    if k == fields.len() - 1 {
        lemma_copies_keep(from, members, rest, key);
    } else {
        assert(rest[k] == fields[k]);
        lemma_copied(from, members, rest, k);
    }
    if let Some(value) = from.get(last.0) {
        json::law_member_is_found(before, last.1, value, key);
    }
}

/// Every message of `items` is from the user or from the assistant.
pub open spec fn two_voices(items: Seq<JsonTree>) -> bool {
    forall|i: int|
        0 <= i < items.len() ==> protocol::role_of(#[trigger] items[i]) == "user"@
            || protocol::role_of(items[i]) == "assistant"@
}

proof fn lemma_dialogue_kept(request: JsonTree, items: Seq<JsonTree>)
    requires
        two_voices(items),
    ensures
        dialogue(system_message(request) + plain_messages(items)) == plain_messages(items),
        system_prompts(system_message(request) + plain_messages(items)) == (
        if protocol::content_member(request, "system"@).len() == 0 {
            Seq::<Seq<char>>::empty()
        } else {
            seq![protocol::content_member(request, "system"@)]
        }),
    decreases items.len(),
{
    reveal_strlit("system");
    reveal_strlit("user");
    reveal_strlit("assistant");
    assert("system"@.len() == 6 && "user"@.len() == 4 && "assistant"@.len() == 9);
    let system = system_message(request);
    let all = system + plain_messages(items);
    if items.len() == 0 {
        assert(all =~= system);
        assert(plain_messages(items) =~= Seq::<JsonTree>::empty());
        let prompt = protocol::content_member(request, "system"@);
        if prompt.len() > 0 {
            lemma_message_read("system"@, prompt);
            assert(all.drop_last() =~= Seq::<JsonTree>::empty());
            assert(all.last() == protocol::message_tree("system"@, prompt));
            reveal_with_fuel(dialogue, 2);
            reveal_with_fuel(system_prompts, 2);
            assert(Seq::<Seq<char>>::empty().push(prompt) =~= seq![prompt]);
        }
    } else {
        let rest = items.drop_last();
        let last = items.last();
        assert forall|i: int| 0 <= i < rest.len() implies protocol::role_of(#[trigger] rest[i])
            == "user"@ || protocol::role_of(rest[i]) == "assistant"@ by {
            assert(rest[i] == items[i]);
        }
        lemma_dialogue_kept(request, rest);
        assert(all.drop_last() =~= system + plain_messages(rest));
        assert(items[items.len() - 1] == last);
        let role = protocol::role_of(last);
        let content = protocol::content_member(last, "content"@);
        assert(all.last() == protocol::message_tree(role, content));
        lemma_message_read(role, content);
        assert(plain_messages(rest).push(protocol::message_tree(role, content))
            =~= plain_messages(items));
    }
}

/// An Anthropic request that goes through the OpenAI format keeps its messages,
/// each with its role and its text, its system prompt and its settings.
pub proof fn law_request_comes_back(request: JsonTree, there: Seq<char>, back: Seq<char>)
    requires
        two_voices(messages_of(request)),
    ensures
        ({
            let out = anthropic_request(openai_request(request, there), back);
            &&& messages_of(out) == plain_messages(messages_of(request))
            &&& protocol::content_member(out, "system"@) == protocol::content_member(
                request,
                "system"@,
            )
            &&& request.get("max_tokens"@) is Some ==> out.get("max_tokens"@) == request.get(
                "max_tokens"@,
            )
            &&& out.get("temperature"@) == request.get("temperature"@)
            &&& out.get("top_p"@) == request.get("top_p"@)
            &&& out.get("stream"@) == request.get("stream"@)
            &&& out.get("stop_sequences"@) == request.get("stop_sequences"@)
        }),
{
    reveal_strlit("model");
    reveal_strlit("messages");
    reveal_strlit("system");
    reveal_strlit("thinking");
    reveal_strlit("reasoning_effort");
    reveal_strlit("max_tokens");
    reveal_strlit("temperature");
    reveal_strlit("top_p");
    reveal_strlit("stream");
    reveal_strlit("stop");
    reveal_strlit("stop_sequences");
    assert("model"@.len() == 5 && "messages"@.len() == 8 && "system"@.len() == 6);
    assert("thinking"@.len() == 8 && "reasoning_effort"@.len() == 16);
    assert("max_tokens"@.len() == 10 && "temperature"@.len() == 11 && "top_p"@.len() == 5);
    assert("stream"@.len() == 6 && "stop"@.len() == 4 && "stop_sequences"@.len() == 14);
    assert("model"@[0] == 'm' && "top_p"@[0] == 't');
    assert("messages"@[0] == 'm' && "thinking"@[0] == 't');
    assert("system"@[1] == 'y' && "stream"@[1] == 't');
    let items = messages_of(request);
    let carried = system_message(request) + plain_messages(items);
    let plain = seq![
        ("model"@, JsonTree::Text(there)),
        ("messages"@, JsonTree::Array(carried)),
    ];
    let copied = JsonTree::Object(protocol::with_copies(request, plain, to_openai_fields()));
    let middle = openai_request(request, there);
    json::lemma_place_of(plain, "messages"@, 1);
    lemma_copies_keep(request, plain, to_openai_fields(), "messages"@);
    lemma_defaults_keep(copied, there, "messages"@);
    assert(messages_of(middle) == carried);
    lemma_defaults_keep(copied, there, "max_tokens"@);
    lemma_defaults_keep(copied, there, "temperature"@);
    lemma_defaults_keep(copied, there, "top_p"@);
    lemma_defaults_keep(copied, there, "stream"@);
    lemma_defaults_keep(copied, there, "stop"@);
    json::lemma_place_of(plain, "max_tokens"@, 2);
    json::lemma_place_of(plain, "temperature"@, 2);
    json::lemma_place_of(plain, "top_p"@, 2);
    json::lemma_place_of(plain, "stream"@, 2);
    json::lemma_place_of(plain, "stop"@, 2);
    lemma_copied(request, plain, to_openai_fields(), 0);
    lemma_copied(request, plain, to_openai_fields(), 1);
    lemma_copied(request, plain, to_openai_fields(), 2);
    lemma_copied(request, plain, to_openai_fields(), 3);
    lemma_copied(request, plain, to_openai_fields(), 4);
    lemma_dialogue_kept(request, items);
    let prompts = system_prompts(carried);
    let members = seq![
        ("model"@, JsonTree::Text(back)),
        ("max_tokens"@, answer_limit(middle)),
        ("messages"@, JsonTree::Array(dialogue(carried))),
    ];
    let full = if prompts.len() == 0 {
        members
    } else {
        members.push(("system"@, JsonTree::Text(text::joined(prompts, "\n\n"@))))
    };
    json::lemma_place_of(full, "messages"@, 2);
    json::lemma_place_of(full, "max_tokens"@, 1);
    json::lemma_place_of(full, "system"@, 3);
    json::lemma_place_of(full, "temperature"@, full.len() as int);
    json::lemma_place_of(full, "top_p"@, full.len() as int);
    json::lemma_place_of(full, "stream"@, full.len() as int);
    json::lemma_place_of(full, "stop_sequences"@, full.len() as int);
    lemma_copies_keep(middle, full, to_anthropic_fields(), "messages"@);
    lemma_copies_keep(middle, full, to_anthropic_fields(), "max_tokens"@);
    lemma_copies_keep(middle, full, to_anthropic_fields(), "system"@);
    lemma_copied(middle, full, to_anthropic_fields(), 0);
    lemma_copied(middle, full, to_anthropic_fields(), 1);
    lemma_copied(middle, full, to_anthropic_fields(), 2);
    lemma_copied(middle, full, to_anthropic_fields(), 3);
}

proof fn lemma_dialogue_read(items: Seq<JsonTree>)
    ensures
        plain_messages(dialogue(items)) == dialogue(items),
        system_prompts(items).len() > 0 ==> text::joined(system_prompts(items), "\n\n"@).len() > 0,
    decreases items.len(),
{
    if items.len() == 0 {
        assert(plain_messages(dialogue(items)) =~= dialogue(items));
    } else {
        let rest = items.drop_last();
        let last = items.last();
        lemma_dialogue_read(rest);
        let role = protocol::role_of(last);
        let content = protocol::content_member(last, "content"@);
        lemma_message_read("assistant"@, content);
        lemma_message_read("user"@, content);
        let before = dialogue(rest);
        assert forall|i: int| 0 <= i < dialogue(items).len() implies plain_messages(
            dialogue(items),
        )[i] == #[trigger] dialogue(items)[i] by {
            if i < before.len() {
                assert(plain_messages(before)[i] == before[i]);
                assert(dialogue(items)[i] == before[i]);
            }
        }
        assert(plain_messages(dialogue(items)) =~= dialogue(items));
        let prompts = system_prompts(items);
        if role == "system"@ && content.len() > 0 {
            assert(prompts.last() == content);
        } else {
            assert(prompts == system_prompts(rest));
        }
    }
}

/// An OpenAI request that goes through the Anthropic format comes back with its
/// system prompts first, as one message, and with the other messages in their
/// order.
pub proof fn law_openai_request_comes_back(request: JsonTree, there: Seq<char>, back: Seq<char>)
    ensures
        ({
            let items = messages_of(request);
            let prompts = system_prompts(items);
            let out = openai_request(anthropic_request(request, there), back);
            messages_of(out) == (if prompts.len() == 0 {
                dialogue(items)
            } else {
                seq![protocol::message_tree("system"@, text::joined(prompts, "\n\n"@))]
                    + dialogue(items)
            })
        }),
{
    reveal_strlit("model");
    reveal_strlit("messages");
    reveal_strlit("system");
    reveal_strlit("thinking");
    reveal_strlit("reasoning_effort");
    reveal_strlit("max_tokens");
    reveal_strlit("temperature");
    reveal_strlit("top_p");
    reveal_strlit("stream");
    reveal_strlit("stop");
    reveal_strlit("stop_sequences");
    assert("model"@.len() == 5 && "messages"@.len() == 8 && "system"@.len() == 6);
    assert("thinking"@.len() == 8 && "reasoning_effort"@.len() == 16);
    assert("max_tokens"@.len() == 10 && "temperature"@.len() == 11 && "top_p"@.len() == 5);
    assert("stream"@.len() == 6 && "stop"@.len() == 4 && "stop_sequences"@.len() == 14);
    assert("messages"@[0] == 'm' && "thinking"@[0] == 't');
    assert("system"@[1] == 'y' && "stream"@[1] == 't');
    let items = messages_of(request);
    let prompts = system_prompts(items);
    let members = seq![
        ("model"@, JsonTree::Text(there)),
        ("max_tokens"@, answer_limit(request)),
        ("messages"@, JsonTree::Array(dialogue(items))),
    ];
    let full = if prompts.len() == 0 {
        members
    } else {
        members.push(("system"@, JsonTree::Text(text::joined(prompts, "\n\n"@))))
    };
    let middle = anthropic_request(request, there);
    json::lemma_place_of(full, "messages"@, 2);
    json::lemma_place_of(full, "system"@, 3);
    lemma_copies_keep(request, full, to_anthropic_fields(), "messages"@);
    lemma_copies_keep(request, full, to_anthropic_fields(), "system"@);
    assert(messages_of(middle) == dialogue(items));
    lemma_dialogue_read(items);
    let carried = system_message(middle) + plain_messages(dialogue(items));
    let plain = seq![("model"@, JsonTree::Text(back)), ("messages"@, JsonTree::Array(carried))];
    json::lemma_place_of(plain, "messages"@, 1);
    lemma_copies_keep(middle, plain, to_openai_fields(), "messages"@);
    lemma_defaults_keep(
        JsonTree::Object(protocol::with_copies(middle, plain, to_openai_fields())),
        back,
        "messages"@,
    );
    assert(Seq::<JsonTree>::empty() + dialogue(items) =~= dialogue(items));
}

/// An Anthropic request in the OpenAI format has the system prompt as its first message,
/// and then the messages in their order, each with its role and its text; the limit on
/// the answer, the temperature and the like keep their names, and the stop sequences
/// get the name that they have there.
pub proof fn law_openai_request_parts(request: JsonTree, model: Seq<char>, i: int)
    ensures
        ({
            let out = openai_request(request, model);
            let system = protocol::content_member(request, "system"@);
            let before: int = if system.len() > 0 {
                1
            } else {
                0
            };
            &&& out.get("max_tokens"@) == request.get("max_tokens"@)
            &&& out.get("temperature"@) == request.get("temperature"@)
            &&& out.get("top_p"@) == request.get("top_p"@)
            &&& out.get("stream"@) == request.get("stream"@)
            &&& out.get("stop"@) == request.get("stop_sequences"@)
            &&& out.get("messages"@) is Some
            &&& out.get("messages"@)->0 matches JsonTree::Array(messages) && {
                &&& system.len() > 0 ==> messages[0] == protocol::message_tree("system"@, system)
                &&& request.get("messages"@) matches Some(JsonTree::Array(items)) ==> {
                    &&& messages.len() == before + items.len()
                    &&& 0 <= i < items.len() ==> messages[before + i] == protocol::message_tree(
                        match items[i].get("role"@) {
                            Some(JsonTree::Text(role)) => role,
                            _ => "user"@,
                        },
                        protocol::content_member(items[i], "content"@),
                    )
                }
            }
        }),
{
    reveal_strlit("model");
    reveal_strlit("messages");
    reveal_strlit("max_tokens");
    reveal_strlit("temperature");
    reveal_strlit("top_p");
    reveal_strlit("stream");
    reveal_strlit("stop");
    reveal_strlit("stop_sequences");
    reveal_strlit("thinking");
    reveal_strlit("reasoning_effort");
    reveal_strlit("system");
    assert("model"@.len() == 5);
    assert("messages"@.len() == 8);
    assert("max_tokens"@.len() == 10);
    assert("temperature"@.len() == 11);
    assert("top_p"@.len() == 5);
    assert("stream"@.len() == 6);
    assert("stop"@.len() == 4);
    assert("stop_sequences"@.len() == 14);
    assert("thinking"@.len() == 8);
    assert("reasoning_effort"@.len() == 16);
    assert("system"@.len() == 6);
    assert("model"@[0] == 'm');
    assert("top_p"@[0] == 't');
    assert("messages"@[0] == 'm');
    assert("thinking"@[0] == 't');
    assert("stream"@[1] == 't');
    assert("system"@[1] == 'y');
    let members = seq![
        ("model"@, JsonTree::Text(model)),
        (
            "messages"@,
            JsonTree::Array(system_message(request) + plain_messages(messages_of(request))),
        ),
    ];
    let fields = to_openai_fields();
    let copied = JsonTree::Object(protocol::with_copies(request, members, fields));
    json::lemma_place_of(members, "messages"@, 1);
    json::lemma_place_of(members, "max_tokens"@, 2);
    json::lemma_place_of(members, "temperature"@, 2);
    json::lemma_place_of(members, "top_p"@, 2);
    json::lemma_place_of(members, "stream"@, 2);
    json::lemma_place_of(members, "stop"@, 2);
    lemma_copies_keep(request, members, fields, "messages"@);
    lemma_copied(request, members, fields, 0);
    lemma_copied(request, members, fields, 1);
    lemma_copied(request, members, fields, 2);
    lemma_copied(request, members, fields, 3);
    lemma_copied(request, members, fields, 4);
    lemma_defaults_keep(copied, model, "messages"@);
    lemma_defaults_keep(copied, model, "max_tokens"@);
    lemma_defaults_keep(copied, model, "temperature"@);
    lemma_defaults_keep(copied, model, "top_p"@);
    lemma_defaults_keep(copied, model, "stream"@);
    lemma_defaults_keep(copied, model, "stop"@);
}

/// The dialogue of messages one after the other is that of the one and then that of the
/// other; a system message is no part of it, and any other is from the assistant where
/// it says so, and from the user where it does not. The system prompts are the texts of
/// the system messages that have one.
pub proof fn law_dialogue(items: Seq<JsonTree>, message: JsonTree)
    ensures
        ({
            let more = items.push(message);
            let role = match message.get("role"@) {
                Some(JsonTree::Text(role)) => role,
                _ => "user"@,
            };
            let said = protocol::content_member(message, "content"@);
            &&& role == "system"@ ==> dialogue(more) == dialogue(items)
            &&& role == "system"@ && said.len() > 0 ==> system_prompts(more) == system_prompts(
                items,
            ).push(said)
            &&& role != "system"@ || said.len() == 0 ==> system_prompts(more) == system_prompts(
                items,
            )
            &&& role == "assistant"@ ==> dialogue(more) == dialogue(items).push(
                protocol::message_tree("assistant"@, said),
            )
            &&& role != "system"@ && role != "assistant"@ ==> dialogue(more) == dialogue(
                items,
            ).push(protocol::message_tree("user"@, said))
        }),
        dialogue(Seq::<JsonTree>::empty()).len() == 0,
        system_prompts(Seq::<JsonTree>::empty()).len() == 0,
{
    reveal_strlit("system");
    reveal_strlit("assistant");
    assert("system"@.len() == 6 && "assistant"@.len() == 9);
    assert(items.push(message).drop_last() =~= items);
}

/// An OpenAI request in the Anthropic format has its system prompts apart, with an empty
/// line between each two; the limit on the answer by either of its names, or 4096; and
/// the stop texts by the name that they have there.
pub proof fn law_anthropic_request_parts(request: JsonTree, model: Seq<char>)
    ensures
        ({
            let out = anthropic_request(request, model);
            let items = match request.get("messages"@) {
                Some(JsonTree::Array(items)) => items,
                _ => Seq::empty(),
            };
            let prompts = system_prompts(items);
            &&& out.get("messages"@) == Some(JsonTree::Array(dialogue(items)))
            &&& prompts.len() > 0 ==> out.get("system"@) == Some(
                JsonTree::Text(text::joined(prompts, "\n\n"@)),
            )
            &&& prompts.len() == 0 ==> out.get("system"@) is None
            &&& request.get("max_tokens"@) is Some ==> out.get("max_tokens"@) == request.get(
                "max_tokens"@,
            )
            &&& request.get("max_tokens"@) is None && request.get("max_completion_tokens"@) is Some
                ==> out.get("max_tokens"@) == request.get("max_completion_tokens"@)
            &&& request.get("max_tokens"@) is None && request.get("max_completion_tokens"@) is None
                ==> out.get("max_tokens"@) == Some(JsonTree::Number(json::whole_number(4096)))
            &&& out.get("temperature"@) == request.get("temperature"@)
            &&& out.get("top_p"@) == request.get("top_p"@)
            &&& out.get("stream"@) == request.get("stream"@)
            &&& out.get("stop_sequences"@) == request.get("stop"@)
        }),
{
    reveal_strlit("model");
    reveal_strlit("messages");
    reveal_strlit("max_tokens");
    reveal_strlit("temperature");
    reveal_strlit("top_p");
    reveal_strlit("stream");
    reveal_strlit("stop");
    reveal_strlit("stop_sequences");
    reveal_strlit("thinking");
    reveal_strlit("reasoning_effort");
    reveal_strlit("system");
    assert("model"@.len() == 5);
    assert("messages"@.len() == 8);
    assert("max_tokens"@.len() == 10);
    assert("temperature"@.len() == 11);
    assert("top_p"@.len() == 5);
    assert("stream"@.len() == 6);
    assert("stop"@.len() == 4);
    assert("stop_sequences"@.len() == 14);
    assert("thinking"@.len() == 8);
    assert("reasoning_effort"@.len() == 16);
    assert("system"@.len() == 6);
    assert("model"@[0] == 'm');
    assert("top_p"@[0] == 't');
    assert("messages"@[0] == 'm');
    assert("thinking"@[0] == 't');
    assert("stream"@[1] == 't');
    assert("system"@[1] == 'y');
    let items = messages_of(request);
    let prompts = system_prompts(items);
    let members = seq![
        ("model"@, JsonTree::Text(model)),
        ("max_tokens"@, answer_limit(request)),
        ("messages"@, JsonTree::Array(dialogue(items))),
    ];
    let more = if prompts.len() == 0 {
        members
    } else {
        members.push(("system"@, JsonTree::Text(text::joined(prompts, "\n\n"@))))
    };
    let fields = to_anthropic_fields();
    let end = more.len() as int;
    json::lemma_place_of(more, "max_tokens"@, 1);
    json::lemma_place_of(more, "messages"@, 2);
    json::lemma_place_of(more, "system"@, 3);
    json::lemma_place_of(more, "temperature"@, end);
    json::lemma_place_of(more, "top_p"@, end);
    json::lemma_place_of(more, "stream"@, end);
    json::lemma_place_of(more, "stop_sequences"@, end);
    lemma_copies_keep(request, more, fields, "max_tokens"@);
    lemma_copies_keep(request, more, fields, "messages"@);
    lemma_copies_keep(request, more, fields, "system"@);
    lemma_copied(request, more, fields, 0);
    lemma_copied(request, more, fields, 1);
    lemma_copied(request, more, fields, 2);
    lemma_copied(request, more, fields, 3);
}

/// Why an answer ended: that it was too long, or that it calls tools, has a name in each
/// format; anything else is the plain end.
pub proof fn law_reason_names(reason: Option<Seq<char>>)
    ensures
        renamed(Some("length"@), stop_reasons(), "end_turn"@) == "max_tokens"@,
        renamed(Some("tool_calls"@), stop_reasons(), "end_turn"@) == "tool_use"@,
        reason != Some("length"@) && reason != Some("tool_calls"@) ==> renamed(
            reason,
            stop_reasons(),
            "end_turn"@,
        ) == "end_turn"@,
        renamed(Some("max_tokens"@), finish_reasons(), "stop"@) == "length"@,
        renamed(Some("tool_use"@), finish_reasons(), "stop"@) == "tool_calls"@,
        reason != Some("max_tokens"@) && reason != Some("tool_use"@) ==> renamed(
            reason,
            finish_reasons(),
            "stop"@,
        ) == "stop"@,
{
    reveal_strlit("length");
    reveal_strlit("tool_calls");
    reveal_strlit("max_tokens");
    reveal_strlit("tool_use");
    assert("length"@.len() == 6);
    assert("tool_calls"@.len() == 10);
    assert("max_tokens"@.len() == 10);
    assert("tool_use"@.len() == 8);
    assert("tool_calls"@[0] == 't');
    assert("max_tokens"@[0] == 'm');
    reveal_with_fuel(renamed, 3);
    assert(stop_reasons().skip(1)[0] == stop_reasons()[1]);
    assert(finish_reasons().skip(1)[0] == finish_reasons()[1]);
}

/// The whole number at the member `key` of what may be there.
pub open spec fn count_at(tree: Option<JsonTree>, key: Seq<char>) -> Option<u64> {
    match json::member_of(tree, key) {
        Some(value) => value.as_u64(),
        None => None,
    }
}

/// The first of `a` and `b` that is there; zero where neither is.
pub open spec fn either_count(a: Option<u64>, b: Option<u64>) -> u64 {
    if a is Some {
        a->0
    } else if b is Some {
        b->0
    } else {
        0
    }
}

proof fn lemma_step(tree: Option<JsonTree>, key: Seq<char>)
    ensures
        json::at_path(tree, seq![key]) == json::member_of(tree, key),
{
    assert(seq![key].skip(1) =~= Seq::<Seq<char>>::empty());
    reveal_with_fuel(json::at_path, 2);
}

proof fn lemma_steps(tree: Option<JsonTree>, outer: Seq<char>, key: Seq<char>)
    ensures
        json::at_path(tree, seq![outer, key]) == json::member_of(
            json::member_of(tree, outer),
            key,
        ),
{
    assert(seq![outer, key].skip(1) =~= seq![key]);
    assert(seq![key].skip(1) =~= Seq::<Seq<char>>::empty());
    reveal_with_fuel(json::at_path, 3);
}

proof fn lemma_two_counts(tree: Option<JsonTree>, first: Seq<char>, second: Seq<char>)
    ensures
        json::first_number(tree, seq![seq![first], seq![second]]) == either_count(
            count_at(tree, first),
            count_at(tree, second),
        ),
{
    lemma_step(tree, first);
    lemma_step(tree, second);
    let all = seq![seq![first], seq![second]];
    assert(all.skip(1)[0] == all[1]);
    assert(all.skip(1).skip(1) =~= Seq::<Seq<Seq<char>>>::empty());
    reveal_with_fuel(json::first_number, 3);
}

/// What an OpenAI response counts is counted under the names of the Anthropic format: the
/// tokens of the prompt, of the answer, and of the prompt from a cache.
pub proof fn law_anthropic_usage(usage: Option<JsonTree>)
    ensures
        ({
            let out = anthropic_usage(usage);
            let first = count_at(
                json::member_of(usage, "prompt_tokens_details"@),
                "cached_tokens"@,
            );
            let second = count_at(
                json::member_of(usage, "input_tokens_details"@),
                "cached_tokens"@,
            );
            let third = count_at(usage, "cache_read_input_tokens"@);
            &&& out.get("input_tokens"@) == Some(
                number_tree(
                    either_count(
                        count_at(usage, "prompt_tokens"@),
                        count_at(usage, "input_tokens"@),
                    ),
                ),
            )
            &&& out.get("output_tokens"@) == Some(
                number_tree(
                    either_count(
                        count_at(usage, "completion_tokens"@),
                        count_at(usage, "output_tokens"@),
                    ),
                ),
            )
            &&& out.get("cache_creation_input_tokens"@) == Some(number_tree(0))
            &&& out.get("cache_read_input_tokens"@) == Some(
                number_tree(
                    if first is Some {
                        first->0
                    } else {
                        either_count(second, third)
                    },
                ),
            )
        }),
{
    reveal_strlit("input_tokens");
    reveal_strlit("output_tokens");
    reveal_strlit("cache_creation_input_tokens");
    reveal_strlit("cache_read_input_tokens");
    assert("input_tokens"@.len() == 12);
    assert("output_tokens"@.len() == 13);
    assert("cache_creation_input_tokens"@.len() == 27);
    assert("cache_read_input_tokens"@.len() == 23);
    lemma_two_counts(usage, "prompt_tokens"@, "input_tokens"@);
    lemma_two_counts(usage, "completion_tokens"@, "output_tokens"@);
    lemma_steps(usage, "prompt_tokens_details"@, "cached_tokens"@);
    lemma_steps(usage, "input_tokens_details"@, "cached_tokens"@);
    lemma_step(usage, "cache_read_input_tokens"@);
    let all = openai_cached_paths();
    assert(all.skip(1)[0] == all[1] && all.skip(1).skip(1)[0] == all[2]);
    assert(all.skip(1).skip(1).skip(1) =~= Seq::<Seq<Seq<char>>>::empty());
    reveal_with_fuel(json::first_number, 4);
    let tokens = anthropic_usage(usage)->Object_0;
    json::lemma_place_of(tokens, "input_tokens"@, 0);
    json::lemma_place_of(tokens, "output_tokens"@, 1);
    json::lemma_place_of(tokens, "cache_creation_input_tokens"@, 2);
    json::lemma_place_of(tokens, "cache_read_input_tokens"@, 3);
}

/// What an Anthropic response counts is counted under the names of the OpenAI format, and
/// the prompt and the answer together as well.
pub proof fn law_openai_usage(usage: Option<JsonTree>)
    ensures
        ({
            let out = openai_usage(usage);
            let prompt = either_count(
                count_at(usage, "input_tokens"@),
                count_at(usage, "prompt_tokens"@),
            );
            let answer = either_count(
                count_at(usage, "output_tokens"@),
                count_at(usage, "completion_tokens"@),
            );
            let first = count_at(usage, "cache_read_input_tokens"@);
            let second = count_at(usage, "cached_tokens"@);
            let third = count_at(
                json::member_of(usage, "prompt_tokens_details"@),
                "cached_tokens"@,
            );
            let cached = if first is Some {
                first->0
            } else {
                either_count(second, third)
            };
            &&& out.get("prompt_tokens"@) == Some(number_tree(prompt))
            &&& out.get("completion_tokens"@) == Some(number_tree(answer))
            &&& prompt + answer <= u64::MAX ==> out.get("total_tokens"@) == Some(
                number_tree((prompt + answer) as u64),
            )
            &&& json::member_of(out.get("prompt_tokens_details"@), "cached_tokens"@) == Some(
                number_tree(cached),
            )
        }),
{
    reveal_strlit("prompt_tokens");
    reveal_strlit("completion_tokens");
    reveal_strlit("total_tokens");
    reveal_strlit("prompt_tokens_details");
    assert("prompt_tokens"@.len() == 13);
    assert("completion_tokens"@.len() == 17);
    assert("total_tokens"@.len() == 12);
    assert("prompt_tokens_details"@.len() == 21);
    lemma_two_counts(usage, "input_tokens"@, "prompt_tokens"@);
    lemma_two_counts(usage, "output_tokens"@, "completion_tokens"@);
    lemma_step(usage, "cache_read_input_tokens"@);
    lemma_step(usage, "cached_tokens"@);
    lemma_steps(usage, "prompt_tokens_details"@, "cached_tokens"@);
    let all = anthropic_cached_paths();
    assert(all.skip(1)[0] == all[1] && all.skip(1).skip(1)[0] == all[2]);
    assert(all.skip(1).skip(1).skip(1) =~= Seq::<Seq<Seq<char>>>::empty());
    reveal_with_fuel(json::first_number, 4);
    let tokens = openai_usage(usage)->Object_0;
    json::lemma_place_of(tokens, "prompt_tokens"@, 0);
    json::lemma_place_of(tokens, "completion_tokens"@, 1);
    json::lemma_place_of(tokens, "total_tokens"@, 2);
    json::lemma_place_of(tokens, "prompt_tokens_details"@, 3);
    let details = tokens[3].1->Object_0;
    json::lemma_place_of(details, "cached_tokens"@, 0);
}

/// An OpenAI response in the Anthropic format is a message of the assistant, with the
/// reason why the first choice ended, and with a name made of the time where it has none.
pub proof fn law_anthropic_response_parts(
    response: JsonTree,
    now: u64,
    choices: Seq<JsonTree>,
    reason: Seq<char>,
)
    ensures
        ({
            let out = anthropic_response(response, now);
            let given = response.get("choices"@) == Some(JsonTree::Array(choices)) && choices.len()
                > 0 && choices[0].get("finish_reason"@) == Some(JsonTree::Text(reason));
            &&& out.get("type"@) == Some(JsonTree::Text("message"@))
            &&& out.get("role"@) == Some(JsonTree::Text("assistant"@))
            &&& response.get("id"@) is None ==> out.get("id"@) == Some(
                JsonTree::Text("msg_"@ + numeral::decimal(now as int)),
            )
            &&& response.get("model"@) is None ==> out.get("model"@) == Some(
                JsonTree::Text("unknown"@),
            )
            &&& given && reason == "length"@ ==> out.get("stop_reason"@) == Some(
                JsonTree::Text("max_tokens"@),
            )
            &&& given && reason == "tool_calls"@ ==> out.get("stop_reason"@) == Some(
                JsonTree::Text("tool_use"@),
            )
            &&& given && reason != "length"@ && reason != "tool_calls"@ ==> out.get("stop_reason"@)
                == Some(JsonTree::Text("end_turn"@))
            &&& out.get("usage"@) == Some(anthropic_usage(response.get("usage"@)))
        }),
{
    reveal_strlit("id");
    reveal_strlit("type");
    reveal_strlit("role");
    reveal_strlit("model");
    reveal_strlit("content");
    reveal_strlit("stop_reason");
    reveal_strlit("usage");
    assert("id"@.len() == 2);
    assert("type"@.len() == 4);
    assert("role"@.len() == 4);
    assert("model"@.len() == 5);
    assert("content"@.len() == 7);
    assert("stop_reason"@.len() == 11);
    assert("usage"@.len() == 5);
    assert("type"@[0] == 't');
    assert("role"@[0] == 'r');
    assert("model"@[0] == 'm');
    assert("usage"@[0] == 'u');
    law_reason_names(Some(reason));
    let members = anthropic_response(response, now)->Object_0;
    json::lemma_place_of(members, "id"@, 0);
    json::lemma_place_of(members, "type"@, 1);
    json::lemma_place_of(members, "role"@, 2);
    json::lemma_place_of(members, "model"@, 3);
    json::lemma_place_of(members, "content"@, 4);
    json::lemma_place_of(members, "stop_reason"@, 5);
    json::lemma_place_of(members, "usage"@, 6);
}

/// The parts of the answer: what the model thought comes first, where it says so, and the
/// text comes last.
pub proof fn law_answer_parts(message: JsonTree, thought: Seq<char>)
    ensures
        ({
            let parts = answer_parts(Some(message));
            let said = protocol::content_member(message, "content"@);
            let told = message.get("reasoning_content"@) == Some(JsonTree::Text(thought))
                && thought.len() > 0;
            &&& told ==> parts.len() == 2 && parts[0].get("type"@) == Some(
                JsonTree::Text("thinking"@),
            ) && parts[0].get("thinking"@) == Some(JsonTree::Text(thought))
            &&& message.get("reasoning_content"@) is None ==> parts.len() == 1
            &&& parts.last().get("type"@) == Some(JsonTree::Text("text"@))
            &&& parts.last().get("text"@) == Some(JsonTree::Text(said))
        }),
{
    reveal_strlit("type");
    reveal_strlit("text");
    reveal_strlit("thinking");
    assert("type"@.len() == 4);
    assert("text"@.len() == 4);
    assert("thinking"@.len() == 8);
    assert("type"@[1] == 'y');
    assert("text"@[1] == 'e');
    let parts = answer_parts(Some(message));
    json::lemma_place_of(parts.last()->Object_0, "type"@, 0);
    json::lemma_place_of(parts.last()->Object_0, "text"@, 1);
    if message.get("reasoning_content"@) == Some(JsonTree::Text(thought)) && thought.len() > 0 {
        json::lemma_place_of(parts[0]->Object_0, "type"@, 0);
        json::lemma_place_of(parts[0]->Object_0, "thinking"@, 1);
    }
}

/// An Anthropic response in the OpenAI format is a completion with one choice, made at the
/// time of the conversion, with the reason why the answer ended.
pub proof fn law_openai_response_parts(response: JsonTree, now: u64, reason: Seq<char>)
    ensures
        ({
            let out = openai_response(response, now);
            let given = response.get("stop_reason"@) == Some(JsonTree::Text(reason));
            let choice = openai_choice(response);
            &&& out.get("object"@) == Some(JsonTree::Text("chat.completion"@))
            &&& out.get("created"@) == Some(number_tree(now))
            &&& response.get("id"@) is None ==> out.get("id"@) == Some(
                JsonTree::Text("chatcmpl-"@ + numeral::decimal(now as int)),
            )
            &&& response.get("model"@) is None ==> out.get("model"@) == Some(
                JsonTree::Text("unknown"@),
            )
            &&& out.get("choices"@) == Some(JsonTree::Array(seq![choice]))
            &&& choice.get("index"@) == Some(number_tree(0))
            &&& choice.get("message"@) == Some(
                protocol::message_tree(
                    "assistant"@,
                    protocol::content_member(response, "content"@),
                ),
            )
            &&& given && reason == "max_tokens"@ ==> choice.get("finish_reason"@) == Some(
                JsonTree::Text("length"@),
            )
            &&& given && reason == "tool_use"@ ==> choice.get("finish_reason"@) == Some(
                JsonTree::Text("tool_calls"@),
            )
            &&& given && reason != "max_tokens"@ && reason != "tool_use"@ ==> choice.get(
                "finish_reason"@,
            ) == Some(JsonTree::Text("stop"@))
            &&& out.get("usage"@) == Some(openai_usage(response.get("usage"@)))
        }),
{
    reveal_strlit("id");
    reveal_strlit("object");
    reveal_strlit("created");
    reveal_strlit("model");
    reveal_strlit("choices");
    reveal_strlit("usage");
    reveal_strlit("index");
    reveal_strlit("message");
    reveal_strlit("finish_reason");
    assert("id"@.len() == 2);
    assert("object"@.len() == 6);
    assert("created"@.len() == 7);
    assert("model"@.len() == 5);
    assert("choices"@.len() == 7);
    assert("usage"@.len() == 5);
    assert("index"@.len() == 5);
    assert("message"@.len() == 7);
    assert("finish_reason"@.len() == 13);
    assert("created"@[1] == 'r');
    assert("choices"@[1] == 'h');
    assert("created"@[0] == 'c');
    assert("message"@[0] == 'm');
    assert("model"@[0] == 'm');
    assert("usage"@[0] == 'u');
    assert("index"@[0] == 'i');
    assert("choices"@[0] == 'c');
    law_reason_names(Some(reason));
    let members = openai_response(response, now)->Object_0;
    json::lemma_place_of(members, "id"@, 0);
    json::lemma_place_of(members, "object"@, 1);
    json::lemma_place_of(members, "created"@, 2);
    json::lemma_place_of(members, "model"@, 3);
    json::lemma_place_of(members, "choices"@, 4);
    json::lemma_place_of(members, "usage"@, 5);
    let parts = openai_choice(response)->Object_0;
    json::lemma_place_of(parts, "index"@, 0);
    json::lemma_place_of(parts, "message"@, 1);
    json::lemma_place_of(parts, "finish_reason"@, 2);
}

/// A request goes upstream in the format of the endpoint, and its answer comes back in that
/// of the client: what goes between the two formats is turned into the other, and what is
/// no JSON stays as it is.
pub proof fn law_bodies_between_formats(
    body: Seq<u8>,
    model: Seq<char>,
    tree: JsonTree,
    bytes: Seq<u8>,
    status: u16,
    now: u64,
)
    ensures
        ({
            let read = json::parsed_bytes(body) == Some(tree);
            &&& json::parsed_bytes(body) is None ==> {
                &&& upstream_body(body, model, ApiProtocol::Anthropic, ApiProtocol::OpenAI) == body
                &&& upstream_body(body, model, ApiProtocol::OpenAI, ApiProtocol::Anthropic) == body
                &&& client_body(body, status, ApiProtocol::Anthropic, ApiProtocol::OpenAI, now)
                    == body
                &&& client_body(body, status, ApiProtocol::OpenAI, ApiProtocol::Anthropic, now)
                    == body
            }
            &&& read && json::json_bytes(json::sorted_tree(openai_request(tree, model))) == Some(
                bytes,
            ) ==> upstream_body(body, model, ApiProtocol::Anthropic, ApiProtocol::OpenAI) == bytes
            &&& read && json::json_bytes(json::sorted_tree(anthropic_request(tree, model))) == Some(
                bytes,
            ) ==> upstream_body(body, model, ApiProtocol::OpenAI, ApiProtocol::Anthropic) == bytes
            &&& read && 200 <= status < 300 && json::json_bytes(
                json::sorted_tree(anthropic_response(tree, now)),
            ) == Some(bytes) ==> client_body(
                body,
                status,
                ApiProtocol::Anthropic,
                ApiProtocol::OpenAI,
                now,
            ) == bytes
            &&& read && 200 <= status < 300 && json::json_bytes(
                json::sorted_tree(openai_response(tree, now)),
            ) == Some(bytes) ==> client_body(
                body,
                status,
                ApiProtocol::OpenAI,
                ApiProtocol::Anthropic,
                now,
            ) == bytes
            &&& upstream_body(body, model, ApiProtocol::OpenAI, ApiProtocol::OpenAI)
                == protocol::openai_rewritten(body, model)
            &&& upstream_body(body, model, ApiProtocol::Anthropic, ApiProtocol::Anthropic)
                == protocol::anthropic_rewritten(body, model)
        }),
{
}

} // verus!
