//! The wire formats of the upstream endpoints, and the conversion between them.
use crate::channel::{Channel, ChannelView};
use crate::json;
use crate::json::{Json, JsonTree};
use crate::text;
use vstd::prelude::*;
use vstd::string::*;

verus! {

/// A wire format.
#[derive(Clone, Copy, Debug, PartialEq, Eq, Structural)]
pub enum ApiProtocol {
    OpenAI,
    Anthropic,
}

/// The format that a channel speaks, where it is a known one.
pub open spec fn protocol_of(channel: ChannelView) -> Option<ApiProtocol> {
    let kind = text::lowercase(text::trimmed(channel.kind));
    if kind.len() == 0 || kind == "openai"@ || kind == "openai-compatible"@ {
        Some(ApiProtocol::OpenAI)
    } else if kind == "anthropic"@ || kind == "anthropic-api"@ {
        Some(ApiProtocol::Anthropic)
    } else {
        None
    }
}

/// How well a channel goes with the format of the client, the best being 0.
pub open spec fn protocol_rank(channel: ChannelView, client: ApiProtocol) -> u8 {
    match protocol_of(channel) {
        Some(upstream) => if upstream == client {
            0
        } else {
            1
        },
        None => 2,
    }
}

/// The address of `endpoint` below `base`: `base` itself where it ends with the
/// endpoint, and otherwise below a version that is added where it is missing.
pub open spec fn endpoint_address(base: Seq<char>, endpoint: Seq<char>) -> Seq<char> {
    let root = text::without_trailing(base, '/');
    if text::closes_with(root, endpoint) {
        root
    } else if text::closes_with(root, "/v1"@) {
        root + "/"@ + endpoint
    } else {
        root + "/v1/"@ + endpoint
    }
}

/// The address of `endpoint` below `base`.
pub fn endpoint_url(base: &str, endpoint: &str) -> (r: String)
    ensures
        r@ == endpoint_address(base@, endpoint@),
{
    let root: &str = text::trim_end_char(base, '/');
    if text::ends_with(root, endpoint) {
        root.to_owned()
    } else if text::ends_with(root, "/v1") {
        text::concat3(root, "/", endpoint)
    } else {
        text::concat3(root, "/v1/", endpoint)
    }
}

/// Where to send chat requests of the OpenAI format.
pub fn openai_chat_url(base: &str) -> (r: String)
    ensures
        r@ == endpoint_address(base@, "chat/completions"@),
{
    endpoint_url(base, "chat/completions")
}

/// Where to send messages of the Anthropic format.
pub fn anthropic_messages_url(base: &str) -> (r: String)
    ensures
        r@ == endpoint_address(base@, "messages"@),
{
    endpoint_url(base, "messages")
}

/// The content of pairs of texts.
pub open spec fn pair_views(pairs: Seq<(String, String)>) -> Seq<(Seq<char>, Seq<char>)> {
    Seq::new(pairs.len(), |i: int| (pairs[i].0@, pairs[i].1@))
}

/// The headers by which a channel knows its key.
pub open spec fn auth_pairs(protocol: ApiProtocol, channel: ChannelView) -> Seq<
    (Seq<char>, Seq<char>),
> {
    if protocol == ApiProtocol::Anthropic && text::contains_text(
        text::lowercase(channel.base),
        "anthropic.com"@,
    ) {
        seq![("x-api-key"@, channel.key), ("anthropic-version"@, "2023-06-01"@)]
    } else {
        seq![("Authorization"@, "Bearer "@ + channel.key)]
    }
}

impl ApiProtocol {
    /// The format that a channel speaks, where it is a known one.
    pub fn from_channel(ch: &Channel) -> (r: Option<Self>)
        ensures
            r == protocol_of(ch@),
    {
        let kind: String = text::to_lowercase(text::trim(ch.kind.as_str()));
        let kind: &str = kind.as_str();
        if kind.is_empty() || text::same_text(kind, "openai") || text::same_text(
            kind,
            "openai-compatible",
        ) {
            Some(ApiProtocol::OpenAI)
        } else if text::same_text(kind, "anthropic") || text::same_text(kind, "anthropic-api") {
            Some(ApiProtocol::Anthropic)
        } else {
            None
        }
    }

    /// How well a channel goes with the format of the client.
    pub fn channel_match_rank(ch: &Channel, client_protocol: Self) -> (r: u8)
        ensures
            r == protocol_rank(ch@, client_protocol),
    {
        match Self::from_channel(ch) {
            Some(upstream) => if upstream == client_protocol {
                0
            } else {
                1
            },
            None => 2,
        }
    }

    /// Where to send requests of this format.
    pub fn target_url(self, base: &str) -> (r: String)
        ensures
            r@ == endpoint_address(
                base@,
                match self {
                    ApiProtocol::OpenAI => "chat/completions"@,
                    ApiProtocol::Anthropic => "messages"@,
                },
            ),
    {
        match self {
            ApiProtocol::OpenAI => openai_chat_url(base),
            ApiProtocol::Anthropic => anthropic_messages_url(base),
        }
    }

    /// The headers by which a channel knows its key.
    pub fn auth_headers(self, channel: &Channel) -> (r: Vec<(String, String)>)
        ensures
            pair_views(r@) == auth_pairs(self, channel@),
    {
        let own: bool = self == ApiProtocol::Anthropic && text::contains(
            text::to_lowercase(channel.base.as_str()).as_str(),
            "anthropic.com",
        );
        let headers: Vec<(String, String)> = if own {
            vec![
                ("x-api-key".to_owned(), channel.key.clone()),
                ("anthropic-version".to_owned(), "2023-06-01".to_owned()),
            ]
        } else {
            vec![("Authorization".to_owned(), text::concat2("Bearer ", channel.key.as_str()))]
        };
        assert(pair_views(headers@) =~= auth_pairs(self, channel@));
        headers
    }
}

/// The text of one part of a message.
pub open spec fn part_text(part: JsonTree) -> Option<Seq<char>> {
    let kind = json::text_member(part, "type"@);
    if part.as_text() is Some {
        part.as_text()
    } else if kind == Some("image"@) || kind == Some("image_url"@) {
        Some("[image]"@)
    } else {
        json::text_member(part, "text"@)
    }
}

/// The texts of those of `parts` that have one.
pub open spec fn part_texts(parts: Seq<JsonTree>) -> Seq<Seq<char>>
    decreases parts.len(),
{
    if parts.len() == 0 {
        Seq::empty()
    } else {
        let before = part_texts(parts.drop_last());
        match part_text(parts.last()) {
            Some(text) => before.push(text),
            None => before,
        }
    }
}

/// The text of the content of a message: a string as it is, the texts of a list
/// of parts on lines of their own, and anything else spelled as JSON.
pub open spec fn content_text(content: JsonTree) -> Seq<char> {
    match content {
        JsonTree::Text(text) => text,
        JsonTree::Array(parts) => text::joined(part_texts(parts), "\n"@),
        _ => json::json_text(json::sorted_tree(content)),
    }
}

/// The text of one part of a message.
fn text_of_part(part: &Json) -> (r: Option<String>)
    ensures
        match r {
            Some(text) => part_text(part.tree()) == Some(text@),
            None => part_text(part.tree()) is None,
        },
{
    if let Some(text) = part.as_text() {
        return Some(text.to_owned());
    }
    if let Some(kind) = part.text_member("type") {
        if text::same_text(kind, "image") || text::same_text(kind, "image_url") {
            return Some("[image]".to_owned());
        }
    }
    match part.text_member("text") {
        Some(text) => Some(text.to_owned()),
        None => None,
    }
}

/// The text of the content of a message.
pub fn content_to_text(value: &Json) -> (r: String)
    ensures
        r@ == content_text(value.tree()),
{
    if let Some(text) = value.as_text() {
        return text.to_owned();
    }
    let parts: &Vec<Json> = match value.as_array() {
        Some(parts) => parts,
        None => {
            return value.to_text();
        },
    };
    let ghost all = json::trees(parts@);
    let mut lines: Vec<String> = Vec::new();
    let mut i: usize = 0;
    assert(all.take(0) =~= Seq::<JsonTree>::empty());
    assert(text::texts(lines@) =~= Seq::<Seq<char>>::empty());
    while i < parts.len()
        invariant
            i <= parts@.len(),
            all == json::trees(parts@),
            text::texts(lines@) == part_texts(all.take(i as int)),
        decreases parts@.len() - i,
    {
        assert(all.take(i + 1).drop_last() =~= all.take(i as int));
        let ghost before = lines@;
        if let Some(line) = text_of_part(&parts[i]) {
            lines.push(line);
            assert(text::texts(lines@) =~= text::texts(before).push(line@));
        }
        i += 1;
    }
    assert(all.take(all.len() as int) =~= all);
    text::join(&lines, "\n")
}

/// The text of the member `key`, as the content of a message; empty where there
/// is none.
pub open spec fn content_member(tree: JsonTree, key: Seq<char>) -> Seq<char> {
    match tree.get(key) {
        Some(content) => content_text(content),
        None => Seq::<char>::empty(),
    }
}

/// The text of the member `key`, as the content of a message.
pub fn content_of(value: &Json, key: &str) -> (r: String)
    ensures
        r@ == content_member(value.tree(), key@),
{
    match value.get(key) {
        Some(content) => content_to_text(content),
        None => String::new(),
    }
}

/// The role of a message; `user` where none is given.
pub open spec fn role_of(message: JsonTree) -> Seq<char> {
    match json::text_member(message, "role"@) {
        Some(role) => role,
        None => "user"@,
    }
}

/// The role of a message.
pub fn role_in(message: &Json) -> (r: String)
    ensures
        r@ == role_of(message.tree()),
{
    match message.text_member("role") {
        Some(role) => role.to_owned(),
        None => "user".to_owned(),
    }
}

/// A message with the given role and text.
pub open spec fn message_tree(role: Seq<char>, content: Seq<char>) -> JsonTree {
    JsonTree::Object(
        seq![("role"@, JsonTree::Text(role)), ("content"@, JsonTree::Text(content))],
    )
}

/// An object with the two given members.
pub fn object2(key1: &str, value1: Json, key2: &str, value2: Json) -> (r: Json)
    ensures
        r.tree() == JsonTree::Object(seq![(key1@, value1.tree()), (key2@, value2.tree())]),
{
    let members: Vec<(String, Json)> = vec![
        (key1.to_owned(), value1),
        (key2.to_owned(), value2),
    ];
    let r: Json = Json::Object(members);
    assert(json::member_trees(members@) =~= seq![(key1@, value1.tree()), (key2@, value2.tree())]);
    r
}

/// A message with the given role and text.
pub fn message(role: &str, content: &str) -> (r: Json)
    ensures
        r.tree() == message_tree(role@, content@),
{
    object2("role", Json::text(role), "content", Json::text(content))
}

/// `members` with `value` at `key` where nothing is there.
pub open spec fn with_absent(
    members: Seq<(Seq<char>, JsonTree)>,
    key: Seq<char>,
    value: JsonTree,
) -> Seq<(Seq<char>, JsonTree)> {
    if json::place_of(members, key) < members.len() {
        members
    } else {
        members.push((key, value))
    }
}

/// The larger DeepSeek model thinks unless the request says otherwise.
pub open spec fn with_model_defaults(tree: JsonTree, model: Seq<char>) -> JsonTree {
    match tree {
        JsonTree::Object(members) if text::contains_text(
            text::lowercase(model),
            "deepseek-v4-pro"@,
        ) => JsonTree::Object(
            with_absent(
                with_absent(
                    members,
                    "thinking"@,
                    JsonTree::Object(seq![("type"@, JsonTree::Text("enabled"@))]),
                ),
                "reasoning_effort"@,
                JsonTree::Text("high"@),
            ),
        ),
        _ => tree,
    }
}

/// Lets the larger DeepSeek model think unless the request says otherwise.
pub fn apply_openai_model_defaults(value: &mut Json, model: &str)
    ensures
        final(value).tree() == with_model_defaults(old(value).tree(), model@),
{
    if !text::contains(text::to_lowercase(model).as_str(), "deepseek-v4-pro") {
        return;
    }
    if !value.is_object() {
        return;
    }
    if value.get("thinking").is_none() {
        let mut thinking: Json = Json::object();
        thinking.set("type", Json::text("enabled"));
        assert(thinking.tree()->Object_0 =~= seq![("type"@, JsonTree::Text("enabled"@))]);
        value.set("thinking", thinking);
    }
    if value.get("reasoning_effort").is_none() {
        value.set("reasoning_effort", Json::text("high"));
    }
}

/// `tree` with the model `model`, where it is an object.
pub open spec fn with_model(tree: JsonTree, model: Seq<char>) -> JsonTree {
    match tree {
        JsonTree::Object(members) => JsonTree::Object(
            json::with_member(members, "model"@, JsonTree::Text(model)),
        ),
        _ => tree,
    }
}

/// The bytes that spell `tree`, or `fallback` where there are none.
pub open spec fn bytes_or(tree: JsonTree, fallback: Seq<u8>) -> Seq<u8> {
    match json::json_bytes(json::sorted_tree(tree)) {
        Some(bytes) => bytes,
        None => fallback,
    }
}

/// A copy of `bytes`.
pub fn copy_bytes(bytes: &[u8]) -> (r: Vec<u8>)
    ensures
        r@ == bytes@,
{
    let mut out: Vec<u8> = Vec::new();
    let mut i: usize = 0;
    while i < bytes.len()
        invariant
            i <= bytes@.len(),
            out@ == bytes@.take(i as int),
        decreases bytes@.len() - i,
    {
        out.push(bytes[i]);
        assert(out@ =~= bytes@.take(i + 1));
        i += 1;
    }
    assert(bytes@.take(bytes@.len() as int) =~= bytes@);
    out
}

/// The bytes that spell `value`, or `fallback` where there are none.
pub fn json_bytes_or(value: &Json, fallback: Vec<u8>) -> (r: Vec<u8>)
    ensures
        r@ == bytes_or(value.tree(), fallback@),
{
    match value.to_bytes() {
        Some(bytes) => bytes,
        None => fallback,
    }
}

/// A request of the Anthropic format for the model `model`.
pub open spec fn anthropic_rewritten(body: Seq<u8>, model: Seq<char>) -> Seq<u8> {
    match json::parsed_bytes(body) {
        Some(JsonTree::Object(members)) => bytes_or(
            with_model(JsonTree::Object(members), model),
            body,
        ),
        _ => body,
    }
}

/// A request of the OpenAI format for the model `model`.
pub open spec fn openai_rewritten(body: Seq<u8>, model: Seq<char>) -> Seq<u8> {
    match json::parsed_bytes(body) {
        Some(JsonTree::Object(members)) => bytes_or(
            with_model_defaults(with_model(JsonTree::Object(members), model), model),
            body,
        ),
        _ => body,
    }
}

/// Puts the model `model` into a request; what is no object stays as it is.
pub fn rewrite_model(body: &[u8], model: &str) -> (r: Vec<u8>)
    ensures
        r@ == anthropic_rewritten(body@, model@),
{
    match Json::parse(body) {
        Some(parsed) => {
            let mut value: Json = parsed;
            if value.is_object() {
                value.set("model", Json::text(model));
                return json_bytes_or(&value, copy_bytes(body));
            }
            copy_bytes(body)
        },
        None => copy_bytes(body),
    }
}

/// Puts the model `model` into a request of the OpenAI format, with what the model
/// needs; what is no object stays as it is.
pub fn rewrite_openai_model(body: &[u8], model: &str) -> (r: Vec<u8>)
    ensures
        r@ == openai_rewritten(body@, model@),
{
    match Json::parse(body) {
        Some(parsed) => {
            let mut value: Json = parsed;
            if value.is_object() {
                value.set("model", Json::text(model));
                apply_openai_model_defaults(&mut value, model);
                return json_bytes_or(&value, copy_bytes(body));
            }
            copy_bytes(body)
        },
        None => copy_bytes(body),
    }
}

/// `members` with the members of `from` that `fields` name, each under its new name.
pub open spec fn with_copies(
    from: JsonTree,
    members: Seq<(Seq<char>, JsonTree)>,
    fields: Seq<(Seq<char>, Seq<char>)>,
) -> Seq<(Seq<char>, JsonTree)>
    decreases fields.len(),
{
    if fields.len() == 0 {
        members
    } else {
        let before = with_copies(from, members, fields.drop_last());
        match from.get(fields.last().0) {
            Some(value) => json::with_member(before, fields.last().1, value),
            None => before,
        }
    }
}

/// The content of pairs of names.
pub open spec fn name_pairs(pairs: Seq<(&str, &str)>) -> Seq<(Seq<char>, Seq<char>)> {
    Seq::new(pairs.len(), |i: int| (pairs[i].0@, pairs[i].1@))
}

/// Copies the members of `from` that `fields` name, each under its new name.
pub fn copy_json_fields(from: &Json, to: &mut Json, fields: &Vec<(&str, &str)>)
    ensures
        final(to).tree() == (match old(to).tree() {
            JsonTree::Object(members) => JsonTree::Object(
                with_copies(from.tree(), members, name_pairs(fields@)),
            ),
            other => other,
        }),
{
    if !to.is_object() {
        return;
    }
    let ghost members = to.tree()->Object_0;
    let ghost all = name_pairs(fields@);
    let mut i: usize = 0;
    assert(all.take(0) =~= Seq::<(Seq<char>, Seq<char>)>::empty());
    while i < fields.len()
        invariant
            i <= fields@.len(),
            all == name_pairs(fields@),
            to.tree() == JsonTree::Object(with_copies(from.tree(), members, all.take(i as int))),
        decreases fields@.len() - i,
    {
        assert(all.take(i + 1).drop_last() =~= all.take(i as int));
        if let Some(value) = from.get(fields[i].0) {
            to.set(fields[i].1, value.copied());
        }
        i += 1;
    }
    assert(all.take(all.len() as int) =~= all);
}

/// The formats of channels by their kind, in lower case and without white space
/// around it: none is given, or it says OpenAI or compatible with it, or Anthropic;
/// every other kind is unknown.
pub proof fn law_kinds(channel: ChannelView)
    ensures
        ({
            let kind = text::lowercase(text::trimmed(channel.kind));
            let openai = kind.len() == 0 || kind == "openai"@ || kind == "openai-compatible"@;
            let anthropic = kind == "anthropic"@ || kind == "anthropic-api"@;
            &&& openai ==> protocol_of(channel) == Some(ApiProtocol::OpenAI)
            &&& anthropic ==> protocol_of(channel) == Some(ApiProtocol::Anthropic)
            &&& !openai && !anthropic ==> protocol_of(channel) is None
        }),
{
    reveal_strlit("openai");
    reveal_strlit("openai-compatible");
    reveal_strlit("anthropic");
    reveal_strlit("anthropic-api");
    assert("openai"@.len() == 6 && "openai-compatible"@.len() == 17);
    assert("anthropic"@.len() == 9 && "anthropic-api"@.len() == 13);
}

/// A channel that speaks the format of the client comes before one that speaks
/// another, and that one before a channel of which the format is unknown.
pub proof fn law_format_order(
    same: ChannelView,
    other: ChannelView,
    unknown: ChannelView,
    client: ApiProtocol,
)
    requires
        protocol_of(same) == Some(client),
        protocol_of(other) is Some,
        protocol_of(other) != Some(client),
        protocol_of(unknown) is None,
    ensures
        protocol_rank(same, client) == 0,
        protocol_rank(same, client) < protocol_rank(other, client) < protocol_rank(unknown, client),
{
}

/// The address of an endpoint ends with the endpoint. Slashes at the end of the base do
/// not matter. A base that is the address stays as it is; the version is added to one
/// that does not end with it.
pub proof fn law_endpoint_address(base: Seq<char>, endpoint: Seq<char>)
    ensures
        text::closes_with(endpoint_address(base, endpoint), endpoint),
        endpoint_address(base.push('/'), endpoint) == endpoint_address(base, endpoint),
        base.len() > 0 && base.last() != '/' && text::closes_with(base, endpoint)
            ==> endpoint_address(base, endpoint) == base,
        base.len() > 0 && base.last() != '/' && text::closes_with(base, "/v1"@)
            && !text::closes_with(base, endpoint) ==> endpoint_address(base, endpoint) == base
            + "/"@ + endpoint,
        base.len() > 0 && base.last() != '/' && !text::closes_with(base, "/v1"@)
            && !text::closes_with(base, endpoint) ==> endpoint_address(base, endpoint) == base
            + "/v1/"@ + endpoint,
{
    let slash = base.push('/');
    assert(slash.drop_last() =~= base);
    assert(text::without_trailing(slash, '/') == text::without_trailing(base, '/'));
    let address = endpoint_address(base, endpoint);
    assert(text::closes_with(address, endpoint)) by {
        let from = address.len() - endpoint.len();
        let root = text::without_trailing(base, '/');
        if !text::closes_with(root, endpoint) {
            assert(address.subrange(from, address.len() as int) =~= endpoint);
        }
    }
}

/// A channel at `anthropic.com` that speaks the Anthropic format is given its key as
/// such, with the version of the format; every other channel is given it as a bearer.
pub proof fn law_keys_are_sent(protocol: ApiProtocol, channel: ChannelView)
    ensures
        ({
            let pairs = auth_pairs(protocol, channel);
            let own = protocol == ApiProtocol::Anthropic && text::contains_text(
                text::lowercase(channel.base),
                "anthropic.com"@,
            );
            &&& own ==> pairs.len() == 2 && pairs[0] == ("x-api-key"@, channel.key) && pairs[1] == (
                "anthropic-version"@,
                "2023-06-01"@,
            )
            &&& !own ==> pairs.len() == 1 && pairs[0] == (
                "Authorization"@,
                "Bearer "@ + channel.key,
            )
        }),
{
}

proof fn lemma_part_texts(a: Seq<JsonTree>, b: Seq<JsonTree>)
    ensures
        part_texts(a + b) == part_texts(a) + part_texts(b),
    decreases b.len(),
{
    if b.len() == 0 {
        assert(a + b =~= a);
        assert(part_texts(a) + part_texts(b) =~= part_texts(a));
    } else {
        lemma_part_texts(a, b.drop_last());
        assert((a + b).drop_last() =~= a + b.drop_last());
        assert((a + b).last() == b.last());
        match part_text(b.last()) {
            Some(text) => {
                assert((part_texts(a) + part_texts(b.drop_last())).push(text) =~= part_texts(a)
                    + part_texts(b));
            },
            None => {},
        }
    }
}

/// The text of a message: a string as it is; of a list of parts the texts in their
/// order, an image told as such, and what has no text left out.
pub proof fn law_content_text(before: Seq<JsonTree>, part: JsonTree, after: Seq<JsonTree>)
    ensures
        ({
            let texts = part_texts(before + seq![part] + after);
            let kind = part.get("type"@);
            let image = kind == Some(JsonTree::Text("image"@)) || kind == Some(
                JsonTree::Text("image_url"@),
            );
            &&& part matches JsonTree::Text(text) ==> texts == part_texts(before) + seq![text]
                + part_texts(after)
            &&& !(part is Text) && image ==> texts == part_texts(before) + seq!["[image]"@]
                + part_texts(after)
            &&& !(part is Text) && !image ==> {
                &&& part.get("text"@) matches Some(JsonTree::Text(text)) ==> texts == part_texts(
                    before,
                ) + seq![text] + part_texts(after)
                &&& !(part.get("text"@) matches Some(JsonTree::Text(_))) ==> texts == part_texts(
                    before,
                ) + part_texts(after)
            }
        }),
        part_texts(Seq::<JsonTree>::empty()).len() == 0,
        part matches JsonTree::Text(text) ==> content_text(part) == text,
        part matches JsonTree::Array(parts) ==> content_text(part) == text::joined(
            part_texts(parts),
            "\n"@,
        ),
{
    reveal_with_fuel(part_texts, 2);
    lemma_part_texts(before, seq![part]);
    lemma_part_texts(before + seq![part], after);
    assert(seq![part].drop_last() =~= Seq::<JsonTree>::empty());
    let none = Seq::<Seq<char>>::empty();
    assert(part_texts(Seq::<JsonTree>::empty()) =~= none);
    match part_text(part) {
        Some(text) => {
            assert(part_texts(seq![part]) =~= seq![text]);
        },
        None => {
            assert(part_texts(seq![part]) =~= none);
            assert(part_texts(before) + none =~= part_texts(before));
        },
    }
}

/// A request that gets a model has it, and keeps everything else.
pub proof fn law_model_is_put_in(
    members: Seq<(Seq<char>, JsonTree)>,
    model: Seq<char>,
    other: Seq<char>,
)
    ensures
        with_model(JsonTree::Object(members), model).get("model"@) == Some(JsonTree::Text(model)),
        other != "model"@ ==> with_model(JsonTree::Object(members), model).get(other)
            == JsonTree::Object(members).get(other),
{
    json::law_member_is_found(members, "model"@, JsonTree::Text(model), other);
}

proof fn lemma_with_absent(
    members: Seq<(Seq<char>, JsonTree)>,
    key: Seq<char>,
    value: JsonTree,
    other: Seq<char>,
)
    ensures
        JsonTree::Object(members).get(key) is None ==> JsonTree::Object(
            with_absent(members, key, value),
        ).get(key) == Some(value),
        JsonTree::Object(members).get(key) is Some ==> JsonTree::Object(
            with_absent(members, key, value),
        ).get(key) == JsonTree::Object(members).get(key),
        other != key ==> JsonTree::Object(with_absent(members, key, value)).get(other)
            == JsonTree::Object(members).get(other),
{
    json::law_member_is_found(members, key, value, other);
}

/// The larger DeepSeek model is told to think, and to think hard, where the request
/// does not say otherwise; nothing else in a request changes, and other models are
/// told nothing.
pub proof fn law_model_defaults(
    members: Seq<(Seq<char>, JsonTree)>,
    model: Seq<char>,
    other: Seq<char>,
)
    ensures
        ({
            let before = JsonTree::Object(members);
            let after = with_model_defaults(before, model);
            let larger = text::contains_text(text::lowercase(model), "deepseek-v4-pro"@);
            let on = JsonTree::Object(seq![("type"@, JsonTree::Text("enabled"@))]);
            &&& !larger ==> after == before
            &&& larger && before.get("thinking"@) is None ==> after.get("thinking"@) == Some(on)
            &&& larger && before.get("reasoning_effort"@) is None ==> after.get(
                "reasoning_effort"@,
            ) == Some(JsonTree::Text("high"@))
            &&& before.get("thinking"@) is Some ==> after.get("thinking"@) == before.get(
                "thinking"@,
            )
            &&& before.get("reasoning_effort"@) is Some ==> after.get("reasoning_effort"@)
                == before.get("reasoning_effort"@)
            &&& other != "thinking"@ && other != "reasoning_effort"@ ==> after.get(other)
                == before.get(other)
        }),
{
    reveal_strlit("thinking");
    reveal_strlit("reasoning_effort");
    assert("thinking"@.len() == 8 && "reasoning_effort"@.len() == 16);
    let on = JsonTree::Object(seq![("type"@, JsonTree::Text("enabled"@))]);
    let high = JsonTree::Text("high"@);
    let middle = with_absent(members, "thinking"@, on);
    lemma_with_absent(members, "thinking"@, on, "reasoning_effort"@);
    lemma_with_absent(members, "thinking"@, on, other);
    lemma_with_absent(middle, "reasoning_effort"@, high, "thinking"@);
    lemma_with_absent(middle, "reasoning_effort"@, high, other);
}

/// A body that is no object, and no JSON at all, is sent as it is; of an object the
/// bytes that are sent spell it with its new model.
pub proof fn law_bodies_are_rewritten(
    body: Seq<u8>,
    model: Seq<char>,
    members: Seq<(Seq<char>, JsonTree)>,
)
    ensures
        !(json::parsed_bytes(body) matches Some(JsonTree::Object(_))) ==> anthropic_rewritten(
            body,
            model,
        ) == body && openai_rewritten(body, model) == body,
        json::parsed_bytes(body) == Some(JsonTree::Object(members)) ==> ({
            let put = JsonTree::Object(json::with_member(members, "model"@, JsonTree::Text(model)));
            let told = with_model_defaults(put, model);
            &&& json::json_bytes(json::sorted_tree(put)) matches Some(bytes) ==> anthropic_rewritten(
                body,
                model,
            ) == bytes
            &&& json::json_bytes(json::sorted_tree(told)) matches Some(bytes) ==> openai_rewritten(
                body,
                model,
            ) == bytes
        }),
{
}

/// What is copied stands under its new name, and what was not there is not made up;
/// members that no name is given for stay.
pub proof fn law_copies(
    from: JsonTree,
    members: Seq<(Seq<char>, JsonTree)>,
    fields: Seq<(Seq<char>, Seq<char>)>,
    i: int,
    other: Seq<char>,
)
    requires
        0 <= i < fields.len(),
        forall|j: int| i < j < fields.len() ==> (#[trigger] fields[j]).1 != fields[i].1,
        forall|j: int| 0 <= j < fields.len() ==> (#[trigger] fields[j]).1 != other,
    ensures
        from.get(fields[i].0) matches Some(value) ==> JsonTree::Object(
            with_copies(from, members, fields),
        ).get(fields[i].1) == Some(value),
        JsonTree::Object(with_copies(from, members, fields)).get(other) == JsonTree::Object(
            members,
        ).get(other),
    decreases fields.len(),
{
    let rest = fields.drop_last();
    let last = fields[fields.len() - 1];
    let before = with_copies(from, members, rest);
    lemma_copies_keep(from, members, rest, other);
    match from.get(last.0) {
        Some(value) => {
            json::law_member_is_found(before, last.1, value, other);
            if i < rest.len() {
                json::law_member_is_found(before, last.1, value, fields[i].1);
            }
        },
        None => {},
    }
    if i < rest.len() {
        assert(rest[i] == fields[i]);
        assert forall|j: int| i < j < rest.len() implies (#[trigger] rest[j]).1 != rest[i].1 by {
            assert(rest[j] == fields[j]);
        }
        assert forall|j: int| 0 <= j < rest.len() implies (#[trigger] rest[j]).1 != other by {
            assert(rest[j] == fields[j]);
        }
        law_copies(from, members, rest, i, other);
    }
}

proof fn lemma_copies_keep(
    from: JsonTree,
    members: Seq<(Seq<char>, JsonTree)>,
    fields: Seq<(Seq<char>, Seq<char>)>,
    other: Seq<char>,
)
    ensures
        (forall|j: int| 0 <= j < fields.len() ==> (#[trigger] fields[j]).1 != other)
            ==> JsonTree::Object(with_copies(from, members, fields)).get(other)
            == JsonTree::Object(members).get(other),
    decreases fields.len(),
{
    if fields.len() > 0 && forall|j: int|
        0 <= j < fields.len() ==> (#[trigger] fields[j]).1 != other {
        let rest = fields.drop_last();
        let last = fields[fields.len() - 1];
        assert forall|j: int| 0 <= j < rest.len() implies (#[trigger] rest[j]).1 != other by {
            assert(rest[j] == fields[j]);
        }
        lemma_copies_keep(from, members, rest, other);
        match from.get(last.0) {
            Some(value) => {
                json::law_member_is_found(
                    with_copies(from, members, rest),
                    last.1,
                    value,
                    other,
                );
            },
            None => {},
        }
    }
}

} // verus!
