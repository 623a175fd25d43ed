//! The administration of channels.
use crate::channel;
use crate::channel::{Channel, ChannelView};
use crate::clock;
use crate::config::{RouterConfig, RouterConfigView};
use crate::json;
use crate::json::{Json, JsonTree};
use crate::numeral;
use crate::ordered::OrderedMap;
use crate::protocol;
use crate::protocol::ApiProtocol;
use crate::stream;
use crate::text;
use vstd::prelude::*;
use vstd::string::*;

verus! {

/// `name` names one model, and not all of them.
pub open spec fn model_name(name: Seq<char>) -> bool {
    name.len() > 0 && name != "*"@
}

/// One of `items` is `name`, but for white space around it.
pub open spec fn lists(items: Seq<Seq<char>>, name: Seq<char>) -> bool {
    exists|i: int| 0 <= i < items.len() && text::trimmed(#[trigger] items[i]) == name
}

/// A client may be told of the model `name`: it is allowed by name, or a channel
/// that is in use at the time `now` lists it.
pub open spec fn offered(
    router: RouterConfigView,
    channels: Seq<ChannelView>,
    now: int,
    name: Seq<char>,
) -> bool {
    model_name(name) && (lists(router.external_allowed_models, name) || listed_by(
        channels,
        now,
        name,
    ))
}

/// One of `channels` that is in use at the time `now` lists the model `name`.
pub open spec fn listed_by(channels: Seq<ChannelView>, now: int, name: Seq<char>) -> bool {
    exists|i: int|
        0 <= i < channels.len() && (#[trigger] channels[i]).active_at(now) && lists(
            text::pieces(channels[i].models, ','),
            name,
        )
}

/// Adds the models that `items` name.
fn add_names(names: &mut OrderedMap<()>, items: &Vec<String>)
    requires
        old(names).wf(),
    ensures
        final(names).wf(),
        forall|name: Seq<char>| #[trigger]
            final(names)@.dom().contains(name) <==> old(names)@.dom().contains(name) || (model_name(
                name,
            ) && lists(text::texts(items@), name)),
{
    let ghost all = text::texts(items@);
    let ghost before = names@;
    let mut i: usize = 0;
    while i < items.len()
        invariant
            i <= items@.len(),
            all == text::texts(items@),
            names.wf(),
            before == old(names)@,
            forall|name: Seq<char>| #[trigger]
                names@.dom().contains(name) <==> before.dom().contains(name) || (model_name(name)
                    && exists|j: int| 0 <= j < i && text::trimmed(#[trigger] all[j]) == name),
        decreases items@.len() - i,
    {
        let ghost sofar = names@;
        let name: &str = text::trim(items[i].as_str());
        assert(all[i as int] == items@[i as int]@);
        if !name.is_empty() && !text::same_text(name, "*") {
            names.insert(name.to_owned(), ());
        }
        assert forall|other: Seq<char>| #[trigger]
            names@.dom().contains(other) <==> before.dom().contains(other) || (model_name(other)
                && exists|j: int| 0 <= j < i + 1 && text::trimmed(#[trigger] all[j]) == other) by {
            if names@.dom().contains(other) && !before.dom().contains(other) {
                if sofar.dom().contains(other) {
                    let j = choose|j: int| 0 <= j < i && text::trimmed(#[trigger] all[j]) == other;
                    assert(text::trimmed(all[j]) == other);
                } else {
                    assert(text::trimmed(all[i as int]) == other);
                }
            }
            if model_name(other) && exists|j: int|
                0 <= j < i + 1 && text::trimmed(#[trigger] all[j]) == other {
                let j = choose|j: int| 0 <= j < i + 1 && text::trimmed(#[trigger] all[j]) == other;
                if j < i {
                    assert(sofar.dom().contains(other));
                }
            }
        }
        i += 1;
    }
}

/// The texts of `names` ascend.
pub open spec fn ascending(names: Seq<Seq<char>>) -> bool {
    forall|i: int, j: int|
        0 <= i < j < names.len() ==> text::text_before(#[trigger] names[i], #[trigger] names[j])
}

/// `names` are the models that a client may be told of at the time `now`, in
/// ascending order.
pub open spec fn are_offered(
    names: Seq<Seq<char>>,
    router: RouterConfigView,
    channels: Seq<ChannelView>,
    now: int,
) -> bool {
    &&& ascending(names)
    &&& forall|name: Seq<char>| #[trigger]
        names.contains(name) <==> offered(router, channels, now, name)
}

/// The models that a client may be told of at the time `now`, in ascending order.
pub fn offered_models_at(router: &RouterConfig, channels: &[Channel], now: u64) -> (r: Vec<String>)
    ensures
        are_offered(
            text::texts(r@),
            router@,
            channel::channel_views(channels@),
            now as int,
        ),
{
    let ghost views = channel::channel_views(channels@);
    let mut names: OrderedMap<()> = OrderedMap::new();
    add_names(&mut names, &router.external_allowed_models);
    let mut i: usize = 0;
    while i < channels.len()
        invariant
            i <= channels@.len(),
            views == channel::channel_views(channels@),
            names.wf(),
            forall|name: Seq<char>| #[trigger]
                names@.dom().contains(name) <==> model_name(name) && (lists(
                    router@.external_allowed_models,
                    name,
                ) || exists|j: int|
                    0 <= j < i && (#[trigger] views[j]).active_at(now as int) && lists(
                        text::pieces(views[j].models, ','),
                        name,
                    )),
        decreases channels@.len() - i,
    {
        let ghost sofar = names@;
        assert(views[i as int] == channels@[i as int]@);
        if channels[i].is_active_at(now) {
            let items: Vec<String> = text::split(channels[i].models.as_str(), ',');
            add_names(&mut names, &items);
        }
        assert forall|name: Seq<char>| #[trigger]
            names@.dom().contains(name) <==> model_name(name) && (lists(
                router@.external_allowed_models,
                name,
            ) || exists|j: int|
                0 <= j < i + 1 && (#[trigger] views[j]).active_at(now as int) && lists(
                    text::pieces(views[j].models, ','),
                    name,
                )) by {
            if names@.dom().contains(name) {
                if !sofar.dom().contains(name) {
                    assert(views[i as int].active_at(now as int));
                }
            } else {
                assert(!sofar.dom().contains(name));
            }
        }
        i += 1;
    }
    let ghost keys = names.keys();
    let mut out: Vec<String> = Vec::new();
    let mut k: usize = 0;
    assert(text::texts(out@) =~= keys.take(0));
    while k < names.len()
        invariant
            k <= keys.len(),
            keys == names.keys(),
            names.wf(),
            text::texts(out@) == keys.take(k as int),
        decreases keys.len() - k,
    {
        let ghost before = out@;
        let name: String = names.entry_at(k).0.clone();
        out.push(name);
        assert(text::texts(out@) =~= text::texts(before).push(name@));
        assert(text::texts(out@) =~= keys.take(k + 1));
        k += 1;
    }
    assert(text::texts(out@) =~= keys);
    proof {
        names.lemma_keys();
        assert forall|name: Seq<char>| #[trigger]
            text::texts(out@).contains(name) <==> offered(router@, views, now as int, name) by {
            if keys.contains(name) {
                let j = choose|j: int| 0 <= j < keys.len() && keys[j] == name;
                assert(names@.dom().contains(keys[j]));
            }
            assert(names@.dom().contains(name) ==> keys.contains(name));
        }
    }
    out
}

/// What a client is told of one model.
pub open spec fn model_entry(id: Seq<char>) -> JsonTree {
    JsonTree::Object(
        seq![
            ("id"@, JsonTree::Text(id)),
            ("object"@, JsonTree::Text("model"@)),
            ("created"@, JsonTree::Number(json::whole_number(0))),
            ("owned_by"@, JsonTree::Text("obp"@)),
        ],
    )
}

/// What a client is told of the models `ids`.
pub open spec fn model_list(ids: Seq<Seq<char>>) -> JsonTree {
    JsonTree::Object(
        seq![
            ("object"@, JsonTree::Text("list"@)),
            ("data"@, JsonTree::Array(Seq::new(ids.len(), |i: int| model_entry(ids[i])))),
        ],
    )
}

/// What a client is told of the models `ids`.
pub fn models_json(ids: &Vec<String>) -> (r: Json)
    ensures
        r.tree() == model_list(text::texts(ids@)),
{
    let ghost all = text::texts(ids@);
    let mut data: Vec<Json> = Vec::new();
    let mut i: usize = 0;
    while i < ids.len()
        invariant
            i <= ids@.len(),
            all == text::texts(ids@),
            data@.len() == i,
            forall|j: int| 0 <= j < i ==> (#[trigger] data@[j]).tree() == model_entry(all[j]),
        decreases ids@.len() - i,
    {
        let members: Vec<(String, Json)> = vec![
            ("id".to_owned(), Json::text(ids[i].as_str())),
            ("object".to_owned(), Json::text("model")),
            ("created".to_owned(), Json::whole(0)),
            ("owned_by".to_owned(), Json::text("obp")),
        ];
        assert(json::member_trees(members@) =~= model_entry(all[i as int])->Object_0);
        data.push(Json::Object(members));
        i += 1;
    }
    assert(json::trees(data@) =~= Seq::new(all.len(), |j: int| model_entry(all[j])));
    protocol::object2("object", Json::text("list"), "data", Json::Array(data))
}

/// What a client is told of the models there are now.
pub fn list_models(router: &RouterConfig, channels: &[Channel]) -> (r: Json)
    ensures
        exists|ids: Seq<Seq<char>>, now: u64|
            r.tree() == model_list(ids) && #[trigger] are_offered(
                ids,
                router@,
                channel::channel_views(channels@),
                now as int,
            ),
{
    let now: u64 = clock::unix_now_secs();
    let ids: Vec<String> = offered_models_at(router, channels, now);
    models_json(&ids)
}

/// A key that stands for the one that is saved.
pub open spec fn no_key(key: Seq<char>) -> bool {
    text::blank(key) || text::trimmed(key) == "***"@
}

/// Does `key` stand for the one that is saved?
fn lacks_key(key: &str) -> (r: bool)
    ensures
        r == no_key(key@),
{
    let key: &str = text::trim(key);
    key.is_empty() || text::same_text(key, "***")
}

/// The channel as it is shown, with its key covered.
pub open spec fn redacted(channel: ChannelView) -> ChannelView {
    if text::blank(channel.key) {
        channel
    } else {
        ChannelView { key: "***"@, ..channel }
    }
}

/// The channels as they are shown, with their keys covered.
pub fn redacted_channels(channels: &[Channel]) -> (r: Vec<Channel>)
    ensures
        channel::channel_views(r@) == Seq::new(
            channels@.len(),
            |i: int| redacted(channels@[i]@),
        ),
{
    let mut out: Vec<Channel> = Vec::new();
    let mut i: usize = 0;
    while i < channels.len()
        invariant
            i <= channels@.len(),
            out@.len() == i,
            forall|j: int| 0 <= j < i ==> (#[trigger] out@[j])@ == redacted(channels@[j]@),
        decreases channels@.len() - i,
    {
        let mut shown: Channel = channels[i].clone();
        if !text::trim(shown.key.as_str()).is_empty() {
            shown.key = "***".to_owned();
        }
        assert(shown@ =~= redacted(channels@[i as int]@));
        out.push(shown);
        i += 1;
    }
    assert(channel::channel_views(out@) =~= Seq::new(
        channels@.len(),
        |i: int| redacted(channels@[i]@),
    ));
    out
}

/// The channel with the id `id`.
pub open spec fn with_id(channel: ChannelView, id: u64) -> ChannelView {
    ChannelView { id: Some(id), ..channel }
}

/// Adds a channel, which gets the id `id`.
pub fn add_channel_as(channels: &mut Vec<Channel>, channel: Channel, id: u64) -> (r: Channel)
    ensures
        r@ == with_id(channel@, id),
        final(channels)@ == old(channels)@.push(r),
{
    let mut added: Channel = channel;
    added.id = Some(id);
    channels.push(added.clone());
    added
}

/// Adds a channel, which gets the time in seconds as its id.
pub fn add_channel(channels: &mut Vec<Channel>, channel: Channel) -> (r: Channel)
    ensures
        exists|id: u64| r@ == #[trigger] with_id(channel@, id),
        final(channels)@ == old(channels)@.push(r),
{
    let id: u64 = clock::unix_now_secs();
    add_channel_as(channels, channel, id)
}

/// The place of the first of `channels` with the id `id`; their number where
/// there is none.
pub open spec fn id_place(channels: Seq<ChannelView>, id: u64) -> int
    decreases channels.len(),
{
    if channels.len() == 0 || channels[0].id == Some(id) {
        0
    } else {
        1 + id_place(channels.skip(1), id)
    }
}

/// The place of the first of `channels` with the id `id`.
fn find_id(channels: &[Channel], id: u64) -> (r: usize)
    ensures
        r == id_place(channel::channel_views(channels@), id),
        r <= channels@.len(),
{
    let ghost all = channel::channel_views(channels@);
    let mut i: usize = 0;
    assert(all.skip(0) =~= all);
    while i < channels.len()
        invariant
            i <= channels@.len(),
            all == channel::channel_views(channels@),
            id_place(all, id) == i + id_place(all.skip(i as int), id),
        decreases channels@.len() - i,
    {
        assert(all.skip(i as int).skip(1) =~= all.skip(i + 1));
        assert(all.skip(i as int)[0] == channels@[i as int]@);
        if let Some(own) = channels[i].id {
            if own == id {
                return i;
            }
        }
        i += 1;
    }
    i
}

/// `channel` with the key of `saved`, where its own stands for that one.
pub open spec fn with_saved_key(channel: ChannelView, saved: ChannelView) -> ChannelView {
    if no_key(channel.key) {
        ChannelView { key: saved.key, ..channel }
    } else {
        channel
    }
}

/// `channels` after the one with the id `id` was replaced.
pub open spec fn with_update(channels: Seq<ChannelView>, id: u64, updated: ChannelView) -> Seq<
    ChannelView,
> {
    let at = id_place(channels, id);
    if at < channels.len() {
        channels.update(
            at,
            with_saved_key(with_id(updated, id), channels[at]),
        )
    } else {
        channels
    }
}

/// Replaces the channel with the id `id`, and says whether there was one.
pub fn update_channel(channels: &mut Vec<Channel>, id: u64, updated: Channel) -> (r: bool)
    ensures
        r == (id_place(channel::channel_views(old(channels)@), id) < old(channels)@.len()),
        channel::channel_views(final(channels)@) == with_update(
            channel::channel_views(old(channels)@),
            id,
            updated@,
        ),
{
    let ghost all = channel::channel_views(channels@);
    let at: usize = find_id(channels.as_slice(), id);
    if at >= channels.len() {
        return false;
    }
    let mut new: Channel = updated;
    new.id = Some(id);
    if lacks_key(new.key.as_str()) {
        new.key = channels[at].key.clone();
    }
    assert(new@ =~= with_saved_key(with_id(updated@, id), all[at as int]));
    channels.set(at, new);
    assert(channel::channel_views(channels@) =~= all.update(at as int, new@));
    true
}

/// Those of `channels` that do not have the id `id`.
pub open spec fn without_id(channels: Seq<ChannelView>, id: u64) -> Seq<ChannelView>
    decreases channels.len(),
{
    if channels.len() == 0 {
        channels
    } else if channels.last().id == Some(id) {
        without_id(channels.drop_last(), id)
    } else {
        without_id(channels.drop_last(), id).push(channels.last())
    }
}

/// Removes the channels with the id `id`.
pub fn delete_channel(channels: &mut Vec<Channel>, id: u64)
    ensures
        channel::channel_views(final(channels)@) == without_id(
            channel::channel_views(old(channels)@),
            id,
        ),
{
    let ghost all = channel::channel_views(channels@);
    let mut out: Vec<Channel> = Vec::new();
    let mut i: usize = 0;
    assert(all.take(0) =~= Seq::<ChannelView>::empty());
    assert(channel::channel_views(out@) =~= Seq::<ChannelView>::empty());
    while i < channels.len()
        invariant
            i <= channels@.len(),
            all == channel::channel_views(channels@),
            channel::channel_views(out@) == without_id(all.take(i as int), id),
        decreases channels@.len() - i,
    {
        assert(all.take(i + 1).drop_last() =~= all.take(i as int));
        let gone: bool = match channels[i].id {
            Some(own) => own == id,
            None => false,
        };
        let ghost before = out@;
        if !gone {
            out.push(channels[i].clone());
            assert(channel::channel_views(out@) =~= channel::channel_views(before).push(
                channels@[i as int]@,
            ));
        }
        i += 1;
    }
    assert(all.take(all.len() as int) =~= all);
    *channels = out;
}

/// The channel as it is tested: with the saved key, where its own stands for
/// that one.
pub open spec fn testable(channel: ChannelView, channels: Seq<ChannelView>) -> ChannelView {
    match channel.id {
        Some(id) => {
            let at = id_place(channels, id);
            if at < channels.len() {
                with_saved_key(channel, channels[at])
            } else {
                channel
            }
        },
        None => channel,
    }
}

/// The channel as it is tested.
pub fn channel_to_test(channel: Channel, channels: &[Channel]) -> (r: Channel)
    ensures
        r@ == testable(channel@, channel::channel_views(channels@)),
{
    let mut tested: Channel = channel;
    if lacks_key(tested.key.as_str()) {
        if let Some(id) = tested.id {
            let at: usize = find_id(channels, id);
            if at < channels.len() {
                tested.key = channels[at].key.clone();
            }
        }
    }
    assert(tested@ =~= testable(channel@, channel::channel_views(channels@)));
    tested
}

/// What is noted of a test that ended at the time `now`.
pub open spec fn test_note(ok: bool, now: u64) -> Seq<char> {
    numeral::decimal(now as int) + ": "@ + if ok {
        "ok"@
    } else {
        "failed"@
    }
}

/// `channels` with the test of the one with the id `id` noted.
pub open spec fn with_test(channels: Seq<ChannelView>, id: u64, ok: bool, now: u64) -> Seq<
    ChannelView,
> {
    let at = id_place(channels, id);
    if at < channels.len() {
        channels.update(
            at,
            ChannelView { last_test: Some(test_note(ok, now)), ..channels[at] },
        )
    } else {
        channels
    }
}

/// The time in seconds, as a label.
pub fn now_label_at(now: u64) -> (r: String)
    ensures
        r@ == numeral::decimal(now as int),
{
    numeral::to_decimal(now as u128)
}

/// The time in seconds now, as a label.
pub fn now_label() -> (r: String)
    ensures
        exists|now: u64| r@ == #[trigger] numeral::decimal(now as int),
{
    let now: u64 = clock::unix_now_secs();
    now_label_at(now)
}

/// Notes the test of the channel with the id `id`, and says whether there is one.
pub fn note_test_at(channels: &mut Vec<Channel>, id: u64, ok: bool, now: u64) -> (r: bool)
    ensures
        r == (id_place(channel::channel_views(old(channels)@), id) < old(channels)@.len()),
        channel::channel_views(final(channels)@) == with_test(
            channel::channel_views(old(channels)@),
            id,
            ok,
            now,
        ),
{
    let ghost all = channel::channel_views(channels@);
    let at: usize = find_id(channels.as_slice(), id);
    if at >= channels.len() {
        return false;
    }
    let mut noted: Channel = channels[at].clone();
    let label: &str = if ok {
        "ok"
    } else {
        "failed"
    };
    noted.last_test = Some(text::concat3(now_label_at(now).as_str(), ": ", label));
    assert(noted@ =~= (ChannelView { last_test: Some(test_note(ok, now)), ..all[at as int] }));
    channels.set(at, noted);
    assert(channel::channel_views(channels@) =~= all.update(at as int, noted@));
    true
}

/// Notes the test of the channel with the id `id` now.
pub fn note_test(channels: &mut Vec<Channel>, id: u64, ok: bool) -> (r: bool)
    ensures
        r == (id_place(channel::channel_views(old(channels)@), id) < old(channels)@.len()),
        exists|now: u64|
            channel::channel_views(final(channels)@) == #[trigger] with_test(
                channel::channel_views(old(channels)@),
                id,
                ok,
                now,
            ),
{
    let now: u64 = clock::unix_now_secs();
    note_test_at(channels, id, ok, now)
}

/// The address of `endpoint`, which begins with a slash, below `base`.
pub open spec fn test_address(base: Seq<char>, endpoint: Seq<char>) -> Seq<char> {
    let root = text::without_trailing(base, '/');
    if text::closes_with(root, endpoint) {
        root
    } else if text::closes_with(root, "/v1"@) {
        root + endpoint
    } else {
        root + "/v1"@ + endpoint
    }
}

/// The address of `endpoint` below `base`.
fn test_url(base: &str, endpoint: &str) -> (r: String)
    ensures
        r@ == test_address(base@, endpoint@),
{
    let root: &str = text::trim_end_char(base, '/');
    if text::ends_with(root, endpoint) {
        root.to_owned()
    } else if text::ends_with(root, "/v1") {
        text::concat2(root, endpoint)
    } else {
        text::concat3(root, "/v1", endpoint)
    }
}

/// Where to send the test of a channel of the OpenAI format.
pub fn openai_chat_url(base: &str) -> (r: String)
    ensures
        r@ == test_address(base@, "/chat/completions"@),
{
    test_url(base, "/chat/completions")
}

/// Where to send the test of a channel of the Anthropic format.
pub fn anthropic_messages_url(base: &str) -> (r: String)
    ensures
        r@ == test_address(base@, "/messages"@),
{
    test_url(base, "/messages")
}

/// The request that tests a channel.
pub struct ChannelTest {
    pub url: String,
    /// The model asked for.
    pub model: String,
    pub headers: Vec<(String, String)>,
    /// The body to post; nothing is posted where there is none.
    pub body: Option<Json>,
}

/// What the request that tests a channel holds.
pub struct ChannelTestView {
    pub url: Seq<char>,
    pub model: Seq<char>,
    pub headers: Seq<(Seq<char>, Seq<char>)>,
    pub body: Option<JsonTree>,
}

impl View for ChannelTest {
    type V = ChannelTestView;

    open spec fn view(&self) -> ChannelTestView {
        ChannelTestView {
            url: self.url@,
            model: self.model@,
            headers: protocol::pair_views(self.headers@),
            body: json::maybe_tree(self.body),
        }
    }
}

/// What a test or the reason against it holds.
pub open spec fn test_view(test: Result<ChannelTest, String>) -> Result<
    ChannelTestView,
    Seq<char>,
> {
    match test {
        Ok(test) => Ok(test@),
        Err(reason) => Err(reason@),
    }
}

/// The body of a test: a short message to `model`.
pub open spec fn ping_members(model: Seq<char>) -> Seq<(Seq<char>, JsonTree)> {
    seq![
        ("model"@, JsonTree::Text(model)),
        ("messages"@, JsonTree::Array(seq![protocol::message_tree("user"@, "ping"@)])),
        ("max_tokens"@, JsonTree::Number(json::whole_number(16))),
    ]
}

/// The test of a channel of the OpenAI format.
pub open spec fn openai_test(channel: ChannelView, model: Seq<char>) -> ChannelTestView {
    ChannelTestView {
        url: test_address(channel.base, "/chat/completions"@),
        model,
        headers: protocol::auth_pairs(ApiProtocol::OpenAI, channel),
        body: Some(
            JsonTree::Object(ping_members(model).push(("stream"@, JsonTree::Bool(false)))),
        ),
    }
}

/// The test of a channel of the Anthropic format: with the first model that it
/// names, or with `fallback` where it names none.
pub open spec fn anthropic_test(channel: ChannelView, fallback: Seq<char>) -> ChannelTestView {
    let model = match channel::first_named(text::pieces(channel.models, ',')) {
        Some(model) => model,
        None => fallback,
    };
    ChannelTestView {
        url: test_address(channel.base, "/messages"@),
        model,
        headers: protocol::auth_pairs(ApiProtocol::Anthropic, channel),
        body: Some(JsonTree::Object(ping_members(model))),
    }
}

/// The test of a channel of another format: whether its address answers.
pub open spec fn other_test(channel: ChannelView) -> ChannelTestView {
    ChannelTestView {
        url: text::without_trailing(channel.base, '/'),
        model: "connectivity"@,
        headers: seq![
            ("Authorization"@, "Bearer "@ + channel.key),
            ("x-api-key"@, channel.key),
        ],
        body: None,
    }
}

/// The model to test a channel of the OpenAI format with.
pub open spec fn openai_test_model(channel: ChannelView) -> Seq<char> {
    channel.model_with(channel.mapping(), "gpt-4o-mini"@, "gpt-4o-mini"@)
}

/// The test of a channel, or the reason why it cannot be tested. A channel of the
/// Anthropic format that names no model is tested with `fallback`.
pub open spec fn test_of(channel: ChannelView, fallback: Seq<char>) -> Result<ChannelTestView, Seq<char>> {
    let kind = text::lowercase(text::trimmed(channel.kind));
    if text::blank(channel.base) {
        Err("Base URL 不能为空"@)
    } else if no_key(channel.key) {
        Err("API Key 不能为空；编辑已保存渠道时可以保留 ***"@)
    } else if kind == "anthropic"@ {
        Ok(anthropic_test(channel, fallback))
    } else if kind == "other"@ {
        Ok(other_test(channel))
    } else {
        Ok(openai_test(channel, openai_test_model(channel)))
    }
}

/// The body of a test.
fn ping(model: &str) -> (r: Vec<(String, Json)>)
    ensures
        json::member_trees(r@) == ping_members(model@),
{
    let messages: Vec<Json> = vec![protocol::message("user", "ping")];
    assert(json::trees(messages@) =~= seq![protocol::message_tree("user"@, "ping"@)]);
    let members: Vec<(String, Json)> = vec![
        ("model".to_owned(), Json::text(model)),
        ("messages".to_owned(), Json::Array(messages)),
        ("max_tokens".to_owned(), Json::whole(16)),
    ];
    assert(json::member_trees(members@) =~= ping_members(model@));
    members
}

/// The test of a channel of the OpenAI format, with the model `model`.
pub fn test_openai_channel(channel: &Channel, model: String) -> (r: ChannelTest)
    ensures
        r@ == openai_test(channel@, model@),
{
    let mut members: Vec<(String, Json)> = ping(model.as_str());
    let ghost before = members@;
    members.push(("stream".to_owned(), Json::Bool(false)));
    assert(json::member_trees(members@) =~= json::member_trees(before).push(
        ("stream"@, JsonTree::Bool(false)),
    ));
    ChannelTest {
        url: openai_chat_url(channel.base.as_str()),
        model,
        headers: ApiProtocol::OpenAI.auth_headers(channel),
        body: Some(Json::Object(members)),
    }
}

/// The test of a channel of the Anthropic format: with the first model that it
/// names, or with `fallback` where it names none.
pub fn test_anthropic_channel(channel: &Channel, fallback: &str) -> (r: ChannelTest)
    ensures
        r@ == anthropic_test(channel@, fallback@),
{
    let model: String = match channel::first_configured_model(channel.models.as_str()) {
        Some(model) => model,
        None => fallback.to_owned(),
    };
    ChannelTest {
        url: anthropic_messages_url(channel.base.as_str()),
        headers: ApiProtocol::Anthropic.auth_headers(channel),
        body: Some(Json::Object(ping(model.as_str()))),
        model,
    }
}

/// The test of a channel of another format.
pub fn test_other_channel(channel: &Channel) -> (r: ChannelTest)
    ensures
        r@ == other_test(channel@),
{
    let headers: Vec<(String, String)> = vec![
        ("Authorization".to_owned(), text::concat2("Bearer ", channel.key.as_str())),
        ("x-api-key".to_owned(), channel.key.clone()),
    ];
    assert(protocol::pair_views(headers@) =~= other_test(channel@).headers);
    ChannelTest {
        url: text::trim_end_char(channel.base.as_str(), '/').to_owned(),
        model: "connectivity".to_owned(),
        headers,
        body: None,
    }
}

/// The test of a channel, or the reason why it cannot be tested.
pub fn plan_channel_test(channel: &Channel, fallback: &str) -> (r: Result<ChannelTest, String>)
    ensures
        test_view(r) == test_of(channel@, fallback@),
{
    if text::trim(channel.base.as_str()).is_empty() {
        return Err("Base URL 不能为空".to_owned());
    }
    if lacks_key(channel.key.as_str()) {
        return Err("API Key 不能为空；编辑已保存渠道时可以保留 ***".to_owned());
    }
    let kind: String = text::to_lowercase(text::trim(channel.kind.as_str()));
    if text::same_text(kind.as_str(), "anthropic") {
        return Ok(test_anthropic_channel(channel, fallback));
    }
    if text::same_text(kind.as_str(), "other") {
        return Ok(test_other_channel(channel));
    }
    let model: String = channel.mapped_model("gpt-4o-mini", "gpt-4o-mini");
    Ok(test_openai_channel(channel, model))
}

/// The result of a test.
pub open spec fn result_members(ok: bool, status: u16, message: Seq<char>, latency_ms: u64) -> Seq<
    (Seq<char>, JsonTree),
> {
    seq![
        ("ok"@, JsonTree::Bool(ok)),
        ("status"@, JsonTree::Number(json::whole_number(status as u64))),
        ("latency_ms"@, JsonTree::Number(json::whole_number(latency_ms))),
        ("message"@, JsonTree::Text(message)),
    ]
}

/// The result of a test that took `nanos` nanoseconds.
pub fn test_result(ok: bool, status: u16, message: &str, nanos: u128) -> (r: Json)
    ensures
        r.tree() == JsonTree::Object(
            result_members(ok, status, message@, stream::whole_ms(nanos)),
        ),
{
    let members: Vec<(String, Json)> = vec![
        ("ok".to_owned(), Json::Bool(ok)),
        ("status".to_owned(), Json::whole(status as u64)),
        ("latency_ms".to_owned(), Json::whole(stream::elapsed_ms(nanos))),
        ("message".to_owned(), Json::text(message)),
    ];
    assert(json::member_trees(members@) =~= result_members(
        ok,
        status,
        message@,
        stream::whole_ms(nanos),
    ));
    Json::Object(members)
}

/// The words of `s`: what stands between white space.
pub open spec fn words(s: Seq<char>) -> Seq<Seq<char>>
    decreases s.len(),
{
    if s.len() == 0 {
        Seq::empty()
    } else {
        let before = words(s.drop_last());
        if text::white_space(s.last()) {
            before
        } else if s.len() == 1 || text::white_space(s[s.len() - 2]) {
            before.push(seq![s.last()])
        } else {
            before.drop_last().push(before.last().push(s.last()))
        }
    }
}

/// The words of `s`.
fn split_words(s: &str) -> (r: Vec<String>)
    ensures
        text::texts(r@) == words(s@),
{
    let chars: Vec<char> = text::chars_of(s);
    let mut done: Vec<String> = Vec::new();
    let mut open: String = String::new();
    let mut i: usize = 0;
    assert(s@.take(0) =~= Seq::<char>::empty());
    assert(text::texts(done@) =~= Seq::<Seq<char>>::empty());
    while i < chars.len()
        invariant
            i <= chars@.len(),
            chars@ == s@,
            open@.len() > 0 <==> i > 0 && !text::white_space(s@[i - 1]),
            words(s@.take(i as int)) == (if open@.len() > 0 {
                text::texts(done@).push(open@)
            } else {
                text::texts(done@)
            }),
        decreases chars@.len() - i,
    {
        let ghost longer = s@.take(i + 1);
        let ghost before = done@;
        let ghost word = open@;
        assert(longer.drop_last() =~= s@.take(i as int));
        assert(text::texts(before).push(word).drop_last() =~= text::texts(before));
        if text::is_white_space(chars[i]) {
            if !open.as_str().is_empty() {
                done.push(open);
                open = String::new();
                assert(text::texts(done@) =~= text::texts(before).push(word));
            }
            assert(words(longer) =~= text::texts(done@));
        } else {
            open.push(chars[i]);
            assert(word.len() == 0 ==> open@ =~= seq![chars@[i as int]]);
            assert(words(longer) =~= text::texts(done@).push(open@));
        }
        i += 1;
    }
    assert(s@.take(s@.len() as int) =~= s@);
    if !open.as_str().is_empty() {
        let ghost before = done@;
        let ghost word = open@;
        done.push(open);
        assert(text::texts(done@) =~= text::texts(before).push(word));
    }
    done
}

/// `text` as it is shown: its words with one space between each two, and no more
/// than a hundred and eighty characters of them.
pub open spec fn shown(text: Seq<char>) -> Seq<char> {
    text::shortened(text::joined(words(text), " "@), 180)
}

/// `text` as it is shown.
pub fn trim_for_display(text: &str) -> (r: String)
    ensures
        r@ == shown(text@),
{
    text::take_chars(text::join(&split_words(text), " ").as_str(), 180)
}

/// What is said of the answer to a test.
pub open spec fn answer_text(ok: bool, model: Seq<char>, body: Seq<char>) -> Seq<char> {
    (if ok {
        "测试通过"@
    } else {
        "测试失败"@
    }) + "；模型 "@ + model + "；"@ + shown(body)
}

/// The result of a test that was answered.
pub open spec fn answered_test(
    status: u16,
    body: Seq<char>,
    model: Seq<char>,
    url: Seq<char>,
    latency_ms: u64,
) -> JsonTree {
    let ok = 200 <= status < 400;
    JsonTree::Object(
        result_members(ok, status, answer_text(ok, model, body), latency_ms) + seq![
            ("model"@, JsonTree::Text(model)),
            ("url"@, JsonTree::Text(url)),
        ],
    )
}

/// The result of a test that was answered with `status` and `body`.
pub fn response_to_test_result(status: u16, body: &str, model: &str, url: &str, nanos: u128) -> (r:
    Json)
    ensures
        r.tree() == answered_test(status, body@, model@, url@, stream::whole_ms(nanos)),
{
    let ok: bool = 200 <= status && status < 400;
    let mut said: String = if ok {
        "测试通过".to_owned()
    } else {
        "测试失败".to_owned()
    };
    said.append("；模型 ");
    said.append(model);
    said.append("；");
    said.append(trim_for_display(body).as_str());
    let latency_ms: u64 = stream::elapsed_ms(nanos);
    let members: Vec<(String, Json)> = vec![
        ("ok".to_owned(), Json::Bool(ok)),
        ("status".to_owned(), Json::whole(status as u64)),
        ("latency_ms".to_owned(), Json::whole(latency_ms)),
        ("message".to_owned(), Json::text(said.as_str())),
        ("model".to_owned(), Json::text(model)),
        ("url".to_owned(), Json::text(url)),
    ];
    assert(json::member_trees(members@) =~= answered_test(
        status,
        body@,
        model@,
        url@,
        latency_ms,
    )->Object_0);
    Json::Object(members)
}

/// The result of a test that failed for `error`.
pub fn failed_test_result(error: &str, nanos: u128) -> (r: Json)
    ensures
        r.tree() == JsonTree::Object(
            result_members(false, 0, "请求失败："@ + error@, stream::whole_ms(nanos)),
        ),
{
    test_result(false, 0, text::concat2("请求失败：", error).as_str(), nanos)
}

/// No key is shown: that of a channel that has one is covered.
pub proof fn law_keys_stay_covered(channel: ChannelView)
    ensures
        text::blank(redacted(channel).key) || redacted(channel).key == "***"@,
{
}

/// A channel that is shown and saved again as it was shown keeps its key.
pub proof fn law_shown_channel_keeps_key(channels: Seq<ChannelView>, id: u64)
    requires
        0 <= id_place(channels, id) < channels.len(),
    ensures
        ({
            let at = id_place(channels, id);
            with_update(channels, id, redacted(channels[at]))[at].key == channels[at].key
        }),
{
    let at = id_place(channels, id);
    reveal_strlit("***");
    assert(text::trimmed("***"@) == "***"@);
}

/// A channel that was deleted is not found again.
pub proof fn law_deleted_channel_is_gone(channels: Seq<ChannelView>, id: u64)
    ensures
        id_place(without_id(channels, id), id) == without_id(channels, id).len(),
        forall|i: int|
            0 <= i < without_id(channels, id).len() ==> (#[trigger] without_id(channels, id)[i]).id
                != Some(id),
    decreases channels.len(),
{
    if channels.len() > 0 {
        law_deleted_channel_is_gone(channels.drop_last(), id);
    }
    lemma_no_place(without_id(channels, id), id);
}

proof fn lemma_no_place(channels: Seq<ChannelView>, id: u64)
    requires
        forall|i: int| 0 <= i < channels.len() ==> (#[trigger] channels[i]).id != Some(id),
    ensures
        id_place(channels, id) == channels.len(),
    decreases channels.len(),
{
    if channels.len() > 0 {
        assert forall|i: int| 0 <= i < channels.skip(1).len() implies (
        #[trigger] channels.skip(1)[i]).id != Some(id) by {
            assert(channels.skip(1)[i] == channels[i + 1]);
        }
        lemma_no_place(channels.skip(1), id);
    }
}

/// A text that is shown has at most a hundred and eighty characters.
pub proof fn law_shown_text_is_short(text: Seq<char>)
    ensures
        shown(text).len() <= 180,
{
}

/// A client is told of a model that is allowed by name, or that a channel in use lists between
/// its commas, and of no other; nobody is told of a star or of nothing.
pub proof fn law_offered(
    router: RouterConfigView,
    channels: Seq<ChannelView>,
    now: int,
    name: Seq<char>,
    i: int,
    k: int,
)
    ensures
        offered(router, channels, now, name) ==> name.len() > 0 && name != "*"@,
        name.len() > 0 && name != "*"@ && 0 <= i < router.external_allowed_models.len()
            && text::trimmed(router.external_allowed_models[i]) == name ==> offered(
            router,
            channels,
            now,
            name,
        ),
        name.len() > 0 && name != "*"@ && 0 <= k < channels.len() && channels[k].active_at(now)
            && 0 <= i < text::pieces(channels[k].models, ',').len() && text::trimmed(
            text::pieces(channels[k].models, ',')[i],
        ) == name ==> offered(router, channels, now, name),
        router.external_allowed_models.len() == 0 && (forall|j: int|
            0 <= j < channels.len() ==> !(#[trigger] channels[j]).active_at(now)) ==> !offered(
            router,
            channels,
            now,
            name,
        ),
{
    if 0 <= k < channels.len() && channels[k].active_at(now) && 0 <= i < text::pieces(
        channels[k].models,
        ',',
    ).len() && text::trimmed(text::pieces(channels[k].models, ',')[i]) == name {
        assert(lists(text::pieces(channels[k].models, ','), name));
        assert(listed_by(channels, now, name));
    }
}

/// The list of models is an object with the models in their order, each with its id, the kind
/// of the object, the time zero and the owner.
pub proof fn law_model_list(ids: Seq<Seq<char>>, i: int)
    ensures
        ({
            let list = model_list(ids);
            &&& list.get("object"@) == Some(JsonTree::Text("list"@))
            &&& list.get("data"@) matches Some(JsonTree::Array(data)) && data.len() == ids.len() && (
            0 <= i < ids.len() ==> {
                &&& data[i].get("id"@) == Some(JsonTree::Text(ids[i]))
                &&& data[i].get("object"@) == Some(JsonTree::Text("model"@))
                &&& data[i].get("created"@) == Some(JsonTree::Number(json::whole_number(0)))
                &&& data[i].get("owned_by"@) == Some(JsonTree::Text("obp"@))
            })
        }),
{
    reveal_strlit("object");
    reveal_strlit("data");
    reveal_strlit("id");
    reveal_strlit("created");
    reveal_strlit("owned_by");
    assert("object"@.len() == 6);
    assert("data"@.len() == 4);
    assert("id"@.len() == 2);
    assert("created"@.len() == 7);
    assert("owned_by"@.len() == 8);
    let members = model_list(ids)->Object_0;
    json::lemma_place_of(members, "object"@, 0);
    json::lemma_place_of(members, "data"@, 1);
    if 0 <= i < ids.len() {
        let entry = model_entry(ids[i])->Object_0;
        json::lemma_place_of(entry, "id"@, 0);
        json::lemma_place_of(entry, "object"@, 1);
        json::lemma_place_of(entry, "created"@, 2);
        json::lemma_place_of(entry, "owned_by"@, 3);
    }
}

/// A channel that is shown has three stars for its key, where it has one, and is otherwise as
/// it is.
pub proof fn law_redacted(channel: ChannelView)
    ensures
        !text::blank(channel.key) ==> redacted(channel).key == "***"@,
        text::blank(channel.key) ==> redacted(channel) == channel,
        redacted(channel) == (ChannelView { key: redacted(channel).key, ..channel }),
{
}

proof fn lemma_id_place(channels: Seq<ChannelView>, id: u64, i: int)
    requires
        0 <= i < channels.len(),
        channels[i].id == Some(id),
        forall|j: int| 0 <= j < i ==> (#[trigger] channels[j]).id != Some(id),
    ensures
        id_place(channels, id) == i,
    decreases channels.len(),
{
    if i > 0 {
        assert(channels[0].id != Some(id));
        let rest = channels.skip(1);
        assert forall|j: int| 0 <= j < i - 1 implies (#[trigger] rest[j]).id != Some(id) by {
            assert(rest[j] == channels[j + 1]);
        }
        lemma_id_place(rest, id, i - 1);
    }
}

/// The first channel with the id is replaced by what is given, under the same id; where no key
/// is given, or three stars, it keeps its own. The other channels stay, and so do all where
/// none has the id.
pub proof fn law_update(channels: Seq<ChannelView>, id: u64, updated: ChannelView, i: int)
    ensures
        0 <= i < channels.len() && channels[i].id == Some(id) && (forall|j: int|
            0 <= j < i ==> (#[trigger] channels[j]).id != Some(id)) ==> ({
            let after = with_update(channels, id, updated);
            let covered = text::blank(updated.key) || text::trimmed(updated.key) == "***"@;
            &&& after.len() == channels.len()
            &&& after[i].id == Some(id)
            &&& covered ==> after[i].key == channels[i].key
            &&& !covered ==> after[i].key == updated.key
            &&& after[i] == ChannelView { id: Some(id), key: after[i].key, ..updated }
            &&& forall|j: int|
                0 <= j < channels.len() && j != i ==> #[trigger] after[j] == channels[j]
        }),
        (forall|j: int| 0 <= j < channels.len() ==> (#[trigger] channels[j]).id != Some(id))
            ==> with_update(channels, id, updated) == channels,
{
    if 0 <= i < channels.len() && channels[i].id == Some(id) && (forall|j: int|
        0 <= j < i ==> (#[trigger] channels[j]).id != Some(id)) {
        lemma_id_place(channels, id, i);
    }
    if forall|j: int| 0 <= j < channels.len() ==> (#[trigger] channels[j]).id != Some(id) {
        lemma_no_place(channels, id);
    }
}

/// Deleting takes out the channels with the id, and leaves the others in their order.
pub proof fn law_delete(channels: Seq<ChannelView>, id: u64, channel: ChannelView)
    ensures
        channel.id == Some(id) ==> without_id(channels.push(channel), id) == without_id(
            channels,
            id,
        ),
        channel.id != Some(id) ==> without_id(channels.push(channel), id) == without_id(
            channels,
            id,
        ).push(channel),
        without_id(Seq::<ChannelView>::empty(), id).len() == 0,
{
    assert(channels.push(channel).drop_last() =~= channels);
}

/// A channel is tested with the saved key of its id where it has none of its own, and
/// otherwise as it is given.
pub proof fn law_testable(channel: ChannelView, channels: Seq<ChannelView>, id: u64, i: int)
    ensures
        ({
            let out = testable(channel, channels);
            let saved = channel.id == Some(id) && 0 <= i < channels.len() && channels[i].id == Some(
                id,
            ) && (forall|j: int| 0 <= j < i ==> (#[trigger] channels[j]).id != Some(id));
            let covered = text::blank(channel.key) || text::trimmed(channel.key) == "***"@;
            &&& saved && covered ==> out.key == channels[i].key
            &&& !covered ==> out.key == channel.key
            &&& channel.id is None ==> out == channel
            &&& out == ChannelView { key: out.key, ..channel }
        }),
{
    if channel.id == Some(id) && 0 <= i < channels.len() && channels[i].id == Some(id) && (
    forall|j: int| 0 <= j < i ==> (#[trigger] channels[j]).id != Some(id)) {
        lemma_id_place(channels, id, i);
    }
}

/// The end of a test is noted with the first channel of the id: the time, and whether it went
/// well. Nothing else changes.
pub proof fn law_test_note(channels: Seq<ChannelView>, id: u64, ok: bool, now: u64, i: int)
    requires
        0 <= i < channels.len(),
        channels[i].id == Some(id),
        forall|j: int| 0 <= j < i ==> (#[trigger] channels[j]).id != Some(id),
    ensures
        ({
            let after = with_test(channels, id, ok, now);
            &&& after.len() == channels.len()
            &&& ok ==> after[i].last_test == Some(numeral::decimal(now as int) + ": "@ + "ok"@)
            &&& !ok ==> after[i].last_test == Some(
                numeral::decimal(now as int) + ": "@ + "failed"@,
            )
            &&& after[i] == ChannelView { last_test: after[i].last_test, ..channels[i] }
            &&& forall|j: int|
                0 <= j < channels.len() && j != i ==> #[trigger] after[j] == channels[j]
        }),
{
    lemma_id_place(channels, id, i);
}

/// A test goes to the endpoint below the base, with the version where it is missing; slashes at
/// the end of the base do not matter.
pub proof fn law_test_address(base: Seq<char>, endpoint: Seq<char>)
    ensures
        text::closes_with(test_address(base, endpoint), endpoint),
        test_address(base.push('/'), endpoint) == test_address(base, endpoint),
        base.len() > 0 && base.last() != '/' && text::closes_with(base, endpoint)
            ==> test_address(base, endpoint) == base,
        base.len() > 0 && base.last() != '/' && !text::closes_with(base, endpoint)
            && text::closes_with(base, "/v1"@) ==> test_address(base, endpoint) == base + endpoint,
        base.len() > 0 && base.last() != '/' && !text::closes_with(base, endpoint)
            && !text::closes_with(base, "/v1"@) ==> test_address(base, endpoint) == base + "/v1"@
            + endpoint,
{
    let slash = base.push('/');
    assert(slash.drop_last() =~= base);
    assert(text::without_trailing(slash, '/') == text::without_trailing(base, '/'));
    let address = test_address(base, endpoint);
    assert(text::closes_with(address, endpoint)) by {
        let from = address.len() - endpoint.len();
        let root = text::without_trailing(base, '/');
        if !text::closes_with(root, endpoint) {
            assert(address.subrange(from, address.len() as int) =~= endpoint);
        }
    }
}

/// The message of a test asks the model, as the user, for a short answer to a ping.
pub proof fn law_ping(model: Seq<char>, channel: ChannelView)
    ensures
        ({
            let body = JsonTree::Object(ping_members(model));
            let sent = openai_test(channel, model).body;
            &&& body.get("model"@) == Some(JsonTree::Text(model))
            &&& body.get("messages"@) == Some(
                JsonTree::Array(seq![protocol::message_tree("user"@, "ping"@)]),
            )
            &&& body.get("max_tokens"@) == Some(JsonTree::Number(json::whole_number(16)))
            &&& sent is Some && sent->0.get("stream"@) == Some(JsonTree::Bool(false))
            &&& sent->0.get("model"@) == Some(JsonTree::Text(model))
            &&& sent->0.get("messages"@) == body.get("messages"@)
            &&& sent->0.get("max_tokens"@) == body.get("max_tokens"@)
        }),
{
    reveal_strlit("model");
    reveal_strlit("messages");
    reveal_strlit("max_tokens");
    reveal_strlit("stream");
    assert("model"@.len() == 5);
    assert("messages"@.len() == 8);
    assert("max_tokens"@.len() == 10);
    assert("stream"@.len() == 6);
    let members = ping_members(model);
    let more = members.push(("stream"@, JsonTree::Bool(false)));
    json::lemma_place_of(members, "model"@, 0);
    json::lemma_place_of(members, "messages"@, 1);
    json::lemma_place_of(members, "max_tokens"@, 2);
    json::lemma_place_of(more, "model"@, 0);
    json::lemma_place_of(more, "messages"@, 1);
    json::lemma_place_of(more, "max_tokens"@, 2);
    json::lemma_place_of(more, "stream"@, 3);
}

/// A channel is tested in its own format, once it has an address and a key: one of the Anthropic
/// format with the first model that it names, one of another kind by its address alone, and any
/// other as one of the OpenAI format.
pub proof fn law_tests(channel: ChannelView, fallback: Seq<char>)
    ensures
        ({
            let out = test_of(channel, fallback);
            let kind = text::lowercase(text::trimmed(channel.kind));
            let covered = text::blank(channel.key) || text::trimmed(channel.key) == "***"@;
            let ready = !text::blank(channel.base) && !covered;
            let model = openai_test_model(channel);
            &&& text::blank(channel.base) ==> out == Err::<ChannelTestView, Seq<char>>(
                "Base URL 不能为空"@,
            )
            &&& !text::blank(channel.base) && covered ==> out == Err::<ChannelTestView, Seq<char>>(
                "API Key 不能为空；编辑已保存渠道时可以保留 ***"@,
            )
            &&& ready ==> out is Ok
            &&& ready && kind == "anthropic"@ ==> {
                let test = out->Ok_0;
                &&& test.url == test_address(channel.base, "/messages"@)
                &&& test.headers == protocol::auth_pairs(ApiProtocol::Anthropic, channel)
                &&& channel::first_named(text::pieces(channel.models, ',')) matches Some(name)
                    ==> test.model == name
                &&& channel::first_named(text::pieces(channel.models, ',')) is None ==> test.model
                    == fallback
                &&& test.body == Some(JsonTree::Object(ping_members(test.model)))
            }
            &&& ready && kind == "other"@ ==> {
                let test = out->Ok_0;
                &&& test.body is None
                &&& test.model == "connectivity"@
                &&& test.url == text::without_trailing(channel.base, '/')
                &&& test.headers.len() == 2
                &&& test.headers[0] == ("Authorization"@, "Bearer "@ + channel.key)
                &&& test.headers[1] == ("x-api-key"@, channel.key)
            }
            &&& ready && kind != "anthropic"@ && kind != "other"@ ==> {
                let test = out->Ok_0;
                &&& test.url == test_address(channel.base, "/chat/completions"@)
                &&& test.headers == protocol::auth_pairs(ApiProtocol::OpenAI, channel)
                &&& test.model == model
            }
            &&& text::blank(channel.model_mapping) && channel.supports("gpt-4o-mini"@) ==> model
                == "gpt-4o-mini"@
        }),
{
    reveal_strlit("anthropic");
    reveal_strlit("other");
    assert("anthropic"@.len() == 9);
    assert("other"@.len() == 5);
    reveal_strlit("gpt-4o-mini");
    assert("gpt-4o-mini"@.len() == 11 && "gpt-4o-mini"@[0] == 'g');
    text::law_trimmed("gpt-4o-mini"@);
    if text::blank("gpt-4o-mini"@) {
        assert(text::white_space("gpt-4o-mini"@[0]));
    }
    if text::blank(channel.model_mapping) {
        channel::law_asked_for_what_is_served(channel, "gpt-4o-mini"@, "gpt-4o-mini"@);
    }
}

/// The result of a test says whether it went well, its status, how long it took and what is to
/// be said of it; that of an answer names the model and the address too, and goes well from the
/// status 200 up to 399.
pub proof fn law_test_results(
    status: u16,
    body: Seq<char>,
    model: Seq<char>,
    url: Seq<char>,
    latency_ms: u64,
    message: Seq<char>,
    ok: bool,
)
    ensures
        ({
            let out = answered_test(status, body, model, url, latency_ms);
            let plain = JsonTree::Object(result_members(ok, status, message, latency_ms));
            let good = 200 <= status <= 399;
            &&& out.get("ok"@) == Some(JsonTree::Bool(good))
            &&& out.get("status"@) == Some(JsonTree::Number(json::whole_number(status as u64)))
            &&& out.get("latency_ms"@) == Some(JsonTree::Number(json::whole_number(latency_ms)))
            &&& good ==> out.get("message"@) == Some(
                JsonTree::Text("测试通过"@ + "；模型 "@ + model + "；"@ + shown(body)),
            )
            &&& !good ==> out.get("message"@) == Some(
                JsonTree::Text("测试失败"@ + "；模型 "@ + model + "；"@ + shown(body)),
            )
            &&& out.get("model"@) == Some(JsonTree::Text(model))
            &&& out.get("url"@) == Some(JsonTree::Text(url))
            &&& plain.get("ok"@) == Some(JsonTree::Bool(ok))
            &&& plain.get("status"@) == Some(JsonTree::Number(json::whole_number(status as u64)))
            &&& plain.get("latency_ms"@) == Some(JsonTree::Number(json::whole_number(latency_ms)))
            &&& plain.get("message"@) == Some(JsonTree::Text(message))
        }),
{
    reveal_strlit("ok");
    reveal_strlit("status");
    reveal_strlit("latency_ms");
    reveal_strlit("message");
    reveal_strlit("model");
    reveal_strlit("url");
    assert("ok"@.len() == 2);
    assert("status"@.len() == 6);
    assert("latency_ms"@.len() == 10);
    assert("message"@.len() == 7);
    assert("model"@.len() == 5);
    assert("url"@.len() == 3);
    let members = answered_test(status, body, model, url, latency_ms)->Object_0;
    json::lemma_place_of(members, "ok"@, 0);
    json::lemma_place_of(members, "status"@, 1);
    json::lemma_place_of(members, "latency_ms"@, 2);
    json::lemma_place_of(members, "message"@, 3);
    json::lemma_place_of(members, "model"@, 4);
    json::lemma_place_of(members, "url"@, 5);
    let few = result_members(ok, status, message, latency_ms);
    json::lemma_place_of(few, "ok"@, 0);
    json::lemma_place_of(few, "status"@, 1);
    json::lemma_place_of(few, "latency_ms"@, 2);
    json::lemma_place_of(few, "message"@, 3);
}

/// No character of `s` is white space.
pub open spec fn unspaced(s: Seq<char>) -> bool {
    forall|i: int| 0 <= i < s.len() ==> !text::white_space(#[trigger] s[i])
}

/// The words of a text that goes on with white space and a word are those of the text and that
/// word; white space alone adds none.
pub proof fn law_words(s: Seq<char>, space: char, word: Seq<char>)
    requires
        text::white_space(space),
        unspaced(word),
    ensures
        words(Seq::<char>::empty()).len() == 0,
        words(s.push(space)) == words(s),
        word.len() > 0 ==> words(s.push(space) + word) == words(s).push(word),
        word.len() > 0 ==> words(word) == seq![word],
    decreases word.len(),
{
    assert(s.push(space).drop_last() =~= s);
    if word.len() > 0 {
        let rest = word.drop_last();
        let last = word[word.len() - 1];
        assert(!text::white_space(last));
        assert(unspaced(rest)) by {
            assert forall|i: int| 0 <= i < rest.len() implies !text::white_space(
                #[trigger] rest[i],
            ) by {
                assert(rest[i] == word[i]);
            }
        }
        law_words(s, space, rest);
        let all = s.push(space) + word;
        assert(all.drop_last() =~= s.push(space) + rest);
        assert(all.last() == last);
        assert(rest.push(last) =~= word);
        if rest.len() == 0 {
            assert(s.push(space) + rest =~= s.push(space));
            assert(all[all.len() - 2] == space);
            assert(seq![last] =~= word);
            assert(rest =~= Seq::<char>::empty());
            assert(words(word) =~= seq![word]);
        } else {
            assert(all[all.len() - 2] == rest[rest.len() - 1]);
            assert(word[word.len() - 2] == rest[rest.len() - 1]);
            let before = words(s).push(rest);
            assert(before.drop_last() =~= words(s));
            assert(seq![rest].drop_last().push(word) =~= seq![word]);
        }
    }
}

/// What is shown of a text is the start of its words with one blank between each two: a hundred
/// and eighty characters of it, or all.
pub proof fn law_shown(text: Seq<char>)
    ensures
        shown(text).is_prefix_of(text::joined(words(text), " "@)),
        text::joined(words(text), " "@).len() <= 180 ==> shown(text) == text::joined(
            words(text),
            " "@,
        ),
        text::joined(words(text), " "@).len() > 180 ==> shown(text).len() == 180,
{
}

/// The models that a client is told of ascend, each standing once, and they are those that are
/// offered.
pub proof fn law_offered_models(
    names: Seq<Seq<char>>,
    router: RouterConfigView,
    channels: Seq<ChannelView>,
    now: int,
    name: Seq<char>,
    i: int,
    j: int,
)
    requires
        are_offered(names, router, channels, now),
    ensures
        names.contains(name) <==> offered(router, channels, now, name),
        0 <= i < j < names.len() ==> text::text_before(names[i], names[j]) && names[i] != names[j],
{
    if 0 <= i < j < names.len() {
        text::lemma_order_irreflexive(names[i]);
    }
}

} // verus!
