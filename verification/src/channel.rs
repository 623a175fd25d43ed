//! Channels: the upstream endpoints that requests are sent to.
use crate::clock;
use crate::json;
use crate::json::{Json, JsonTree};
use crate::ordered::OrderedMap;
use crate::text;
use vstd::prelude::*;
use vstd::string::*;

verus! {

/// An upstream endpoint.
pub struct Channel {
    pub id: Option<u64>,
    pub name: String,
    /// The wire format that the endpoint speaks.
    pub kind: String,
    pub key: String,
    pub base: String,
    /// The models served, separated by commas.
    pub models: String,
    /// A JSON object that maps requested models to served ones.
    pub model_mapping: String,
    pub status: String,
    pub requests: u64,
    pub last_test: Option<String>,
    pub fail_count: u32,
    /// The time in seconds up to which a cooling channel stays out of use.
    pub disabled_until: Option<u64>,
    pub role: String,
    pub group: String,
    pub priority: u32,
    pub cost_model: String,
}

/// What a channel holds.
#[verifier::ext_equal]
pub struct ChannelView {
    pub id: Option<u64>,
    pub name: Seq<char>,
    pub kind: Seq<char>,
    pub key: Seq<char>,
    pub base: Seq<char>,
    pub models: Seq<char>,
    pub model_mapping: Seq<char>,
    pub status: Seq<char>,
    pub requests: u64,
    pub last_test: Option<Seq<char>>,
    pub fail_count: u32,
    pub disabled_until: Option<u64>,
    pub role: Seq<char>,
    pub group: Seq<char>,
    pub priority: u32,
    pub cost_model: Seq<char>,
}

/// The content of a text that may be there.
pub open spec fn maybe_text(text: Option<String>) -> Option<Seq<char>> {
    match text {
        Some(value) => Some(value@),
        None => None,
    }
}

impl View for Channel {
    type V = ChannelView;

    open spec fn view(&self) -> ChannelView {
        ChannelView {
            id: self.id,
            name: self.name@,
            kind: self.kind@,
            key: self.key@,
            base: self.base@,
            models: self.models@,
            model_mapping: self.model_mapping@,
            status: self.status@,
            requests: self.requests,
            last_test: maybe_text(self.last_test),
            fail_count: self.fail_count,
            disabled_until: self.disabled_until,
            role: self.role@,
            group: self.group@,
            priority: self.priority,
            cost_model: self.cost_model@,
        }
    }
}

/// What each of `channels` holds.
pub open spec fn channel_views(channels: Seq<Channel>) -> Seq<ChannelView> {
    Seq::new(channels.len(), |i: int| channels[i]@)
}

/// What a channel holds that nothing has been said of.
pub open spec fn default_channel() -> ChannelView {
    ChannelView {
        id: None,
        name: Seq::<char>::empty(),
        kind: "openai"@,
        key: Seq::<char>::empty(),
        base: Seq::<char>::empty(),
        models: "*"@,
        model_mapping: Seq::<char>::empty(),
        status: "active"@,
        requests: 0,
        last_test: None,
        fail_count: 0,
        disabled_until: None,
        role: "default"@,
        group: Seq::<char>::empty(),
        priority: 100,
        cost_model: Seq::<char>::empty(),
    }
}

impl Default for Channel {
    fn default() -> (r: Self)
        ensures
            r@ == default_channel(),
    {
        Channel {
            id: None,
            name: String::new(),
            kind: "openai".to_owned(),
            key: String::new(),
            base: String::new(),
            models: "*".to_owned(),
            model_mapping: String::new(),
            status: "active".to_owned(),
            requests: 0,
            last_test: None,
            fail_count: 0,
            disabled_until: None,
            role: "default".to_owned(),
            group: String::new(),
            priority: 100,
            cost_model: String::new(),
        }
    }
}

impl Clone for Channel {
    fn clone(&self) -> (r: Self)
        ensures
            r == *self,
    {
        Channel {
            id: self.id,
            name: self.name.clone(),
            kind: self.kind.clone(),
            key: self.key.clone(),
            base: self.base.clone(),
            models: self.models.clone(),
            model_mapping: self.model_mapping.clone(),
            status: self.status.clone(),
            requests: self.requests,
            last_test: match &self.last_test {
                Some(value) => Some(value.clone()),
                None => None,
            },
            fail_count: self.fail_count,
            disabled_until: self.disabled_until,
            role: self.role.clone(),
            group: self.group.clone(),
            priority: self.priority,
            cost_model: self.cost_model.clone(),
        }
    }
}

/// `a` and `b` are equal but for the case of ASCII letters.
pub open spec fn same_word(a: Seq<char>, b: Seq<char>) -> bool {
    text::ascii_lowered(a) == text::ascii_lowered(b)
}

/// `name` is the lower case of `item` without white space around it, of which
/// something is left.
pub open spec fn names_model(item: Seq<char>, name: Seq<char>) -> bool {
    !text::blank(item) && text::lowercase(text::trimmed(item)) == name
}

/// The models that `models` lists: what stands between the commas, in lower case
/// and without white space around it.
pub open spec fn listed_models(models: Seq<char>) -> Set<Seq<char>> {
    Set::new(
        |name: Seq<char>|
            exists|i: int|
                0 <= i < text::pieces(models, ',').len() && names_model(
                    #[trigger] text::pieces(models, ',')[i],
                    name,
                ),
    )
}

/// `models` sets no limit to the models served.
pub open spec fn any_model(models: Seq<char>) -> bool {
    text::trimmed(models).len() == 0 || text::trimmed(models) == "*"@
}

/// `item`, without white space around it, names one model and not all of them.
pub open spec fn names_one(item: Seq<char>) -> bool {
    !text::blank(item) && text::trimmed(item) != "*"@
}

/// The first of `items` that, without white space around it, names a model.
pub open spec fn first_named(items: Seq<Seq<char>>) -> Option<Seq<char>>
    decreases items.len(),
{
    if items.len() == 0 {
        None
    } else if names_one(items[0]) {
        Some(text::trimmed(items[0]))
    } else {
        first_named(items.skip(1))
    }
}

/// The place of the first member whose key has the lower case `target`.
pub open spec fn alias_place(members: Seq<(Seq<char>, JsonTree)>, target: Seq<char>) -> int
    decreases members.len(),
{
    if members.len() == 0 || text::lowercase(members[0].0) == target {
        0
    } else {
        1 + alias_place(members.skip(1), target)
    }
}

/// The model that an object with `members` gives for `model`: by the key itself,
/// or else by the first key that has the same lower case.
pub open spec fn name_among(members: Seq<(Seq<char>, JsonTree)>, model: Seq<char>) -> Option<
    Seq<char>,
> {
    let exact = json::text_member(JsonTree::Object(members), model);
    let at = alias_place(members, text::lowercase(model));
    if exact is Some {
        exact
    } else if at < members.len() {
        members[at].1.as_text()
    } else {
        None
    }
}

/// The model that `mapping` gives for `model`: by the key itself, or else by the
/// first key, in ascending order, that has the same lower case.
pub open spec fn mapped_name(mapping: Option<JsonTree>, model: Seq<char>) -> Option<Seq<char>> {
    match mapping {
        Some(tree) => match json::sorted_tree(tree) {
            JsonTree::Object(members) => name_among(members, model),
            _ => None,
        },
        None => None,
    }
}

impl ChannelView {
    /// The channel is in use at the time `now`: it is marked active, or its time
    /// out of use is over.
    pub open spec fn active_at(self, now: int) -> bool {
        let status = text::trimmed(self.status);
        if status.len() == 0 || same_word(status, "active"@) {
            true
        } else if same_word(status, "cooldown"@) || same_word(status, "error"@) {
            (match self.disabled_until {
                Some(time) => time as int,
                None => 0,
            }) <= now
        } else {
            false
        }
    }

    /// The role, in lower case.
    pub open spec fn role_key(self) -> Seq<char> {
        let role = text::trimmed(self.role);
        if role.len() == 0 {
            "default"@
        } else {
            text::lowercase(role)
        }
    }

    /// The group, in lower case.
    pub open spec fn group_key(self) -> Seq<char> {
        text::lowercase(text::trimmed(self.group))
    }

    /// The channel serves `model`.
    pub open spec fn supports(self, model: Seq<char>) -> bool {
        any_model(self.models) || listed_models(self.models).contains(
            text::lowercase(text::trimmed(model)),
        )
    }

    /// The mapping of models, where there is one.
    pub open spec fn mapping(self) -> Option<JsonTree> {
        if text::blank(self.model_mapping) {
            None
        } else {
            json::parsed_text(self.model_mapping)
        }
    }

    /// How well the channel goes with `model`, the best being 0: it lists the
    /// model, maps it, serves any model, or does none of these.
    pub open spec fn rank_with(self, mapping: Option<JsonTree>, model: Seq<char>) -> u8 {
        let target = text::lowercase(text::trimmed(model));
        if text::blank(model) {
            9
        } else if !any_model(self.models) && listed_models(self.models).contains(target) {
            0
        } else if mapped_name(mapping, model) is Some {
            1
        } else if any_model(self.models) {
            3
        } else {
            9
        }
    }

    /// The model to ask this channel for.
    pub open spec fn model_with(
        self,
        mapping: Option<JsonTree>,
        requested: Seq<char>,
        desired: Seq<char>,
    ) -> Seq<char> {
        if mapped_name(mapping, desired) is Some {
            mapped_name(mapping, desired)->0
        } else if mapped_name(mapping, requested) is Some {
            mapped_name(mapping, requested)->0
        } else if !text::blank(desired) && self.supports(desired) {
            desired
        } else if !text::blank(requested) && self.supports(requested) {
            requested
        } else if first_named(text::pieces(self.models, ',')) is Some {
            first_named(text::pieces(self.models, ','))->0
        } else {
            desired
        }
    }

    /// How well the channel goes with the desired and with the requested model.
    pub open spec fn match_rank(self, desired: Seq<char>, requested: Seq<char>) -> (u8, u8) {
        (self.rank_with(self.mapping(), desired), self.rank_with(self.mapping(), requested))
    }
}

/// The model that `mapping` gives for `model`.
pub fn lookup_mapping(mapping: Option<&Json>, model: &str) -> (r: Option<String>)
    ensures
        maybe_text(r) == mapped_name(json::maybe_tree_ref(mapping), model@),
{
    let json: Json = match mapping {
        Some(json) => json.in_key_order(),
        None => {
            return None;
        },
    };
    let members: &Vec<(String, Json)> = match &json {
        Json::Object(members) => members,
        _ => {
            return None;
        },
    };
    if let Some(exact) = json.text_member(model) {
        return Some(exact.to_owned());
    }
    let target: String = text::to_lowercase(model);
    let ghost listed = json::member_trees(members@);
    let mut i: usize = 0;
    assert(listed.skip(0) =~= listed);
    while i < members.len() && text::to_lowercase(members[i].0.as_str()) != target
        invariant
            i <= members@.len(),
            listed == json::member_trees(members@),
            alias_place(listed, target@) == i + alias_place(listed.skip(i as int), target@),
        decreases members@.len() - i,
    {
        assert(listed.skip(i as int).skip(1) =~= listed.skip(i + 1));
        i += 1;
    }
    if i < members.len() {
        match members[i].1.as_text() {
            Some(value) => Some(value.to_owned()),
            None => None,
        }
    } else {
        None
    }
}

/// The first model that `models` lists by name.
pub fn first_configured_model(models: &str) -> (r: Option<String>)
    ensures
        maybe_text(r) == first_named(text::pieces(models@, ',')),
{
    let items: Vec<String> = text::split(models, ',');
    let ghost listed = text::texts(items@);
    let mut i: usize = 0;
    assert(listed.skip(0) =~= listed);
    while i < items.len()
        invariant
            i <= items@.len(),
            listed == text::texts(items@),
            listed == text::pieces(models@, ','),
            first_named(listed) == first_named(listed.skip(i as int)),
        decreases items@.len() - i,
    {
        let item: &str = text::trim(items[i].as_str());
        if !item.is_empty() && !text::same_text(item, "*") {
            return Some(item.to_owned());
        }
        assert(listed.skip(i as int).skip(1) =~= listed.skip(i + 1));
        i += 1;
    }
    None
}

/// Does `models` set no limit to the models served?
fn takes_any(models: &str) -> (r: bool)
    ensures
        r == any_model(models@),
{
    let trimmed: &str = text::trim(models);
    trimmed.is_empty() || text::same_text(trimmed, "*")
}

impl Channel {
    /// Is the channel in use at the time `now`, in seconds?
    pub fn is_active_at(&self, now: u64) -> (r: bool)
        ensures
            r == self@.active_at(now as int),
    {
        let status: &str = text::trim(self.status.as_str());
        if status.is_empty() || text::eq_ignore_ascii_case(status, "active") {
            return true;
        }
        if text::eq_ignore_ascii_case(status, "cooldown") || text::eq_ignore_ascii_case(
            status,
            "error",
        ) {
            return self.disabled_until.unwrap_or(0) <= now;
        }
        false
    }

    /// Is the channel in use now?
    pub fn is_active(&self) -> (r: bool)
        ensures
            exists|now: u64| r == #[trigger] self@.active_at(now as int),
    {
        let now: u64 = clock::unix_now_secs();
        self.is_active_at(now)
    }

    /// The role, in lower case; `default` where there is none.
    pub fn role_key(&self) -> (r: String)
        ensures
            r@ == self@.role_key(),
    {
        let role: &str = text::trim(self.role.as_str());
        if role.is_empty() {
            "default".to_owned()
        } else {
            text::to_lowercase(role)
        }
    }

    /// The group, in lower case.
    pub fn group_key(&self) -> (r: String)
        ensures
            r@ == self@.group_key(),
    {
        text::to_lowercase(text::trim(self.group.as_str()))
    }

    /// Does the channel serve `model`?
    pub fn supports_model(&self, model: &str) -> (r: bool)
        ensures
            r == self@.supports(model@),
    {
        if takes_any(self.models.as_str()) {
            return true;
        }
        let target: String = text::to_lowercase(text::trim(model));
        self.model_set().contains_key(target.as_str())
    }

    /// How well the channel goes with the desired and with the requested model.
    pub fn model_match_rank(&self, desired_model: &str, requested_model: &str) -> (r: (u8, u8))
        ensures
            r == self@.match_rank(desired_model@, requested_model@),
    {
        (
            self.single_model_match_rank(desired_model),
            self.single_model_match_rank(requested_model),
        )
    }

    /// How well the channel goes with `model`.
    pub fn single_model_match_rank(&self, model: &str) -> (r: u8)
        ensures
            r == self@.rank_with(self@.mapping(), model@),
    {
        let mapping: Option<Json> = self.mapping_value();
        self.match_rank_with(mapping.as_ref(), model)
    }

    /// How well the channel goes with `model`, given its mapping of models.
    pub fn match_rank_with(&self, mapping: Option<&Json>, model: &str) -> (r: u8)
        ensures
            r == self@.rank_with(json::maybe_tree_ref(mapping), model@),
    {
        let target: String = text::to_lowercase(text::trim(model));
        if target.as_str().is_empty() {
            return 9;
        }
        let any: bool = takes_any(self.models.as_str());
        if !any && self.model_set().contains_key(target.as_str()) {
            return 0;
        }
        if lookup_mapping(mapping, model).is_some() {
            return 1;
        }
        if any {
            3
        } else {
            9
        }
    }

    /// The model to ask this channel for.
    pub fn mapped_model(&self, requested_model: &str, desired_model: &str) -> (r: String)
        ensures
            r@ == self@.model_with(self@.mapping(), requested_model@, desired_model@),
    {
        let mapping: Option<Json> = self.mapping_value();
        self.mapped_model_with(mapping.as_ref(), requested_model, desired_model)
    }

    /// The model to ask this channel for, given its mapping of models.
    pub fn mapped_model_with(
        &self,
        mapping: Option<&Json>,
        requested_model: &str,
        desired_model: &str,
    ) -> (r: String)
        ensures
            r@ == self@.model_with(json::maybe_tree_ref(mapping), requested_model@, desired_model@),
    {
        if let Some(mapped) = lookup_mapping(mapping, desired_model) {
            return mapped;
        }
        if let Some(mapped) = lookup_mapping(mapping, requested_model) {
            return mapped;
        }
        if !text::trim(desired_model).is_empty() && self.supports_model(desired_model) {
            return desired_model.to_owned();
        }
        if !text::trim(requested_model).is_empty() && self.supports_model(requested_model) {
            return requested_model.to_owned();
        }
        match self.first_model() {
            Some(model) => model,
            None => desired_model.to_owned(),
        }
    }

    /// The models that the channel lists, in lower case.
    pub fn model_set(&self) -> (r: OrderedMap<()>)
        ensures
            r.wf(),
            r@.dom() == listed_models(self.models@),
    {
        let items: Vec<String> = text::split(self.models.as_str(), ',');
        let ghost listed = text::pieces(self.models@, ',');
        let mut out: OrderedMap<()> = OrderedMap::new();
        let mut i: usize = 0;
        while i < items.len()
            invariant
                i <= items@.len(),
                out.wf(),
                listed == text::texts(items@),
                forall|name: Seq<char>| #[trigger]
                    out@.dom().contains(name) <==> exists|j: int|
                        0 <= j < i && names_model(#[trigger] listed[j], name),
            decreases items@.len() - i,
        {
            let name: String = text::to_lowercase(text::trim(items[i].as_str()));
            let ghost before = out@;
            assert(listed[i as int] == items@[i as int]@);
            if !name.as_str().is_empty() {
                out.insert(name.clone(), ());
            }
            assert forall|other: Seq<char>| #[trigger]
                out@.dom().contains(other) <==> exists|j: int|
                    0 <= j < i + 1 && names_model(#[trigger] listed[j], other) by {
                if out@.dom().contains(other) {
                    if before.dom().contains(other) {
                        let j = choose|j: int|
                            0 <= j < i && names_model(#[trigger] listed[j], other);
                        assert(names_model(listed[j], other));
                    } else {
                        assert(names_model(listed[i as int], other));
                    }
                } else if exists|j: int|
                    0 <= j < i + 1 && names_model(#[trigger] listed[j], other) {
                    let j = choose|j: int|
                        0 <= j < i + 1 && names_model(#[trigger] listed[j], other);
                    assert(!before.dom().contains(other));
                    assert(j == i);
                }
            }
            i += 1;
        }
        assert(out@.dom() =~= listed_models(self.models@));
        out
    }

    /// The first model that the channel lists by name.
    pub fn first_model(&self) -> (r: Option<String>)
        ensures
            maybe_text(r) == first_named(text::pieces(self.models@, ',')),
    {
        first_configured_model(self.models.as_str())
    }

    /// The mapping of models, where there is one.
    pub fn mapping_value(&self) -> (r: Option<Json>)
        ensures
            json::maybe_tree(r) == self@.mapping(),
    {
        if text::trim(self.model_mapping.as_str()).is_empty() {
            return None;
        }
        Json::parse_text(self.model_mapping.as_str())
    }
}

/// Each rank is that of one model alone, and is one of four. A channel that ranks a
/// model as listed, or as one of any, serves it; one that gives the last rank to
/// a model that has a name does not.
pub proof fn law_match_ranks(channel: ChannelView, desired: Seq<char>, requested: Seq<char>)
    ensures
        ({
            let (d, r) = channel.match_rank(desired, requested);
            &&& d == 0 || d == 1 || d == 3 || d == 9
            &&& r == 0 || r == 1 || r == 3 || r == 9
            &&& channel.match_rank(requested, desired) == (r, d)
            &&& d == 0 || d == 3 ==> channel.supports(desired)
            &&& d == 9 && !text::blank(desired) ==> !channel.supports(desired)
        }),
{
}

proof fn lemma_first_named(items: Seq<Seq<char>>)
    ensures
        (exists|i: int| 0 <= i < items.len() && names_one(#[trigger] items[i])) <==> first_named(
            items,
        ) is Some,
        first_named(items) is Some ==> exists|i: int|
            0 <= i < items.len() && names_one(#[trigger] items[i]) && text::trimmed(items[i])
                == first_named(items)->0,
    decreases items.len(),
{
    if items.len() > 0 {
        let rest = items.skip(1);
        lemma_first_named(rest);
        if names_one(items[0]) {
            assert(first_named(items) == Some(text::trimmed(items[0])));
        } else {
            if exists|i: int| 0 <= i < items.len() && names_one(#[trigger] items[i]) {
                let i = choose|i: int| 0 <= i < items.len() && names_one(#[trigger] items[i]);
                assert(rest[i - 1] == items[i]);
            }
            if first_named(rest) is Some {
                let i = choose|i: int|
                    0 <= i < rest.len() && names_one(#[trigger] rest[i]) && text::trimmed(rest[i])
                        == first_named(rest)->0;
                assert(items[i + 1] == rest[i]);
            }
        }
    }
}

/// A channel without a mapping that lists a model, or serves any, is asked for a
/// model that it serves; and for the desired one, unchanged, where it serves it.
pub proof fn law_asked_for_what_is_served(
    channel: ChannelView,
    requested: Seq<char>,
    desired: Seq<char>,
)
    requires
        text::blank(channel.model_mapping),
    ensures
        ({
            let asked = channel.model_with(channel.mapping(), requested, desired);
            let items = text::pieces(channel.models, ',');
            &&& any_model(channel.models) || (exists|i: int|
                0 <= i < items.len() && names_one(#[trigger] items[i])) ==> channel.supports(asked)
            &&& !text::blank(desired) && channel.supports(desired) ==> asked == desired
        }),
{
    let items = text::pieces(channel.models, ',');
    lemma_first_named(items);
    if first_named(items) is Some {
        let i = choose|i: int|
            0 <= i < items.len() && names_one(#[trigger] items[i]) && text::trimmed(items[i])
                == first_named(items)->0;
        text::lemma_trimmed_twice(items[i]);
        assert(names_model(items[i], text::lowercase(text::trimmed(first_named(items)->0))));
    }
}

proof fn lemma_status_words()
    ensures
        text::ascii_lowered("active"@) == "active"@,
        text::ascii_lowered("cooldown"@) == "cooldown"@,
        text::ascii_lowered("error"@) == "error"@,
        "active"@.len() == 6,
        "cooldown"@.len() == 8,
        "error"@.len() == 5,
{
    reveal_strlit("active");
    reveal_strlit("cooldown");
    reveal_strlit("error");
    assert(text::ascii_lowered("active"@) =~= "active"@);
    assert(text::ascii_lowered("cooldown"@) =~= "cooldown"@);
    assert(text::ascii_lowered("error"@) =~= "error"@);
}

/// A channel is in use where its status is empty or `active`; where it is `cooldown`
/// or `error`, from the time on up to which it is out, or at once where no time is
/// given; and with any other status never. Case and white space around the status do
/// not matter.
pub proof fn law_in_use(channel: ChannelView, now: int)
    ensures
        ({
            let status = text::ascii_lowered(text::trimmed(channel.status));
            let out = status == "cooldown"@ || status == "error"@;
            &&& status.len() == 0 || status == "active"@ ==> channel.active_at(now)
            &&& out && channel.disabled_until is Some ==> (channel.active_at(now)
                <==> channel.disabled_until->0 <= now)
            &&& out && channel.disabled_until is None && now >= 0 ==> channel.active_at(now)
            &&& status.len() > 0 && status != "active"@ && !out ==> !channel.active_at(now)
        }),
{
    lemma_status_words();
}

/// The role of a channel is what is given, in lower case and without white space
/// around it, and `default` where nothing is given; its group likewise, with none
/// where nothing is given.
pub proof fn law_role_and_group(channel: ChannelView)
    ensures
        text::blank(channel.role) ==> channel.role_key() == "default"@,
        !text::blank(channel.role) ==> channel.role_key() == text::lowercase(
            text::trimmed(channel.role),
        ),
        channel.group_key() == text::lowercase(text::trimmed(channel.group)),
{
}

/// `models` lists `model` between its commas, whatever the case and the white space.
pub open spec fn lists(models: Seq<char>, model: Seq<char>) -> bool {
    exists|i: int|
        0 <= i < text::pieces(models, ',').len() && text::trimmed(
            #[trigger] text::pieces(models, ',')[i],
        ).len() > 0 && text::lowercase(text::trimmed(text::pieces(models, ',')[i]))
            == text::lowercase(text::trimmed(model))
}

/// A channel that names no models, or the star alone, serves every model; any other
/// serves those that it lists.
pub proof fn law_supports(channel: ChannelView, model: Seq<char>)
    ensures
        text::blank(channel.models) || text::trimmed(channel.models) == "*"@ ==> channel.supports(
            model,
        ),
        !text::blank(channel.models) && text::trimmed(channel.models) != "*"@ ==> (
        channel.supports(model) <==> lists(channel.models, model)),
{
    let target = text::lowercase(text::trimmed(model));
    let items = text::pieces(channel.models, ',');
    if listed_models(channel.models).contains(target) {
        let i = choose|i: int| 0 <= i < items.len() && names_model(#[trigger] items[i], target);
        assert(text::trimmed(items[i]).len() > 0);
    }
    if lists(channel.models, model) {
        let i = choose|i: int|
            0 <= i < items.len() && text::trimmed(#[trigger] items[i]).len() > 0
                && text::lowercase(text::trimmed(items[i])) == target;
        assert(names_model(items[i], target));
    }
}

/// The best channel for a model lists it, the next best maps it, the next serves any
/// model; the rest, and any channel for no model, come last.
pub proof fn law_rank_of_model(
    channel: ChannelView,
    mapping: Option<JsonTree>,
    model: Seq<char>,
)
    ensures
        ({
            let rank = channel.rank_with(mapping, model);
            let any = text::blank(channel.models) || text::trimmed(channel.models) == "*"@;
            let listed = lists(channel.models, model) && !any;
            let mapped = mapped_name(mapping, model) is Some;
            let named = !text::blank(model);
            &&& named && listed ==> rank == 0
            &&& named && !listed && mapped ==> rank == 1
            &&& named && any && !mapped ==> rank == 3
            &&& named && !listed && !mapped && !any ==> rank == 9
            &&& !named ==> rank == 9
        }),
{
    law_supports(channel, model);
    let target = text::lowercase(text::trimmed(model));
    let items = text::pieces(channel.models, ',');
    if lists(channel.models, model) {
        let i = choose|i: int|
            0 <= i < items.len() && text::trimmed(#[trigger] items[i]).len() > 0
                && text::lowercase(text::trimmed(items[i])) == target;
        assert(names_model(items[i], target));
    }
}

proof fn lemma_alias_place(members: Seq<(Seq<char>, JsonTree)>, target: Seq<char>)
    ensures
        0 <= alias_place(members, target) <= members.len(),
        alias_place(members, target) < members.len() ==> text::lowercase(
            members[alias_place(members, target)].0,
        ) == target,
        forall|i: int|
            0 <= i < alias_place(members, target) ==> text::lowercase((#[trigger] members[i]).0)
                != target,
    decreases members.len(),
{
    if members.len() > 0 && text::lowercase(members[0].0) != target {
        let rest = members.skip(1);
        lemma_alias_place(rest, target);
        assert forall|i: int| 0 <= i < 1 + alias_place(rest, target) implies text::lowercase(
            (#[trigger] members[i]).0,
        ) != target by {
            if i > 0 {
                assert(rest[i - 1] == members[i]);
            }
        }
    }
}

/// A mapping gives a model the text at its name; where there is none, the text at the
/// first key that is the name but for its case; and nothing where no key is.
pub proof fn law_mapping(members: Seq<(Seq<char>, JsonTree)>, model: Seq<char>, at: int)
    ensures
        JsonTree::Object(members).get(model) matches Some(JsonTree::Text(name)) ==> name_among(
            members,
            model,
        ) == Some(name),
        0 <= at < members.len() && text::lowercase(members[at].0) == text::lowercase(model)
            && !(JsonTree::Object(members).get(model) matches Some(JsonTree::Text(_))) && (forall|
            i: int,
        |
            0 <= i < at ==> text::lowercase((#[trigger] members[i]).0) != text::lowercase(model))
            ==> name_among(members, model) == members[at].1.as_text(),
        (forall|i: int|
            0 <= i < members.len() ==> text::lowercase((#[trigger] members[i]).0)
                != text::lowercase(model)) ==> name_among(members, model) is None,
        mapped_name(None, model) is None,
{
    let place = alias_place(members, text::lowercase(model));
    lemma_alias_place(members, text::lowercase(model));
    json::lemma_found_place(members, model);
    if 0 <= at < members.len() && text::lowercase(members[at].0) == text::lowercase(model)
        && forall|i: int|
            0 <= i < at ==> text::lowercase((#[trigger] members[i]).0) != text::lowercase(model) {
        assert(place <= at);
        assert(place == at);
    }
}

/// The model that a channel is asked for: what the mapping gives for the desired
/// model, or else for the requested one; or else the desired model, where the channel
/// serves it, or else the requested one, where it serves that; or else the first
/// model that it lists by name, or else the desired one after all.
pub proof fn law_model_asked_for(
    channel: ChannelView,
    mapping: Option<JsonTree>,
    requested: Seq<char>,
    desired: Seq<char>,
)
    ensures
        ({
            let asked = channel.model_with(mapping, requested, desired);
            let by_desired = mapped_name(mapping, desired);
            let by_requested = mapped_name(mapping, requested);
            let unmapped = by_desired is None && by_requested is None;
            let items = text::pieces(channel.models, ',');
            let serves_desired = !text::blank(desired) && channel.supports(desired);
            let serves_requested = !text::blank(requested) && channel.supports(requested);
            let neither = unmapped && !serves_desired && !serves_requested;
            &&& by_desired is Some ==> asked == by_desired->0
            &&& by_desired is None && by_requested is Some ==> asked == by_requested->0
            &&& unmapped && serves_desired ==> asked == desired
            &&& unmapped && !serves_desired && serves_requested ==> asked == requested
            &&& neither && first_named(items) is None ==> asked == desired
            &&& neither ==> forall|i: int|
                0 <= i < items.len() && !text::blank(#[trigger] items[i]) && text::trimmed(items[i])
                    != "*"@ && (forall|j: int|
                    0 <= j < i ==> text::blank(#[trigger] items[j]) || text::trimmed(items[j])
                        == "*"@) ==> asked == text::trimmed(items[i])
        }),
{
    let items = text::pieces(channel.models, ',');
    assert forall|i: int|
        0 <= i < items.len() && !text::blank(#[trigger] items[i]) && text::trimmed(items[i]) != "*"@
            && (forall|j: int|
            0 <= j < i ==> text::blank(#[trigger] items[j]) || text::trimmed(items[j]) == "*"@)
    implies first_named(items) == Some(text::trimmed(items[i])) by {
        lemma_first_named_at(items, i);
    }
}

proof fn lemma_first_named_at(items: Seq<Seq<char>>, i: int)
    requires
        0 <= i < items.len(),
        names_one(items[i]),
        forall|j: int| 0 <= j < i ==> !names_one(#[trigger] items[j]),
    ensures
        first_named(items) == Some(text::trimmed(items[i])),
    decreases items.len(),
{
    if i > 0 {
        assert(!names_one(items[0]));
        let rest = items.skip(1);
        assert forall|j: int| 0 <= j < i - 1 implies !names_one(#[trigger] rest[j]) by {
            assert(rest[j] == items[j + 1]);
        }
        lemma_first_named_at(rest, i - 1);
    }
}

/// What a new channel is: active, of the role `default` and of the format `openai`,
/// serving every model, with the priority 100.
pub proof fn law_new_channel(now: int)
    ensures
        default_channel().active_at(now),
        default_channel().role_key() == "default"@,
        default_channel().priority == 100,
        default_channel().kind == "openai"@,
        default_channel().key.len() == 0,
        default_channel().base.len() == 0,
        default_channel().group.len() == 0,
        default_channel().requests == 0,
        default_channel().fail_count == 0,
        forall|model: Seq<char>| #[trigger] default_channel().supports(model),
{
    reveal_strlit("active");
    reveal_strlit("default");
    reveal_strlit("*");
    assert("*"@.len() == 1);
    assert("active"@.len() == 6 && "active"@[0] == 'a' && "active"@[5] == 'e');
    assert("default"@.len() == 7 && "default"@[0] == 'd' && "default"@[6] == 't');
    assert(text::trimmed("active"@) == "active"@);
    assert(text::trimmed("default"@) == "default"@);
    assert(text::trimmed("*"@) == "*"@);
    assert(text::lowercase("default"@) =~= "default"@);
}

} // verus!
