//! The channels that a request is tried on, one after the other.
use crate::channel;
use crate::channel::{Channel, ChannelView};
use crate::clock;
use crate::config::{RouterConfig, RouterConfigView};
use crate::protocol;
use crate::protocol::ApiProtocol;
use crate::routing;
use crate::routing::{RouteDecision, RouteDecisionView};
use crate::sorting;
use crate::text;
use vstd::prelude::*;
use vstd::string::*;

verus! {

/// The channels to look for: those of a role, and of a group where one is given.
pub struct AttemptSpec {
    pub role: String,
    pub group: String,
    pub desired_model: String,
    pub fallback: bool,
}

/// What an attempt specification holds.
#[verifier::ext_equal]
pub struct AttemptSpecView {
    pub role: Seq<char>,
    pub group: Seq<char>,
    pub desired_model: Seq<char>,
    pub fallback: bool,
}

impl View for AttemptSpec {
    type V = AttemptSpecView;

    open spec fn view(&self) -> AttemptSpecView {
        AttemptSpecView {
            role: self.role@,
            group: self.group@,
            desired_model: self.desired_model@,
            fallback: self.fallback,
        }
    }
}

/// What each of `specs` holds.
pub open spec fn spec_views(specs: Seq<AttemptSpec>) -> Seq<AttemptSpecView> {
    Seq::new(specs.len(), |i: int| specs[i]@)
}

/// `a` and `b` look for the same channels and the same model.
pub open spec fn same_search(a: AttemptSpecView, b: AttemptSpecView) -> bool {
    a.role == b.role && a.group == b.group && a.desired_model == b.desired_model
}

/// `specs` with `spec` at the end, where none looks for the same.
pub open spec fn with_spec(specs: Seq<AttemptSpecView>, spec: AttemptSpecView) -> Seq<
    AttemptSpecView,
> {
    if exists|i: int| 0 <= i < specs.len() && same_search(#[trigger] specs[i], spec) {
        specs
    } else {
        specs.push(spec)
    }
}

/// Adds a specification, where none looks for the same.
pub fn add_attempt_spec(
    specs: &mut Vec<AttemptSpec>,
    role: String,
    group: String,
    desired_model: String,
    fallback: bool,
)
    ensures
        spec_views(final(specs)@) == with_spec(
            spec_views(old(specs)@),
            (AttemptSpecView { role: role@, group: group@, desired_model: desired_model@, fallback }),
        ),
{
    let ghost before = specs@;
    let ghost all = spec_views(specs@);
    let new: AttemptSpec = AttemptSpec { role, group, desired_model, fallback };
    let mut i: usize = 0;
    while i < specs.len()
        invariant
            i <= specs@.len(),
            specs@ == before,
            before == old(specs)@,
            all == spec_views(before),
            new@ == (AttemptSpecView {
                role: role@,
                group: group@,
                desired_model: desired_model@,
                fallback,
            }),
            forall|j: int| 0 <= j < i ==> !same_search(#[trigger] all[j], new@),
        decreases specs@.len() - i,
    {
        assert(all[i as int] == specs@[i as int]@);
        if specs[i].role == new.role && specs[i].group == new.group && specs[i].desired_model
            == new.desired_model {
            assert(same_search(all[i as int], new@));
            return ;
        }
        i += 1;
    }
    specs.push(new);
    assert(spec_views(specs@) =~= all.push(new@));
}

/// `specs` with the search for the channels of `role`: in the group of the role,
/// where it has one, and then in any.
pub open spec fn with_role(
    specs: Seq<AttemptSpecView>,
    router: RouterConfigView,
    role: Seq<char>,
    desired_model: Seq<char>,
    fallback: bool,
) -> Seq<AttemptSpecView> {
    let group = routing::role_group(router, role);
    let first = with_spec(specs, AttemptSpecView { role, group, desired_model, fallback });
    if group.len() == 0 {
        first
    } else {
        with_spec(
            first,
            AttemptSpecView {
                role,
                group: Seq::<char>::empty(),
                desired_model,
                fallback: true,
            },
        )
    }
}

/// Adds the search for the channels of `role`.
pub fn add_role_attempts(
    specs: &mut Vec<AttemptSpec>,
    router: &RouterConfig,
    role: String,
    desired_model: String,
    fallback: bool,
)
    ensures
        spec_views(final(specs)@) == with_role(
            spec_views(old(specs)@),
            router@,
            role@,
            desired_model@,
            fallback,
        ),
{
    let group: String = routing::group_for_role(router, role.as_str());
    add_attempt_spec(specs, role.clone(), group.clone(), desired_model.clone(), fallback);
    if !group.as_str().is_empty() {
        add_attempt_spec(specs, role, String::new(), desired_model, true);
    }
}

/// The roles to fall back on, in their order. With the hard limit reached, the
/// backup models come before the emergency ones; other traffic goes to the
/// emergency models first.
pub open spec fn fallbacks(role: Seq<char>) -> Seq<Seq<char>> {
    if role == "backup"@ {
        seq!["emergency"@, "any"@]
    } else if role == "default"@ || role == "pro"@ {
        seq!["emergency"@, "backup"@, "any"@]
    } else if role == "emergency"@ {
        seq!["backup"@, "any"@]
    } else {
        seq!["any"@]
    }
}

/// The roles to fall back on, in their order.
pub fn fallback_roles(role: &str) -> (r: Vec<&'static str>)
    ensures
        text::strs(r@) == fallbacks(role@),
{
    let roles: Vec<&'static str> = if text::same_text(role, "backup") {
        vec!["emergency", "any"]
    } else if text::same_text(role, "default") || text::same_text(role, "pro") {
        vec!["emergency", "backup", "any"]
    } else if text::same_text(role, "emergency") {
        vec!["backup", "any"]
    } else {
        vec!["any"]
    };
    assert(text::strs(roles@) =~= fallbacks(role@));
    roles
}

/// `specs` with the searches for the roles to fall back on.
pub open spec fn with_fallbacks(
    specs: Seq<AttemptSpecView>,
    router: RouterConfigView,
    desired_model: Seq<char>,
    roles: Seq<Seq<char>>,
) -> Seq<AttemptSpecView>
    decreases roles.len(),
{
    if roles.len() == 0 {
        specs
    } else {
        let before = with_fallbacks(specs, router, desired_model, roles.drop_last());
        if roles.last() == "any"@ {
            with_spec(
                before,
                AttemptSpecView {
                    role: "any"@,
                    group: Seq::<char>::empty(),
                    desired_model,
                    fallback: true,
                },
            )
        } else {
            with_role(
                before,
                router,
                roles.last(),
                routing::role_model(router, roles.last()),
                true,
            )
        }
    }
}

/// The searches for a decision, in their order.
pub open spec fn searches(router: RouterConfigView, decision: RouteDecisionView) -> Seq<
    AttemptSpecView,
> {
    with_fallbacks(
        with_role(Seq::empty(), router, decision.role, decision.desired_model, false),
        router,
        decision.desired_model,
        fallbacks(decision.role),
    )
}

/// The searches for a decision, in their order.
pub fn attempt_specs(router: &RouterConfig, decision: &RouteDecision) -> (r: Vec<AttemptSpec>)
    ensures
        spec_views(r@) == searches(router@, decision@),
{
    let mut specs: Vec<AttemptSpec> = Vec::new();
    assert(spec_views(specs@) =~= Seq::<AttemptSpecView>::empty());
    add_role_attempts(
        &mut specs,
        router,
        decision.role.clone(),
        decision.desired_model.clone(),
        false,
    );
    let ghost first = spec_views(specs@);
    let roles: Vec<&'static str> = fallback_roles(decision.role.as_str());
    let ghost all = text::strs(roles@);
    let mut i: usize = 0;
    assert(all.take(0) =~= Seq::<Seq<char>>::empty());
    while i < roles.len()
        invariant
            i <= roles@.len(),
            all == text::strs(roles@),
            spec_views(specs@) == with_fallbacks(
                first,
                router@,
                decision@.desired_model,
                all.take(i as int),
            ),
        decreases roles@.len() - i,
    {
        assert(all.take(i + 1).drop_last() =~= all.take(i as int));
        assert(all.take(i + 1).last() == roles@[i as int]@);
        let role: &str = roles[i];
        if text::same_text(role, "any") {
            add_attempt_spec(
                &mut specs,
                "any".to_owned(),
                String::new(),
                decision.desired_model.clone(),
                true,
            );
        } else {
            add_role_attempts(
                &mut specs,
                router,
                role.to_owned(),
                routing::model_for_role(router, role).to_owned(),
                true,
            );
        }
        i += 1;
    }
    assert(all.take(all.len() as int) =~= all);
    specs
}

/// The channel is one that `spec` looks for, at the time `now`.
pub open spec fn eligible(
    channel: ChannelView,
    spec: AttemptSpecView,
    requested: Seq<char>,
    now: int,
) -> bool {
    &&& channel.active_at(now)
    &&& protocol::protocol_of(channel) is Some
    &&& spec.role == "any"@ || spec.group.len() > 0 || channel.role_key() == spec.role
    &&& spec.group.len() == 0 || channel.group_key() == spec.group
    &&& channel.supports(spec.desired_model) || channel.supports(requested)
}

/// Those of `channels` that `spec` looks for.
pub open spec fn candidates(
    channels: Seq<ChannelView>,
    spec: AttemptSpecView,
    requested: Seq<char>,
    now: int,
) -> Seq<ChannelView>
    decreases channels.len(),
{
    if channels.len() == 0 {
        channels
    } else if eligible(channels.last(), spec, requested, now) {
        candidates(channels.drop_last(), spec, requested, now).push(channels.last())
    } else {
        candidates(channels.drop_last(), spec, requested, now)
    }
}

/// Is the channel one that `spec` looks for, at the time `now`?
fn is_eligible(channel: &Channel, spec: &AttemptSpec, requested_model: &str, now: u64) -> (r: bool)
    ensures
        r == eligible(channel@, spec@, requested_model@, now as int),
{
    channel.is_active_at(now) && ApiProtocol::from_channel(channel).is_some() && (text::same_text(
        spec.role.as_str(),
        "any",
    ) || !spec.group.as_str().is_empty() || channel.role_key() == spec.role) && (
    spec.group.as_str().is_empty() || channel.group_key() == spec.group) && (
    channel.supports_model(spec.desired_model.as_str()) || channel.supports_model(requested_model))
}

/// Those of `channels` that `spec` looks for.
fn find_candidates(channels: &[Channel], spec: &AttemptSpec, requested_model: &str, now: u64) -> (r:
    Vec<Channel>)
    ensures
        channel::channel_views(r@) == candidates(
            channel::channel_views(channels@),
            spec@,
            requested_model@,
            now as int,
        ),
{
    let ghost all = channel::channel_views(channels@);
    let mut out: Vec<Channel> = Vec::new();
    let mut i: usize = 0;
    assert(all.take(0) =~= Seq::<ChannelView>::empty());
    assert(channel::channel_views(out@) =~= Seq::<ChannelView>::empty());
    while i < channels.len()
        invariant
            i <= channels@.len(),
            all == channel::channel_views(channels@),
            channel::channel_views(out@) == candidates(
                all.take(i as int),
                spec@,
                requested_model@,
                now as int,
            ),
        decreases channels@.len() - i,
    {
        assert(all.take(i + 1).drop_last() =~= all.take(i as int));
        let ghost before = out@;
        if is_eligible(&channels[i], spec, requested_model, now) {
            out.push(channels[i].clone());
            assert(channel::channel_views(out@) =~= channel::channel_views(before).push(
                channels@[i as int]@,
            ));
        }
        i += 1;
    }
    assert(all.take(all.len() as int) =~= all);
    out
}

/// `a` is tried before `b`: it goes better with the desired model, with the
/// requested one or with the format of the client; or it comes first by its
/// priority, its group or its name.
pub open spec fn tried_before(
    a: ChannelView,
    b: ChannelView,
    desired: Seq<char>,
    requested: Seq<char>,
    client: ApiProtocol,
) -> bool {
    let left = a.match_rank(desired, requested);
    let right = b.match_rank(desired, requested);
    let near = protocol::protocol_rank(a, client);
    let far = protocol::protocol_rank(b, client);
    if left.0 != right.0 {
        left.0 < right.0
    } else if left.1 != right.1 {
        left.1 < right.1
    } else if near != far {
        near < far
    } else if a.priority != b.priority {
        a.priority < b.priority
    } else if a.group_key() != b.group_key() {
        text::text_before(a.group_key(), b.group_key())
    } else {
        text::text_before(a.name, b.name)
    }
}

/// The order in which channels are tried.
pub open spec fn trial_order(
    desired: Seq<char>,
    requested: Seq<char>,
    client: ApiProtocol,
) -> spec_fn(ChannelView, ChannelView) -> bool {
    |a: ChannelView, b: ChannelView| tried_before(a, b, desired, requested, client)
}

/// The order in which channels are tried is an order up to ties.
pub proof fn law_trial_order(desired: Seq<char>, requested: Seq<char>, client: ApiProtocol)
    ensures
        sorting::weak_order(trial_order(desired, requested, client)),
{
    let before = trial_order(desired, requested, client);
    assert forall|a: ChannelView, b: ChannelView| #[trigger] before(a, b) implies !before(
        b,
        a,
    ) by {
        lemma_one_way(a.group_key(), b.group_key());
        lemma_one_way(a.name, b.name);
    }
    assert forall|a: ChannelView, b: ChannelView, c: ChannelView|
        !#[trigger] before(b, a) && !#[trigger] before(c, b) implies !before(c, a) by {
        lemma_not_before(a.group_key(), b.group_key(), c.group_key());
        lemma_not_before(a.name, b.name, c.name);
        text::lemma_order_total(a.group_key(), b.group_key());
        text::lemma_order_total(b.group_key(), c.group_key());
        text::lemma_order_total(a.group_key(), c.group_key());
        if before(c, a) {
            lemma_both_ways(a.group_key(), b.group_key(), c.group_key());
        }
    }
}

proof fn lemma_one_way(a: Seq<char>, b: Seq<char>)
    ensures
        text::text_before(a, b) ==> !text::text_before(b, a),
{
    if text::text_before(a, b) && text::text_before(b, a) {
        text::lemma_order_transitive(a, b, a);
        text::lemma_order_irreflexive(a);
    }
}

proof fn lemma_not_before(a: Seq<char>, b: Seq<char>, c: Seq<char>)
    ensures
        !text::text_before(b, a) && !text::text_before(c, b) ==> !text::text_before(c, a),
{
    if !text::text_before(b, a) && !text::text_before(c, b) && text::text_before(c, a) {
        text::lemma_order_total(a, b);
        text::lemma_order_total(b, c);
        if text::text_before(a, b) {
            text::lemma_order_transitive(c, a, b);
        }
    }
}

proof fn lemma_both_ways(a: Seq<char>, b: Seq<char>, c: Seq<char>)
    ensures
        text::text_before(a, b) && text::text_before(b, c) ==> text::text_before(a, c) && a != c,
{
    if text::text_before(a, b) && text::text_before(b, c) {
        text::lemma_order_transitive(a, b, c);
        text::lemma_order_irreflexive(a);
    }
}

/// Is `a` tried before `b`?
fn comes_first(
    a: &Channel,
    b: &Channel,
    desired_model: &str,
    requested_model: &str,
    client: ApiProtocol,
) -> (r: bool)
    ensures
        r == tried_before(a@, b@, desired_model@, requested_model@, client),
{
    let left: (u8, u8) = a.model_match_rank(desired_model, requested_model);
    let right: (u8, u8) = b.model_match_rank(desired_model, requested_model);
    if left.0 != right.0 {
        return left.0 < right.0;
    }
    if left.1 != right.1 {
        return left.1 < right.1;
    }
    let near: u8 = ApiProtocol::channel_match_rank(a, client);
    let far: u8 = ApiProtocol::channel_match_rank(b, client);
    if near != far {
        return near < far;
    }
    if a.priority != b.priority {
        return a.priority < b.priority;
    }
    let left_group: String = a.group_key();
    let right_group: String = b.group_key();
    if left_group != right_group {
        return text::precedes(left_group.as_str(), right_group.as_str());
    }
    text::precedes(a.name.as_str(), b.name.as_str())
}

/// `channels` in the order in which they are tried.
pub fn sort_candidates(
    channels: &Vec<Channel>,
    desired_model: &str,
    requested_model: &str,
    client: ApiProtocol,
) -> (r: Vec<Channel>)
    ensures
        channel::channel_views(r@) == sorting::ordered(
            channel::channel_views(channels@),
            trial_order(desired_model@, requested_model@, client),
        ),
{
    let ghost all = channel::channel_views(channels@);
    let ghost before = trial_order(desired_model@, requested_model@, client);
    let mut out: Vec<Channel> = Vec::new();
    let mut i: usize = 0;
    assert(all.take(0) =~= Seq::<ChannelView>::empty());
    assert(channel::channel_views(out@) =~= Seq::<ChannelView>::empty());
    while i < channels.len()
        invariant
            i <= channels@.len(),
            all == channel::channel_views(channels@),
            before == trial_order(desired_model@, requested_model@, client),
            channel::channel_views(out@) == sorting::ordered(all.take(i as int), before),
        decreases channels@.len() - i,
    {
        assert(all.take(i + 1).drop_last() =~= all.take(i as int));
        let ghost sorted = channel::channel_views(out@);
        let ghost item = channels@[i as int]@;
        let ghost old_out = out@;
        let mut at: usize = 0;
        assert(sorted.skip(0) =~= sorted);
        while at < out.len() && !comes_first(
            &channels[i],
            &out[at],
            desired_model,
            requested_model,
            client,
        )
            invariant
                at <= out@.len(),
                i < channels@.len(),
                out@ == old_out,
                sorted == channel::channel_views(out@),
                item == channels@[i as int]@,
                before == trial_order(desired_model@, requested_model@, client),
                sorting::place(sorted, item, before) == at + sorting::place(
                    sorted.skip(at as int),
                    item,
                    before,
                ),
            decreases out@.len() - at,
        {
            assert(sorted.skip(at as int).skip(1) =~= sorted.skip(at + 1));
            at += 1;
        }
        assert(sorting::place(sorted, item, before) == at);
        out.insert(at, channels[i].clone());
        assert(channel::channel_views(out@) =~= sorted.insert(at as int, item));
        i += 1;
    }
    assert(all.take(all.len() as int) =~= all);
    out
}

/// How many channels at the start of `list` go with the models as `rank` says.
pub open spec fn leading(
    list: Seq<ChannelView>,
    rank: (u8, u8),
    desired: Seq<char>,
    requested: Seq<char>,
) -> int
    decreases list.len(),
{
    if list.len() == 0 || list[0].match_rank(desired, requested) != rank {
        0
    } else {
        1 + leading(list.skip(1), rank, desired, requested)
    }
}

/// How many channels at the start of `list` go with the models as well as the
/// first one does.
pub open spec fn best_count(list: Seq<ChannelView>, desired: Seq<char>, requested: Seq<char>) -> int {
    if list.len() == 0 {
        0
    } else {
        leading(list, list[0].match_rank(desired, requested), desired, requested)
    }
}

/// How many channels at the start of `list` go with the models as well as the
/// first one does.
fn count_best(list: &Vec<Channel>, desired_model: &str, requested_model: &str) -> (r: usize)
    ensures
        r == best_count(channel::channel_views(list@), desired_model@, requested_model@),
        r <= list@.len(),
{
    if list.len() == 0 {
        return 0;
    }
    let ghost all = channel::channel_views(list@);
    let rank: (u8, u8) = list[0].model_match_rank(desired_model, requested_model);
    let mut i: usize = 0;
    assert(all.skip(0) =~= all);
    while i < list.len()
        invariant
            i <= list@.len(),
            all == channel::channel_views(list@),
            list@.len() > 0,
            rank == all[0].match_rank(desired_model@, requested_model@),
            leading(all, rank, desired_model@, requested_model@) == i + leading(
                all.skip(i as int),
                rank,
                desired_model@,
                requested_model@,
            ),
        decreases list@.len() - i,
    {
        assert(all.skip(i as int).skip(1) =~= all.skip(i + 1));
        assert(all.skip(i as int)[0] == list@[i as int]@);
        let here: (u8, u8) = list[i].model_match_rank(desired_model, requested_model);
        if here.0 != rank.0 || here.1 != rank.1 {
            return i;
        }
        i += 1;
    }
    i
}

/// `list` with its first `count` items turned round by `index` places.
pub open spec fn rotated<T>(list: Seq<T>, count: int, index: usize) -> Seq<T> {
    if count <= 1 {
        list
    } else {
        let offset = index as int % count;
        list.subrange(offset, count) + list.take(offset) + list.skip(count)
    }
}

/// The index after a list with `count` channels to choose from was turned round.
pub open spec fn next_index(count: int, index: usize) -> usize {
    if count <= 1 {
        index
    } else {
        index.saturating_add(1)
    }
}

/// Turns the first `count` of `candidates` round by `index` places, and counts
/// the index up.
pub fn rotate_candidates(index: &mut usize, candidates: &mut Vec<Channel>, count: usize)
    requires
        count <= old(candidates)@.len(),
    ensures
        final(candidates)@ == rotated(old(candidates)@, count as int, *old(index)),
        *final(index) == next_index(count as int, *old(index)),
{
    if count <= 1 {
        return ;
    }
    let offset: usize = *index % count;
    *index = index.saturating_add(1);
    let ghost all = candidates@;
    let mut rest: Vec<Channel> = candidates.split_off(count);
    let mut turned: Vec<Channel> = candidates.split_off(offset);
    turned.append(candidates);
    turned.append(&mut rest);
    assert(turned@ =~= rotated(all, count as int, *old(index)));
    *candidates = turned;
}

/// One trial of a request on a channel.
pub struct Attempt {
    pub channel: Channel,
    pub actual_model: String,
    pub role: String,
    pub group: String,
    pub reason: String,
}

/// What an attempt holds.
#[verifier::ext_equal]
pub struct AttemptView {
    pub channel: ChannelView,
    pub actual_model: Seq<char>,
    pub role: Seq<char>,
    pub group: Seq<char>,
    pub reason: Seq<char>,
}

impl View for Attempt {
    type V = AttemptView;

    open spec fn view(&self) -> AttemptView {
        AttemptView {
            channel: self.channel@,
            actual_model: self.actual_model@,
            role: self.role@,
            group: self.group@,
            reason: self.reason@,
        }
    }
}

/// What each of `attempts` holds.
pub open spec fn attempt_views(attempts: Seq<Attempt>) -> Seq<AttemptView> {
    Seq::new(attempts.len(), |i: int| attempts[i]@)
}

/// Why a channel that `spec` looks for is tried.
pub open spec fn trial_reason(spec: AttemptSpecView, decision: RouteDecisionView) -> Seq<char> {
    if !spec.fallback && spec.role == decision.role && spec.group == decision.group {
        decision.reason
    } else if spec.group.len() == 0 {
        "fallback to "@ + spec.role
    } else {
        "fallback to "@ + spec.role + "/"@ + spec.group
    }
}

/// The trial of a channel that `spec` looks for.
pub open spec fn trial(
    channel: ChannelView,
    spec: AttemptSpecView,
    decision: RouteDecisionView,
) -> AttemptView {
    AttemptView {
        channel,
        actual_model: channel.model_with(
            channel.mapping(),
            decision.requested_model,
            spec.desired_model,
        ),
        role: spec.role,
        group: spec.group,
        reason: trial_reason(spec, decision),
    }
}

/// The trial of a channel that `spec` looks for.
fn trial_of(channel: Channel, spec: &AttemptSpec, decision: &RouteDecision) -> (r: Attempt)
    ensures
        r@ == trial(channel@, spec@, decision@),
{
    let actual_model: String = channel.mapped_model(
        decision.requested_model.as_str(),
        spec.desired_model.as_str(),
    );
    let reason: String = if !spec.fallback && spec.role == decision.role && spec.group
        == decision.group {
        decision.reason.clone()
    } else if spec.group.as_str().is_empty() {
        text::concat2("fallback to ", spec.role.as_str())
    } else {
        let mut reason: String = text::concat2("fallback to ", spec.role.as_str());
        reason.append("/");
        reason.append(spec.group.as_str());
        reason
    };
    Attempt {
        channel,
        actual_model,
        role: spec.role.clone(),
        group: spec.group.clone(),
        reason,
    }
}

/// `a` and `b` ask the same channel for the same model.
pub open spec fn same_trial(a: AttemptView, b: AttemptView) -> bool {
    a.channel.id == b.channel.id && a.actual_model == b.actual_model
}

/// `attempts` with `attempt` at the end, where none asks the same channel for
/// the same model.
pub open spec fn with_attempt(attempts: Seq<AttemptView>, attempt: AttemptView) -> Seq<AttemptView> {
    if exists|i: int| 0 <= i < attempts.len() && same_trial(#[trigger] attempts[i], attempt) {
        attempts
    } else {
        attempts.push(attempt)
    }
}

/// `attempts` with the trials of `channels`.
pub open spec fn with_trials(
    attempts: Seq<AttemptView>,
    channels: Seq<ChannelView>,
    spec: AttemptSpecView,
    decision: RouteDecisionView,
) -> Seq<AttemptView>
    decreases channels.len(),
{
    if channels.len() == 0 {
        attempts
    } else {
        with_attempt(
            with_trials(attempts, channels.drop_last(), spec, decision),
            trial(channels.last(), spec, decision),
        )
    }
}

/// Are `a` and `b` the same channel id?
fn same_id(a: Option<u64>, b: Option<u64>) -> (r: bool)
    ensures
        r == (a == b),
{
    match (a, b) {
        (Some(a), Some(b)) => a == b,
        (None, None) => true,
        _ => false,
    }
}

/// Adds an attempt, where none asks the same channel for the same model.
fn add_attempt(attempts: &mut Vec<Attempt>, attempt: Attempt)
    ensures
        attempt_views(final(attempts)@) == with_attempt(attempt_views(old(attempts)@), attempt@),
{
    let ghost before = attempts@;
    let ghost all = attempt_views(attempts@);
    let mut i: usize = 0;
    while i < attempts.len()
        invariant
            i <= attempts@.len(),
            attempts@ == before,
            all == attempt_views(before),
            forall|j: int| 0 <= j < i ==> !same_trial(#[trigger] all[j], attempt@),
        decreases attempts@.len() - i,
    {
        assert(all[i as int] == attempts@[i as int]@);
        if same_id(attempts[i].channel.id, attempt.channel.id) && attempts[i].actual_model
            == attempt.actual_model {
            return ;
        }
        i += 1;
    }
    attempts.push(attempt);
    assert(attempt_views(attempts@) =~= all.push(attempt@));
}

/// The channels that `spec` looks for, in the order in which they are tried.
pub open spec fn lined_up(
    channels: Seq<ChannelView>,
    spec: AttemptSpecView,
    requested: Seq<char>,
    client: ApiProtocol,
    now: int,
) -> Seq<ChannelView> {
    sorting::ordered(
        candidates(channels, spec, requested, now),
        trial_order(spec.desired_model, requested, client),
    )
}

/// The attempts and the index after the search `spec`.
pub open spec fn searched(
    state: (Seq<AttemptView>, usize),
    channels: Seq<ChannelView>,
    spec: AttemptSpecView,
    decision: RouteDecisionView,
    client: ApiProtocol,
    now: int,
) -> (Seq<AttemptView>, usize) {
    let line = lined_up(channels, spec, decision.requested_model, client, now);
    let count = best_count(line, spec.desired_model, decision.requested_model);
    (
        with_trials(state.0, rotated(line, count, state.1), spec, decision),
        next_index(count, state.1),
    )
}

/// The attempts and the index after the searches `specs`.
pub open spec fn searched_all(
    specs: Seq<AttemptSpecView>,
    index: usize,
    channels: Seq<ChannelView>,
    decision: RouteDecisionView,
    client: ApiProtocol,
    now: int,
) -> (Seq<AttemptView>, usize)
    decreases specs.len(),
{
    if specs.len() == 0 {
        (Seq::empty(), index)
    } else {
        searched(
            searched_all(specs.drop_last(), index, channels, decision, client, now),
            channels,
            specs.last(),
            decision,
            client,
            now,
        )
    }
}

/// The attempts for a decision at the time `now`, and the index after them.
pub open spec fn attempts_for(
    channels: Seq<ChannelView>,
    router: RouterConfigView,
    decision: RouteDecisionView,
    client: ApiProtocol,
    index: usize,
    now: int,
) -> (Seq<AttemptView>, usize) {
    searched_all(searches(router, decision), index, channels, decision, client, now)
}

/// Adds the trials of the channels in `line`.
fn add_trials(
    attempts: &mut Vec<Attempt>,
    line: &Vec<Channel>,
    spec: &AttemptSpec,
    decision: &RouteDecision,
)
    ensures
        attempt_views(final(attempts)@) == with_trials(
            attempt_views(old(attempts)@),
            channel::channel_views(line@),
            spec@,
            decision@,
        ),
{
    let ghost given = attempt_views(attempts@);
    let ghost all = channel::channel_views(line@);
    let mut i: usize = 0;
    assert(all.take(0) =~= Seq::<ChannelView>::empty());
    while i < line.len()
        invariant
            i <= line@.len(),
            all == channel::channel_views(line@),
            attempt_views(attempts@) == with_trials(given, all.take(i as int), spec@, decision@),
        decreases line@.len() - i,
    {
        assert(all.take(i + 1).drop_last() =~= all.take(i as int));
        add_attempt(attempts, trial_of(line[i].clone(), spec, decision));
        i += 1;
    }
    assert(all.take(all.len() as int) =~= all);
}

/// Adds the trials of the channels that `spec` looks for.
fn add_search(
    attempts: &mut Vec<Attempt>,
    index: &mut usize,
    channels: &[Channel],
    spec: &AttemptSpec,
    decision: &RouteDecision,
    client: ApiProtocol,
    now: u64,
)
    ensures
        (attempt_views(final(attempts)@), *final(index)) == searched(
            (attempt_views(old(attempts)@), *old(index)),
            channel::channel_views(channels@),
            spec@,
            decision@,
            client,
            now as int,
        ),
{
    let requested: &str = decision.requested_model.as_str();
    let desired: &str = spec.desired_model.as_str();
    let found: Vec<Channel> = find_candidates(channels, spec, requested, now);
    let mut line: Vec<Channel> = sort_candidates(&found, desired, requested, client);
    let count: usize = count_best(&line, desired, requested);
    let ghost sorted = line@;
    let ghost from = *index;
    rotate_candidates(index, &mut line, count);
    assert(channel::channel_views(line@) =~= rotated(
        channel::channel_views(sorted),
        count as int,
        from,
    ));
    add_trials(attempts, &line, spec, decision);
}

/// The attempts for a decision at the time `now`; the index counts up by one for
/// each search with several channels to choose from.
pub fn build_attempts_at(
    channels: &[Channel],
    router: &RouterConfig,
    decision: &RouteDecision,
    protocol: ApiProtocol,
    index: &mut usize,
    now: u64,
) -> (r: Vec<Attempt>)
    ensures
        (attempt_views(r@), *final(index)) == attempts_for(
            channel::channel_views(channels@),
            router@,
            decision@,
            protocol,
            *old(index),
            now as int,
        ),
{
    let specs: Vec<AttemptSpec> = attempt_specs(router, decision);
    let ghost all = spec_views(specs@);
    let ghost from = *index;
    let mut attempts: Vec<Attempt> = Vec::new();
    let mut i: usize = 0;
    assert(all.take(0) =~= Seq::<AttemptSpecView>::empty());
    assert(attempt_views(attempts@) =~= Seq::<AttemptView>::empty());
    while i < specs.len()
        invariant
            i <= specs@.len(),
            all == spec_views(specs@),
            (attempt_views(attempts@), *index) == searched_all(
                all.take(i as int),
                from,
                channel::channel_views(channels@),
                decision@,
                protocol,
                now as int,
            ),
        decreases specs@.len() - i,
    {
        assert(all.take(i + 1).drop_last() =~= all.take(i as int));
        add_search(&mut attempts, index, channels, &specs[i], decision, protocol, now);
        i += 1;
    }
    assert(all.take(all.len() as int) =~= all);
    attempts
}

/// The attempts for a decision now.
pub fn build_attempts(
    channels: &[Channel],
    router: &RouterConfig,
    decision: &RouteDecision,
    protocol: ApiProtocol,
    index: &mut usize,
) -> (r: Vec<Attempt>)
    ensures
        exists|now: u64|
            (attempt_views(r@), *final(index)) == #[trigger] attempts_for(
                channel::channel_views(channels@),
                router@,
                decision@,
                protocol,
                *old(index),
                now as int,
            ),
{
    let now: u64 = clock::unix_now_secs();
    build_attempts_at(channels, router, decision, protocol, index, now)
}

proof fn lemma_candidates(
    channels: Seq<ChannelView>,
    spec: AttemptSpecView,
    requested: Seq<char>,
    now: int,
    channel: ChannelView,
)
    ensures
        candidates(channels, spec, requested, now).contains(channel) <==> channels.contains(channel)
            && eligible(channel, spec, requested, now),
    decreases channels.len(),
{
    if channels.len() > 0 {
        let rest = channels.drop_last();
        lemma_candidates(rest, spec, requested, now, channel);
        lemma_in_pushed(rest, channels.last(), channel);
        assert(rest.push(channels.last()) =~= channels);
        lemma_in_pushed(candidates(rest, spec, requested, now), channels.last(), channel);
    }
}

proof fn lemma_in_pushed<T>(list: Seq<T>, last: T, item: T)
    ensures
        list.push(last).contains(item) <==> list.contains(item) || item == last,
{
    let all = list.push(last);
    if list.contains(item) {
        let i = choose|i: int| 0 <= i < list.len() && list[i] == item;
        assert(all[i] == item);
    }
    if item == last {
        assert(all[list.len() as int] == item);
    }
    if all.contains(item) {
        let i = choose|i: int| 0 <= i < all.len() && all[i] == item;
        if i < list.len() {
            assert(list[i] == item);
        }
    }
}

proof fn lemma_leading(
    list: Seq<ChannelView>,
    rank: (u8, u8),
    desired: Seq<char>,
    requested: Seq<char>,
)
    ensures
        0 <= leading(list, rank, desired, requested) <= list.len(),
    decreases list.len(),
{
    if list.len() > 0 {
        lemma_leading(list.skip(1), rank, desired, requested);
    }
}

/// Turning channels round loses none of them. The first one is the one at the
/// index, counted round, so that the channels at the start take turns.
pub proof fn law_rotation<T>(list: Seq<T>, count: int, index: usize)
    requires
        0 <= count <= list.len(),
    ensures
        rotated(list, count, index).to_multiset() == list.to_multiset(),
        rotated(list, count, index).len() == list.len(),
        count > 1 ==> rotated(list, count, index)[0] == list[index as int % count],
{
    if count > 1 {
        let offset = index as int % count;
        let a = list.take(offset);
        let b = list.subrange(offset, count);
        let rest = list.skip(count);
        assert(list =~= a + b + rest);
        assert(rotated(list, count, index) =~= b + a + rest);
        vstd::seq_lib::lemma_multiset_commutative(a, b);
        vstd::seq_lib::lemma_multiset_commutative(b, a);
        vstd::seq_lib::lemma_multiset_commutative(a + b, rest);
        vstd::seq_lib::lemma_multiset_commutative(b + a, rest);
        assert((a + b).to_multiset() =~= (b + a).to_multiset());
    }
}

proof fn lemma_line(
    channels: Seq<ChannelView>,
    spec: AttemptSpecView,
    requested: Seq<char>,
    client: ApiProtocol,
    index: usize,
    now: int,
    channel: ChannelView,
)
    ensures
        ({
            let line = lined_up(channels, spec, requested, client, now);
            let count = best_count(line, spec.desired_model, requested);
            rotated(line, count, index).contains(channel) <==> channels.contains(channel)
                && eligible(channel, spec, requested, now)
        }),
{
    let found = candidates(channels, spec, requested, now);
    let line = lined_up(channels, spec, requested, client, now);
    let count = best_count(line, spec.desired_model, requested);
    lemma_candidates(channels, spec, requested, now, channel);
    sorting::law_ordered_keeps_items(found, trial_order(spec.desired_model, requested, client));
    if line.len() > 0 {
        lemma_leading(
            line,
            line[0].match_rank(spec.desired_model, requested),
            spec.desired_model,
            requested,
        );
    }
    law_rotation(line, count, index);
    vstd::seq_lib::to_multiset_contains(line, channel);
    vstd::seq_lib::to_multiset_contains(rotated(line, count, index), channel);
}

/// One of `attempts` asks the channel of `attempt` for the same model.
pub open spec fn covered(attempts: Seq<AttemptView>, attempt: AttemptView) -> bool {
    exists|i: int| 0 <= i < attempts.len() && same_trial(#[trigger] attempts[i], attempt)
}

/// No two of `attempts` ask the same channel for the same model.
pub open spec fn all_different(attempts: Seq<AttemptView>) -> bool {
    forall|i: int, j: int|
        0 <= i < j < attempts.len() ==> !same_trial(#[trigger] attempts[i], #[trigger] attempts[j])
}

proof fn lemma_with_attempt(attempts: Seq<AttemptView>, attempt: AttemptView)
    ensures
        covered(with_attempt(attempts, attempt), attempt),
        all_different(attempts) ==> all_different(with_attempt(attempts, attempt)),
        forall|other: AttemptView|
            covered(attempts, other) ==> #[trigger] covered(with_attempt(attempts, attempt), other),
{
    let out = with_attempt(attempts, attempt);
    if !covered(attempts, attempt) {
        assert(out[attempts.len() as int] == attempt);
        assert(same_trial(out[attempts.len() as int], attempt));
    }
    assert forall|other: AttemptView| covered(attempts, other) implies #[trigger] covered(
        out,
        other,
    ) by {
        let i = choose|i: int| 0 <= i < attempts.len() && same_trial(#[trigger] attempts[i], other);
        assert(same_trial(out[i], other));
    }
}

proof fn lemma_with_trials(
    attempts: Seq<AttemptView>,
    channels: Seq<ChannelView>,
    spec: AttemptSpecView,
    decision: RouteDecisionView,
)
    ensures
        ({
            let out = with_trials(attempts, channels, spec, decision);
            &&& all_different(attempts) ==> all_different(out)
            &&& forall|other: AttemptView| covered(attempts, other) ==> #[trigger] covered(
                out,
                other,
            )
            &&& forall|i: int|
                0 <= i < channels.len() ==> covered(
                    out,
                    trial(#[trigger] channels[i], spec, decision),
                )
            &&& forall|i: int|
                0 <= i < out.len() ==> attempts.contains(#[trigger] out[i]) || (channels.contains(
                    out[i].channel,
                ) && out[i] == trial(out[i].channel, spec, decision))
        }),
    decreases channels.len(),
{
    let out = with_trials(attempts, channels, spec, decision);
    if channels.len() == 0 {
        assert forall|i: int| 0 <= i < out.len() implies attempts.contains(#[trigger] out[i]) by {
            assert(attempts[i] == out[i]);
        }
    } else {
        let rest = channels.drop_last();
        let last = channels[channels.len() - 1];
        let before = with_trials(attempts, rest, spec, decision);
        let attempt = trial(last, spec, decision);
        lemma_with_trials(attempts, rest, spec, decision);
        lemma_with_attempt(before, attempt);
        assert forall|i: int| 0 <= i < channels.len() implies covered(
            out,
            trial(#[trigger] channels[i], spec, decision),
        ) by {
            if i < rest.len() {
                assert(rest[i] == channels[i]);
                assert(covered(before, trial(rest[i], spec, decision)));
            }
        }
        assert forall|i: int| 0 <= i < out.len() implies attempts.contains(#[trigger] out[i]) || (
        channels.contains(out[i].channel) && out[i] == trial(out[i].channel, spec, decision)) by {
            if i < before.len() {
                assert(out[i] == before[i]);
                if !attempts.contains(before[i]) {
                    let k = choose|k: int| 0 <= k < rest.len() && rest[k] == before[i].channel;
                    assert(channels[k] == before[i].channel);
                }
            } else {
                assert(out[i] == attempt);
                assert(channels[channels.len() - 1] == attempt.channel);
            }
        }
    }
}

/// The attempt comes of one of `specs`: it tries one of `channels` that the
/// specification looks for.
pub open spec fn comes_of(
    attempt: AttemptView,
    specs: Seq<AttemptSpecView>,
    channels: Seq<ChannelView>,
    decision: RouteDecisionView,
    now: int,
) -> bool {
    exists|k: int|
        0 <= k < specs.len() && channels.contains(attempt.channel) && eligible(
            attempt.channel,
            #[trigger] specs[k],
            decision.requested_model,
            now,
        ) && attempt == trial(attempt.channel, specs[k], decision)
}

/// What a search adds: the trials of the channels it looks for.
proof fn lemma_searched(
    state: (Seq<AttemptView>, usize),
    channels: Seq<ChannelView>,
    spec: AttemptSpecView,
    decision: RouteDecisionView,
    client: ApiProtocol,
    now: int,
)
    ensures
        ({
            let out = searched(state, channels, spec, decision, client, now).0;
            &&& all_different(state.0) ==> all_different(out)
            &&& forall|other: AttemptView| covered(state.0, other) ==> #[trigger] covered(
                out,
                other,
            )
            &&& forall|channel: ChannelView|
                channels.contains(channel) && eligible(
                    channel,
                    spec,
                    decision.requested_model,
                    now,
                ) ==> covered(out, #[trigger] trial(channel, spec, decision))
            &&& forall|i: int|
                0 <= i < out.len() ==> state.0.contains(#[trigger] out[i]) || (channels.contains(
                    out[i].channel,
                ) && eligible(out[i].channel, spec, decision.requested_model, now) && out[i]
                    == trial(out[i].channel, spec, decision))
        }),
{
    let requested = decision.requested_model;
    let line = lined_up(channels, spec, requested, client, now);
    let count = best_count(line, spec.desired_model, requested);
    let turned = rotated(line, count, state.1);
    let out = searched(state, channels, spec, decision, client, now).0;
    lemma_with_trials(state.0, turned, spec, decision);
    assert forall|channel: ChannelView|
        channels.contains(channel) && eligible(channel, spec, requested, now) implies covered(
        out,
        #[trigger] trial(channel, spec, decision),
    ) by {
        lemma_line(channels, spec, requested, client, state.1, now, channel);
        let i = choose|i: int| 0 <= i < turned.len() && turned[i] == channel;
        assert(covered(out, trial(turned[i], spec, decision)));
    }
    assert forall|i: int| 0 <= i < out.len() implies state.0.contains(#[trigger] out[i]) || (
    channels.contains(out[i].channel) && eligible(out[i].channel, spec, requested, now) && out[i]
        == trial(out[i].channel, spec, decision)) by {
        lemma_line(channels, spec, requested, client, state.1, now, out[i].channel);
    }
}

proof fn lemma_all_come_of(
    specs: Seq<AttemptSpecView>,
    index: usize,
    channels: Seq<ChannelView>,
    decision: RouteDecisionView,
    client: ApiProtocol,
    now: int,
)
    ensures
        ({
            let out = searched_all(specs, index, channels, decision, client, now).0;
            &&& all_different(out)
            &&& forall|i: int|
                0 <= i < out.len() ==> comes_of(#[trigger] out[i], specs, channels, decision, now)
        }),
    decreases specs.len(),
{
    if specs.len() > 0 {
        let rest = specs.drop_last();
        let last = specs[specs.len() - 1];
        let state = searched_all(rest, index, channels, decision, client, now);
        let out = searched_all(specs, index, channels, decision, client, now).0;
        lemma_all_come_of(rest, index, channels, decision, client, now);
        lemma_searched(state, channels, last, decision, client, now);
        assert forall|i: int| 0 <= i < out.len() implies comes_of(
            #[trigger] out[i],
            specs,
            channels,
            decision,
            now,
        ) by {
            if state.0.contains(out[i]) {
                let j = choose|j: int| 0 <= j < state.0.len() && state.0[j] == out[i];
                assert(comes_of(state.0[j], rest, channels, decision, now));
                lemma_comes_of_more(out[i], rest, last, channels, decision, now);
                assert(rest.push(last) =~= specs);
            } else {
                assert(specs[specs.len() - 1] == last);
            }
        }
    }
}

proof fn lemma_comes_of_more(
    attempt: AttemptView,
    specs: Seq<AttemptSpecView>,
    last: AttemptSpecView,
    channels: Seq<ChannelView>,
    decision: RouteDecisionView,
    now: int,
)
    requires
        comes_of(attempt, specs, channels, decision, now),
    ensures
        comes_of(attempt, specs.push(last), channels, decision, now),
{
    let k = choose|k: int|
        0 <= k < specs.len() && channels.contains(attempt.channel) && eligible(
            attempt.channel,
            #[trigger] specs[k],
            decision.requested_model,
            now,
        ) && attempt == trial(attempt.channel, specs[k], decision);
    assert(specs.push(last)[k] == specs[k]);
}

proof fn lemma_all_covered(
    specs: Seq<AttemptSpecView>,
    index: usize,
    channels: Seq<ChannelView>,
    decision: RouteDecisionView,
    client: ApiProtocol,
    now: int,
    k: int,
    channel: ChannelView,
)
    requires
        0 <= k < specs.len(),
        channels.contains(channel),
        eligible(channel, specs[k], decision.requested_model, now),
    ensures
        covered(
            searched_all(specs, index, channels, decision, client, now).0,
            trial(channel, specs[k], decision),
        ),
    decreases specs.len(),
{
    let rest = specs.drop_last();
    let state = searched_all(rest, index, channels, decision, client, now);
    lemma_searched(state, channels, specs.last(), decision, client, now);
    if k < rest.len() {
        assert(rest[k] == specs[k]);
        lemma_all_covered(rest, index, channels, decision, client, now, k, channel);
    }
}

/// No two attempts ask the same channel for the same model.
pub proof fn law_no_attempt_twice(
    channels: Seq<ChannelView>,
    router: RouterConfigView,
    decision: RouteDecisionView,
    client: ApiProtocol,
    index: usize,
    now: int,
)
    ensures
        all_different(attempts_for(channels, router, decision, client, index, now).0),
{
    lemma_all_come_of(searches(router, decision), index, channels, decision, client, now);
}

/// Every attempt tries a configured channel that is in use, speaks a known
/// format and serves the desired or the requested model.
pub proof fn law_attempts_are_able(
    channels: Seq<ChannelView>,
    router: RouterConfigView,
    decision: RouteDecisionView,
    client: ApiProtocol,
    index: usize,
    now: int,
)
    ensures
        ({
            let attempts = attempts_for(channels, router, decision, client, index, now).0;
            forall|i: int|
                0 <= i < attempts.len() ==> {
                    &&& channels.contains((#[trigger] attempts[i]).channel)
                    &&& attempts[i].channel.active_at(now)
                    &&& protocol::protocol_of(attempts[i].channel) is Some
                    &&& comes_of(attempts[i], searches(router, decision), channels, decision, now)
                }
        }),
{
    lemma_all_come_of(searches(router, decision), index, channels, decision, client, now);
    let attempts = attempts_for(channels, router, decision, client, index, now).0;
    assert forall|i: int| 0 <= i < attempts.len() implies channels.contains(
        (#[trigger] attempts[i]).channel,
    ) && attempts[i].channel.active_at(now) && protocol::protocol_of(attempts[i].channel)
        is Some by {
        assert(comes_of(attempts[i], searches(router, decision), channels, decision, now));
    }
}

proof fn lemma_any_search(
    router: RouterConfigView,
    decision: RouteDecisionView,
) -> (k: int)
    ensures
        0 <= k < searches(router, decision).len(),
        searches(router, decision)[k].role == "any"@,
        searches(router, decision)[k].group.len() == 0,
        searches(router, decision)[k].desired_model == decision.desired_model,
{
    let roles = fallbacks(decision.role);
    let first = with_role(Seq::empty(), router, decision.role, decision.desired_model, false);
    let before = with_fallbacks(first, router, decision.desired_model, roles.drop_last());
    let spec = AttemptSpecView {
        role: "any"@,
        group: Seq::<char>::empty(),
        desired_model: decision.desired_model,
        fallback: true,
    };
    assert(roles.last() == "any"@);
    let all = searches(router, decision);
    assert(all == with_spec(before, spec));
    if exists|i: int| 0 <= i < before.len() && same_search(#[trigger] before[i], spec) {
        choose|i: int| 0 <= i < before.len() && same_search(#[trigger] before[i], spec)
    } else {
        assert(all[before.len() as int] == spec);
        before.len() as int
    }
}

/// Every configured channel that is in use, speaks a known format and serves the
/// desired or the requested model is tried in the end, for the model that it
/// gives for the desired one.
pub proof fn law_every_able_channel_is_tried(
    channels: Seq<ChannelView>,
    router: RouterConfigView,
    decision: RouteDecisionView,
    client: ApiProtocol,
    index: usize,
    now: int,
    channel: ChannelView,
)
    requires
        channels.contains(channel),
        channel.active_at(now),
        protocol::protocol_of(channel) is Some,
        channel.supports(decision.desired_model) || channel.supports(decision.requested_model),
    ensures
        ({
            let attempts = attempts_for(channels, router, decision, client, index, now).0;
            exists|i: int|
                0 <= i < attempts.len() && (#[trigger] attempts[i]).channel.id == channel.id
                    && attempts[i].actual_model == channel.model_with(
                    channel.mapping(),
                    decision.requested_model,
                    decision.desired_model,
                )
        }),
{
    let k = lemma_any_search(router, decision);
    let specs = searches(router, decision);
    let attempts = attempts_for(channels, router, decision, client, index, now).0;
    assert(eligible(channel, specs[k], decision.requested_model, now));
    lemma_all_covered(specs, index, channels, decision, client, now, k, channel);
    assert(covered(attempts, trial(channel, specs[k], decision)));
    let i = choose|i: int|
        0 <= i < attempts.len() && same_trial(
            #[trigger] attempts[i],
            trial(channel, specs[k], decision),
        );
    assert(attempts[i].channel.id == channel.id);
}

proof fn lemma_first_search(router: RouterConfigView, decision: RouteDecisionView)
    ensures
        searches(router, decision).len() > 0,
        searches(router, decision)[0] == (AttemptSpecView {
            role: decision.role,
            group: routing::role_group(router, decision.role),
            desired_model: decision.desired_model,
            fallback: false,
        }),
{
    let first = with_role(Seq::empty(), router, decision.role, decision.desired_model, false);
    lemma_fallbacks_keep_first(first, router, decision.desired_model, fallbacks(decision.role));
}

proof fn lemma_fallbacks_keep_first(
    specs: Seq<AttemptSpecView>,
    router: RouterConfigView,
    desired_model: Seq<char>,
    roles: Seq<Seq<char>>,
)
    requires
        specs.len() > 0,
    ensures
        with_fallbacks(specs, router, desired_model, roles).len() > 0,
        with_fallbacks(specs, router, desired_model, roles)[0] == specs[0],
    decreases roles.len(),
{
    if roles.len() > 0 {
        lemma_fallbacks_keep_first(specs, router, desired_model, roles.drop_last());
    }
}

proof fn lemma_trials_keep_first(
    attempts: Seq<AttemptView>,
    channels: Seq<ChannelView>,
    spec: AttemptSpecView,
    decision: RouteDecisionView,
)
    ensures
        with_trials(attempts, channels, spec, decision).len() >= attempts.len(),
        attempts.len() > 0 ==> with_trials(attempts, channels, spec, decision)[0] == attempts[0],
        attempts.len() == 0 && channels.len() > 0 ==> {
            &&& with_trials(attempts, channels, spec, decision).len() > 0
            &&& with_trials(attempts, channels, spec, decision)[0] == trial(
                channels[0],
                spec,
                decision,
            )
        },
    decreases channels.len(),
{
    if channels.len() > 0 {
        lemma_trials_keep_first(attempts, channels.drop_last(), spec, decision);
    }
}

proof fn lemma_searches_keep_first(
    specs: Seq<AttemptSpecView>,
    index: usize,
    channels: Seq<ChannelView>,
    decision: RouteDecisionView,
    client: ApiProtocol,
    now: int,
)
    requires
        specs.len() > 0,
        searched_all(specs.take(1), index, channels, decision, client, now).0.len() > 0,
    ensures
        searched_all(specs, index, channels, decision, client, now).0.len() > 0,
        searched_all(specs, index, channels, decision, client, now).0[0] == searched_all(
            specs.take(1),
            index,
            channels,
            decision,
            client,
            now,
        ).0[0],
    decreases specs.len(),
{
    if specs.len() == 1 {
        assert(specs.take(1) =~= specs);
    } else {
        let rest = specs.drop_last();
        assert(rest.take(1) =~= specs.take(1));
        lemma_searches_keep_first(rest, index, channels, decision, client, now);
        let (before, at) = searched_all(rest, index, channels, decision, client, now);
        let line = lined_up(channels, specs.last(), decision.requested_model, client, now);
        let count = best_count(line, specs.last().desired_model, decision.requested_model);
        lemma_trials_keep_first(before, rotated(line, count, at), specs.last(), decision);
    }
}

proof fn lemma_leading_rank(
    list: Seq<ChannelView>,
    rank: (u8, u8),
    desired: Seq<char>,
    requested: Seq<char>,
    i: int,
)
    requires
        0 <= i < leading(list, rank, desired, requested),
    ensures
        i < list.len(),
        list[i].match_rank(desired, requested) == rank,
    decreases list.len(),
{
    lemma_leading(list, rank, desired, requested);
    if i > 0 {
        lemma_leading_rank(list.skip(1), rank, desired, requested, i - 1);
    }
}

/// The match `a` is better than `b`.
pub open spec fn better_match(a: (u8, u8), b: (u8, u8)) -> bool {
    a.0 < b.0 || (a.0 == b.0 && a.1 < b.1)
}

/// Where a channel can serve the role that was decided on, in the group of that
/// role, such a channel is tried first, and none of them goes better with the
/// models than it does. It is tried for the reason of the decision where that is
/// for the group of its role.
pub proof fn law_best_channel_is_first(
    channels: Seq<ChannelView>,
    router: RouterConfigView,
    decision: RouteDecisionView,
    client: ApiProtocol,
    index: usize,
    now: int,
    channel: ChannelView,
)
    requires
        channels.contains(channel),
        eligible(
            channel,
            (AttemptSpecView {
                role: decision.role,
                group: routing::role_group(router, decision.role),
                desired_model: decision.desired_model,
                fallback: false,
            }),
            decision.requested_model,
            now,
        ),
    ensures
        ({
            let attempts = attempts_for(channels, router, decision, client, index, now).0;
            let spec = AttemptSpecView {
                role: decision.role,
                group: routing::role_group(router, decision.role),
                desired_model: decision.desired_model,
                fallback: false,
            };
            &&& attempts.len() > 0
            &&& channels.contains(attempts[0].channel)
            &&& eligible(attempts[0].channel, spec, decision.requested_model, now)
            &&& attempts[0] == trial(attempts[0].channel, spec, decision)
            &&& decision.group == spec.group ==> attempts[0].reason == decision.reason
            &&& !better_match(
                channel.match_rank(decision.desired_model, decision.requested_model),
                attempts[0].channel.match_rank(decision.desired_model, decision.requested_model),
            )
        }),
{
    let specs = searches(router, decision);
    let desired = decision.desired_model;
    let requested = decision.requested_model;
    lemma_first_search(router, decision);
    let spec = specs[0];
    let one = specs.take(1);
    assert(one.drop_last() =~= Seq::<AttemptSpecView>::empty());
    assert(one.last() == spec);
    let line = lined_up(channels, spec, requested, client, now);
    let count = best_count(line, desired, requested);
    let turned = rotated(line, count, index);
    lemma_line(channels, spec, requested, client, index, now, channel);
    assert(turned.contains(channel));
    let found = searched_all(one, index, channels, decision, client, now).0;
    assert(searched_all(one.drop_last(), index, channels, decision, client, now) == (
        Seq::<AttemptView>::empty(),
        index,
    ));
    assert(found == with_trials(Seq::empty(), turned, spec, decision));
    lemma_trials_keep_first(Seq::empty(), turned, spec, decision);
    lemma_searches_keep_first(specs, index, channels, decision, client, now);
    let first = turned[0];
    assert(turned.contains(first));
    lemma_line(channels, spec, requested, client, index, now, first);
    let order = trial_order(desired, requested, client);
    let wanted = candidates(channels, spec, requested, now);
    law_trial_order(desired, requested, client);
    sorting::law_ordered_in_order(wanted, order);
    sorting::law_ordered_keeps_items(wanted, order);
    lemma_candidates(channels, spec, requested, now, channel);
    assert(line.contains(channel));
    let k = choose|k: int| 0 <= k < line.len() && line[k] == channel;
    let rank = line[0].match_rank(desired, requested);
    lemma_leading(line, rank, desired, requested);
    law_rotation(line, count, index);
    if count > 1 {
        lemma_leading_rank(line, rank, desired, requested, index as int % count);
    }
    assert(first.match_rank(desired, requested) == rank);
    if k > 0 {
        assert(!order(line[k], line[0]));
    }
}

proof fn lemma_names_differ()
    ensures
        "default"@ != "pro"@,
        "default"@ != "emergency"@,
        "default"@ != "backup"@,
        "default"@ != "any"@,
        "pro"@ != "emergency"@,
        "pro"@ != "backup"@,
        "pro"@ != "any"@,
        "emergency"@ != "backup"@,
        "emergency"@ != "any"@,
        "backup"@ != "any"@,
{
    reveal_strlit("default");
    reveal_strlit("pro");
    reveal_strlit("emergency");
    reveal_strlit("backup");
    reveal_strlit("any");
    assert("default"@.len() == 7 && "emergency"@.len() == 9 && "backup"@.len() == 6);
    assert("pro"@.len() == 3 && "any"@.len() == 3);
    assert("pro"@[0] == 'p' && "any"@[0] == 'a');
}

/// The searches for the channels of a role: in its group, where it has one, and
/// then outside of it.
pub open spec fn in_and_out(
    role: Seq<char>,
    group: Seq<char>,
    desired_model: Seq<char>,
    fallback: bool,
) -> Seq<AttemptSpecView> {
    let inside = AttemptSpecView { role, group, desired_model, fallback };
    if group.len() == 0 {
        seq![inside]
    } else {
        seq![
            inside,
            AttemptSpecView {
                role,
                group: Seq::<char>::empty(),
                desired_model,
                fallback: true,
            },
        ]
    }
}

proof fn lemma_new_role(
    specs: Seq<AttemptSpecView>,
    router: RouterConfigView,
    role: Seq<char>,
    desired_model: Seq<char>,
    fallback: bool,
)
    requires
        forall|i: int| 0 <= i < specs.len() ==> (#[trigger] specs[i]).role != role,
    ensures
        with_role(specs, router, role, desired_model, fallback) == specs + in_and_out(
            role,
            routing::role_group(router, role),
            desired_model,
            fallback,
        ),
{
    let group = routing::role_group(router, role);
    let inside = AttemptSpecView { role, group, desired_model, fallback };
    let outside = AttemptSpecView {
        role,
        group: Seq::<char>::empty(),
        desired_model,
        fallback: true,
    };
    let first = specs.push(inside);
    assert(with_spec(specs, inside) == first);
    if group.len() > 0 {
        assert forall|i: int| 0 <= i < first.len() implies !same_search(
            #[trigger] first[i],
            outside,
        ) by {
            if i < specs.len() {
                assert(first[i] == specs[i]);
            }
        }
        assert(with_spec(first, outside) =~= first.push(outside));
        assert(first.push(outside) =~= specs + in_and_out(role, group, desired_model, fallback));
    } else {
        assert(first =~= specs + in_and_out(role, group, desired_model, fallback));
    }
}

/// Any channel, as the last resort.
pub open spec fn last_resort(desired_model: Seq<char>) -> AttemptSpecView {
    AttemptSpecView {
        role: "any"@,
        group: Seq::<char>::empty(),
        desired_model,
        fallback: true,
    }
}

/// Channels are looked for by role: that of the decision first, for the model of
/// the decision; after the default and the larger models the emergency and then
/// the backup models; after the emergency models the backup ones, and the other
/// way round; and any channel in the end. The channels in the group of a role
/// come before those outside of it.
pub proof fn law_searches(router: RouterConfigView, decision: RouteDecisionView)
    ensures
        ({
            let specs = searches(router, decision);
            let desired = decision.desired_model;
            let emergency = in_and_out(
                "emergency"@,
                text::lowercase(text::trimmed(router.emergency_group)),
                router.emergency_model,
                true,
            );
            let backup = in_and_out(
                "backup"@,
                text::lowercase(text::trimmed(router.backup_group)),
                router.backup_model,
                true,
            );
            let any = seq![last_resort(desired)];
            &&& decision.role == "default"@ ==> specs == in_and_out(
                "default"@,
                text::lowercase(text::trimmed(router.default_group)),
                desired,
                false,
            ) + emergency + backup + any
            &&& decision.role == "pro"@ ==> specs == in_and_out(
                "pro"@,
                text::lowercase(text::trimmed(router.pro_group)),
                desired,
                false,
            ) + emergency + backup + any
            &&& decision.role == "emergency"@ ==> specs == in_and_out(
                "emergency"@,
                text::lowercase(text::trimmed(router.emergency_group)),
                desired,
                false,
            ) + backup + any
            &&& decision.role == "backup"@ ==> specs == in_and_out(
                "backup"@,
                text::lowercase(text::trimmed(router.backup_group)),
                desired,
                false,
            ) + emergency + any
            &&& decision.role == "any"@ ==> specs == seq![
                AttemptSpecView {
                    role: "any"@,
                    group: Seq::<char>::empty(),
                    desired_model: desired,
                    fallback: false,
                },
            ]
        }),
{
    lemma_names_differ();
    reveal_with_fuel(with_fallbacks, 4);
    let desired = decision.desired_model;
    let none = Seq::<AttemptSpecView>::empty();
    let roles = fallbacks(decision.role);
    lemma_new_role(none, router, decision.role, desired, false);
    let own = in_and_out(
        decision.role,
        routing::role_group(router, decision.role),
        desired,
        false,
    );
    assert(none + own =~= own);
    let emergency = in_and_out(
        "emergency"@,
        routing::role_group(router, "emergency"@),
        router.emergency_model,
        true,
    );
    let backup = in_and_out(
        "backup"@,
        routing::role_group(router, "backup"@),
        router.backup_model,
        true,
    );
    let any = last_resort(desired);
    if decision.role == "default"@ || decision.role == "pro"@ {
        assert(roles.drop_last() =~= seq!["emergency"@, "backup"@]);
        assert(roles.drop_last().drop_last() =~= seq!["emergency"@]);
        assert(roles.drop_last().drop_last().drop_last() =~= Seq::<Seq<char>>::empty());
        lemma_new_role(own, router, "emergency"@, router.emergency_model, true);
        lemma_new_role(own + emergency, router, "backup"@, router.backup_model, true);
        let all = own + emergency + backup;
        assert(with_spec(all, any) == all.push(any));
        assert(all.push(any) =~= all + seq![any]);
    } else if decision.role == "emergency"@ {
        assert(roles.drop_last() =~= seq!["backup"@]);
        assert(roles.drop_last().drop_last() =~= Seq::<Seq<char>>::empty());
        lemma_new_role(own, router, "backup"@, router.backup_model, true);
        let all = own + backup;
        assert(with_spec(all, any) == all.push(any));
        assert(all.push(any) =~= all + seq![any]);
    } else if decision.role == "backup"@ {
        assert(roles.drop_last() =~= seq!["emergency"@]);
        assert(roles.drop_last().drop_last() =~= Seq::<Seq<char>>::empty());
        lemma_new_role(own, router, "emergency"@, router.emergency_model, true);
        let all = own + emergency;
        assert(with_spec(all, any) == all.push(any));
        assert(all.push(any) =~= all + seq![any]);
    } else if decision.role == "any"@ {
        assert(roles.drop_last() =~= Seq::<Seq<char>>::empty());
        assert(own.len() == 1 && same_search(own[0], any));
        assert(with_spec(own, any) == own);
    }
}

/// Every attempt tries a channel of the role that it is for: where it is not for
/// any role, and not for a group, the role of the channel itself, in lower case and
/// without white space around it, is that of the attempt, a channel without one
/// being of the role `default`; where it is for a group, the group of the channel is
/// that one.
pub proof fn law_attempts_keep_to_role(
    channels: Seq<ChannelView>,
    router: RouterConfigView,
    decision: RouteDecisionView,
    client: ApiProtocol,
    index: usize,
    now: int,
)
    ensures
        ({
            let attempts = attempts_for(channels, router, decision, client, index, now).0;
            forall|i: int|
                0 <= i < attempts.len() ==> {
                    let channel = (#[trigger] attempts[i]).channel;
                    let role = text::trimmed(channel.role);
                    &&& attempts[i].role != "any"@ && attempts[i].group.len() == 0 && role.len() > 0
                        ==> text::lowercase(role) == attempts[i].role
                    &&& attempts[i].role != "any"@ && attempts[i].group.len() == 0 && role.len()
                        == 0 ==> attempts[i].role == "default"@
                    &&& attempts[i].group.len() > 0 ==> text::lowercase(text::trimmed(channel.group))
                        == attempts[i].group
                }
        }),
{
    let specs = searches(router, decision);
    lemma_all_come_of(specs, index, channels, decision, client, now);
    let attempts = attempts_for(channels, router, decision, client, index, now).0;
    assert forall|i: int| 0 <= i < attempts.len() implies ({
        let channel = (#[trigger] attempts[i]).channel;
        let role = text::trimmed(channel.role);
        &&& attempts[i].role != "any"@ && attempts[i].group.len() == 0 && role.len() > 0
            ==> text::lowercase(role) == attempts[i].role
        &&& attempts[i].role != "any"@ && attempts[i].group.len() == 0 && role.len() == 0
            ==> attempts[i].role == "default"@
        &&& attempts[i].group.len() > 0 ==> text::lowercase(text::trimmed(channel.group))
            == attempts[i].group
    }) by {
        assert(comes_of(attempts[i], specs, channels, decision, now));
    }
}

/// Every attempt tries a channel that is in use at the time: its status is empty or
/// `active`, or it is cooling down, or out after an error, and the time up to which
/// it is out is over. It speaks one of the known formats, and it lists the model
/// that is looked for or the one that was requested, where it lists any.
pub proof fn law_attempts_are_in_use(
    channels: Seq<ChannelView>,
    router: RouterConfigView,
    decision: RouteDecisionView,
    client: ApiProtocol,
    index: usize,
    now: int,
    i: int,
)
    requires
        0 <= i < attempts_for(channels, router, decision, client, index, now).0.len(),
    ensures
        ({
            let attempt = attempts_for(channels, router, decision, client, index, now).0[i];
            let channel = attempt.channel;
            let status = text::ascii_lowered(text::trimmed(channel.status));
            let out = status == text::ascii_lowered("cooldown"@) || status == text::ascii_lowered(
                "error"@,
            );
            let kind = text::lowercase(text::trimmed(channel.kind));
            &&& channels.contains(channel)
            &&& status.len() == 0 || status == text::ascii_lowered("active"@) || out
            &&& out && channel.disabled_until is Some && status.len() > 0 && status
                != text::ascii_lowered("active"@) ==> channel.disabled_until->0 <= now
            &&& kind.len() == 0 || kind == "openai"@ || kind == "openai-compatible"@ || kind
                == "anthropic"@ || kind == "anthropic-api"@
            &&& exists|k: int|
                0 <= k < searches(router, decision).len() && (#[trigger] searches(
                    router,
                    decision,
                )[k]).role == attempt.role && searches(router, decision)[k].group == attempt.group
                    && (channel.supports(searches(router, decision)[k].desired_model)
                    || channel.supports(decision.requested_model))
        }),
{
    let specs = searches(router, decision);
    lemma_all_come_of(specs, index, channels, decision, client, now);
    let attempts = attempts_for(channels, router, decision, client, index, now).0;
    assert(comes_of(attempts[i], specs, channels, decision, now));
}

/// The roles and the groups that attempts are for: the role of the decision, or one
/// of those to fall back on; and no group, or the one that is configured for the
/// role.
pub proof fn law_roles_of_attempts(
    channels: Seq<ChannelView>,
    router: RouterConfigView,
    decision: RouteDecisionView,
    client: ApiProtocol,
    index: usize,
    now: int,
    i: int,
)
    requires
        0 <= i < attempts_for(channels, router, decision, client, index, now).0.len(),
        decision.role == "default"@ || decision.role == "pro"@ || decision.role == "emergency"@
            || decision.role == "backup"@ || decision.role == "any"@,
    ensures
        ({
            let attempt = attempts_for(channels, router, decision, client, index, now).0[i];
            &&& attempt.role == decision.role || attempt.role == "emergency"@ || attempt.role
                == "backup"@ || attempt.role == "any"@
            &&& decision.role == "any"@ ==> attempt.role == "any"@
            &&& attempt.role == "any"@ ==> attempt.group.len() == 0
            &&& attempt.group.len() > 0 ==> {
                &&& attempt.role == "default"@ ==> attempt.group == text::lowercase(
                    text::trimmed(router.default_group),
                )
                &&& attempt.role == "pro"@ ==> attempt.group == text::lowercase(
                    text::trimmed(router.pro_group),
                )
                &&& attempt.role == "emergency"@ ==> attempt.group == text::lowercase(
                    text::trimmed(router.emergency_group),
                )
                &&& attempt.role == "backup"@ ==> attempt.group == text::lowercase(
                    text::trimmed(router.backup_group),
                )
            }
        }),
{
    lemma_names_differ();
    law_searches(router, decision);
    let specs = searches(router, decision);
    lemma_all_come_of(specs, index, channels, decision, client, now);
    let attempts = attempts_for(channels, router, decision, client, index, now).0;
    assert(comes_of(attempts[i], specs, channels, decision, now));
    let k = choose|k: int|
        0 <= k < specs.len() && channels.contains(attempts[i].channel) && eligible(
            attempts[i].channel,
            #[trigger] specs[k],
            decision.requested_model,
            now,
        ) && attempts[i] == trial(attempts[i].channel, specs[k], decision);
    assert(specs[k].role == attempts[i].role && specs[k].group == attempts[i].group);
}

/// Why an attempt is made: for the reason of the decision where it is for the role
/// and the group that were decided on, and otherwise as a fallback, which names its
/// role, and its group where it has one.
pub proof fn law_reasons_of_attempts(
    channels: Seq<ChannelView>,
    router: RouterConfigView,
    decision: RouteDecisionView,
    client: ApiProtocol,
    index: usize,
    now: int,
    i: int,
)
    requires
        0 <= i < attempts_for(channels, router, decision, client, index, now).0.len(),
        decision.role == "default"@ || decision.role == "pro"@ || decision.role == "emergency"@
            || decision.role == "backup"@,
    ensures
        ({
            let attempt = attempts_for(channels, router, decision, client, index, now).0[i];
            let kept = attempt.role == decision.role && attempt.group == decision.group
                && decision.group == routing::role_group(router, decision.role);
            &&& kept ==> attempt.reason == decision.reason
            &&& attempt.role != decision.role && attempt.group.len() == 0 ==> attempt.reason
                == "fallback to "@ + attempt.role
            &&& attempt.role != decision.role && attempt.group.len() > 0 ==> attempt.reason
                == "fallback to "@ + attempt.role + "/"@ + attempt.group
            &&& attempt.group != decision.group && attempt.group.len() == 0 ==> attempt.reason
                == "fallback to "@ + attempt.role
        }),
{
    lemma_names_differ();
    law_searches(router, decision);
    let specs = searches(router, decision);
    lemma_all_come_of(specs, index, channels, decision, client, now);
    let attempts = attempts_for(channels, router, decision, client, index, now).0;
    assert(comes_of(attempts[i], specs, channels, decision, now));
    let k = choose|k: int|
        0 <= k < specs.len() && channels.contains(attempts[i].channel) && eligible(
            attempts[i].channel,
            #[trigger] specs[k],
            decision.requested_model,
            now,
        ) && attempts[i] == trial(attempts[i].channel, specs[k], decision);
    assert(specs[k].role == attempts[i].role && specs[k].group == attempts[i].group);
}

/// The model that attempts for `role` ask for.
pub open spec fn model_for(
    router: RouterConfigView,
    decision: RouteDecisionView,
    role: Seq<char>,
) -> Seq<char> {
    if role == decision.role || role == "any"@ {
        decision.desired_model
    } else if role == "emergency"@ {
        router.emergency_model
    } else {
        router.backup_model
    }
}

proof fn lemma_models_of_searches(router: RouterConfigView, decision: RouteDecisionView, k: int)
    requires
        0 <= k < searches(router, decision).len(),
        decision.role == "default"@ || decision.role == "pro"@ || decision.role == "emergency"@
            || decision.role == "backup"@ || decision.role == "any"@,
    ensures
        searches(router, decision)[k].desired_model == model_for(
            router,
            decision,
            searches(router, decision)[k].role,
        ),
{
    lemma_names_differ();
    law_searches(router, decision);
}

/// The model that a channel without a mapping is asked for, where it serves it: that
/// of the decision on the way of the decision and as the last resort, and that of
/// the role on the way of a fallback.
pub proof fn law_models_of_attempts(
    channels: Seq<ChannelView>,
    router: RouterConfigView,
    decision: RouteDecisionView,
    client: ApiProtocol,
    index: usize,
    now: int,
    i: int,
)
    requires
        0 <= i < attempts_for(channels, router, decision, client, index, now).0.len(),
        decision.role == "default"@ || decision.role == "pro"@ || decision.role == "emergency"@
            || decision.role == "backup"@ || decision.role == "any"@,
    ensures
        ({
            let attempt = attempts_for(channels, router, decision, client, index, now).0[i];
            let channel = attempt.channel;
            let model = model_for(router, decision, attempt.role);
            text::blank(channel.model_mapping) && !text::blank(model) && channel.supports(model)
                ==> attempt.actual_model == model
        }),
{
    let specs = searches(router, decision);
    lemma_all_come_of(specs, index, channels, decision, client, now);
    let attempts = attempts_for(channels, router, decision, client, index, now).0;
    assert(comes_of(attempts[i], specs, channels, decision, now));
    let k = choose|k: int|
        0 <= k < specs.len() && channels.contains(attempts[i].channel) && eligible(
            attempts[i].channel,
            #[trigger] specs[k],
            decision.requested_model,
            now,
        ) && attempts[i] == trial(attempts[i].channel, specs[k], decision);
    lemma_models_of_searches(router, decision, k);
    if text::blank(attempts[i].channel.model_mapping) {
        channel::law_asked_for_what_is_served(
            attempts[i].channel,
            decision.requested_model,
            specs[k].desired_model,
        );
    }
}

proof fn lemma_trials_extend(
    attempts: Seq<AttemptView>,
    channels: Seq<ChannelView>,
    spec: AttemptSpecView,
    decision: RouteDecisionView,
)
    ensures
        attempts.is_prefix_of(with_trials(attempts, channels, spec, decision)),
    decreases channels.len(),
{
    if channels.len() > 0 {
        lemma_trials_extend(attempts, channels.drop_last(), spec, decision);
    }
}

/// The attempts of one search come before those of the searches behind it: what the
/// first searches give stands at the start of what all of them give.
pub proof fn law_searches_follow_each_other(
    specs: Seq<AttemptSpecView>,
    k: int,
    index: usize,
    channels: Seq<ChannelView>,
    decision: RouteDecisionView,
    client: ApiProtocol,
    now: int,
)
    requires
        0 <= k <= specs.len(),
    ensures
        searched_all(specs.take(k), index, channels, decision, client, now).0.is_prefix_of(
            searched_all(specs, index, channels, decision, client, now).0,
        ),
    decreases specs.len(),
{
    if k == specs.len() {
        assert(specs.take(k) =~= specs);
    } else {
        let rest = specs.drop_last();
        assert(rest.take(k) =~= specs.take(k));
        law_searches_follow_each_other(rest, k, index, channels, decision, client, now);
        let (before, at) = searched_all(rest, index, channels, decision, client, now);
        let line = lined_up(channels, specs.last(), decision.requested_model, client, now);
        let count = best_count(line, specs.last().desired_model, decision.requested_model);
        lemma_trials_extend(before, rotated(line, count, at), specs.last(), decision);
    }
}

/// Channels that are sorted stand by how well they go with the desired model, then
/// with the requested one, then with the format of the client; then by their
/// priority, the least number first; then by group, and then by name.
pub proof fn law_line(
    channels: Seq<ChannelView>,
    desired: Seq<char>,
    requested: Seq<char>,
    client: ApiProtocol,
    i: int,
    j: int,
)
    requires
        0 <= i < j < channels.len(),
    ensures
        ({
            let line = sorting::ordered(channels, trial_order(desired, requested, client));
            let a = line[i];
            let b = line[j];
            let ad = a.rank_with(a.mapping(), desired);
            let bd = b.rank_with(b.mapping(), desired);
            let ar = a.rank_with(a.mapping(), requested);
            let br = b.rank_with(b.mapping(), requested);
            let ap = protocol::protocol_rank(a, client);
            let bp = protocol::protocol_rank(b, client);
            let ag = text::lowercase(text::trimmed(a.group));
            let bg = text::lowercase(text::trimmed(b.group));
            &&& line.len() == channels.len()
            &&& ad <= bd
            &&& ad == bd ==> ar <= br
            &&& ad == bd && ar == br ==> ap <= bp
            &&& ad == bd && ar == br && ap == bp ==> a.priority <= b.priority
            &&& ad == bd && ar == br && ap == bp && a.priority == b.priority
                ==> !text::text_before(bg, ag)
            &&& ad == bd && ar == br && ap == bp && a.priority == b.priority && ag == bg
                ==> !text::text_before(b.name, a.name)
        }),
{
    let order = trial_order(desired, requested, client);
    law_trial_order(desired, requested, client);
    sorting::law_ordered_in_order(channels, order);
    sorting::law_ordered_keeps_items(channels, order);
    let line = sorting::ordered(channels, order);
    assert(!order(line[j], line[i]));
    assert(!tried_before(line[j], line[i], desired, requested, client));
    text::lemma_order_irreflexive(line[i].group_key());
}

/// The channels that take turns are those at the start of the line that go with the
/// models just as the first one does: all of them up to the first that does not.
pub proof fn law_best_count(list: Seq<ChannelView>, desired: Seq<char>, requested: Seq<char>)
    ensures
        ({
            let count = best_count(list, desired, requested);
            &&& 0 <= count <= list.len()
            &&& list.len() > 0 ==> count > 0
            &&& forall|i: int|
                0 <= i < count ==> (#[trigger] list[i]).match_rank(desired, requested)
                    == list[0].match_rank(desired, requested)
            &&& count < list.len() ==> list[count].match_rank(desired, requested)
                != list[0].match_rank(desired, requested)
        }),
{
    if list.len() > 0 {
        let rank = list[0].match_rank(desired, requested);
        lemma_leading(list, rank, desired, requested);
        lemma_leading_end(list, rank, desired, requested);
        assert forall|i: int| 0 <= i < best_count(list, desired, requested) implies (
        #[trigger] list[i]).match_rank(desired, requested) == rank by {
            lemma_leading_rank(list, rank, desired, requested, i);
        }
    }
}

proof fn lemma_leading_end(
    list: Seq<ChannelView>,
    rank: (u8, u8),
    desired: Seq<char>,
    requested: Seq<char>,
)
    ensures
        ({
            let count = leading(list, rank, desired, requested);
            0 <= count < list.len() ==> list[count].match_rank(desired, requested) != rank
        }),
    decreases list.len(),
{
    if list.len() > 0 && list[0].match_rank(desired, requested) == rank {
        lemma_leading_end(list.skip(1), rank, desired, requested);
        lemma_leading(list.skip(1), rank, desired, requested);
    }
}

/// The first `count` channels are turned round by the index, counted round, and the
/// others keep their places; the index counts up by one where there was more than
/// one to turn.
pub proof fn law_places_after_rotation<T>(list: Seq<T>, count: int, index: usize, i: int)
    requires
        0 <= count <= list.len(),
        0 <= i < list.len(),
    ensures
        rotated(list, count, index).len() == list.len(),
        i < count ==> rotated(list, count, index)[i] == list[(i + index) % count],
        count <= i ==> rotated(list, count, index)[i] == list[i],
        count > 1 && index < usize::MAX ==> next_index(count, index) == index + 1,
        count > 1 && index == usize::MAX ==> next_index(count, index) == usize::MAX,
        count <= 1 ==> next_index(count, index) == index,
{
    if 1 < count && i < count {
        let offset = index as int % count;
        vstd::arithmetic::div_mod::lemma_add_mod_noop_right(i, index as int, count);
        if i + offset < count {
            vstd::arithmetic::div_mod::lemma_small_mod((i + offset) as nat, count as nat);
        } else {
            vstd::arithmetic::div_mod::lemma_mod_sub_multiples_vanish(i + offset, count);
            vstd::arithmetic::div_mod::lemma_small_mod((i + offset - count) as nat, count as nat);
        }
    } else if count == 1 && i == 0 {
        assert((i + index) % 1 == 0);
    }
}

/// A search is added once: it is left out where one for the same role, the same group and the
/// same model is there, and stands at the end otherwise.
pub proof fn law_searches_are_added_once(specs: Seq<AttemptSpecView>, spec: AttemptSpecView, i: int)
    ensures
        0 <= i < specs.len() && specs[i].role == spec.role && specs[i].group == spec.group
            && specs[i].desired_model == spec.desired_model ==> with_spec(specs, spec) == specs,
        (forall|j: int|
            0 <= j < specs.len() ==> (#[trigger] specs[j]).role != spec.role || specs[j].group
                != spec.group || specs[j].desired_model != spec.desired_model) ==> with_spec(
            specs,
            spec,
        ) == specs.push(spec),
{
    if 0 <= i < specs.len() && specs[i].role == spec.role && specs[i].group == spec.group
        && specs[i].desired_model == spec.desired_model {
        assert(same_search(specs[i], spec));
    }
}

/// No channel is asked twice for one model: two attempts differ in the id of their channel or in
/// the model.
pub proof fn law_asked_once(
    channels: Seq<ChannelView>,
    router: RouterConfigView,
    decision: RouteDecisionView,
    client: ApiProtocol,
    index: usize,
    now: int,
    i: int,
    j: int,
)
    requires
        0 <= i < j < attempts_for(channels, router, decision, client, index, now).0.len(),
    ensures
        ({
            let attempts = attempts_for(channels, router, decision, client, index, now).0;
            attempts[i].channel.id != attempts[j].channel.id || attempts[i].actual_model
                != attempts[j].actual_model
        }),
{
    law_no_attempt_twice(channels, router, decision, client, index, now);
    let attempts = attempts_for(channels, router, decision, client, index, now).0;
    assert(!same_trial(attempts[i], attempts[j]));
}

/// A channel that is in use, speaks a known format and serves the model of a search is tried
/// for that search: where its role is the one that is looked for, or any is, or where a group is
/// looked for and it is in that group.
pub proof fn law_search_finds(
    channels: Seq<ChannelView>,
    spec: AttemptSpecView,
    requested: Seq<char>,
    now: int,
    channel: ChannelView,
)
    requires
        channels.contains(channel),
        channel.active_at(now),
        protocol::protocol_of(channel) is Some,
        channel.supports(spec.desired_model) || channel.supports(requested),
    ensures
        spec.group.len() > 0 ==> (candidates(channels, spec, requested, now).contains(channel)
            <==> text::lowercase(text::trimmed(channel.group)) == spec.group),
        spec.group.len() == 0 && spec.role == "any"@ ==> candidates(
            channels,
            spec,
            requested,
            now,
        ).contains(channel),
        spec.group.len() == 0 && spec.role != "any"@ && !text::blank(channel.role) ==> (candidates(
            channels,
            spec,
            requested,
            now,
        ).contains(channel) <==> text::lowercase(text::trimmed(channel.role)) == spec.role),
        spec.group.len() == 0 && spec.role != "any"@ && text::blank(channel.role) ==> (candidates(
            channels,
            spec,
            requested,
            now,
        ).contains(channel) <==> spec.role == "default"@),
{
    lemma_candidates(channels, spec, requested, now, channel);
}

/// A search finds no channel that is out of use, that speaks no known format, or that serves
/// neither the model looked for nor the one requested; and none that is not configured.
pub proof fn law_search_leaves_out(
    channels: Seq<ChannelView>,
    spec: AttemptSpecView,
    requested: Seq<char>,
    now: int,
    channel: ChannelView,
)
    requires
        !channels.contains(channel) || !channel.active_at(now) || protocol::protocol_of(
            channel,
        ) is None || (!channel.supports(spec.desired_model) && !channel.supports(requested)),
    ensures
        !candidates(channels, spec, requested, now).contains(channel),
{
    lemma_candidates(channels, spec, requested, now, channel);
}

/// A search finds channels in the order in which they are configured: those of the first and
/// then those of the others.
pub proof fn law_search_in_order(
    first: Seq<ChannelView>,
    second: Seq<ChannelView>,
    spec: AttemptSpecView,
    requested: Seq<char>,
    now: int,
)
    ensures
        candidates(first + second, spec, requested, now) == candidates(first, spec, requested, now)
            + candidates(second, spec, requested, now),
    decreases second.len(),
{
    let all = first + second;
    let start = candidates(first, spec, requested, now);
    if second.len() == 0 {
        assert(all =~= first);
        assert(start + candidates(second, spec, requested, now) =~= start);
    } else {
        let rest = second.drop_last();
        law_search_in_order(first, rest, spec, requested, now);
        assert(all.drop_last() =~= first + rest);
        assert(all.last() == second.last());
        assert(start + candidates(second, spec, requested, now) =~= candidates(
            all,
            spec,
            requested,
            now,
        ));
    }
}

proof fn lemma_trials_in_order(
    channels: Seq<ChannelView>,
    spec: AttemptSpecView,
    decision: RouteDecisionView,
    i: int,
    j: int,
)
    requires
        0 <= i < j < with_trials(Seq::empty(), channels, spec, decision).len(),
    ensures
        ({
            let out = with_trials(Seq::empty(), channels, spec, decision);
            exists|p: int, q: int|
                0 <= p < q < channels.len() && #[trigger] channels[p] == out[i].channel
                    && #[trigger] channels[q] == out[j].channel
        }),
    decreases channels.len(),
{
    let none = Seq::<AttemptView>::empty();
    let rest = channels.drop_last();
    let before = with_trials(none, rest, spec, decision);
    let out = with_trials(none, channels, spec, decision);
    let last = channels.len() - 1;
    if j < before.len() {
        lemma_trials_in_order(rest, spec, decision, i, j);
        let (p, q) = choose|p: int, q: int|
            0 <= p < q < rest.len() && #[trigger] rest[p] == before[i].channel
                && #[trigger] rest[q] == before[j].channel;
        assert(channels[p] == out[i].channel && channels[q] == out[j].channel);
    } else {
        lemma_with_trials(none, rest, spec, decision);
        assert(before[i] == out[i]);
        assert(rest.contains(out[i].channel));
        let p = choose|p: int| 0 <= p < rest.len() && rest[p] == out[i].channel;
        assert(channels[p] == out[i].channel && channels[last] == out[j].channel);
    }
}

/// The attempts of a first search, where none takes turns yet, stand by how well their channels
/// go with the desired model, with the requested one and with the format of the client, and then
/// by priority, the least number first.
pub proof fn law_order_of_attempts(
    channels: Seq<ChannelView>,
    spec: AttemptSpecView,
    decision: RouteDecisionView,
    client: ApiProtocol,
    now: int,
    i: int,
    j: int,
)
    requires
        0 <= i < j < searched((Seq::empty(), 0usize), channels, spec, decision, client, now).0.len(),
    ensures
        ({
            let out = searched((Seq::empty(), 0usize), channels, spec, decision, client, now).0;
            let a = out[i].channel;
            let b = out[j].channel;
            let ad = a.rank_with(a.mapping(), spec.desired_model);
            let bd = b.rank_with(b.mapping(), spec.desired_model);
            let ar = a.rank_with(a.mapping(), decision.requested_model);
            let br = b.rank_with(b.mapping(), decision.requested_model);
            let ap = protocol::protocol_rank(a, client);
            let bp = protocol::protocol_rank(b, client);
            &&& ad <= bd
            &&& ad == bd ==> ar <= br
            &&& ad == bd && ar == br ==> ap <= bp
            &&& ad == bd && ar == br && ap == bp ==> a.priority <= b.priority
        }),
{
    let requested = decision.requested_model;
    let found = candidates(channels, spec, requested, now);
    let line = lined_up(channels, spec, requested, client, now);
    let count = best_count(line, spec.desired_model, requested);
    law_best_count(line, spec.desired_model, requested);
    sorting::law_ordered_keeps_items(
        found,
        trial_order(spec.desired_model, requested, client),
    );
    let turned = rotated(line, count, 0usize);
    assert forall|k: int| 0 <= k < line.len() implies turned[k] == #[trigger] line[k] by {
        law_places_after_rotation(line, count, 0usize, k);
        if k < count {
            vstd::arithmetic::div_mod::lemma_small_mod(k as nat, count as nat);
        }
    }
    law_rotation(line, count, 0usize);
    assert(turned =~= line);
    lemma_trials_in_order(line, spec, decision, i, j);
    let out = with_trials(Seq::empty(), line, spec, decision);
    let (p, q) = choose|p: int, q: int|
        0 <= p < q < line.len() && #[trigger] line[p] == out[i].channel
            && #[trigger] line[q] == out[j].channel;
    law_line(found, spec.desired_model, requested, client, p, q);
}

/// A search begins where the searches before it have left off: with what they found, and with
/// the index as they counted it up.
pub proof fn law_one_more_search(
    specs: Seq<AttemptSpecView>,
    spec: AttemptSpecView,
    index: usize,
    channels: Seq<ChannelView>,
    decision: RouteDecisionView,
    client: ApiProtocol,
    now: int,
)
    ensures
        searched_all(specs.push(spec), index, channels, decision, client, now) == searched(
            searched_all(specs, index, channels, decision, client, now),
            channels,
            spec,
            decision,
            client,
            now,
        ),
        searched_all(Seq::<AttemptSpecView>::empty(), index, channels, decision, client, now) == (
            Seq::<AttemptView>::empty(),
            index,
        ),
{
    assert(specs.push(spec).drop_last() =~= specs);
}

} // verus!
