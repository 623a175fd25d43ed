//! What the gateway does with a request before it is sent upstream.
use crate::attempts;
use crate::attempts::{Attempt, AttemptView};
use crate::channel;
use crate::channel::{Channel, ChannelView};
use crate::clock;
use crate::config::{RouterConfig, RouterConfigView};
use crate::convert;
use crate::hints;
use crate::hints::{Header, HeaderView, RouteHints, RouteHintsView};
use crate::json;
use crate::json::{Json, JsonTree};
use crate::numeral;
use crate::protocol;
use crate::protocol::ApiProtocol;
use crate::routing;
use crate::routing::{RouteDecision, RouteDecisionView};
use crate::stats;
use crate::stats::UsageStats;
use crate::stream;
use crate::text;
use vstd::prelude::*;
use vstd::string::*;

verus! {

/// The largest request body that is read, in bytes.
pub const MAX_REQUEST_BYTES: usize = 16_777_216;

/// What the gateway needs to know of a request.
pub struct ProxyRequest {
    pub requested_model: String,
    pub stream: bool,
    pub hints: RouteHints,
    pub source: String,
    pub request_id: String,
}

/// What is known of a request.
#[verifier::ext_equal]
pub struct ProxyRequestView {
    pub requested_model: Seq<char>,
    pub stream: bool,
    pub hints: RouteHintsView,
    pub source: Seq<char>,
    pub request_id: Seq<char>,
}

impl View for ProxyRequest {
    type V = ProxyRequestView;

    open spec fn view(&self) -> ProxyRequestView {
        ProxyRequestView {
            requested_model: self.requested_model@,
            stream: self.stream,
            hints: self.hints@,
            source: self.source@,
            request_id: self.request_id@,
        }
    }
}

/// What is known of a request that came at the time `nanos`.
pub open spec fn described(
    headers: Seq<HeaderView>,
    request: Option<JsonTree>,
    nanos: u128,
) -> ProxyRequestView {
    ProxyRequestView {
        requested_model: match json::text_in(json::member_of(request, "model"@)) {
            Some(model) => model,
            None => "unknown"@,
        },
        stream: match json::member_of(request, "stream"@) {
            Some(JsonTree::Bool(flag)) => flag,
            _ => false,
        },
        hints: hints::hints_of(headers, request),
        source: hints::source_of(headers, request),
        request_id: hints::name_of(headers, request, nanos),
    }
}

/// What is known of a request that came at the time `nanos`.
pub fn describe_request_at(headers: &Vec<Header>, request_json: Option<&Json>, nanos: u128) -> (r:
    ProxyRequest)
    ensures
        r@ == described(hints::header_views(headers@), json::maybe_tree_ref(request_json), nanos),
{
    let requested_model: String = match json::text_found(
        json::member_in(request_json, "model"),
    ) {
        Some(model) => model.to_owned(),
        None => "unknown".to_owned(),
    };
    let stream: bool = match json::member_in(request_json, "stream") {
        Some(flag) => flag.as_bool().unwrap_or(false),
        None => false,
    };
    ProxyRequest {
        requested_model,
        stream,
        hints: RouteHints::from_request(headers, request_json),
        source: hints::request_source(headers, request_json),
        request_id: hints::request_id_at(headers, request_json, nanos),
    }
}

/// Reads a request: its body as JSON, where it is that, and what is known of it.
pub fn read_request(headers: &Vec<Header>, body: &[u8]) -> (r: (Option<Json>, ProxyRequest))
    ensures
        json::maybe_tree(r.0) == json::parsed_bytes(body@),
        exists|nanos: u128|
            r.1@ == #[trigger] described(
                hints::header_views(headers@),
                json::parsed_bytes(body@),
                nanos,
            ),
{
    let request_json: Option<Json> = Json::parse(body);
    let nanos: u128 = clock::unix_now_nanos();
    let request: ProxyRequest = describe_request_at(headers, request_json.as_ref(), nanos);
    (request_json, request)
}

/// An answer that the gateway gives of its own.
pub struct Refusal {
    pub status: u16,
    /// The body is JSON, and not plain text.
    pub json: bool,
    pub body: String,
}

/// What an answer of the gateway's own holds.
#[verifier::ext_equal]
pub struct RefusalView {
    pub status: u16,
    pub json: bool,
    pub body: Seq<char>,
}

impl View for Refusal {
    type V = RefusalView;

    open spec fn view(&self) -> RefusalView {
        RefusalView { status: self.status, json: self.json, body: self.body@ }
    }
}

/// An error of the router, as JSON.
pub open spec fn error_tree(message: Seq<char>) -> JsonTree {
    JsonTree::Object(
        seq![
            (
                "error"@,
                JsonTree::Object(
                    seq![
                        ("message"@, JsonTree::Text(message)),
                        ("type"@, JsonTree::Text("obp_router_error"@)),
                    ],
                ),
            ),
        ],
    )
}

/// An error of the router.
pub open spec fn router_error(status: u16, message: Seq<char>) -> RefusalView {
    RefusalView {
        status,
        json: true,
        body: json::json_text(json::sorted_tree(error_tree(message))),
    }
}

/// An error of the router, as JSON.
pub fn error_json(message: &str) -> (r: Json)
    ensures
        r.tree() == error_tree(message@),
{
    let error: Json = protocol::object2(
        "message",
        Json::text(message),
        "type",
        Json::text("obp_router_error"),
    );
    let members: Vec<(String, Json)> = vec![("error".to_owned(), error)];
    assert(json::member_trees(members@) =~= error_tree(message@)->Object_0);
    Json::Object(members)
}

/// An error of the router.
pub fn error_response(status: u16, message: &str) -> (r: Refusal)
    ensures
        r@ == router_error(status, message@),
{
    Refusal { status, json: true, body: error_json(message).to_text() }
}

/// A plain answer of the gateway's own.
pub open spec fn plain_answer(status: u16, message: Seq<char>) -> RefusalView {
    RefusalView { status, json: false, body: message }
}

/// A plain answer of the gateway's own.
fn plain_refusal(status: u16, message: &str) -> (r: Refusal)
    ensures
        r@ == plain_answer(status, message@),
{
    Refusal { status, json: false, body: message.to_owned() }
}

/// The answer where the body of a request could not be read.
pub fn unreadable_body(error: &str) -> (r: Refusal)
    ensures
        r@ == plain_answer(400, "Invalid request body: "@ + error@),
{
    plain_refusal(400, text::concat2("Invalid request body: ", error).as_str())
}

/// The answer where no attempt gave one.
pub fn all_failed() -> (r: Refusal)
    ensures
        r@ == plain_answer(502, "All OBP upstream attempts failed"@),
{
    plain_refusal(502, "All OBP upstream attempts failed")
}

/// The answer where the reply of an upstream endpoint could not be passed on.
pub fn internal_error() -> (r: Refusal)
    ensures
        r@ == plain_answer(500, "Internal Error"@),
{
    plain_refusal(500, "Internal Error")
}

/// Where a request is to be tried.
pub struct RoutePlan {
    pub decision: RouteDecision,
    pub attempts: Vec<Attempt>,
    /// The statuses upon which the next attempt is made.
    pub retry_statuses: Vec<u16>,
}

/// What a plan holds.
#[verifier::ext_equal]
pub struct RoutePlanView {
    pub decision: RouteDecisionView,
    pub attempts: Seq<AttemptView>,
    pub retry_statuses: Seq<u16>,
}

impl View for RoutePlan {
    type V = RoutePlanView;

    open spec fn view(&self) -> RoutePlanView {
        RoutePlanView {
            decision: self.decision@,
            attempts: attempts::attempt_views(self.attempts@),
            retry_statuses: self.retry_statuses@,
        }
    }
}

/// What a plan or a refusal holds.
pub open spec fn plan_view(plan: Result<RoutePlan, Refusal>) -> Result<
    RoutePlanView,
    RefusalView,
> {
    match plan {
        Ok(plan) => Ok(plan@),
        Err(refusal) => Err(refusal@),
    }
}

/// Why a request is refused before it is routed, where it is.
pub open spec fn refused(
    router: RouterConfigView,
    channels: Seq<ChannelView>,
    requested: Seq<char>,
) -> Option<RefusalView> {
    if !router.external_enabled {
        Some(router_error(403, "external_access_disabled"@))
    } else if !routing::model_allowed(router.external_allowed_models, requested) {
        Some(router_error(403, "model_not_allowed: "@ + requested))
    } else if channels.len() == 0 {
        Some(plain_answer(404, "No channels available"@))
    } else {
        None
    }
}

/// The plan for a request, in a month that has cost `cost` so far, at the time
/// `now`; and the index after it.
pub open spec fn planned(
    router: RouterConfigView,
    channels: Seq<ChannelView>,
    cost: u128,
    tree: Option<JsonTree>,
    request: ProxyRequestView,
    client: ApiProtocol,
    index: usize,
    now: int,
) -> (Result<RoutePlanView, RefusalView>, usize) {
    let full = router.normalized();
    let effective = full.effective_for(request.source);
    let decision = routing::route(effective, cost, tree, request.requested_model, request.hints);
    let tried = attempts::attempts_for(channels, effective, decision, client, index, now);
    if refused(full, channels, request.requested_model) is Some {
        (Err(refused(full, channels, request.requested_model)->0), index)
    } else if tried.0.len() == 0 {
        (Err(plain_answer(404, "No active channels available"@)), tried.1)
    } else {
        (
            Ok(
                RoutePlanView {
                    decision,
                    attempts: tried.0,
                    retry_statuses: effective.retry_statuses,
                },
            ),
            tried.1,
        )
    }
}

/// A copy of `statuses`.
fn copy_statuses(statuses: &Vec<u16>) -> (r: Vec<u16>)
    ensures
        r@ == statuses@,
{
    let mut out: Vec<u16> = Vec::new();
    let mut i: usize = 0;
    while i < statuses.len()
        invariant
            i <= statuses@.len(),
            out@ == statuses@.take(i as int),
        decreases statuses@.len() - i,
    {
        out.push(statuses[i]);
        assert(out@ =~= statuses@.take(i + 1));
        i += 1;
    }
    assert(statuses@.take(statuses@.len() as int) =~= statuses@);
    out
}

/// The plan for a request, in a month that has cost `monthly_cost` so far, at the
/// time `now`; or the answer that refuses it.
pub fn plan_request_at(
    router: &RouterConfig,
    channels: &[Channel],
    monthly_cost: u128,
    request_json: Option<&Json>,
    request: &ProxyRequest,
    protocol: ApiProtocol,
    index: &mut usize,
    now: u64,
) -> (r: Result<RoutePlan, Refusal>)
    requires
        router.wf(),
    ensures
        (plan_view(r), *final(index)) == planned(
            router@,
            channel::channel_views(channels@),
            monthly_cost,
            json::maybe_tree_ref(request_json),
            request@,
            protocol,
            *old(index),
            now as int,
        ),
{
    let full: RouterConfig = router.copied().normalized();
    let effective: RouterConfig = full.effective_for_source(request.source.as_str());
    if !full.external_enabled {
        return Err(error_response(403, "external_access_disabled"));
    }
    if !routing::external_model_allowed(&full, request.requested_model.as_str()) {
        let message: String = text::concat2(
            "model_not_allowed: ",
            request.requested_model.as_str(),
        );
        return Err(error_response(403, message.as_str()));
    }
    if channels.len() == 0 {
        return Err(plain_refusal(404, "No channels available"));
    }
    let decision: RouteDecision = routing::route_decision_at(
        &effective,
        monthly_cost,
        request_json,
        request.requested_model.as_str(),
        &request.hints,
    );
    let tried: Vec<Attempt> = attempts::build_attempts_at(
        channels,
        &effective,
        &decision,
        protocol,
        index,
        now,
    );
    if tried.len() == 0 {
        return Err(plain_refusal(404, "No active channels available"));
    }
    let retry_statuses: Vec<u16> = copy_statuses(&effective.retry_statuses);
    Ok(RoutePlan { decision, attempts: tried, retry_statuses })
}

/// The plan for a request now, or the answer that refuses it.
pub fn plan_request(
    router: &RouterConfig,
    channels: &[Channel],
    stats: &UsageStats,
    request_json: Option<&Json>,
    request: &ProxyRequest,
    protocol: ApiProtocol,
    index: &mut usize,
) -> (r: Result<RoutePlan, Refusal>)
    requires
        router.wf(),
        stats.wf(),
    ensures
        exists|ts: i64, now: u64|
            0 <= ts <= clock::LATEST_SECS && (plan_view(r), *final(index)) == #[trigger] planned_at(
                router@,
                channel::channel_views(channels@),
                stats@,
                json::maybe_tree_ref(request_json),
                request@,
                protocol,
                *old(index),
                ts,
                now,
            ),
{
    let cost: u128 = stats.current_month_cost();
    let now: u64 = clock::unix_now_secs();
    let ghost ts = choose|ts: i64|
        0 <= ts <= clock::LATEST_SECS && cost == stats::bucket_at(
            stats@.by_month,
            #[trigger] clock::shanghai_month_text(ts as int),
        ).cost_nano_cny;
    let ghost from = *index;
    let plan: Result<RoutePlan, Refusal> = plan_request_at(
        router,
        channels,
        cost,
        request_json,
        request,
        protocol,
        index,
        now,
    );
    assert((plan_view(plan), *index) == planned_at(
        router@,
        channel::channel_views(channels@),
        stats@,
        json::maybe_tree_ref(request_json),
        request@,
        protocol,
        from,
        ts,
        now,
    ));
    plan
}

/// The plan for a request at the time `now`, in the month of the time `ts`.
pub open spec fn planned_at(
    router: RouterConfigView,
    channels: Seq<ChannelView>,
    ledger: stats::UsageStatsView,
    tree: Option<JsonTree>,
    request: ProxyRequestView,
    client: ApiProtocol,
    index: usize,
    ts: i64,
    now: u64,
) -> (Result<RoutePlanView, RefusalView>, usize) {
    planned(
        router,
        channels,
        stats::bucket_at(
            ledger.by_month,
            clock::shanghai_month_text(ts as int),
        ).cost_nano_cny,
        tree,
        request,
        client,
        index,
        now as int,
    )
}

/// A header of the client that goes on to the upstream endpoint: not those of
/// the connection, of keys, or of the gateway other than the name of the request.
pub open spec fn forwarded(name: Seq<char>) -> bool {
    &&& !channel::same_word(name, "host"@)
    &&& !channel::same_word(name, "authorization"@)
    &&& !channel::same_word(name, "content-length"@)
    &&& !channel::same_word(name, "x-api-key"@)
    &&& text::begins_with(text::ascii_lowered(name), "x-obp-"@) ==> channel::same_word(
        name,
        "x-obp-request-id"@,
    )
}

/// Does a header of the client go on to the upstream endpoint?
pub fn forwards_header(name: &str) -> (r: bool)
    ensures
        r == forwarded(name@),
{
    !text::eq_ignore_ascii_case(name, "host") && !text::eq_ignore_ascii_case(name, "authorization")
        && !text::eq_ignore_ascii_case(name, "content-length") && !text::eq_ignore_ascii_case(
        name,
        "x-api-key",
    ) && (!text::starts_with(text::to_ascii_lowercase(name).as_str(), "x-obp-")
        || text::eq_ignore_ascii_case(name, "x-obp-request-id"))
}

/// Does a header of the upstream endpoint go on to the client? All but the
/// length of the body do.
pub fn returns_header(name: &str) -> (r: bool)
    ensures
        r == !channel::same_word(name@, "content-length"@),
{
    !text::eq_ignore_ascii_case(name, "content-length")
}

/// A header with a time, where there is one.
pub open spec fn time_header(name: Seq<char>, ms: Option<u64>) -> Seq<(Seq<char>, Seq<char>)> {
    match ms {
        Some(ms) => seq![(name, numeral::decimal(ms as int))],
        None => Seq::empty(),
    }
}

/// The headers that tell the client how its request was routed.
pub open spec fn route_pairs(
    attempt: AttemptView,
    decision: RouteDecisionView,
    source: Seq<char>,
    request_id: Seq<char>,
    first_chunk_ms: Option<u64>,
    first_text_ms: Option<u64>,
) -> Seq<(Seq<char>, Seq<char>)> {
    seq![
        ("x-obp-route"@, attempt.role),
        ("x-obp-group"@, attempt.group),
        ("x-obp-requested-model"@, decision.requested_model),
        ("x-obp-actual-model"@, attempt.actual_model),
        ("x-obp-channel"@, attempt.channel.name),
        ("x-obp-reason"@, attempt.reason),
        ("x-obp-source"@, source),
        ("x-obp-request-id"@, request_id),
    ] + time_header("x-obp-first-chunk-ms"@, first_chunk_ms) + time_header(
        "x-obp-first-text-ms"@,
        first_text_ms,
    )
}

/// The headers that tell the client how its request was routed.
pub fn route_headers(
    attempt: &Attempt,
    decision: &RouteDecision,
    source: &str,
    request_id: &str,
    first_chunk_ms: Option<u64>,
    first_text_ms: Option<u64>,
) -> (r: Vec<(String, String)>)
    ensures
        protocol::pair_views(r@) == route_pairs(
            attempt@,
            decision@,
            source@,
            request_id@,
            first_chunk_ms,
            first_text_ms,
        ),
{
    let mut headers: Vec<(String, String)> = vec![
        ("x-obp-route".to_owned(), attempt.role.clone()),
        ("x-obp-group".to_owned(), attempt.group.clone()),
        ("x-obp-requested-model".to_owned(), decision.requested_model.clone()),
        ("x-obp-actual-model".to_owned(), attempt.actual_model.clone()),
        ("x-obp-channel".to_owned(), attempt.channel.name.clone()),
        ("x-obp-reason".to_owned(), attempt.reason.clone()),
        ("x-obp-source".to_owned(), source.to_owned()),
        ("x-obp-request-id".to_owned(), request_id.to_owned()),
    ];
    let ghost fixed = protocol::pair_views(headers@);
    if let Some(ms) = first_chunk_ms {
        headers.push(("x-obp-first-chunk-ms".to_owned(), numeral::to_decimal(ms as u128)));
    }
    assert(protocol::pair_views(headers@) =~= fixed + time_header(
        "x-obp-first-chunk-ms"@,
        first_chunk_ms,
    ));
    let ghost some = protocol::pair_views(headers@);
    if let Some(ms) = first_text_ms {
        headers.push(("x-obp-first-text-ms".to_owned(), numeral::to_decimal(ms as u128)));
    }
    assert(protocol::pair_views(headers@) =~= some + time_header(
        "x-obp-first-text-ms"@,
        first_text_ms,
    ));
    assert(protocol::pair_views(headers@) =~= route_pairs(
        attempt@,
        decision@,
        source@,
        request_id@,
        first_chunk_ms,
        first_text_ms,
    ));
    headers
}

/// What is sent to an upstream endpoint.
pub struct UpstreamRequest {
    pub url: String,
    pub body: Vec<u8>,
    /// The headers by which the channel knows its key.
    pub auth: Vec<(String, String)>,
}

/// What is sent to the channel of `attempt` for the body `body` of a client that
/// speaks `client`.
pub fn upstream_request(attempt: &Attempt, client: ApiProtocol, upstream: ApiProtocol, body: &[u8])
    -> (r: UpstreamRequest)
    ensures
        r.url@ == protocol::endpoint_address(
            attempt@.channel.base,
            match upstream {
                ApiProtocol::OpenAI => "chat/completions"@,
                ApiProtocol::Anthropic => "messages"@,
            },
        ),
        r.body@ == convert::upstream_body(body@, attempt@.actual_model, client, upstream),
        protocol::pair_views(r.auth@) == protocol::auth_pairs(upstream, attempt@.channel),
{
    UpstreamRequest {
        url: upstream.target_url(attempt.channel.base.as_str()),
        body: convert::rewrite_body_for_upstream(
            body,
            attempt.actual_model.as_str(),
            client,
            upstream,
        ),
        auth: upstream.auth_headers(&attempt.channel),
    }
}

/// What is said of a channel where it is looked up among those to use one
/// request at a time.
pub open spec fn serial_text(channel: ChannelView) -> Seq<char> {
    text::lowercase(
        channel.name + " "@ + channel.group + " "@ + channel.base + " "@ + channel.models,
    )
}

/// The channel is to serve one request at a time: one of the items of
/// `configured`, between its commas, is a star or stands in what is said of the
/// channel.
pub open spec fn serial_channel(channel: ChannelView, configured: Seq<char>) -> bool {
    let items = text::pieces(configured, ',');
    exists|i: int|
        0 <= i < items.len() && serial_item(serial_text(channel), #[trigger] items[i])
}

/// The item of a list of channels is a star or stands in `hay`.
pub open spec fn serial_item(hay: Seq<char>, item: Seq<char>) -> bool {
    let needle = text::lowercase(text::trimmed(item));
    needle.len() > 0 && (needle == "*"@ || text::contains_text(hay, needle))
}

/// Is the channel to serve one request at a time?
pub fn requires_serial_channel(channel: &Channel, configured: &str) -> (r: bool)
    ensures
        r == serial_channel(channel@, configured@),
{
    let mut said: String = text::concat3(channel.name.as_str(), " ", channel.group.as_str());
    said.append(" ");
    said.append(channel.base.as_str());
    said.append(" ");
    said.append(channel.models.as_str());
    let hay: String = text::to_lowercase(said.as_str());
    let items: Vec<String> = text::split(configured, ',');
    let ghost all = text::texts(items@);
    let mut i: usize = 0;
    while i < items.len()
        invariant
            i <= items@.len(),
            all == text::texts(items@),
            all == text::pieces(configured@, ','),
            hay@ == serial_text(channel@),
            forall|j: int| 0 <= j < i ==> !serial_item(hay@, #[trigger] all[j]),
        decreases items@.len() - i,
    {
        assert(all[i as int] == items@[i as int]@);
        let needle: String = text::to_lowercase(text::trim(items[i].as_str()));
        if !needle.as_str().is_empty() && (text::same_text(needle.as_str(), "*") || text::contains(
            hay.as_str(),
            needle.as_str(),
        )) {
            assert(serial_item(hay@, all[i as int]));
            return true;
        }
        i += 1;
    }
    false
}

/// The name of the lock of a channel that serves one request at a time.
pub open spec fn serial_key(channel: ChannelView) -> Seq<char> {
    match channel.id {
        Some(id) => "channel:"@ + numeral::decimal(id as int),
        None => text::trimmed(channel.name) + "|"@ + text::trimmed(channel.base),
    }
}

/// The name of the lock of a channel that serves one request at a time.
pub fn serial_channel_key(channel: &Channel) -> (r: String)
    ensures
        r@ == serial_key(channel@),
{
    match channel.id {
        Some(id) => text::concat2("channel:", numeral::to_decimal(id as u128).as_str()),
        None => text::concat3(
            text::trim(channel.name.as_str()),
            "|",
            text::trim(channel.base.as_str()),
        ),
    }
}

/// How long to wait for a channel that serves one request at a time, in
/// milliseconds.
pub fn serial_wait_timeout(configured: Option<&str>) -> (r: u64)
    ensures
        r == stream::wait_ms(text::maybe_str(configured), 45_000),
{
    stream::configured_ms(configured, 45_000)
}

/// What is said where the lock `key` has been closed.
pub fn serial_lock_closed(key: &str) -> (r: String)
    ensures
        r@ == "serial lock closed for "@ + key@,
{
    text::concat2("serial lock closed for ", key)
}

/// What is said where the lock `key` could not be had in `wait_ms` milliseconds.
pub fn serial_channel_busy(wait_ms: u64, key: &str) -> (r: String)
    ensures
        r@ == "serial channel busy after "@ + numeral::decimal(wait_ms as int) + "ms: "@ + key@,
{
    let mut out: String = text::concat2(
        "serial channel busy after ",
        numeral::to_decimal(wait_ms as u128).as_str(),
    );
    out.append("ms: ");
    out.append(key);
    out
}

/// `reason` with what is to be said of the wait for a channel that serves one
/// request at a time.
pub open spec fn waited_reason(reason: Seq<char>, waited_ms: Option<u64>) -> Seq<char> {
    match waited_ms {
        Some(ms) => if ms > 0 {
            reason + "; waited "@ + numeral::decimal(ms as int) + "ms for serial channel"@
        } else {
            reason + "; serial channel"@
        },
        None => reason,
    }
}

/// `reason` with what is to be said of the wait for a channel that serves one
/// request at a time.
pub fn append_serial_wait(reason: &str, waited_ms: Option<u64>) -> (r: String)
    ensures
        r@ == waited_reason(reason@, waited_ms),
{
    match waited_ms {
        Some(ms) => if ms > 0 {
            let mut out: String = text::concat2(reason, "; waited ");
            out.append(numeral::to_decimal(ms as u128).as_str());
            out.append("ms for serial channel");
            out
        } else {
            text::concat2(reason, "; serial channel")
        },
        None => reason.to_owned(),
    }
}

/// A request is refused before anything is sent upstream where the gateway is
/// closed to clients or the model is not allowed, whatever else is configured.
pub proof fn law_refused_requests_are_not_routed(
    router: RouterConfigView,
    channels: Seq<ChannelView>,
    cost: u128,
    tree: Option<JsonTree>,
    request: ProxyRequestView,
    client: ApiProtocol,
    index: usize,
    now: int,
)
    requires
        !router.external_enabled || !routing::model_allowed(
            router.external_allowed_models,
            request.requested_model,
        ),
    ensures
        ({
            let (plan, after) = planned(router, channels, cost, tree, request, client, index, now);
            plan is Err && plan->Err_0.status == 403 && plan->Err_0.json && after == index
        }),
{
}

/// A plan has at least one attempt.
pub proof fn law_plans_have_attempts(
    router: RouterConfigView,
    channels: Seq<ChannelView>,
    cost: u128,
    tree: Option<JsonTree>,
    request: ProxyRequestView,
    client: ApiProtocol,
    index: usize,
    now: int,
)
    ensures
        planned(router, channels, cost, tree, request, client, index, now).0 matches Ok(plan)
            ==> plan.attempts.len() > 0,
{
}

/// The keys of the client never go on to an upstream endpoint, and of what it
/// tells the gateway only the name of the request does.
pub proof fn law_private_headers_stay(name: Seq<char>)
    ensures
        channel::same_word(name, "authorization"@) ==> !forwarded(name),
        channel::same_word(name, "x-api-key"@) ==> !forwarded(name),
        text::begins_with(text::ascii_lowered(name), "x-obp-"@) && !channel::same_word(
            name,
            "x-obp-request-id"@,
        ) ==> !forwarded(name),
        channel::same_word(name, "x-obp-request-id"@) ==> forwarded(name),
{
    reveal_strlit("x-obp-request-id");
    reveal_strlit("host");
    reveal_strlit("authorization");
    reveal_strlit("content-length");
    reveal_strlit("x-api-key");
    if channel::same_word(name, "x-obp-request-id"@) {
        assert(text::ascii_lowered(name).len() == 16);
        assert(text::ascii_lowered("host"@).len() == 4);
        assert(text::ascii_lowered("authorization"@).len() == 13);
        assert(text::ascii_lowered("content-length"@).len() == 14);
        assert(text::ascii_lowered("x-api-key"@).len() == 9);
    }
}

/// Channels that have ids share a lock just where they have the same id.
pub proof fn law_serial_locks(a: ChannelView, b: ChannelView)
    requires
        a.id is Some,
        b.id is Some,
    ensures
        serial_key(a) == serial_key(b) <==> a.id == b.id,
{
    let prefix = "channel:"@;
    let left = numeral::decimal(a.id->0 as int);
    let right = numeral::decimal(b.id->0 as int);
    if serial_key(a) == serial_key(b) {
        assert(left =~= (prefix + left).skip(prefix.len() as int));
        assert(right =~= (prefix + right).skip(prefix.len() as int));
        numeral::law_numerals_differ(a.id->0 as int, b.id->0 as int, 10);
    }
}

/// What is known of a request: the model and the wish for a stream are those of its body, the
/// model unknown and no stream where the body does not say.
pub proof fn law_described(
    headers: Seq<HeaderView>,
    request: JsonTree,
    nanos: u128,
    model: Seq<char>,
    flag: bool,
)
    ensures
        ({
            let known = described(headers, Some(request), nanos);
            let nothing = described(headers, None, nanos);
            &&& request.get("model"@) == Some(JsonTree::Text(model)) ==> known.requested_model
                == model
            &&& !(request.get("model"@) matches Some(JsonTree::Text(_))) ==> known.requested_model
                == "unknown"@
            &&& request.get("stream"@) == Some(JsonTree::Bool(flag)) ==> known.stream == flag
            &&& !(request.get("stream"@) matches Some(JsonTree::Bool(_))) ==> !known.stream
            &&& nothing.requested_model == "unknown"@ && !nothing.stream
            &&& known.source == hints::source_of(headers, Some(request))
            &&& known.request_id == hints::name_of(headers, Some(request), nanos)
            &&& known.hints == hints::hints_of(headers, Some(request))
        }),
{
}

/// An error of the router is an object with the error, which has the message and the type.
pub proof fn law_error_tree(message: Seq<char>)
    ensures
        ({
            let error = error_tree(message).get("error"@);
            &&& error is Some
            &&& error->0.get("message"@) == Some(JsonTree::Text(message))
            &&& error->0.get("type"@) == Some(JsonTree::Text("obp_router_error"@))
        }),
{
    reveal_strlit("message");
    reveal_strlit("type");
    assert("message"@.len() == 7);
    assert("type"@.len() == 4);
    let outer = error_tree(message)->Object_0;
    json::lemma_place_of(outer, "error"@, 0);
    let inner = outer[0].1->Object_0;
    json::lemma_place_of(inner, "message"@, 0);
    json::lemma_place_of(inner, "type"@, 1);
}

/// A request is refused where the gateway is closed to clients, where its model is not
/// allowed, and where there are no channels, and for the first of these that holds; it is not
/// refused where none does.
pub proof fn law_refusals(
    router: RouterConfigView,
    channels: Seq<ChannelView>,
    requested: Seq<char>,
)
    ensures
        ({
            let out = refused(router, channels, requested);
            let allowed = routing::model_allowed(router.external_allowed_models, requested);
            &&& !router.external_enabled ==> out == Some(
                (RefusalView {
                    status: 403,
                    json: true,
                    body: json::json_text(
                        json::sorted_tree(error_tree("external_access_disabled"@)),
                    ),
                }),
            )
            &&& router.external_enabled && !allowed ==> out == Some(
                (RefusalView {
                    status: 403,
                    json: true,
                    body: json::json_text(
                        json::sorted_tree(error_tree("model_not_allowed: "@ + requested)),
                    ),
                }),
            )
            &&& router.external_enabled && allowed && channels.len() == 0 ==> out == Some(
                (RefusalView { status: 404, json: false, body: "No channels available"@ }),
            )
            &&& router.external_enabled && allowed && channels.len() > 0 ==> out is None
        }),
{
}

/// A plan tries nothing but configured channels that are in use, and is for the model that
/// was asked for.
pub proof fn law_plans(
    router: RouterConfigView,
    channels: Seq<ChannelView>,
    cost: u128,
    tree: Option<JsonTree>,
    request: ProxyRequestView,
    client: ApiProtocol,
    index: usize,
    now: int,
    i: int,
)
    ensures
        planned(router, channels, cost, tree, request, client, index, now).0 matches Ok(plan) ==> {
            &&& text::trimmed(plan.decision.requested_model) == text::trimmed(
                request.requested_model,
            )
            &&& 0 <= i < plan.attempts.len() ==> channels.contains(plan.attempts[i].channel)
                && plan.attempts[i].channel.active_at(now)
            &&& plan.retry_statuses == router.normalized().effective_for(
                request.source,
            ).retry_statuses
        },
        planned(router, channels, cost, tree, request, client, index, now).0 matches Err(refusal)
            ==> refusal.status == 403 || refusal.status == 404,
{
    let full = router.normalized();
    let effective = full.effective_for(request.source);
    let decision = routing::route(effective, cost, tree, request.requested_model, request.hints);
    routing::law_requested_model_is_kept(
        effective,
        cost,
        tree,
        request.requested_model,
        request.hints,
    );
    attempts::law_attempts_are_able(channels, effective, decision, client, index, now);
}

/// A gateway that is open, allows the model and has channels, but none that can be tried,
/// answers that there are no active ones.
pub proof fn law_nothing_to_try(
    router: RouterConfigView,
    channels: Seq<ChannelView>,
    cost: u128,
    tree: Option<JsonTree>,
    request: ProxyRequestView,
    client: ApiProtocol,
    index: usize,
    now: int,
)
    requires
        refused(router.normalized(), channels, request.requested_model) is None,
        forall|i: int| 0 <= i < channels.len() ==> !(#[trigger] channels[i]).active_at(now),
    ensures
        planned(router, channels, cost, tree, request, client, index, now).0 == Err::<
            RoutePlanView,
            RefusalView,
        >((RefusalView { status: 404, json: false, body: "No active channels available"@ })),
{
    let effective = router.normalized().effective_for(request.source);
    let decision = routing::route(effective, cost, tree, request.requested_model, request.hints);
    attempts::law_attempts_are_able(channels, effective, decision, client, index, now);
    let tried = attempts::attempts_for(channels, effective, decision, client, index, now).0;
    if tried.len() > 0 {
        assert(channels.contains(tried[0].channel));
        let k = choose|k: int| 0 <= k < channels.len() && channels[k] == tried[0].channel;
        assert(!channels[k].active_at(now));
    }
}

/// What the month has cost so far, in the month of the time, decides on the limit: a plan past
/// the hard limit is for the backup models.
pub proof fn law_month_decides(
    router: RouterConfigView,
    channels: Seq<ChannelView>,
    ledger: stats::UsageStatsView,
    tree: Option<JsonTree>,
    request: ProxyRequestView,
    client: ApiProtocol,
    index: usize,
    ts: i64,
    now: u64,
)
    ensures
        ({
            let effective = router.normalized().effective_for(request.source);
            let cost = stats::bucket_at(
                ledger.by_month,
                clock::shanghai_month_text(ts as int),
            ).cost_nano_cny;
            let free = routing::is_free_task(
                request.hints,
                routing::latest_of(tree),
                routing::task_of(tree),
            );
            let past = effective.enabled && !effective.dry_run && !free && 0
                < effective.monthly_hard_limit_nano_cny <= cost;
            planned_at(router, channels, ledger, tree, request, client, index, ts, now).0 matches Ok(
                plan,
            ) ==> past ==> routing::goes_to_backup(effective, plan.decision)
        }),
{
    let effective = router.normalized().effective_for(request.source);
    let cost = stats::bucket_at(
        ledger.by_month,
        clock::shanghai_month_text(ts as int),
    ).cost_nano_cny;
    if effective.enabled && !effective.dry_run {
        routing::law_where_requests_go(
            effective,
            cost,
            tree,
            request.requested_model,
            request.hints,
        );
    }
}

/// Every header of the client goes on but five kinds, whatever their case: those of the host,
/// of the length and of keys, and those of the gateway other than the name of the request.
pub proof fn law_forwarded(name: Seq<char>)
    ensures
        ({
            let lower = text::ascii_lowered(name);
            forwarded(name) <==> lower != "host"@ && lower != "authorization"@ && lower
                != "content-length"@ && lower != "x-api-key"@ && (lower == "x-obp-request-id"@
                || !text::begins_with(lower, "x-obp-"@))
        }),
{
    reveal_strlit("host");
    assert(text::ascii_lowered("host"@) =~= "host"@);
    reveal_strlit("authorization");
    assert(text::ascii_lowered("authorization"@) =~= "authorization"@);
    reveal_strlit("content-length");
    assert(text::ascii_lowered("content-length"@) =~= "content-length"@);
    reveal_strlit("x-api-key");
    assert(text::ascii_lowered("x-api-key"@) =~= "x-api-key"@);
    reveal_strlit("x-obp-request-id");
    assert(text::ascii_lowered("x-obp-request-id"@) =~= "x-obp-request-id"@);
}

/// The headers of an answer tell the route, the group, both models, the channel, the reason,
/// the source and the name of the request, and the times where they are known.
pub proof fn law_route_pairs(
    attempt: AttemptView,
    decision: RouteDecisionView,
    source: Seq<char>,
    request_id: Seq<char>,
    first_chunk_ms: Option<u64>,
    first_text_ms: Option<u64>,
)
    ensures
        ({
            let pairs = route_pairs(
                attempt,
                decision,
                source,
                request_id,
                first_chunk_ms,
                first_text_ms,
            );
            &&& pairs.contains(("x-obp-route"@, attempt.role))
            &&& pairs.contains(("x-obp-group"@, attempt.group))
            &&& pairs.contains(("x-obp-requested-model"@, decision.requested_model))
            &&& pairs.contains(("x-obp-actual-model"@, attempt.actual_model))
            &&& pairs.contains(("x-obp-channel"@, attempt.channel.name))
            &&& pairs.contains(("x-obp-reason"@, attempt.reason))
            &&& pairs.contains(("x-obp-source"@, source))
            &&& pairs.contains(("x-obp-request-id"@, request_id))
            &&& first_chunk_ms matches Some(ms) ==> pairs.contains(
                ("x-obp-first-chunk-ms"@, numeral::decimal(ms as int)),
            )
            &&& first_text_ms matches Some(ms) ==> pairs.contains(
                ("x-obp-first-text-ms"@, numeral::decimal(ms as int)),
            )
            &&& pairs.len() == 8 + (if first_chunk_ms is Some {
                1int
            } else {
                0
            }) + (if first_text_ms is Some {
                1int
            } else {
                0
            })
        }),
{
    let pairs = route_pairs(attempt, decision, source, request_id, first_chunk_ms, first_text_ms);
    assert(pairs[0] == ("x-obp-route"@, attempt.role));
    assert(pairs[1] == ("x-obp-group"@, attempt.group));
    assert(pairs[2] == ("x-obp-requested-model"@, decision.requested_model));
    assert(pairs[3] == ("x-obp-actual-model"@, attempt.actual_model));
    assert(pairs[4] == ("x-obp-channel"@, attempt.channel.name));
    assert(pairs[5] == ("x-obp-reason"@, attempt.reason));
    assert(pairs[6] == ("x-obp-source"@, source));
    assert(pairs[7] == ("x-obp-request-id"@, request_id));
    if first_chunk_ms is Some {
        assert(pairs[8] == ("x-obp-first-chunk-ms"@, numeral::decimal(first_chunk_ms->0 as int)));
    }
    if first_text_ms is Some {
        assert(pairs[pairs.len() - 1] == (
            "x-obp-first-text-ms"@,
            numeral::decimal(first_text_ms->0 as int),
        ));
    }
}

/// A channel serves one request at a time where one of the items of the list is a star, or
/// stands in its name, its group, its base or its models, whatever the case.
pub proof fn law_serial_channel(channel: ChannelView, configured: Seq<char>)
    ensures
        ({
            let items = text::pieces(configured, ',');
            let said = text::lowercase(
                channel.name + " "@ + channel.group + " "@ + channel.base + " "@ + channel.models,
            );
            serial_channel(channel, configured) <==> exists|i: int|
                0 <= i < items.len() && text::lowercase(text::trimmed(#[trigger] items[i])).len()
                    > 0 && (text::lowercase(text::trimmed(items[i])) == "*"@ || text::contains_text(
                    said,
                    text::lowercase(text::trimmed(items[i])),
                ))
        }),
{
    let items = text::pieces(configured, ',');
    let said = serial_text(channel);
    if serial_channel(channel, configured) {
        let i = choose|i: int| 0 <= i < items.len() && serial_item(said, #[trigger] items[i]);
        assert(text::lowercase(text::trimmed(items[i])).len() > 0);
    }
    if exists|i: int|
        0 <= i < items.len() && text::lowercase(text::trimmed(#[trigger] items[i])).len() > 0 && (
        text::lowercase(text::trimmed(items[i])) == "*"@ || text::contains_text(
            said,
            text::lowercase(text::trimmed(items[i])),
        )) {
        let i = choose|i: int|
            0 <= i < items.len() && text::lowercase(text::trimmed(#[trigger] items[i])).len() > 0
                && (text::lowercase(text::trimmed(items[i])) == "*"@ || text::contains_text(
                said,
                text::lowercase(text::trimmed(items[i])),
            ));
        assert(serial_item(said, items[i]));
    }
}

/// Channels with different ids have different locks; one without an id is known by its name
/// and its base.
pub proof fn law_serial_key(a: ChannelView, b: ChannelView)
    ensures
        a.id is Some && b.id is Some ==> (serial_key(a) == serial_key(b) <==> a.id == b.id),
        a.id is None ==> serial_key(a) == text::trimmed(a.name) + "|"@ + text::trimmed(a.base),
        a.id matches Some(id) ==> text::begins_with(serial_key(a), "channel:"@),
{
    if a.id is Some {
        let left = numeral::decimal(a.id->0 as int);
        let head = "channel:"@;
        assert(serial_key(a).subrange(0, head.len() as int) =~= head);
        if b.id is Some {
            let right = numeral::decimal(b.id->0 as int);
            assert(serial_key(a).skip(head.len() as int) =~= left);
            assert(serial_key(b).skip(head.len() as int) =~= right);
            if left == right {
                numeral::law_numerals_differ(a.id->0 as int, b.id->0 as int, 10);
            }
        }
    }
}

/// The reason is told as it is where nothing was waited for, and with the wait behind it where
/// something was.
pub proof fn law_waited_reason(reason: Seq<char>, ms: u64)
    ensures
        waited_reason(reason, None) == reason,
        waited_reason(reason, Some(0)) == reason + "; serial channel"@,
        ms > 0 ==> waited_reason(reason, Some(ms)) == reason + "; waited "@ + numeral::decimal(
            ms as int,
        ) + "ms for serial channel"@,
{
}

/// A plan is made with the configuration of the source: it is decided by the request, its hints
/// and the cost of the month, and its attempts are those for that decision in the order for the
/// format of the client. The index goes on as the attempts leave it.
pub proof fn law_plan_by_source(
    router: RouterConfigView,
    channels: Seq<ChannelView>,
    cost: u128,
    tree: Option<JsonTree>,
    request: ProxyRequestView,
    client: ApiProtocol,
    index: usize,
    now: int,
)
    ensures
        ({
            let (plan, after) = planned(router, channels, cost, tree, request, client, index, now);
            let own = router.normalized().effective_for(request.source);
            let decision = routing::route(
                own,
                cost,
                tree,
                request.requested_model,
                request.hints,
            );
            let tried = attempts::attempts_for(channels, own, decision, client, index, now);
            let open = router.external_enabled && routing::model_allowed(
                router.external_allowed_models,
                request.requested_model,
            ) && channels.len() > 0;
            &&& plan is Ok <==> open && tried.0.len() > 0
            &&& plan is Ok ==> plan->Ok_0.decision == decision && plan->Ok_0.attempts == tried.0
            &&& open ==> after == tried.1
            &&& !open ==> after == index
        }),
{
}

} // verus!
