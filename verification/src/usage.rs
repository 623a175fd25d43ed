//! Token counts, prices, and the log of a request.
use crate::clock;
use crate::json;
use crate::json::{Json, JsonTree};
use crate::numeral;
use crate::ordered::OrderedMap;
use crate::text;
use vstd::prelude::*;
use vstd::string::*;

verus! {

/// The tokens that a request took.
#[derive(Clone, Copy)]
pub struct TokenUsage {
    pub prompt_tokens: u64,
    /// Those of the prompt that came out of a cache.
    pub cached_tokens: u64,
    pub completion_tokens: u64,
    pub total_tokens: u64,
}

/// No tokens.
pub open spec fn no_tokens() -> TokenUsage {
    TokenUsage { prompt_tokens: 0, cached_tokens: 0, completion_tokens: 0, total_tokens: 0 }
}

impl Default for TokenUsage {
    fn default() -> (r: Self)
        ensures
            r == no_tokens(),
    {
        TokenUsage { prompt_tokens: 0, cached_tokens: 0, completion_tokens: 0, total_tokens: 0 }
    }
}

/// Where a response gives the size of the prompt.
pub open spec fn prompt_paths() -> Seq<Seq<Seq<char>>> {
    seq![seq!["prompt_tokens"@], seq!["input_tokens"@], seq!["prompt_cache_hit_tokens"@]]
}

/// Where a response gives the part of the prompt that was in no cache.
pub open spec fn miss_paths() -> Seq<Seq<Seq<char>>> {
    seq![seq!["prompt_cache_miss_tokens"@]]
}

/// Where a response gives the part of the prompt that was in a cache.
pub open spec fn cached_paths() -> Seq<Seq<Seq<char>>> {
    seq![
        seq!["prompt_tokens_details"@, "cached_tokens"@],
        seq!["input_tokens_details"@, "cached_tokens"@],
        seq!["cached_tokens"@],
        seq!["cache_read_input_tokens"@],
        seq!["prompt_cache_hit_tokens"@],
    ]
}

/// Where a response gives the size of the answer.
pub open spec fn completion_paths() -> Seq<Seq<Seq<char>>> {
    seq![seq!["completion_tokens"@], seq!["output_tokens"@]]
}

/// Where a response gives the sum.
pub open spec fn total_paths() -> Seq<Seq<Seq<char>>> {
    seq![seq!["total_tokens"@]]
}

/// The tokens that the member `usage` of a response tells of. A prompt that is
/// not given is the sum of its cached and its other part; a cached part is never
/// larger than the prompt; a sum that is not given is that of prompt and answer.
pub open spec fn usage_in(response: JsonTree) -> TokenUsage {
    let usage = response.get("usage"@);
    let prompt = json::first_number(usage, prompt_paths());
    let miss = json::first_number(usage, miss_paths());
    let cached = json::first_number(usage, cached_paths());
    let completion = json::first_number(usage, completion_paths());
    let total = json::first_number(usage, total_paths());
    let prompt_tokens = if prompt == 0 {
        cached.saturating_add(miss)
    } else {
        prompt
    };
    TokenUsage {
        prompt_tokens,
        cached_tokens: if cached < prompt_tokens {
            cached
        } else {
            prompt_tokens
        },
        completion_tokens: completion,
        total_tokens: if total == 0 {
            prompt_tokens.saturating_add(completion)
        } else {
            total
        },
    }
}

impl TokenUsage {
    /// The tokens that a response tells of; none where it is not JSON.
    pub fn from_response_bytes(bytes: &[u8]) -> (r: Self)
        ensures
            r == (match json::parsed_bytes(bytes@) {
                Some(response) => usage_in(response),
                None => no_tokens(),
            }),
    {
        match Json::parse(bytes) {
            Some(response) => Self::from_response(&response),
            None => TokenUsage::default(),
        }
    }

    /// The tokens that a response tells of.
    pub fn from_response(response: &Json) -> (r: Self)
        ensures
            r == usage_in(response.tree()),
    {
        let usage: Option<&Json> = response.get("usage");
        let paths: Vec<Vec<&str>> = vec![
            vec!["prompt_tokens"],
            vec!["input_tokens"],
            vec!["prompt_cache_hit_tokens"],
        ];
        assert(json::path_names(paths@) =~~= prompt_paths());
        let prompt: u64 = json::first_u64(usage, &paths);
        let paths: Vec<Vec<&str>> = vec![vec!["prompt_cache_miss_tokens"]];
        assert(json::path_names(paths@) =~~= miss_paths());
        let miss: u64 = json::first_u64(usage, &paths);
        let paths: Vec<Vec<&str>> = vec![
            vec!["prompt_tokens_details", "cached_tokens"],
            vec!["input_tokens_details", "cached_tokens"],
            vec!["cached_tokens"],
            vec!["cache_read_input_tokens"],
            vec!["prompt_cache_hit_tokens"],
        ];
        assert(json::path_names(paths@) =~~= cached_paths());
        let cached: u64 = json::first_u64(usage, &paths);
        let paths: Vec<Vec<&str>> = vec![vec!["completion_tokens"], vec!["output_tokens"]];
        assert(json::path_names(paths@) =~~= completion_paths());
        let completion: u64 = json::first_u64(usage, &paths);
        let paths: Vec<Vec<&str>> = vec![vec!["total_tokens"]];
        assert(json::path_names(paths@) =~~= total_paths());
        let total: u64 = json::first_u64(usage, &paths);
        let prompt_tokens: u64 = if prompt == 0 && (cached > 0 || miss > 0) {
            cached.saturating_add(miss)
        } else {
            prompt
        };
        TokenUsage {
            prompt_tokens,
            cached_tokens: if cached < prompt_tokens {
                cached
            } else {
                prompt_tokens
            },
            completion_tokens: completion,
            total_tokens: if total == 0 {
                prompt_tokens.saturating_add(completion)
            } else {
                total
            },
        }
    }

    /// The tokens of the prompt that came out of no cache.
    pub fn uncached_prompt_tokens(&self) -> (r: u64)
        ensures
            r == self.uncached(),
    {
        self.prompt_tokens.saturating_sub(self.cached_tokens)
    }

    /// The tokens of the prompt that came out of no cache.
    pub open spec fn uncached(&self) -> u64 {
        if self.cached_tokens <= self.prompt_tokens {
            (self.prompt_tokens - self.cached_tokens) as u64
        } else {
            0
        }
    }
}

/// A response never counts more cached tokens than the prompt has, and the two
/// parts of the prompt make up the prompt.
pub proof fn law_cached_within_prompt(response: JsonTree)
    ensures
        usage_in(response).cached_tokens <= usage_in(response).prompt_tokens,
        usage_in(response).cached_tokens + usage_in(response).uncached() == usage_in(
            response,
        ).prompt_tokens,
{
}

/// What one token costs, in billionths of a yuan.
#[derive(Clone, Copy)]
pub struct ModelPrice {
    pub cached_input: u64,
    pub input: u64,
    pub output: u64,
}

impl ModelPrice {
    /// Does any kind of token cost something?
    pub fn is_paid(&self) -> (r: bool)
        ensures
            r == self.costs(),
    {
        self.cached_input > 0 || self.input > 0 || self.output > 0
    }

    /// Some kind of token costs something.
    pub open spec fn costs(&self) -> bool {
        self.cached_input > 0 || self.input > 0 || self.output > 0
    }
}

/// The price of the smaller DeepSeek model.
pub open spec fn flash_price() -> ModelPrice {
    ModelPrice { cached_input: 20, input: 1_000, output: 2_000 }
}

/// The price of the larger DeepSeek model.
pub open spec fn pro_price() -> ModelPrice {
    ModelPrice { cached_input: 25, input: 3_000, output: 6_000 }
}

/// The price of the larger DeepSeek model without the discount.
pub open spec fn full_pro_price() -> ModelPrice {
    ModelPrice { cached_input: 100, input: 12_000, output: 24_000 }
}

/// The price of what is free.
pub open spec fn no_price() -> ModelPrice {
    ModelPrice { cached_input: 0, input: 0, output: 0 }
}

/// The price of `model`, known by its name.
pub open spec fn price_of(model: Seq<char>) -> ModelPrice {
    let key = text::lowercase(model);
    if text::contains_text(key, "deepseek"@) && text::contains_text(key, "pro"@) {
        pro_price()
    } else if text::contains_text(key, "deepseek"@) || text::contains_text(key, "v4-flash"@) {
        flash_price()
    } else {
        no_price()
    }
}

/// The price of `model`, known by its name.
pub fn price_for_model(model: &str) -> (r: ModelPrice)
    ensures
        r == price_of(model@),
{
    let key: String = text::to_lowercase(model);
    let deepseek: bool = text::contains(key.as_str(), "deepseek");
    if deepseek && text::contains(key.as_str(), "pro") {
        return ModelPrice { cached_input: 25, input: 3_000, output: 6_000 };
    }
    if deepseek || text::contains(key.as_str(), "v4-flash") {
        return ModelPrice { cached_input: 20, input: 1_000, output: 2_000 };
    }
    ModelPrice { cached_input: 0, input: 0, output: 0 }
}

/// The prices that are published.
pub open spec fn published_prices() -> Map<Seq<char>, ModelPrice> {
    Map::<Seq<char>, ModelPrice>::empty().insert("deepseek-v4-flash"@, flash_price()).insert(
        "deepseek-v4-pro-discount"@,
        pro_price(),
    ).insert("deepseek-v4-pro-full"@, full_pro_price())
}

/// The prices that are published.
pub fn pricing_snapshot() -> (r: OrderedMap<ModelPrice>)
    ensures
        r.wf(),
        r@ == published_prices(),
{
    let mut data: OrderedMap<ModelPrice> = OrderedMap::new();
    data.insert(
        "deepseek-v4-flash".to_owned(),
        ModelPrice { cached_input: 20, input: 1_000, output: 2_000 },
    );
    data.insert(
        "deepseek-v4-pro-discount".to_owned(),
        ModelPrice { cached_input: 25, input: 3_000, output: 6_000 },
    );
    data.insert(
        "deepseek-v4-pro-full".to_owned(),
        ModelPrice { cached_input: 100, input: 12_000, output: 24_000 },
    );
    data
}

/// What `usage` costs with `model`, in billionths of a yuan.
pub open spec fn cost_of(model: Seq<char>, usage: TokenUsage) -> int {
    let price = price_of(model);
    usage.cached_tokens * price.cached_input + usage.uncached() * price.input
        + usage.completion_tokens * price.output
}

proof fn lemma_charge(tokens: u64, price: u64)
    requires
        price <= 24_000,
    ensures
        0 <= tokens * price <= u64::MAX * 24_000,
{
    assert(0 <= tokens * price <= u64::MAX * 24_000) by (nonlinear_arith)
        requires
            price <= 24_000,
            tokens <= u64::MAX,
    ;
}

/// What `usage` costs with `model`, in billionths of a yuan.
pub fn estimate_cost_cny(model: &str, usage: TokenUsage) -> (r: u128)
    ensures
        r == cost_of(model@, usage),
{
    let price: ModelPrice = price_for_model(model);
    let uncached: u64 = usage.uncached_prompt_tokens();
    proof {
        lemma_charge(usage.cached_tokens, price.cached_input);
        lemma_charge(uncached, price.input);
        lemma_charge(usage.completion_tokens, price.output);
    }
    usage.cached_tokens as u128 * price.cached_input as u128 + uncached as u128
        * price.input as u128 + usage.completion_tokens as u128 * price.output as u128
}

/// A model without a price costs nothing, whatever it is used for.
pub proof fn law_free_models_cost_nothing(model: Seq<char>, usage: TokenUsage)
    requires
        !price_of(model).costs(),
    ensures
        cost_of(model, usage) == 0,
{
}

/// The use of `model` is paid for: it has cost more than a ten-millionth of a
/// yuan, or the model has a price.
pub open spec fn paid_use(model: Seq<char>, cost: u128) -> bool {
    cost > 100 || price_of(model).costs()
}

/// Is the use of `model`, which has cost `cost_nano_cny`, paid for?
pub fn is_paid_usage(model: &str, cost_nano_cny: u128) -> (r: bool)
    ensures
        r == paid_use(model@, cost_nano_cny),
{
    cost_nano_cny > 100 || price_for_model(model).is_paid()
}

/// `value` without white space around it, or `fallback` where nothing is left.
pub open spec fn key_or(value: Seq<char>, fallback: Seq<char>) -> Seq<char> {
    if text::blank(value) {
        fallback
    } else {
        text::trimmed(value)
    }
}

/// `value` without white space around it, or `fallback` where nothing is left.
pub fn normalize_key(value: &str, fallback: &str) -> (r: String)
    ensures
        r@ == key_or(value@, fallback@),
{
    let trimmed: &str = text::trim(value);
    if trimmed.is_empty() {
        fallback.to_owned()
    } else {
        trimmed.to_owned()
    }
}

/// The log of one request.
pub struct RequestLog {
    pub ts: i64,
    pub day: String,
    pub month: String,
    pub time: String,
    pub request_id: String,
    pub source: String,
    pub channel: String,
    pub channel_id: Option<u64>,
    pub requested_model: String,
    pub model: String,
    pub route: String,
    pub route_reason: String,
    pub status: u16,
    pub latency_ms: u64,
    pub latency: String,
    pub first_chunk_ms: Option<u64>,
    pub first_text_ms: Option<u64>,
    pub prompt_tokens: u64,
    pub cached_tokens: u64,
    pub uncached_prompt_tokens: u64,
    pub completion_tokens: u64,
    pub total_tokens: u64,
    pub cost_nano_cny: u128,
}

/// What a log holds.
#[verifier::ext_equal]
pub struct RequestLogView {
    pub ts: i64,
    pub day: Seq<char>,
    pub month: Seq<char>,
    pub time: Seq<char>,
    pub request_id: Seq<char>,
    pub source: Seq<char>,
    pub channel: Seq<char>,
    pub channel_id: Option<u64>,
    pub requested_model: Seq<char>,
    pub model: Seq<char>,
    pub route: Seq<char>,
    pub route_reason: Seq<char>,
    pub status: u16,
    pub latency_ms: u64,
    pub latency: Seq<char>,
    pub first_chunk_ms: Option<u64>,
    pub first_text_ms: Option<u64>,
    pub prompt_tokens: u64,
    pub cached_tokens: u64,
    pub uncached_prompt_tokens: u64,
    pub completion_tokens: u64,
    pub total_tokens: u64,
    pub cost_nano_cny: u128,
}

impl View for RequestLog {
    type V = RequestLogView;

    open spec fn view(&self) -> RequestLogView {
        RequestLogView {
            ts: self.ts,
            day: self.day@,
            month: self.month@,
            time: self.time@,
            request_id: self.request_id@,
            source: self.source@,
            channel: self.channel@,
            channel_id: self.channel_id,
            requested_model: self.requested_model@,
            model: self.model@,
            route: self.route@,
            route_reason: self.route_reason@,
            status: self.status,
            latency_ms: self.latency_ms,
            latency: self.latency@,
            first_chunk_ms: self.first_chunk_ms,
            first_text_ms: self.first_text_ms,
            prompt_tokens: self.prompt_tokens,
            cached_tokens: self.cached_tokens,
            uncached_prompt_tokens: self.uncached_prompt_tokens,
            completion_tokens: self.completion_tokens,
            total_tokens: self.total_tokens,
            cost_nano_cny: self.cost_nano_cny,
        }
    }
}

/// What each of `logs` holds.
pub open spec fn log_views(logs: Seq<RequestLog>) -> Seq<RequestLogView> {
    Seq::new(logs.len(), |i: int| logs[i]@)
}

impl Clone for RequestLog {
    fn clone(&self) -> (r: Self)
        ensures
            r == *self,
    {
        RequestLog {
            ts: self.ts,
            day: self.day.clone(),
            month: self.month.clone(),
            time: self.time.clone(),
            request_id: self.request_id.clone(),
            source: self.source.clone(),
            channel: self.channel.clone(),
            channel_id: self.channel_id,
            requested_model: self.requested_model.clone(),
            model: self.model.clone(),
            route: self.route.clone(),
            route_reason: self.route_reason.clone(),
            status: self.status,
            latency_ms: self.latency_ms,
            latency: self.latency.clone(),
            first_chunk_ms: self.first_chunk_ms,
            first_text_ms: self.first_text_ms,
            prompt_tokens: self.prompt_tokens,
            cached_tokens: self.cached_tokens,
            uncached_prompt_tokens: self.uncached_prompt_tokens,
            completion_tokens: self.completion_tokens,
            total_tokens: self.total_tokens,
            cost_nano_cny: self.cost_nano_cny,
        }
    }
}

/// What the log of a request holds that ended at the time `ts`.
pub open spec fn logged(
    ts: i64,
    request_id: Seq<char>,
    source: Seq<char>,
    channel_id: Option<u64>,
    channel: Seq<char>,
    requested_model: Seq<char>,
    actual_model: Seq<char>,
    route: Seq<char>,
    route_reason: Seq<char>,
    status: u16,
    latency_ms: u64,
    usage: TokenUsage,
    first_chunk_ms: Option<u64>,
    first_text_ms: Option<u64>,
) -> RequestLogView {
    RequestLogView {
        ts,
        day: clock::shanghai_day(ts as int),
        month: clock::shanghai_month_text(ts as int),
        time: clock::shanghai_time(ts as int),
        request_id: key_or(request_id, "unknown-request"@),
        source: key_or(source, "unknown-source"@),
        channel,
        channel_id,
        requested_model: key_or(requested_model, "unknown"@),
        model: key_or(actual_model, "unknown"@),
        route: key_or(route, "default"@),
        route_reason,
        status,
        latency_ms,
        latency: numeral::decimal(latency_ms as int) + "ms"@,
        first_chunk_ms,
        first_text_ms,
        prompt_tokens: usage.prompt_tokens,
        cached_tokens: usage.cached_tokens,
        uncached_prompt_tokens: usage.uncached(),
        completion_tokens: usage.completion_tokens,
        total_tokens: usage.total_tokens,
        cost_nano_cny: cost_of(actual_model, usage) as u128,
    }
}

impl RequestLog {
    /// The log of a request that ends now.
    pub fn new(
        request_id: String,
        source: String,
        channel_id: Option<u64>,
        channel: String,
        requested_model: String,
        actual_model: String,
        route: String,
        route_reason: String,
        status: u16,
        latency_ms: u64,
        usage: TokenUsage,
        first_chunk_ms: Option<u64>,
        first_text_ms: Option<u64>,
    ) -> (r: Self)
        ensures
            exists|ts: i64| 0 <= ts <= clock::LATEST_SECS && r@ == #[trigger] logged(
                ts,
                request_id@,
                source@,
                channel_id,
                channel@,
                requested_model@,
                actual_model@,
                route@,
                route_reason@,
                status,
                latency_ms,
                usage,
                first_chunk_ms,
                first_text_ms,
            ),
    {
        Self::new_at(
            clock::now_unix_secs(),
            request_id,
            source,
            channel_id,
            channel,
            requested_model,
            actual_model,
            route,
            route_reason,
            status,
            latency_ms,
            usage,
            first_chunk_ms,
            first_text_ms,
        )
    }

    /// The log of a request that ends at the time `ts`.
    pub fn new_at(
        ts: i64,
        request_id: String,
        source: String,
        channel_id: Option<u64>,
        channel: String,
        requested_model: String,
        actual_model: String,
        route: String,
        route_reason: String,
        status: u16,
        latency_ms: u64,
        usage: TokenUsage,
        first_chunk_ms: Option<u64>,
        first_text_ms: Option<u64>,
    ) -> (r: Self)
        requires
            ts <= clock::LATEST_SECS,
        ensures
            r@ == logged(
                ts,
                request_id@,
                source@,
                channel_id,
                channel@,
                requested_model@,
                actual_model@,
                route@,
                route_reason@,
                status,
                latency_ms,
                usage,
                first_chunk_ms,
                first_text_ms,
            ),
    {
        let (day, time): (String, String) = clock::shanghai_strings(ts);
        let cost_nano_cny: u128 = estimate_cost_cny(actual_model.as_str(), usage);
        RequestLog {
            ts,
            day,
            month: clock::shanghai_month(ts),
            time,
            request_id: normalize_key(request_id.as_str(), "unknown-request"),
            source: normalize_key(source.as_str(), "unknown-source"),
            channel,
            channel_id,
            requested_model: normalize_key(requested_model.as_str(), "unknown"),
            model: normalize_key(actual_model.as_str(), "unknown"),
            route: normalize_key(route.as_str(), "default"),
            route_reason,
            status,
            latency_ms,
            latency: text::concat2(numeral::to_decimal(latency_ms as u128).as_str(), "ms"),
            first_chunk_ms,
            first_text_ms,
            prompt_tokens: usage.prompt_tokens,
            cached_tokens: usage.cached_tokens,
            uncached_prompt_tokens: usage.uncached_prompt_tokens(),
            completion_tokens: usage.completion_tokens,
            total_tokens: usage.total_tokens,
            cost_nano_cny,
        }
    }
}

/// The whole number at the member `key` of what may be there.
pub open spec fn whole_at(tree: Option<JsonTree>, key: Seq<char>) -> Option<u64> {
    match json::member_of(tree, key) {
        Some(value) => value.as_u64(),
        None => None,
    }
}

proof fn lemma_one_step(tree: Option<JsonTree>, key: Seq<char>)
    ensures
        json::at_path(tree, seq![key]) == json::member_of(tree, key),
{
    assert(seq![key].skip(1) =~= Seq::<Seq<char>>::empty());
    reveal_with_fuel(json::at_path, 2);
}

proof fn lemma_two_steps(tree: Option<JsonTree>, outer: Seq<char>, key: Seq<char>)
    ensures
        json::at_path(tree, seq![outer, key]) == json::member_of(
            json::member_of(tree, outer),
            key,
        ),
{
    assert(seq![outer, key].skip(1) =~= seq![key]);
    assert(seq![key].skip(1) =~= Seq::<Seq<char>>::empty());
    reveal_with_fuel(json::at_path, 3);
}

proof fn lemma_cached_count(usage: Option<JsonTree>)
    ensures
        json::first_number(usage, cached_paths()) == (if whole_at(
            json::member_of(usage, "prompt_tokens_details"@),
            "cached_tokens"@,
        ) is Some {
            whole_at(json::member_of(usage, "prompt_tokens_details"@), "cached_tokens"@)->0
        } else if whole_at(
            json::member_of(usage, "input_tokens_details"@),
            "cached_tokens"@,
        ) is Some {
            whole_at(json::member_of(usage, "input_tokens_details"@), "cached_tokens"@)->0
        } else if whole_at(usage, "cached_tokens"@) is Some {
            whole_at(usage, "cached_tokens"@)->0
        } else if whole_at(usage, "cache_read_input_tokens"@) is Some {
            whole_at(usage, "cache_read_input_tokens"@)->0
        } else if whole_at(usage, "prompt_cache_hit_tokens"@) is Some {
            whole_at(usage, "prompt_cache_hit_tokens"@)->0
        } else {
            0
        }),
{
    lemma_two_steps(usage, "prompt_tokens_details"@, "cached_tokens"@);
    lemma_two_steps(usage, "input_tokens_details"@, "cached_tokens"@);
    lemma_one_step(usage, "cached_tokens"@);
    lemma_one_step(usage, "cache_read_input_tokens"@);
    lemma_one_step(usage, "prompt_cache_hit_tokens"@);
    let all = cached_paths();
    let rest4 = all.skip(1).skip(1).skip(1).skip(1);
    assert(all.skip(1)[0] == all[1] && all.skip(1).skip(1)[0] == all[2]);
    assert(all.skip(1).skip(1).skip(1)[0] == all[3] && rest4[0] == all[4]);
    assert(rest4.skip(1) =~= Seq::<Seq<Seq<char>>>::empty());
    reveal_with_fuel(json::first_number, 6);
}

proof fn lemma_other_counts(usage: Option<JsonTree>)
    ensures
        json::first_number(usage, prompt_paths()) == (if whole_at(
            usage,
            "prompt_tokens"@,
        ) is Some {
            whole_at(usage, "prompt_tokens"@)->0
        } else if whole_at(usage, "input_tokens"@) is Some {
            whole_at(usage, "input_tokens"@)->0
        } else if whole_at(usage, "prompt_cache_hit_tokens"@) is Some {
            whole_at(usage, "prompt_cache_hit_tokens"@)->0
        } else {
            0
        }),
        json::first_number(usage, completion_paths()) == (if whole_at(
            usage,
            "completion_tokens"@,
        ) is Some {
            whole_at(usage, "completion_tokens"@)->0
        } else if whole_at(usage, "output_tokens"@) is Some {
            whole_at(usage, "output_tokens"@)->0
        } else {
            0
        }),
        json::first_number(usage, miss_paths()) == (match whole_at(
            usage,
            "prompt_cache_miss_tokens"@,
        ) {
            Some(n) => n,
            None => 0,
        }),
        json::first_number(usage, total_paths()) == (match whole_at(usage, "total_tokens"@) {
            Some(n) => n,
            None => 0,
        }),
{
    lemma_one_step(usage, "prompt_tokens"@);
    lemma_one_step(usage, "input_tokens"@);
    lemma_one_step(usage, "prompt_cache_hit_tokens"@);
    lemma_one_step(usage, "completion_tokens"@);
    lemma_one_step(usage, "output_tokens"@);
    lemma_one_step(usage, "prompt_cache_miss_tokens"@);
    lemma_one_step(usage, "total_tokens"@);
    let none = Seq::<Seq<Seq<char>>>::empty();
    let prompts = prompt_paths();
    assert(prompts.skip(1)[0] == prompts[1] && prompts.skip(1).skip(1)[0] == prompts[2]);
    assert(prompts.skip(1).skip(1).skip(1) =~= none);
    let answers = completion_paths();
    assert(answers.skip(1)[0] == answers[1]);
    assert(answers.skip(1).skip(1) =~= none);
    assert(miss_paths().skip(1) =~= none);
    assert(total_paths().skip(1) =~= none);
    reveal_with_fuel(json::first_number, 4);
}

/// Whatever place a response gives the cached part of the prompt at, that part is
/// counted, as far as the prompt goes: in the details of the prompt or of the
/// input, beside them, as what was read of the cache or as what hit it. The first
/// place counts; nothing is cached where there is none.
pub proof fn law_cached_tokens(response: JsonTree, n: u64)
    ensures
        ({
            let usage = response.get("usage"@);
            let read = usage_in(response);
            let cached = if n < read.prompt_tokens {
                n
            } else {
                read.prompt_tokens
            };
            let prompt_details = whole_at(
                json::member_of(usage, "prompt_tokens_details"@),
                "cached_tokens"@,
            );
            let input_details = whole_at(
                json::member_of(usage, "input_tokens_details"@),
                "cached_tokens"@,
            );
            let beside = whole_at(usage, "cached_tokens"@);
            let from_cache = whole_at(usage, "cache_read_input_tokens"@);
            let hit = whole_at(usage, "prompt_cache_hit_tokens"@);
            &&& prompt_details == Some(n) ==> read.cached_tokens == cached
            &&& prompt_details is None && input_details == Some(n) ==> read.cached_tokens == cached
            &&& prompt_details is None && input_details is None && beside == Some(n)
                ==> read.cached_tokens == cached
            &&& prompt_details is None && input_details is None && beside is None && from_cache
                == Some(n) ==> read.cached_tokens == cached
            &&& prompt_details is None && input_details is None && beside is None
                && from_cache is None && hit == Some(n) ==> read.cached_tokens == cached
            &&& prompt_details is None && input_details is None && beside is None
                && from_cache is None && hit is None ==> read.cached_tokens == 0
        }),
{
    lemma_cached_count(response.get("usage"@));
    lemma_other_counts(response.get("usage"@));
}

/// The prompt of a response is what it says of it: as the prompt, as the input, or
/// as what hit the cache. Where it says nothing, it is what hit the cache and what
/// missed it. The answer is what it says of it, as completion or as output; and the
/// sum is that of both unless the response gives one.
pub proof fn law_prompt_and_answer_tokens(response: JsonTree, n: u64)
    ensures
        ({
            let usage = response.get("usage"@);
            let read = usage_in(response);
            let prompt = whole_at(usage, "prompt_tokens"@);
            let input = whole_at(usage, "input_tokens"@);
            let hit = whole_at(usage, "prompt_cache_hit_tokens"@);
            let miss = whole_at(usage, "prompt_cache_miss_tokens"@);
            let completion = whole_at(usage, "completion_tokens"@);
            let output = whole_at(usage, "output_tokens"@);
            let total = whole_at(usage, "total_tokens"@);
            &&& prompt == Some(n) && n > 0 ==> read.prompt_tokens == n
            &&& prompt is None && input == Some(n) && n > 0 ==> read.prompt_tokens == n
            &&& prompt is None && input is None && hit == Some(n) && n > 0 ==> read.prompt_tokens
                == n
            &&& prompt is None && input is None && hit is None && miss == Some(n)
                ==> read.prompt_tokens >= n
            &&& prompt == Some(0u64) && miss == Some(n) && whole_at(
                json::member_of(usage, "prompt_tokens_details"@),
                "cached_tokens"@,
            ) == Some(0u64) ==> read.prompt_tokens == n
            &&& completion == Some(n) ==> read.completion_tokens == n
            &&& completion is None && output == Some(n) ==> read.completion_tokens == n
            &&& completion is None && output is None ==> read.completion_tokens == 0
            &&& total == Some(n) && n > 0 ==> read.total_tokens == n
            &&& (total is None || total == Some(0u64)) && read.prompt_tokens
                + read.completion_tokens <= u64::MAX ==> read.total_tokens == read.prompt_tokens
                + read.completion_tokens
        }),
{
    lemma_cached_count(response.get("usage"@));
    lemma_other_counts(response.get("usage"@));
}

/// Where a response gives no prompt, the prompt is its cached part and what missed
/// the cache.
pub proof fn law_prompt_made_up(response: JsonTree, cached: u64, missed: u64)
    requires
        whole_at(response.get("usage"@), "prompt_tokens"@) is None,
        whole_at(response.get("usage"@), "input_tokens"@) is None,
        whole_at(response.get("usage"@), "prompt_cache_hit_tokens"@) is None,
        whole_at(
            json::member_of(response.get("usage"@), "prompt_tokens_details"@),
            "cached_tokens"@,
        ) == Some(cached),
        whole_at(response.get("usage"@), "prompt_cache_miss_tokens"@) == Some(missed),
        cached + missed <= u64::MAX,
    ensures
        usage_in(response).prompt_tokens == cached + missed,
        usage_in(response).cached_tokens == cached,
        usage_in(response).uncached() == missed,
{
    lemma_cached_count(response.get("usage"@));
    lemma_other_counts(response.get("usage"@));
}

/// What a request costs, by the name of the model in lower case. A token of the
/// larger DeepSeek models costs 25, 3000 or 6000 billionths of a yuan, one of the
/// other DeepSeek models 20, 1000 or 2000, as it was cached, was not, or was
/// answered; and one of any other model costs nothing.
pub proof fn law_costs(model: Seq<char>, usage: TokenUsage)
    requires
        usage.cached_tokens <= usage.prompt_tokens,
    ensures
        ({
            let name = text::lowercase(model);
            let deepseek = text::contains_text(name, "deepseek"@);
            let fresh = usage.prompt_tokens - usage.cached_tokens;
            &&& deepseek && text::contains_text(name, "pro"@) ==> cost_of(model, usage)
                == usage.cached_tokens * 25 + fresh * 3_000 + usage.completion_tokens * 6_000
            &&& deepseek && !text::contains_text(name, "pro"@) ==> cost_of(model, usage)
                == usage.cached_tokens * 20 + fresh * 1_000 + usage.completion_tokens * 2_000
            &&& !deepseek && text::contains_text(name, "v4-flash"@) ==> cost_of(model, usage)
                == usage.cached_tokens * 20 + fresh * 1_000 + usage.completion_tokens * 2_000
            &&& !deepseek && !text::contains_text(name, "v4-flash"@) ==> cost_of(model, usage) == 0
        }),
{
}

/// The more of a prompt was cached, the less a request costs; the longer the
/// prompt or the answer, the more.
pub proof fn law_costs_follow_usage(model: Seq<char>, less: TokenUsage, more: TokenUsage)
    requires
        less.cached_tokens >= more.cached_tokens,
        less.prompt_tokens <= more.prompt_tokens,
        less.completion_tokens <= more.completion_tokens,
        less.cached_tokens <= less.prompt_tokens,
    ensures
        cost_of(model, less) <= cost_of(model, more),
{
    law_costs(model, less);
    law_costs(model, more);
}

/// The use of a model is paid for exactly where its name, in lower case, is that
/// of a DeepSeek model or of a small one of the fourth version, or where it has
/// cost more than a hundred billionths of a yuan.
pub proof fn law_paid_use(model: Seq<char>, cost: u128)
    ensures
        ({
            let name = text::lowercase(model);
            paid_use(model, cost) <==> cost > 100 || text::contains_text(name, "deepseek"@)
                || text::contains_text(name, "v4-flash"@)
        }),
{
}

/// The published prices, in billionths of a yuan: those that the models are
/// charged at, and that of the larger model without its discount, which is four
/// times as high.
pub proof fn law_published_prices()
    ensures
        published_prices().dom() =~= set!["deepseek-v4-flash"@, "deepseek-v4-pro-discount"@, "deepseek-v4-pro-full"@],
        ({
            let full = published_prices()["deepseek-v4-pro-full"@];
            let discount = published_prices()["deepseek-v4-pro-discount"@];
            let flash = published_prices()["deepseek-v4-flash"@];
            &&& full.cached_input == 4 * discount.cached_input
            &&& full.input == 4 * discount.input && full.output == 4 * discount.output
            &&& discount.cached_input == 25 && discount.input == 3_000 && discount.output == 6_000
            &&& flash.cached_input == 20 && flash.input == 1_000 && flash.output == 2_000
        }),
{
    reveal_strlit("deepseek-v4-flash");
    reveal_strlit("deepseek-v4-pro-discount");
    reveal_strlit("deepseek-v4-pro-full");
    assert("deepseek-v4-flash"@.len() == 17 && "deepseek-v4-pro-full"@.len() == 20);
    assert("deepseek-v4-pro-discount"@.len() == 24);
}

/// A log says of a request what is known of it: each of its numbers stands in the
/// field of its name, the uncached part of the prompt is what is left of it, and
/// the cost is that of the model that answered.
pub proof fn law_log_holds(
    ts: i64,
    request_id: Seq<char>,
    source: Seq<char>,
    channel_id: Option<u64>,
    channel: Seq<char>,
    requested: Seq<char>,
    actual: Seq<char>,
    route: Seq<char>,
    reason: Seq<char>,
    status: u16,
    latency_ms: u64,
    usage: TokenUsage,
    first_chunk_ms: Option<u64>,
    first_text_ms: Option<u64>,
)
    requires
        usage.cached_tokens <= usage.prompt_tokens,
    ensures
        ({
            let log = logged(
                ts,
                request_id,
                source,
                channel_id,
                channel,
                requested,
                actual,
                route,
                reason,
                status,
                latency_ms,
                usage,
                first_chunk_ms,
                first_text_ms,
            );
            &&& log.ts == ts
            &&& log.channel_id == channel_id && log.channel == channel
            &&& log.status == status && log.route_reason == reason
            &&& log.latency_ms == latency_ms
            &&& log.first_chunk_ms == first_chunk_ms && log.first_text_ms == first_text_ms
            &&& log.prompt_tokens == usage.prompt_tokens
            &&& log.cached_tokens == usage.cached_tokens
            &&& log.cached_tokens + log.uncached_prompt_tokens == log.prompt_tokens
            &&& log.completion_tokens == usage.completion_tokens
            &&& log.total_tokens == usage.total_tokens
            &&& log.cost_nano_cny == cost_of(actual, usage)
            &&& !text::blank(request_id) ==> log.request_id == text::trimmed(request_id)
            &&& text::blank(request_id) ==> log.request_id == "unknown-request"@
            &&& !text::blank(source) ==> log.source == text::trimmed(source)
            &&& text::blank(source) ==> log.source == "unknown-source"@
            &&& !text::blank(requested) ==> log.requested_model == text::trimmed(requested)
            &&& text::blank(requested) ==> log.requested_model == "unknown"@
            &&& !text::blank(actual) ==> log.model == text::trimmed(actual)
            &&& text::blank(actual) ==> log.model == "unknown"@
            &&& !text::blank(route) ==> log.route == text::trimmed(route)
            &&& text::blank(route) ==> log.route == "default"@
            &&& log.time.len() > log.day.len() && log.time.take(log.day.len() as int) == log.day
            &&& log.month == log.day.take(7)
        }),
{
    law_costs(actual, usage);
    lemma_charge(usage.cached_tokens, 24_000);
    lemma_charge(usage.completion_tokens, 24_000);
    assert(clock::shanghai_time(ts as int).take(clock::shanghai_day(ts as int).len() as int)
        =~= clock::shanghai_day(ts as int));
}

/// Sums that do not fit stay at the most that fits: that of prompt and answer, and that of the
/// two parts of a prompt which is given as empty. A prompt with more cached than it has has no
/// other part.
pub proof fn law_sums_are_held(response: JsonTree, cached: u64, missed: u64, usage: TokenUsage)
    ensures
        ({
            let given = response.get("usage"@);
            let read = usage_in(response);
            let total = whole_at(given, "total_tokens"@);
            let parts = whole_at(given, "prompt_tokens"@) == Some(0u64) && whole_at(
                json::member_of(given, "prompt_tokens_details"@),
                "cached_tokens"@,
            ) == Some(cached) && whole_at(given, "prompt_cache_miss_tokens"@) == Some(missed);
            &&& (total is None || total == Some(0u64)) && read.prompt_tokens
                + read.completion_tokens > u64::MAX ==> read.total_tokens == u64::MAX
            &&& parts && cached + missed <= u64::MAX ==> read.prompt_tokens == cached + missed
            &&& parts && cached + missed > u64::MAX ==> read.prompt_tokens == u64::MAX
        }),
        usage.cached_tokens > usage.prompt_tokens ==> usage.uncached() == 0,
        usage.cached_tokens <= usage.prompt_tokens ==> usage.uncached() == usage.prompt_tokens
            - usage.cached_tokens,
{
    lemma_cached_count(response.get("usage"@));
    lemma_other_counts(response.get("usage"@));
}

/// A log tells the time of a request in Shanghai, and how long it took in milliseconds.
pub proof fn law_log_tells_times(
    ts: i64,
    request_id: Seq<char>,
    source: Seq<char>,
    channel_id: Option<u64>,
    channel: Seq<char>,
    requested: Seq<char>,
    actual: Seq<char>,
    route: Seq<char>,
    reason: Seq<char>,
    status: u16,
    latency_ms: u64,
    usage: TokenUsage,
)
    ensures
        ({
            let log = logged(
                ts,
                request_id,
                source,
                channel_id,
                channel,
                requested,
                actual,
                route,
                reason,
                status,
                latency_ms,
                usage,
                None,
                None,
            );
            &&& log.latency == numeral::decimal(latency_ms as int) + "ms"@
            &&& log.day == clock::shanghai_day(ts as int)
            &&& log.time == clock::shanghai_time(ts as int)
        }),
{
}

/// A response that is not there tells of no tokens, and no token is counted of nothing.
pub proof fn law_no_tokens(response: JsonTree)
    ensures
        no_tokens().prompt_tokens == 0 && no_tokens().completion_tokens == 0,
        no_tokens().cached_tokens == 0 && no_tokens().total_tokens == 0,
        response.get("usage"@) is None ==> usage_in(response) == no_tokens(),
{
    lemma_cached_count(response.get("usage"@));
    lemma_other_counts(response.get("usage"@));
}

} // verus!
