//! The ledger of usage.
use crate::clock;
use crate::ordered::OrderedMap;
use crate::text;
use crate::usage;
use crate::usage::{RequestLog, RequestLogView};
use vstd::prelude::*;
use vstd::string::*;

verus! {

/// The number of logs that are kept.
pub const RECENT_LIMIT: usize = 200;

/// Counts of requests, tokens and cost. A count that would not fit stays at its
/// largest value.
#[derive(Clone, Copy)]
pub struct UsageBucket {
    pub requests: u64,
    pub success: u64,
    pub errors: u64,
    pub latency_ms: u64,
    pub prompt_tokens: u64,
    pub cached_tokens: u64,
    pub uncached_prompt_tokens: u64,
    pub completion_tokens: u64,
    pub total_tokens: u64,
    /// In billionths of a yuan.
    pub cost_nano_cny: u128,
}

/// No usage.
pub open spec fn no_usage() -> UsageBucket {
    UsageBucket {
        requests: 0,
        success: 0,
        errors: 0,
        latency_ms: 0,
        prompt_tokens: 0,
        cached_tokens: 0,
        uncached_prompt_tokens: 0,
        completion_tokens: 0,
        total_tokens: 0,
        cost_nano_cny: 0,
    }
}

impl Default for UsageBucket {
    fn default() -> (r: Self)
        ensures
            r == no_usage(),
    {
        UsageBucket {
            requests: 0,
            success: 0,
            errors: 0,
            latency_ms: 0,
            prompt_tokens: 0,
            cached_tokens: 0,
            uncached_prompt_tokens: 0,
            completion_tokens: 0,
            total_tokens: 0,
            cost_nano_cny: 0,
        }
    }
}

/// A request with the status `status` has succeeded.
pub open spec fn succeeded(status: u16) -> bool {
    200 <= status < 400
}

/// Has a request with the status `status` succeeded?
pub fn is_success(status: u16) -> (r: bool)
    ensures
        r == succeeded(status),
{
    200 <= status && status < 400
}

/// The counts of one request.
pub open spec fn one_request(log: RequestLogView) -> UsageBucket {
    UsageBucket {
        requests: 1,
        success: if succeeded(log.status) {
            1
        } else {
            0
        },
        errors: if succeeded(log.status) {
            0
        } else {
            1
        },
        latency_ms: log.latency_ms,
        prompt_tokens: log.prompt_tokens,
        cached_tokens: log.cached_tokens,
        uncached_prompt_tokens: log.uncached_prompt_tokens,
        completion_tokens: log.completion_tokens,
        total_tokens: log.total_tokens,
        cost_nano_cny: log.cost_nano_cny,
    }
}

/// The sum of two buckets.
pub open spec fn sum(a: UsageBucket, b: UsageBucket) -> UsageBucket {
    UsageBucket {
        requests: a.requests.saturating_add(b.requests),
        success: a.success.saturating_add(b.success),
        errors: a.errors.saturating_add(b.errors),
        latency_ms: a.latency_ms.saturating_add(b.latency_ms),
        prompt_tokens: a.prompt_tokens.saturating_add(b.prompt_tokens),
        cached_tokens: a.cached_tokens.saturating_add(b.cached_tokens),
        uncached_prompt_tokens: a.uncached_prompt_tokens.saturating_add(b.uncached_prompt_tokens),
        completion_tokens: a.completion_tokens.saturating_add(b.completion_tokens),
        total_tokens: a.total_tokens.saturating_add(b.total_tokens),
        cost_nano_cny: a.cost_nano_cny.saturating_add(b.cost_nano_cny),
    }
}

/// `a` without `b`, no count below zero.
pub open spec fn difference(a: UsageBucket, b: UsageBucket) -> UsageBucket {
    UsageBucket {
        requests: a.requests.saturating_sub(b.requests),
        success: a.success.saturating_sub(b.success),
        errors: a.errors.saturating_sub(b.errors),
        latency_ms: a.latency_ms.saturating_sub(b.latency_ms),
        prompt_tokens: a.prompt_tokens.saturating_sub(b.prompt_tokens),
        cached_tokens: a.cached_tokens.saturating_sub(b.cached_tokens),
        uncached_prompt_tokens: a.uncached_prompt_tokens.saturating_sub(b.uncached_prompt_tokens),
        completion_tokens: a.completion_tokens.saturating_sub(b.completion_tokens),
        total_tokens: a.total_tokens.saturating_sub(b.total_tokens),
        cost_nano_cny: a.cost_nano_cny.saturating_sub(b.cost_nano_cny),
    }
}

/// Something is counted in `bucket`.
pub open spec fn has_usage(bucket: UsageBucket) -> bool {
    bucket.requests > 0 || bucket.total_tokens > 0 || bucket.prompt_tokens > 0
        || bucket.completion_tokens > 0 || bucket.cost_nano_cny > 0
}

/// Is something counted in `bucket`?
pub fn bucket_has_usage(bucket: &UsageBucket) -> (r: bool)
    ensures
        r == has_usage(*bucket),
{
    bucket.requests > 0 || bucket.total_tokens > 0 || bucket.prompt_tokens > 0
        || bucket.completion_tokens > 0 || bucket.cost_nano_cny > 0
}

impl UsageBucket {
    /// Counts a request.
    pub fn add(&mut self, log: &RequestLog)
        ensures
            *final(self) == sum(*old(self), one_request(log@)),
    {
        self.requests = self.requests.saturating_add(1);
        if is_success(log.status) {
            self.success = self.success.saturating_add(1);
        } else {
            self.errors = self.errors.saturating_add(1);
        }
        self.latency_ms = self.latency_ms.saturating_add(log.latency_ms);
        self.prompt_tokens = self.prompt_tokens.saturating_add(log.prompt_tokens);
        self.cached_tokens = self.cached_tokens.saturating_add(log.cached_tokens);
        self.uncached_prompt_tokens = self.uncached_prompt_tokens.saturating_add(log.uncached_prompt_tokens);
        self.completion_tokens = self.completion_tokens.saturating_add(log.completion_tokens);
        self.total_tokens = self.total_tokens.saturating_add(log.total_tokens);
        self.cost_nano_cny = self.cost_nano_cny.saturating_add(log.cost_nano_cny);
    }

    /// Counts what `bucket` counts.
    pub fn add_bucket(&mut self, bucket: &UsageBucket)
        ensures
            *final(self) == sum(*old(self), *bucket),
    {
        self.requests = self.requests.saturating_add(bucket.requests);
        self.success = self.success.saturating_add(bucket.success);
        self.errors = self.errors.saturating_add(bucket.errors);
        self.latency_ms = self.latency_ms.saturating_add(bucket.latency_ms);
        self.prompt_tokens = self.prompt_tokens.saturating_add(bucket.prompt_tokens);
        self.cached_tokens = self.cached_tokens.saturating_add(bucket.cached_tokens);
        self.uncached_prompt_tokens = self.uncached_prompt_tokens.saturating_add(bucket.uncached_prompt_tokens);
        self.completion_tokens = self.completion_tokens.saturating_add(bucket.completion_tokens);
        self.total_tokens = self.total_tokens.saturating_add(bucket.total_tokens);
        self.cost_nano_cny = self.cost_nano_cny.saturating_add(bucket.cost_nano_cny);
    }
}

/// `total` without each of `items`.
pub open spec fn remainder(total: UsageBucket, items: Seq<UsageBucket>) -> UsageBucket
    decreases items.len(),
{
    if items.len() == 0 {
        total
    } else {
        difference(remainder(total, items.drop_last()), items.last())
    }
}

/// `total` without each of `subtracts`.
pub fn subtract_buckets(total: &UsageBucket, subtracts: &Vec<UsageBucket>) -> (r: UsageBucket)
    ensures
        r == remainder(*total, subtracts@),
{
    let mut out: UsageBucket = *total;
    let mut i: usize = 0;
    assert(subtracts@.take(0) =~= Seq::<UsageBucket>::empty());
    while i < subtracts.len()
        invariant
            i <= subtracts@.len(),
            out == remainder(*total, subtracts@.take(i as int)),
        decreases subtracts@.len() - i,
    {
        let item: &UsageBucket = &subtracts[i];
        out = UsageBucket {
            requests: out.requests.saturating_sub(item.requests),
            success: out.success.saturating_sub(item.success),
            errors: out.errors.saturating_sub(item.errors),
            latency_ms: out.latency_ms.saturating_sub(item.latency_ms),
            prompt_tokens: out.prompt_tokens.saturating_sub(item.prompt_tokens),
            cached_tokens: out.cached_tokens.saturating_sub(item.cached_tokens),
            uncached_prompt_tokens: out.uncached_prompt_tokens.saturating_sub(item.uncached_prompt_tokens),
            completion_tokens: out.completion_tokens.saturating_sub(item.completion_tokens),
            total_tokens: out.total_tokens.saturating_sub(item.total_tokens),
            cost_nano_cny: out.cost_nano_cny.saturating_sub(item.cost_nano_cny),
        };
        assert(subtracts@.take(i + 1).drop_last() =~= subtracts@.take(i as int));
        i += 1;
    }
    assert(subtracts@.take(subtracts@.len() as int) =~= subtracts@);
    out
}

/// The bucket at `key`; an empty one where there is none.
pub open spec fn bucket_at(buckets: Map<Seq<char>, UsageBucket>, key: Seq<char>) -> UsageBucket {
    if buckets.dom().contains(key) {
        buckets[key]
    } else {
        no_usage()
    }
}

/// `buckets` with the request `log` counted at `key`.
pub open spec fn tallied(
    buckets: Map<Seq<char>, UsageBucket>,
    key: Seq<char>,
    log: RequestLogView,
) -> Map<Seq<char>, UsageBucket> {
    buckets.insert(key, sum(bucket_at(buckets, key), one_request(log)))
}

/// The buckets at `key`; none where there are none.
pub open spec fn buckets_at(
    nested: Map<Seq<char>, Map<Seq<char>, UsageBucket>>,
    key: Seq<char>,
) -> Map<Seq<char>, UsageBucket> {
    if nested.dom().contains(key) {
        nested[key]
    } else {
        Map::empty()
    }
}

/// `nested` with the request `log` counted at `key` and `inner`.
pub open spec fn tallied_nested(
    nested: Map<Seq<char>, Map<Seq<char>, UsageBucket>>,
    key: Seq<char>,
    inner: Seq<char>,
    log: RequestLogView,
) -> Map<Seq<char>, Map<Seq<char>, UsageBucket>> {
    nested.insert(key, tallied(buckets_at(nested, key), inner, log))
}

/// What each of `nested` holds.
pub open spec fn nested_views(nested: Map<Seq<char>, OrderedMap<UsageBucket>>) -> Map<
    Seq<char>,
    Map<Seq<char>, UsageBucket>,
> {
    Map::new(|key: Seq<char>| nested.dom().contains(key), |key: Seq<char>| nested[key]@)
}

/// The maps are in order, the inner ones too.
pub open spec fn nested_wf(nested: OrderedMap<OrderedMap<UsageBucket>>) -> bool {
    nested.wf() && forall|key: Seq<char>|
        nested@.dom().contains(key) ==> (#[trigger] nested@[key]).wf()
}

/// Counts the request `log` at `key`.
fn tally(buckets: &mut OrderedMap<UsageBucket>, key: String, log: &RequestLog)
    requires
        old(buckets).wf(),
    ensures
        final(buckets).wf(),
        final(buckets)@ == tallied(old(buckets)@, key@, log@),
{
    let mut bucket: UsageBucket = match buckets.get(key.as_str()) {
        Some(bucket) => *bucket,
        None => UsageBucket::default(),
    };
    bucket.add(log);
    buckets.insert(key, bucket);
}

/// Puts `bucket` at `key` and `inner`.
pub fn insert_nested(
    nested: &mut OrderedMap<OrderedMap<UsageBucket>>,
    key: &str,
    inner: &str,
    bucket: UsageBucket,
)
    requires
        nested_wf(*old(nested)),
    ensures
        nested_wf(*final(nested)),
        nested_views(final(nested)@) == nested_views(old(nested)@).insert(
            key@,
            buckets_at(nested_views(old(nested)@), key@).insert(inner@, bucket),
        ),
{
    let ghost before = nested@;
    let mut buckets: OrderedMap<UsageBucket> = match nested.take(key) {
        Some(buckets) => {
            assert(before[key@].wf());
            buckets
        },
        None => OrderedMap::new(),
    };
    assert(buckets@ == buckets_at(nested_views(before), key@));
    buckets.insert(inner.to_owned(), bucket);
    let ghost more = buckets;
    nested.insert(key.to_owned(), buckets);
    assert(nested@ =~= before.insert(key@, more));
    assert forall|k: Seq<char>| nested@.dom().contains(k) implies (#[trigger] nested@[k]).wf() by {
        if k != key@ {
            assert(before[k].wf());
        }
    }
    assert(nested_views(nested@) =~= nested_views(before).insert(key@, more@));
}

/// Counts the request `log` at `key` and `inner`.
fn tally_nested(
    nested: &mut OrderedMap<OrderedMap<UsageBucket>>,
    key: &str,
    inner: &str,
    log: &RequestLog,
)
    requires
        nested_wf(*old(nested)),
    ensures
        nested_wf(*final(nested)),
        nested_views(final(nested)@) == tallied_nested(
            nested_views(old(nested)@),
            key@,
            inner@,
            log@,
        ),
{
    let mut bucket: UsageBucket = match nested.get(key) {
        Some(buckets) => {
            assert(nested@[key@].wf());
            match buckets.get(inner) {
                Some(bucket) => *bucket,
                None => UsageBucket::default(),
            }
        },
        None => UsageBucket::default(),
    };
    bucket.add(log);
    insert_nested(nested, key, inner, bucket);
}

/// Usage by day, month, channel, source, model and route.
pub struct UsageBreakdown {
    pub total: UsageBucket,
    pub by_day: OrderedMap<UsageBucket>,
    pub by_month: OrderedMap<UsageBucket>,
    pub by_channel: OrderedMap<UsageBucket>,
    pub by_source: OrderedMap<UsageBucket>,
    pub by_source_day: OrderedMap<OrderedMap<UsageBucket>>,
    pub by_source_month: OrderedMap<OrderedMap<UsageBucket>>,
    pub by_model: OrderedMap<UsageBucket>,
    pub by_route: OrderedMap<UsageBucket>,
}

/// What a breakdown holds.
#[verifier::ext_equal]
pub struct UsageBreakdownView {
    pub total: UsageBucket,
    pub by_day: Map<Seq<char>, UsageBucket>,
    pub by_month: Map<Seq<char>, UsageBucket>,
    pub by_channel: Map<Seq<char>, UsageBucket>,
    pub by_source: Map<Seq<char>, UsageBucket>,
    pub by_source_day: Map<Seq<char>, Map<Seq<char>, UsageBucket>>,
    pub by_source_month: Map<Seq<char>, Map<Seq<char>, UsageBucket>>,
    pub by_model: Map<Seq<char>, UsageBucket>,
    pub by_route: Map<Seq<char>, UsageBucket>,
}

impl View for UsageBreakdown {
    type V = UsageBreakdownView;

    open spec fn view(&self) -> UsageBreakdownView {
        UsageBreakdownView {
            total: self.total,
            by_day: self.by_day@,
            by_month: self.by_month@,
            by_channel: self.by_channel@,
            by_source: self.by_source@,
            by_source_day: nested_views(self.by_source_day@),
            by_source_month: nested_views(self.by_source_month@),
            by_model: self.by_model@,
            by_route: self.by_route@,
        }
    }
}

impl UsageBreakdownView {
    /// The breakdown with the request `log` counted in it.
    pub open spec fn with_log(self, log: RequestLogView) -> UsageBreakdownView {
        UsageBreakdownView {
            total: sum(self.total, one_request(log)),
            by_day: tallied(self.by_day, log.day, log),
            by_month: tallied(self.by_month, log.month, log),
            by_channel: tallied(self.by_channel, usage::key_or(log.channel, "unknown-channel"@), log),
            by_source: tallied(self.by_source, usage::key_or(log.source, "unknown-source"@), log),
            by_source_day: tallied_nested(self.by_source_day, usage::key_or(log.source, "unknown-source"@), log.day, log),
            by_source_month: tallied_nested(self.by_source_month, usage::key_or(log.source, "unknown-source"@), log.month, log),
            by_model: tallied(self.by_model, usage::key_or(log.model, "unknown-model"@), log),
            by_route: tallied(self.by_route, usage::key_or(log.route, "unknown-route"@), log),
        }
    }

    /// The breakdown with the use of `model`, which `bucket` counts, in it.
    pub open spec fn with_model(
        self,
        model: Seq<char>,
        bucket: UsageBucket,
        month: Option<Seq<char>>,
    ) -> UsageBreakdownView {
        UsageBreakdownView {
            total: sum(self.total, bucket),
            by_model: self.by_model.insert(model, bucket),
            by_month: match month {
                Some(name) => self.by_month.insert(name, sum(bucket_at(self.by_month, name), bucket)),
                None => self.by_month,
            },
            ..self
        }
    }

    /// The breakdown with all its usage put down to `source`.
    pub open spec fn with_single_source(
        self,
        source: Seq<char>,
        month: Option<Seq<char>>,
    ) -> UsageBreakdownView {
        if !has_usage(self.total) {
            self
        } else {
            UsageBreakdownView {
                by_source: self.by_source.insert(source, self.total),
                by_source_month: match month {
                    Some(name) if self.by_month.dom().contains(name) => self.by_source_month.insert(
                        source,
                        buckets_at(self.by_source_month, source).insert(name, self.by_month[name]),
                    ),
                    _ => self.by_source_month,
                },
                ..self
            }
        }
    }
}

/// A breakdown of nothing.
pub open spec fn empty_breakdown() -> UsageBreakdownView {
    UsageBreakdownView {
        total: no_usage(),
        by_day: Map::empty(),
        by_month: Map::empty(),
        by_channel: Map::empty(),
        by_source: Map::empty(),
        by_source_day: Map::empty(),
        by_source_month: Map::empty(),
        by_model: Map::empty(),
        by_route: Map::empty(),
    }
}

impl Default for UsageBreakdown {
    fn default() -> (r: Self)
        ensures
            r@ == empty_breakdown(),
            r.wf(),
    {
        let r: UsageBreakdown = UsageBreakdown {
            total: UsageBucket::default(),
            by_day: OrderedMap::new(),
            by_month: OrderedMap::new(),
            by_channel: OrderedMap::new(),
            by_source: OrderedMap::new(),
            by_source_day: OrderedMap::new(),
            by_source_month: OrderedMap::new(),
            by_model: OrderedMap::new(),
            by_route: OrderedMap::new(),
        };
        assert(r@ =~= empty_breakdown()) by {
            assert(r@.by_source_day =~= Map::empty());
            assert(r@.by_source_month =~= Map::empty());
        }
        r
    }
}

impl UsageBreakdown {
    /// The maps are in order.
    pub open spec fn wf(&self) -> bool {
        &&& self.by_day.wf()
        &&& self.by_month.wf()
        &&& self.by_channel.wf()
        &&& self.by_source.wf()
        &&& nested_wf(self.by_source_day)
        &&& nested_wf(self.by_source_month)
        &&& self.by_model.wf()
        &&& self.by_route.wf()
    }

    /// Counts a request.
    pub fn add(&mut self, log: &RequestLog)
        requires
            old(self).wf(),
        ensures
            final(self).wf(),
            final(self)@ == old(self)@.with_log(log@),
    {
        let source_key: String = usage::normalize_key(log.source.as_str(), "unknown-source");
        self.total.add(log);
        tally(&mut self.by_day, log.day.clone(), log);
        tally(&mut self.by_month, log.month.clone(), log);
        tally(&mut self.by_channel, usage::normalize_key(log.channel.as_str(), "unknown-channel"), log);
        tally(&mut self.by_source, source_key.clone(), log);
        tally_nested(&mut self.by_source_day, source_key.as_str(), log.day.as_str(), log);
        tally_nested(&mut self.by_source_month, source_key.as_str(), log.month.as_str(), log);
        tally(&mut self.by_model, usage::normalize_key(log.model.as_str(), "unknown-model"), log);
        tally(&mut self.by_route, usage::normalize_key(log.route.as_str(), "unknown-route"), log);
    }

    /// Counts the use of `model`, which `bucket` counts.
    pub fn add_model_bucket(&mut self, model: &str, bucket: &UsageBucket, month: Option<&str>)
        requires
            old(self).wf(),
        ensures
            final(self).wf(),
            final(self)@ == old(self)@.with_model(model@, *bucket, text::maybe_str(month)),
    {
        self.total.add_bucket(bucket);
        self.by_model.insert(model.to_owned(), *bucket);
        if let Some(month) = month {
            let mut total: UsageBucket = match self.by_month.get(month) {
                Some(total) => *total,
                None => UsageBucket::default(),
            };
            total.add_bucket(bucket);
            self.by_month.insert(month.to_owned(), total);
        }
    }

    /// Puts all usage down to `source`.
    pub fn backfill_single_source(&mut self, source: &str, month: Option<&str>)
        requires
            old(self).wf(),
        ensures
            final(self).wf(),
            final(self)@ == old(self)@.with_single_source(source@, text::maybe_str(month)),
    {
        if !bucket_has_usage(&self.total) {
            return;
        }
        self.by_source.insert(source.to_owned(), self.total);
        if let Some(month) = month {
            let bucket: Option<UsageBucket> = match self.by_month.get(month) {
                Some(bucket) => Some(*bucket),
                None => None,
            };
            if let Some(bucket) = bucket {
                insert_nested(&mut self.by_source_month, source, month, bucket);
            }
        }
    }
}

/// The ledger: all usage, the part that is paid for and the part that is free,
/// and the latest logs.
pub struct UsageStats {
    pub total: UsageBucket,
    pub paid: UsageBreakdown,
    pub free: UsageBreakdown,
    pub by_day: OrderedMap<UsageBucket>,
    pub by_month: OrderedMap<UsageBucket>,
    pub by_channel: OrderedMap<UsageBucket>,
    pub by_source: OrderedMap<UsageBucket>,
    pub by_source_day: OrderedMap<OrderedMap<UsageBucket>>,
    pub by_source_month: OrderedMap<OrderedMap<UsageBucket>>,
    pub by_model: OrderedMap<UsageBucket>,
    pub by_route: OrderedMap<UsageBucket>,
    pub recent: Vec<RequestLog>,
}

/// What the ledger holds.
#[verifier::ext_equal]
pub struct UsageStatsView {
    pub total: UsageBucket,
    pub paid: UsageBreakdownView,
    pub free: UsageBreakdownView,
    pub by_day: Map<Seq<char>, UsageBucket>,
    pub by_month: Map<Seq<char>, UsageBucket>,
    pub by_channel: Map<Seq<char>, UsageBucket>,
    pub by_source: Map<Seq<char>, UsageBucket>,
    pub by_source_day: Map<Seq<char>, Map<Seq<char>, UsageBucket>>,
    pub by_source_month: Map<Seq<char>, Map<Seq<char>, UsageBucket>>,
    pub by_model: Map<Seq<char>, UsageBucket>,
    pub by_route: Map<Seq<char>, UsageBucket>,
    pub recent: Seq<RequestLogView>,
}

impl View for UsageStats {
    type V = UsageStatsView;

    open spec fn view(&self) -> UsageStatsView {
        UsageStatsView {
            total: self.total,
            paid: self.paid@,
            free: self.free@,
            by_day: self.by_day@,
            by_month: self.by_month@,
            by_channel: self.by_channel@,
            by_source: self.by_source@,
            by_source_day: nested_views(self.by_source_day@),
            by_source_month: nested_views(self.by_source_month@),
            by_model: self.by_model@,
            by_route: self.by_route@,
            recent: usage::log_views(self.recent@),
        }
    }
}

/// The last `limit` of `logs`, or all of them where there are fewer.
pub open spec fn latest(logs: Seq<RequestLogView>, limit: int) -> Seq<RequestLogView> {
    if logs.len() <= limit {
        logs
    } else {
        logs.skip(logs.len() - limit)
    }
}

impl UsageStatsView {
    /// The ledger with the request `log` in it.
    pub open spec fn with_log(self, log: RequestLogView) -> UsageStatsView {
        let paid = usage::paid_use(log.model, log.cost_nano_cny);
        UsageStatsView {
            total: sum(self.total, one_request(log)),
            by_day: tallied(self.by_day, log.day, log),
            by_month: tallied(self.by_month, log.month, log),
            by_channel: tallied(self.by_channel, usage::key_or(log.channel, "unknown-channel"@), log),
            by_source: tallied(self.by_source, usage::key_or(log.source, "unknown-source"@), log),
            by_source_day: tallied_nested(self.by_source_day, usage::key_or(log.source, "unknown-source"@), log.day, log),
            by_source_month: tallied_nested(self.by_source_month, usage::key_or(log.source, "unknown-source"@), log.month, log),
            by_model: tallied(self.by_model, usage::key_or(log.model, "unknown-model"@), log),
            by_route: tallied(self.by_route, usage::key_or(log.route, "unknown-route"@), log),
            paid: if paid {
                self.paid.with_log(log)
            } else {
                self.paid
            },
            free: if paid {
                self.free
            } else {
                self.free.with_log(log)
            },
            recent: latest(self.recent.push(log), RECENT_LIMIT as int),
        }
    }
}

/// An empty ledger.
pub open spec fn empty_stats() -> UsageStatsView {
    UsageStatsView {
        total: no_usage(),
        paid: empty_breakdown(),
        free: empty_breakdown(),
        by_day: Map::empty(),
        by_month: Map::empty(),
        by_channel: Map::empty(),
        by_source: Map::empty(),
        by_source_day: Map::empty(),
        by_source_month: Map::empty(),
        by_model: Map::empty(),
        by_route: Map::empty(),
        recent: Seq::empty(),
    }
}

impl Default for UsageStats {
    fn default() -> (r: Self)
        ensures
            r@ == empty_stats(),
            r.wf(),
    {
        let r: UsageStats = UsageStats {
            total: UsageBucket::default(),
            paid: UsageBreakdown::default(),
            free: UsageBreakdown::default(),
            by_day: OrderedMap::new(),
            by_month: OrderedMap::new(),
            by_channel: OrderedMap::new(),
            by_source: OrderedMap::new(),
            by_source_day: OrderedMap::new(),
            by_source_month: OrderedMap::new(),
            by_model: OrderedMap::new(),
            by_route: OrderedMap::new(),
            recent: Vec::new(),
        };
        assert(r@ =~= empty_stats()) by {
            assert(r@.by_source_day =~= Map::empty());
            assert(r@.by_source_month =~= Map::empty());
            assert(r@.recent =~= Seq::empty());
        }
        r
    }
}

impl UsageStats {
    /// The maps are in order.
    pub open spec fn wf(&self) -> bool {
        &&& self.paid.wf()
        &&& self.free.wf()
        &&& self.by_day.wf()
        &&& self.by_month.wf()
        &&& self.by_channel.wf()
        &&& self.by_source.wf()
        &&& nested_wf(self.by_source_day)
        &&& nested_wf(self.by_source_month)
        &&& self.by_model.wf()
        &&& self.by_route.wf()
    }

    /// Enters a request into the ledger.
    pub fn record(&mut self, log: RequestLog)
        requires
            old(self).wf(),
        ensures
            final(self).wf(),
            final(self)@ == old(self)@.with_log(log@),
    {
        let ghost before = self@;
        let source_key: String = usage::normalize_key(log.source.as_str(), "unknown-source");
        self.total.add(&log);
        tally(&mut self.by_day, log.day.clone(), &log);
        tally(&mut self.by_month, log.month.clone(), &log);
        tally(&mut self.by_channel, usage::normalize_key(log.channel.as_str(), "unknown-channel"), &log);
        tally(&mut self.by_source, source_key.clone(), &log);
        tally_nested(&mut self.by_source_day, source_key.as_str(), log.day.as_str(), &log);
        tally_nested(&mut self.by_source_month, source_key.as_str(), log.month.as_str(), &log);
        tally(&mut self.by_model, usage::normalize_key(log.model.as_str(), "unknown-model"), &log);
        tally(&mut self.by_route, usage::normalize_key(log.route.as_str(), "unknown-route"), &log);
        if usage::is_paid_usage(log.model.as_str(), log.cost_nano_cny) {
            self.paid.add(&log);
        } else {
            self.free.add(&log);
        }
        let ghost logs = self.recent@;
        self.recent.push(log);
        assert(usage::log_views(self.recent@) =~= usage::log_views(logs).push(log@));
        let ghost logs = self.recent@;
        if self.recent.len() > RECENT_LIMIT {
            let remove: usize = self.recent.len() - RECENT_LIMIT;
            let kept: Vec<RequestLog> = self.recent.split_off(remove);
            self.recent = kept;
            assert(usage::log_views(self.recent@) =~= latest(
                usage::log_views(logs),
                RECENT_LIMIT as int,
            ));
        }
        assert(self@ =~= before.with_log(log@));
    }

    /// What the requests of the month `month` have cost, in billionths of a yuan.
    pub fn month_cost(&self, month: &str) -> (r: u128)
        requires
            self.wf(),
        ensures
            r == bucket_at(self@.by_month, month@).cost_nano_cny,
    {
        match self.by_month.get(month) {
            Some(bucket) => bucket.cost_nano_cny,
            None => 0,
        }
    }

    /// What the requests of this month have cost, in billionths of a yuan.
    pub fn current_month_cost(&self) -> (r: u128)
        requires
            self.wf(),
        ensures
            exists|ts: i64|
                0 <= ts <= clock::LATEST_SECS && r == bucket_at(
                    self@.by_month,
                    #[trigger] clock::shanghai_month_text(ts as int),
                ).cost_nano_cny,
    {
        let ts: i64 = clock::now_unix_secs();
        let month: String = clock::shanghai_month(ts);
        self.month_cost(month.as_str())
    }
}

/// Adding up buckets is the same in any order.
pub proof fn lemma_sum_exchange(a: UsageBucket, b: UsageBucket, c: UsageBucket)
    ensures
        sum(sum(a, b), c) == sum(sum(a, c), b),
        sum(a, b) == sum(b, a),
        sum(sum(a, b), c) == sum(a, sum(b, c)),
{
}

/// The paid and the free part of the ledger make up the whole, and a request that
/// is recorded keeps it so: it is counted in the whole and in just one part.
pub proof fn law_parts_make_up_total(ledger: UsageStatsView, log: RequestLogView)
    requires
        ledger.total == sum(ledger.paid.total, ledger.free.total),
    ensures
        ({
            let after = ledger.with_log(log);
            let paid = usage::paid_use(log.model, log.cost_nano_cny);
            &&& after.total == sum(after.paid.total, after.free.total)
            &&& paid ==> after.free == ledger.free && after.paid.total == sum(
                ledger.paid.total,
                one_request(log),
            )
            &&& !paid ==> after.paid == ledger.paid && after.free.total == sum(
                ledger.free.total,
                one_request(log),
            )
        }),
{
    lemma_sum_exchange(ledger.paid.total, ledger.free.total, one_request(log));
}

/// A request that is counted at a key changes the bucket at that key alone, by
/// that one request.
pub proof fn law_counted_at_one_key(
    buckets: Map<Seq<char>, UsageBucket>,
    key: Seq<char>,
    log: RequestLogView,
    other: Seq<char>,
)
    ensures
        bucket_at(tallied(buckets, key, log), key) == sum(
            bucket_at(buckets, key),
            one_request(log),
        ),
        other != key ==> bucket_at(tallied(buckets, key, log), other) == bucket_at(buckets, other),
{
}

/// In an empty ledger the parts make up the whole.
pub proof fn law_empty_parts()
    ensures
        empty_stats().total == sum(empty_stats().paid.total, empty_stats().free.total),
{
}

/// Every request that is counted is counted as a success or as an error, as long
/// as the counts fit.
pub proof fn law_success_or_error(bucket: UsageBucket, log: RequestLogView)
    requires
        bucket.requests == bucket.success + bucket.errors,
        bucket.requests < u64::MAX,
    ensures
        ({
            let after = sum(bucket, one_request(log));
            &&& after.requests == bucket.requests + 1
            &&& after.requests == after.success + after.errors
        }),
{
}

/// Of the logs the latest are kept, the one just recorded last, and never more
/// than the limit.
pub proof fn law_recent_logs(ledger: UsageStatsView, log: RequestLogView)
    ensures
        ({
            let after = ledger.with_log(log).recent;
            &&& after.len() <= RECENT_LIMIT
            &&& after.last() == log
            &&& ledger.recent.len() < RECENT_LIMIT ==> after == ledger.recent.push(log)
            &&& ledger.recent.len() >= RECENT_LIMIT ==> after.len() == RECENT_LIMIT
        }),
{
}

/// `a + b`, or `max` where that is more.
pub open spec fn capped(a: int, b: int, max: int) -> int {
    if a + b <= max {
        a + b
    } else {
        max
    }
}

/// `after` counts what `before` does and the request `log` besides: one request,
/// which succeeded where its status is from 200 to 399 and failed otherwise, and
/// each of its numbers at the counter of the same name.
pub open spec fn counts_one_more(
    before: UsageBucket,
    after: UsageBucket,
    log: RequestLogView,
) -> bool {
    let top = u64::MAX as int;
    let succeeded = 200 <= log.status <= 399;
    &&& after.requests == capped(before.requests as int, 1, top)
    &&& succeeded ==> after.success == capped(before.success as int, 1, top) && after.errors
        == before.errors
    &&& !succeeded ==> after.errors == capped(before.errors as int, 1, top) && after.success
        == before.success
    &&& after.latency_ms == capped(before.latency_ms as int, log.latency_ms as int, top)
    &&& after.prompt_tokens == capped(before.prompt_tokens as int, log.prompt_tokens as int, top)
    &&& after.cached_tokens == capped(before.cached_tokens as int, log.cached_tokens as int, top)
    &&& after.uncached_prompt_tokens == capped(
        before.uncached_prompt_tokens as int,
        log.uncached_prompt_tokens as int,
        top,
    )
    &&& after.completion_tokens == capped(
        before.completion_tokens as int,
        log.completion_tokens as int,
        top,
    )
    &&& after.total_tokens == capped(before.total_tokens as int, log.total_tokens as int, top)
    &&& after.cost_nano_cny == capped(
        before.cost_nano_cny as int,
        log.cost_nano_cny as int,
        u128::MAX as int,
    )
}

/// `after` is the table `before` with `log` counted at `key`, and at no other key.
pub open spec fn counts_at(
    before: Map<Seq<char>, UsageBucket>,
    after: Map<Seq<char>, UsageBucket>,
    key: Seq<char>,
    log: RequestLogView,
) -> bool {
    &&& after.dom() == before.dom().insert(key)
    &&& counts_one_more(
        if before.dom().contains(key) {
            before[key]
        } else {
            no_usage()
        },
        after[key],
        log,
    )
    &&& forall|other: Seq<char>|
        other != key && before.dom().contains(other) ==> #[trigger] after[other] == before[other]
}

/// `after` is the nested table `before` with `log` counted at `key` and `inner`.
pub open spec fn counts_within(
    before: Map<Seq<char>, Map<Seq<char>, UsageBucket>>,
    after: Map<Seq<char>, Map<Seq<char>, UsageBucket>>,
    key: Seq<char>,
    inner: Seq<char>,
    log: RequestLogView,
) -> bool {
    &&& after.dom() == before.dom().insert(key)
    &&& counts_at(
        if before.dom().contains(key) {
            before[key]
        } else {
            Map::empty()
        },
        after[key],
        inner,
        log,
    )
    &&& forall|other: Seq<char>|
        other != key && before.dom().contains(other) ==> #[trigger] after[other] == before[other]
}

/// What is said of a name, without white space around it; `fallback` where nothing
/// is said.
pub open spec fn said_or(name: Seq<char>, fallback: Seq<char>) -> Seq<char> {
    if text::trimmed(name).len() > 0 {
        text::trimmed(name)
    } else {
        fallback
    }
}

proof fn lemma_counts_at(
    buckets: Map<Seq<char>, UsageBucket>,
    key: Seq<char>,
    log: RequestLogView,
)
    ensures
        counts_at(buckets, tallied(buckets, key, log), key, log),
{
    assert(tallied(buckets, key, log).dom() =~= buckets.dom().insert(key));
}

proof fn lemma_counts_within(
    nested: Map<Seq<char>, Map<Seq<char>, UsageBucket>>,
    key: Seq<char>,
    inner: Seq<char>,
    log: RequestLogView,
)
    ensures
        counts_within(nested, tallied_nested(nested, key, inner, log), key, inner, log),
{
    lemma_counts_at(buckets_at(nested, key), inner, log);
    assert(tallied_nested(nested, key, inner, log).dom() =~= nested.dom().insert(key));
}

/// A part of the ledger counts a request in its total, and in each table at the
/// key that the request has there: its day, its month, its channel, its source, its
/// model and its route.
pub open spec fn part_counts(
    before: UsageBreakdownView,
    after: UsageBreakdownView,
    log: RequestLogView,
) -> bool {
    let source = said_or(log.source, "unknown-source"@);
    &&& counts_one_more(before.total, after.total, log)
    &&& counts_at(before.by_day, after.by_day, log.day, log)
    &&& counts_at(before.by_month, after.by_month, log.month, log)
    &&& counts_at(
        before.by_channel,
        after.by_channel,
        said_or(log.channel, "unknown-channel"@),
        log,
    )
    &&& counts_at(before.by_source, after.by_source, source, log)
    &&& counts_within(before.by_source_day, after.by_source_day, source, log.day, log)
    &&& counts_within(before.by_source_month, after.by_source_month, source, log.month, log)
    &&& counts_at(before.by_model, after.by_model, said_or(log.model, "unknown-model"@), log)
    &&& counts_at(before.by_route, after.by_route, said_or(log.route, "unknown-route"@), log)
}

proof fn lemma_part_counts(part: UsageBreakdownView, log: RequestLogView)
    ensures
        part_counts(part, part.with_log(log), log),
{
    let source = said_or(log.source, "unknown-source"@);
    lemma_counts_at(part.by_day, log.day, log);
    lemma_counts_at(part.by_month, log.month, log);
    lemma_counts_at(part.by_channel, said_or(log.channel, "unknown-channel"@), log);
    lemma_counts_at(part.by_source, source, log);
    lemma_counts_within(part.by_source_day, source, log.day, log);
    lemma_counts_within(part.by_source_month, source, log.month, log);
    lemma_counts_at(part.by_model, said_or(log.model, "unknown-model"@), log);
    lemma_counts_at(part.by_route, said_or(log.route, "unknown-route"@), log);
}

/// A request that is recorded grows each counter of the total by the number of the
/// same name, up to what the counter can hold; it does the same in each table, at
/// the key that the request has there and at no other; and it does all this once
/// more in the paid part, where its model or its cost is paid for, and in the free
/// part otherwise, while the other part stays.
pub proof fn law_record_counts(ledger: UsageStatsView, log: RequestLogView)
    ensures
        ({
            let after = ledger.with_log(log);
            let source = said_or(log.source, "unknown-source"@);
            let name = text::lowercase(log.model);
            let paid = log.cost_nano_cny > 100 || text::contains_text(name, "deepseek"@)
                || text::contains_text(name, "v4-flash"@);
            &&& counts_one_more(ledger.total, after.total, log)
            &&& counts_at(ledger.by_day, after.by_day, log.day, log)
            &&& counts_at(ledger.by_month, after.by_month, log.month, log)
            &&& counts_at(
                ledger.by_channel,
                after.by_channel,
                said_or(log.channel, "unknown-channel"@),
                log,
            )
            &&& counts_at(ledger.by_source, after.by_source, source, log)
            &&& counts_within(ledger.by_source_day, after.by_source_day, source, log.day, log)
            &&& counts_within(ledger.by_source_month, after.by_source_month, source, log.month, log)
            &&& counts_at(ledger.by_model, after.by_model, said_or(log.model, "unknown-model"@), log)
            &&& counts_at(ledger.by_route, after.by_route, said_or(log.route, "unknown-route"@), log)
            &&& paid ==> part_counts(ledger.paid, after.paid, log) && after.free == ledger.free
            &&& !paid ==> part_counts(ledger.free, after.free, log) && after.paid == ledger.paid
        }),
{
    let source = said_or(log.source, "unknown-source"@);
    usage::law_paid_use(log.model, log.cost_nano_cny);
    lemma_counts_at(ledger.by_day, log.day, log);
    lemma_counts_at(ledger.by_month, log.month, log);
    lemma_counts_at(ledger.by_channel, said_or(log.channel, "unknown-channel"@), log);
    lemma_counts_at(ledger.by_source, source, log);
    lemma_counts_within(ledger.by_source_day, source, log.day, log);
    lemma_counts_within(ledger.by_source_month, source, log.month, log);
    lemma_counts_at(ledger.by_model, said_or(log.model, "unknown-model"@), log);
    lemma_counts_at(ledger.by_route, said_or(log.route, "unknown-route"@), log);
    lemma_part_counts(ledger.paid, log);
    lemma_part_counts(ledger.free, log);
}

/// Of the logs the last two hundred are kept, in their order.
pub proof fn law_last_logs_kept(ledger: UsageStatsView, log: RequestLogView, back: int)
    requires
        0 <= back < 200,
        back <= ledger.recent.len(),
        ledger.recent.len() <= 200,
    ensures
        ({
            let before = ledger.recent;
            let after = ledger.with_log(log).recent;
            &&& after.len() == capped(before.len() as int, 1, 200)
            &&& back == 0 ==> after[after.len() - 1] == log
            &&& back > 0 ==> after[after.len() - 1 - back] == before[before.len() - back]
        }),
{
}

/// Adding up two buckets adds up each of their counters, and nothing else; taking
/// the second off again leaves the first, as long as the counts fit.
pub proof fn law_buckets_add_up(a: UsageBucket, b: UsageBucket)
    ensures
        ({
            let both = sum(a, b);
            let top = u64::MAX as int;
            &&& both.requests == capped(a.requests as int, b.requests as int, top)
            &&& both.success == capped(a.success as int, b.success as int, top)
            &&& both.errors == capped(a.errors as int, b.errors as int, top)
            &&& both.latency_ms == capped(a.latency_ms as int, b.latency_ms as int, top)
            &&& both.prompt_tokens == capped(a.prompt_tokens as int, b.prompt_tokens as int, top)
            &&& both.cached_tokens == capped(a.cached_tokens as int, b.cached_tokens as int, top)
            &&& both.uncached_prompt_tokens == capped(
                a.uncached_prompt_tokens as int,
                b.uncached_prompt_tokens as int,
                top,
            )
            &&& both.completion_tokens == capped(
                a.completion_tokens as int,
                b.completion_tokens as int,
                top,
            )
            &&& both.total_tokens == capped(a.total_tokens as int, b.total_tokens as int, top)
            &&& both.cost_nano_cny == capped(
                a.cost_nano_cny as int,
                b.cost_nano_cny as int,
                u128::MAX as int,
            )
        }),
        a.requests + b.requests <= u64::MAX ==> difference(sum(a, b), b).requests == a.requests,
        a.success + b.success <= u64::MAX ==> difference(sum(a, b), b).success == a.success,
        a.errors + b.errors <= u64::MAX ==> difference(sum(a, b), b).errors == a.errors,
        a.latency_ms + b.latency_ms <= u64::MAX ==> difference(sum(a, b), b).latency_ms
            == a.latency_ms,
        a.prompt_tokens + b.prompt_tokens <= u64::MAX ==> difference(sum(a, b), b).prompt_tokens
            == a.prompt_tokens,
        a.cached_tokens + b.cached_tokens <= u64::MAX ==> difference(sum(a, b), b).cached_tokens
            == a.cached_tokens,
        a.uncached_prompt_tokens + b.uncached_prompt_tokens <= u64::MAX ==> difference(
            sum(a, b),
            b,
        ).uncached_prompt_tokens == a.uncached_prompt_tokens,
        a.completion_tokens + b.completion_tokens <= u64::MAX ==> difference(
            sum(a, b),
            b,
        ).completion_tokens == a.completion_tokens,
        a.total_tokens + b.total_tokens <= u64::MAX ==> difference(sum(a, b), b).total_tokens
            == a.total_tokens,
        a.cost_nano_cny + b.cost_nano_cny <= u128::MAX ==> difference(sum(a, b), b).cost_nano_cny
            == a.cost_nano_cny,
        difference(a, sum(a, b)) == no_usage(),
{
}

/// A bucket counts something where it counts a request, a token of a prompt or of
/// an answer, a token in all or a cost; the other counters do not matter.
pub proof fn law_usage_counts(bucket: UsageBucket)
    ensures
        !has_usage(bucket) <==> bucket.requests == 0 && bucket.total_tokens == 0
            && bucket.prompt_tokens == 0 && bucket.completion_tokens == 0 && bucket.cost_nano_cny
            == 0,
        !has_usage(no_usage()),
{
}

/// The use of a model that is put into a part stands there under the model, adds to
/// the total, and to the month where one is named; nothing else changes.
pub proof fn law_model_put_in(
    part: UsageBreakdownView,
    model: Seq<char>,
    bucket: UsageBucket,
    month: Option<Seq<char>>,
)
    ensures
        ({
            let after = part.with_model(model, bucket, month);
            &&& after.total == sum(part.total, bucket)
            &&& after.by_model == part.by_model.insert(model, bucket)
            &&& month is None ==> after.by_month == part.by_month
            &&& month matches Some(name) ==> after.by_month[name] == sum(
                bucket_at(part.by_month, name),
                bucket,
            ) && after.by_month.dom() == part.by_month.dom().insert(name)
            &&& forall|name: Seq<char>|
                month != Some(name) && part.by_month.dom().contains(name)
                    ==> #[trigger] after.by_month[name] == part.by_month[name]
            &&& after.by_day == part.by_day && after.by_channel == part.by_channel
            &&& after.by_source == part.by_source && after.by_route == part.by_route
            &&& after.by_source_day == part.by_source_day
            &&& after.by_source_month == part.by_source_month
        }),
{
}

/// A part whose usage is put down to one source counts all of it there, and in the
/// month where one is named; a part without usage stays as it is.
pub proof fn law_single_source(
    part: UsageBreakdownView,
    source: Seq<char>,
    month: Seq<char>,
)
    ensures
        ({
            let after = part.with_single_source(source, Some(month));
            &&& !has_usage(part.total) ==> after == part
            &&& has_usage(part.total) ==> after.by_source == part.by_source.insert(
                source,
                part.total,
            )
            &&& has_usage(part.total) && part.by_month.dom().contains(month)
                ==> after.by_source_month.dom().contains(source)
                && after.by_source_month[source].dom().contains(month)
                && after.by_source_month[source][month] == part.by_month[month]
            &&& !part.by_month.dom().contains(month) ==> after.by_source_month
                == part.by_source_month
            &&& part.with_single_source(source, None).by_source_month == part.by_source_month
            &&& part.with_single_source(source, None).by_source == after.by_source
            &&& after.total == part.total && after.by_model == part.by_model
            &&& after.by_month == part.by_month && after.by_day == part.by_day
        }),
{
}

/// Taking one bucket off another takes off each counter, down to nothing; taking off one more
/// bucket is taking it off what is left.
pub proof fn law_taken_off(a: UsageBucket, b: UsageBucket, items: Seq<UsageBucket>)
    ensures
        ({
            let rest = difference(a, b);
            &&& rest.requests == (if a.requests > b.requests {
                a.requests - b.requests
            } else {
                0
            })
            &&& rest.success == (if a.success > b.success {
                a.success - b.success
            } else {
                0
            })
            &&& rest.errors == (if a.errors > b.errors {
                a.errors - b.errors
            } else {
                0
            })
            &&& rest.latency_ms == (if a.latency_ms > b.latency_ms {
                a.latency_ms - b.latency_ms
            } else {
                0
            })
            &&& rest.prompt_tokens == (if a.prompt_tokens > b.prompt_tokens {
                a.prompt_tokens - b.prompt_tokens
            } else {
                0
            })
            &&& rest.cached_tokens == (if a.cached_tokens > b.cached_tokens {
                a.cached_tokens - b.cached_tokens
            } else {
                0
            })
            &&& rest.uncached_prompt_tokens == (if a.uncached_prompt_tokens
                > b.uncached_prompt_tokens {
                a.uncached_prompt_tokens - b.uncached_prompt_tokens
            } else {
                0
            })
            &&& rest.completion_tokens == (if a.completion_tokens > b.completion_tokens {
                a.completion_tokens - b.completion_tokens
            } else {
                0
            })
            &&& rest.total_tokens == (if a.total_tokens > b.total_tokens {
                a.total_tokens - b.total_tokens
            } else {
                0
            })
            &&& rest.cost_nano_cny == (if a.cost_nano_cny > b.cost_nano_cny {
                a.cost_nano_cny - b.cost_nano_cny
            } else {
                0
            })
        }),
        remainder(a, Seq::<UsageBucket>::empty()) == a,
        remainder(a, items.push(b)) == difference(remainder(a, items), b),
{
    assert(items.push(b).drop_last() =~= items);
}

/// A new ledger counts nothing, at no key, and has no logs; where nothing is counted at a key,
/// nothing is read there, and what is counted is read as it is.
pub proof fn law_new_ledger(key: Seq<char>, buckets: Map<Seq<char>, UsageBucket>)
    ensures
        ({
            let fresh = empty_stats();
            &&& fresh.total.requests == 0 && fresh.total.total_tokens == 0
            &&& fresh.total.cost_nano_cny == 0 && fresh.total.errors == 0
            &&& fresh.total.success == 0 && fresh.total.latency_ms == 0
            &&& fresh.total.prompt_tokens == 0 && fresh.total.completion_tokens == 0
            &&& fresh.total.cached_tokens == 0 && fresh.total.uncached_prompt_tokens == 0
            &&& fresh.paid.total == fresh.total && fresh.free.total == fresh.total
            &&& !fresh.by_day.dom().contains(key) && !fresh.by_month.dom().contains(key)
            &&& !fresh.by_model.dom().contains(key) && !fresh.by_source.dom().contains(key)
            &&& !fresh.by_route.dom().contains(key) && !fresh.by_channel.dom().contains(key)
            &&& !fresh.by_source_day.dom().contains(key)
            &&& !fresh.by_source_month.dom().contains(key)
            &&& !fresh.paid.by_model.dom().contains(key) && !fresh.free.by_model.dom().contains(key)
            &&& !fresh.paid.by_source.dom().contains(key)
            &&& !fresh.free.by_source.dom().contains(key)
            &&& fresh.recent.len() == 0
            &&& buckets.dom().contains(key) ==> bucket_at(buckets, key) == buckets[key]
            &&& !buckets.dom().contains(key) ==> bucket_at(buckets, key) == fresh.total
        }),
{
}

} // verus!
