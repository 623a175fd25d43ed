//! Repairs to a ledger that was kept before usage was told apart by payment and
//! by source.
use crate::ordered::OrderedMap;
use crate::stats;
use crate::stats::{UsageBreakdown, UsageBreakdownView, UsageBucket, UsageStats};
use crate::text;
use crate::usage;
use crate::usage::{RequestLog, RequestLogView};
use vstd::prelude::*;
use vstd::string::*;

verus! {

/// The requests that `buckets` count at `keys`.
pub open spec fn requests_at(keys: Seq<Seq<char>>, buckets: Map<Seq<char>, UsageBucket>) -> nat
    decreases keys.len(),
{
    if keys.len() == 0 {
        0
    } else {
        requests_at(keys.drop_last(), buckets) + buckets[keys.last()].requests as nat
    }
}

/// The requests that `buckets` count.
pub open spec fn total_requests(buckets: OrderedMap<UsageBucket>) -> nat {
    requests_at(buckets.keys(), buckets@)
}

proof fn lemma_requests_grow(
    keys: Seq<Seq<char>>,
    buckets: Map<Seq<char>, UsageBucket>,
    count: int,
)
    requires
        0 <= count <= keys.len(),
    ensures
        requests_at(keys.take(count), buckets) <= requests_at(keys, buckets),
    decreases keys.len(),
{
    if count == keys.len() {
        assert(keys.take(count) =~= keys);
    } else {
        lemma_requests_grow(keys.drop_last(), buckets, count);
        assert(keys.drop_last().take(count) =~= keys.take(count));
    }
}

/// The requests that `buckets` count.
fn sum_requests(buckets: &OrderedMap<UsageBucket>) -> (r: u64)
    requires
        buckets.wf(),
        total_requests(*buckets) <= u64::MAX,
    ensures
        r == total_requests(*buckets),
{
    let mut out: u64 = 0;
    let mut i: usize = 0;
    assert(buckets.keys().take(0) =~= Seq::<Seq<char>>::empty());
    while i < buckets.len()
        invariant
            buckets.wf(),
            i <= buckets.keys().len(),
            total_requests(*buckets) <= u64::MAX,
            out == requests_at(buckets.keys().take(i as int), buckets@),
        decreases buckets.keys().len() - i,
    {
        let (_, bucket): (&String, &UsageBucket) = buckets.entry_at(i);
        proof {
            lemma_requests_grow(buckets.keys(), buckets@, i + 1);
            assert(buckets.keys().take(i + 1).drop_last() =~= buckets.keys().take(i as int));
        }
        out = out + bucket.requests;
        i += 1;
    }
    assert(buckets.keys().take(buckets.keys().len() as int) =~= buckets.keys());
    out
}

/// Do the requests that `buckets` count fit in 64 bits?
pub fn requests_fit(buckets: &OrderedMap<UsageBucket>) -> (r: bool)
    requires
        buckets.wf(),
    ensures
        r == (total_requests(*buckets) <= u64::MAX),
{
    let mut out: u64 = 0;
    let mut i: usize = 0;
    assert(buckets.keys().take(0) =~= Seq::<Seq<char>>::empty());
    while i < buckets.len()
        invariant
            buckets.wf(),
            i <= buckets.keys().len(),
            out == requests_at(buckets.keys().take(i as int), buckets@),
        decreases buckets.keys().len() - i,
    {
        let (_, bucket): (&String, &UsageBucket) = buckets.entry_at(i);
        proof {
            lemma_requests_grow(buckets.keys(), buckets@, i + 1);
            assert(buckets.keys().take(i + 1).drop_last() =~= buckets.keys().take(i as int));
        }
        if bucket.requests > u64::MAX - out {
            return false;
        }
        out = out + bucket.requests;
        i += 1;
    }
    assert(buckets.keys().take(buckets.keys().len() as int) =~= buckets.keys());
    true
}

/// The only key, where there is just one.
pub open spec fn only_key<V>(entries: OrderedMap<V>) -> Option<Seq<char>> {
    if entries.keys().len() == 1 {
        Some(entries.keys()[0])
    } else {
        None
    }
}

/// The source to which usage is put down that is not told apart by source: the
/// only source that is known, or a made-up one where there are several.
pub open spec fn legacy_source(sources: OrderedMap<UsageBucket>) -> Option<Seq<char>> {
    if sources.keys().len() > 1 {
        Some("历史来源未拆分"@)
    } else {
        only_key(sources)
    }
}

/// The use of those of `models` that are paid for, or of those that are free.
pub open spec fn billed(
    models: Seq<Seq<char>>,
    buckets: Map<Seq<char>, UsageBucket>,
    paid: bool,
    month: Option<Seq<char>>,
) -> UsageBreakdownView
    decreases models.len(),
{
    if models.len() == 0 {
        stats::empty_breakdown()
    } else {
        let before = billed(models.drop_last(), buckets, paid, month);
        let model = models.last();
        if usage::paid_use(model, buckets[model].cost_nano_cny) == paid {
            before.with_model(model, buckets[model], month)
        } else {
            before
        }
    }
}

/// The paid or the free part of the ledger, as its use of models shows it.
pub open spec fn rebuilt(ledger: UsageStats, paid: bool) -> UsageBreakdownView {
    let month = only_key(ledger.by_month);
    let part = billed(ledger.by_model.keys(), ledger.by_model@, paid, month);
    match legacy_source(ledger.by_source) {
        Some(source) => part.with_single_source(source, month),
        None => part,
    }
}

/// The two parts of the ledger count fewer requests than the whole, or a part
/// lacks its sources though sources are known.
pub open spec fn needs_rebuild(ledger: UsageStats) -> bool {
    let billing = ledger.paid.total.requests.saturating_add(ledger.free.total.requests);
    ||| billing < ledger.total.requests
    ||| billing < total_requests(ledger.by_model)
    ||| {
        &&& ledger.by_source.keys().len() > 0
        &&& stats::has_usage(ledger.paid.total) || stats::has_usage(ledger.free.total)
        &&& ledger.paid.by_source.keys().len() == 0 || ledger.free.by_source.keys().len() == 0
    }
}

/// `after` is the ledger `before` with its two parts rebuilt where they need it.
pub open spec fn rebuilt_from(before: UsageStats, after: UsageStats) -> bool {
    if needs_rebuild(before) {
        &&& after == UsageStats { paid: after.paid, free: after.free, ..before }
        &&& after.paid@ == rebuilt(before, true)
        &&& after.free@ == rebuilt(before, false)
    } else {
        after == before
    }
}

/// The only key, where there is just one.
fn single_key(entries: &OrderedMap<UsageBucket>) -> (r: Option<&String>)
    requires
        entries.wf(),
    ensures
        match r {
            Some(key) => only_key(*entries) == Some(key@),
            None => only_key(*entries) is None,
        },
{
    if entries.len() == 1 {
        let (key, _): (&String, &UsageBucket) = entries.entry_at(0);
        Some(key)
    } else {
        None
    }
}

impl UsageStats {
    /// Rebuilds the paid and the free part of the ledger from its use of models,
    /// where they do not account for all requests or lack their sources.
    pub fn rebuild_billing_if_empty(&mut self)
        requires
            old(self).wf(),
            total_requests(old(self).by_model) <= u64::MAX,
        ensures
            final(self).wf(),
            rebuilt_from(*old(self), *final(self)),
    {
        let billing_requests: u64 = self.paid.total.requests.saturating_add(
            self.free.total.requests,
        );
        let model_requests: u64 = sum_requests(&self.by_model);
        let source_needs_backfill: bool = !self.by_source.is_empty() && (stats::bucket_has_usage(
            &self.paid.total,
        ) || stats::bucket_has_usage(&self.free.total)) && (self.paid.by_source.is_empty()
            || self.free.by_source.is_empty());
        if billing_requests >= self.total.requests && billing_requests >= model_requests
            && !source_needs_backfill {
            return;
        }
        let month_hint: Option<&str> = match single_key(&self.by_month) {
            Some(key) => Some(key.as_str()),
            None => None,
        };
        let ghost month = text::maybe_str(month_hint);
        let mut paid: UsageBreakdown = UsageBreakdown::default();
        let mut free: UsageBreakdown = UsageBreakdown::default();
        let ghost models = self.by_model.keys();
        let mut i: usize = 0;
        assert(models.take(0) =~= Seq::<Seq<char>>::empty());
        while i < self.by_model.len()
            invariant
                self.by_model.wf(),
                paid.wf(),
                free.wf(),
                models == self.by_model.keys(),
                i <= models.len(),
                month == text::maybe_str(month_hint),
                paid@ == billed(models.take(i as int), self.by_model@, true, month),
                free@ == billed(models.take(i as int), self.by_model@, false, month),
            decreases models.len() - i,
        {
            let (model, bucket): (&String, &UsageBucket) = self.by_model.entry_at(i);
            assert(models.take(i + 1).drop_last() =~= models.take(i as int));
            if usage::is_paid_usage(model.as_str(), bucket.cost_nano_cny) {
                paid.add_model_bucket(model.as_str(), bucket, month_hint);
            } else {
                free.add_model_bucket(model.as_str(), bucket, month_hint);
            }
            i += 1;
        }
        assert(models.take(models.len() as int) =~= models);
        let source: Option<&str> = if self.by_source.len() > 1 {
            Some("历史来源未拆分")
        } else {
            match single_key(&self.by_source) {
                Some(key) => Some(key.as_str()),
                None => None,
            }
        };
        if let Some(source) = source {
            paid.backfill_single_source(source, month_hint);
            free.backfill_single_source(source, month_hint);
        }
        self.paid = paid;
        self.free = free;
    }
}

/// Rebuilding a ledger that has just been rebuilt changes nothing more.
pub proof fn law_rebuild_once(before: UsageStats, once: UsageStats, twice: UsageStats)
    requires
        rebuilt_from(before, once),
        rebuilt_from(once, twice),
    ensures
        twice@ == once@,
{
}

/// In the rebuilt parts each model stands on one side: among what is paid for
/// exactly where its use is paid for, with the usage that the ledger counts for it.
pub proof fn law_rebuilt_models(ledger: UsageStats, model: Seq<char>)
    requires
        ledger.by_model.wf(),
    ensures
        ({
            let bucket = ledger.by_model@[model];
            let paid = usage::paid_use(model, bucket.cost_nano_cny);
            &&& rebuilt(ledger, true).by_model.dom().contains(model) == (
            ledger.by_model@.dom().contains(model) && paid)
            &&& rebuilt(ledger, false).by_model.dom().contains(model) == (
            ledger.by_model@.dom().contains(model) && !paid)
            &&& ledger.by_model@.dom().contains(model) ==> rebuilt(ledger, paid).by_model[model]
                == bucket
        }),
{
    ledger.by_model.lemma_keys();
    let models = ledger.by_model.keys();
    let month = only_key(ledger.by_month);
    lemma_billed(models, ledger.by_model@, true, month, model);
    lemma_billed(models, ledger.by_model@, false, month, model);
    assert(ledger.by_model@.dom().contains(model) == models.contains(model));
}

proof fn lemma_billed(
    models: Seq<Seq<char>>,
    buckets: Map<Seq<char>, UsageBucket>,
    paid: bool,
    month: Option<Seq<char>>,
    model: Seq<char>,
)
    ensures
        ({
            let part = billed(models, buckets, paid, month);
            let here = models.contains(model) && usage::paid_use(
                model,
                buckets[model].cost_nano_cny,
            ) == paid;
            &&& part.by_model.dom().contains(model) == here
            &&& here ==> part.by_model[model] == buckets[model]
        }),
    decreases models.len(),
{
    if models.len() > 0 {
        let fewer = models.drop_last();
        lemma_billed(fewer, buckets, paid, month, model);
        assert(models.contains(model) == (fewer.contains(model) || models.last() == model)) by {
            if models.contains(model) {
                let i = choose|i: int| 0 <= i < models.len() && models[i] == model;
                if i < fewer.len() {
                    assert(fewer[i] == model);
                }
            }
            if fewer.contains(model) {
                let i = choose|i: int| 0 <= i < fewer.len() && fewer[i] == model;
                assert(models[i] == model);
            }
            assert(models[models.len() - 1] == models.last());
        }
    }
}

/// `source` keeps what is counted for it: it is neither the source that takes
/// over the rest nor the unknown one.
pub open spec fn own_source(source: Seq<char>, default_source: Seq<char>) -> bool {
    source != default_source && source != "unknown-source"@
}

/// What is counted for `source` and stays with it.
pub open spec fn kept_bucket(
    buckets: Map<Seq<char>, UsageBucket>,
    source: Seq<char>,
    default_source: Seq<char>,
) -> Option<UsageBucket> {
    if buckets.dom().contains(source) && own_source(source, default_source) && stats::has_usage(
        buckets[source],
    ) {
        Some(buckets[source])
    } else {
        None
    }
}

/// What stays with `sources`, one after the other.
pub open spec fn kept_buckets(
    sources: Seq<Seq<char>>,
    buckets: Map<Seq<char>, UsageBucket>,
    default_source: Seq<char>,
) -> Seq<UsageBucket>
    decreases sources.len(),
{
    if sources.len() == 0 {
        Seq::empty()
    } else {
        let before = kept_buckets(sources.drop_last(), buckets, default_source);
        match kept_bucket(buckets, sources.last(), default_source) {
            Some(bucket) => before.push(bucket),
            None => before,
        }
    }
}

/// What is counted for `source` once the usage that stays with no source has
/// been put down to `default_source`.
pub open spec fn filled_bucket(
    existing: OrderedMap<UsageBucket>,
    total: UsageBucket,
    default_source: Seq<char>,
    source: Seq<char>,
) -> Option<UsageBucket> {
    if source == default_source {
        let rest = stats::remainder(
            total,
            kept_buckets(existing.keys(), existing@, default_source),
        );
        if stats::has_usage(rest) {
            Some(rest)
        } else {
            None
        }
    } else {
        kept_bucket(existing@, source, default_source)
    }
}

/// `existing` with the usage that stays with no source put down to `default_source`.
pub open spec fn filled(
    existing: OrderedMap<UsageBucket>,
    total: UsageBucket,
    default_source: Seq<char>,
) -> Map<Seq<char>, UsageBucket> {
    Map::new(
        |source: Seq<char>| filled_bucket(existing, total, default_source, source) is Some,
        |source: Seq<char>| filled_bucket(existing, total, default_source, source)->0,
    )
}

/// `existing` with the usage of `total` that stays with no source put down to
/// `default_source`.
pub fn backfill_source_map(
    existing: &OrderedMap<UsageBucket>,
    total: &UsageBucket,
    default_source: &str,
) -> (r: OrderedMap<UsageBucket>)
    requires
        existing.wf(),
    ensures
        r.wf(),
        r@ == filled(*existing, *total, default_source@),
{
    let ghost sources = existing.keys();
    let mut out: OrderedMap<UsageBucket> = OrderedMap::new();
    let mut preserved: Vec<UsageBucket> = Vec::new();
    let mut i: usize = 0;
    proof {
        existing.lemma_keys();
        assert(sources.take(0) =~= Seq::<Seq<char>>::empty());
    }
    while i < existing.len()
        invariant
            existing.wf(),
            out.wf(),
            sources == existing.keys(),
            sources.no_duplicates(),
            i <= sources.len(),
            preserved@ == kept_buckets(sources.take(i as int), existing@, default_source@),
            forall|source: Seq<char>| #[trigger]
                out@.dom().contains(source) <==> sources.take(i as int).contains(source)
                    && kept_bucket(existing@, source, default_source@) is Some,
            forall|source: Seq<char>|
                out@.dom().contains(source) ==> #[trigger] out@[source] == existing@[source],
        decreases sources.len() - i,
    {
        let (source, bucket): (&String, &UsageBucket) = existing.entry_at(i);
        let ghost before = out@;
        assert(sources.take(i + 1).drop_last() =~= sources.take(i as int));
        if !text::same_text(source.as_str(), default_source) && !text::same_text(
            source.as_str(),
            "unknown-source",
        ) && stats::bucket_has_usage(bucket) {
            out.insert(source.clone(), *bucket);
            preserved.push(*bucket);
        }
        proof {
            assert(sources.take(i + 1) =~= sources.take(i as int).push(sources[i as int]));
            assert forall|other: Seq<char>|
                sources.take(i + 1).contains(other) == (sources.take(i as int).contains(other)
                    || other == sources[i as int]) by {
                lemma_push_contains(sources.take(i as int), sources[i as int], other);
            }
        }
        i += 1;
    }
    assert(sources.take(sources.len() as int) =~= sources);
    let default_bucket: UsageBucket = stats::subtract_buckets(total, &preserved);
    if stats::bucket_has_usage(&default_bucket) {
        out.insert(default_source.to_owned(), default_bucket);
    }
    assert(out@ =~= filled(*existing, *total, default_source@));
    out
}

proof fn lemma_push_contains(s: Seq<Seq<char>>, x: Seq<char>, y: Seq<char>)
    ensures
        s.push(x).contains(y) == (s.contains(y) || x == y),
{
    if s.contains(y) {
        let i = choose|i: int| 0 <= i < s.len() && s[i] == y;
        assert(s.push(x)[i] == y);
    }
    if s.push(x).contains(y) {
        let i = choose|i: int| 0 <= i < s.push(x).len() && s.push(x)[i] == y;
        if i < s.len() {
            assert(s[i] == y);
        }
    }
    assert(s.push(x)[s.len() as int] == x);
}

/// What is counted for `source` and `period`.
pub open spec fn cell(
    nested: Map<Seq<char>, Map<Seq<char>, UsageBucket>>,
    source: Seq<char>,
    period: Seq<char>,
) -> Option<UsageBucket> {
    if nested.dom().contains(source) && nested[source].dom().contains(period) {
        Some(nested[source][period])
    } else {
        None
    }
}

/// What is counted for `source` and `period` and stays with the source.
pub open spec fn kept_cell(
    nested: Map<Seq<char>, Map<Seq<char>, UsageBucket>>,
    source: Seq<char>,
    period: Seq<char>,
    default_source: Seq<char>,
) -> Option<UsageBucket> {
    match cell(nested, source, period) {
        Some(bucket) if own_source(source, default_source) && stats::has_usage(bucket) => Some(
            bucket,
        ),
        _ => None,
    }
}

/// What stays with `sources` in `period`, one after the other.
pub open spec fn kept_cells(
    sources: Seq<Seq<char>>,
    nested: Map<Seq<char>, Map<Seq<char>, UsageBucket>>,
    period: Seq<char>,
    default_source: Seq<char>,
) -> Seq<UsageBucket>
    decreases sources.len(),
{
    if sources.len() == 0 {
        Seq::empty()
    } else {
        let before = kept_cells(sources.drop_last(), nested, period, default_source);
        match kept_cell(nested, sources.last(), period, default_source) {
            Some(bucket) => before.push(bucket),
            None => before,
        }
    }
}

/// What is counted for `source` and `period` once the usage of each period that
/// stays with no source has been put down to `default_source`.
pub open spec fn filled_cell(
    existing: OrderedMap<OrderedMap<UsageBucket>>,
    totals: Map<Seq<char>, UsageBucket>,
    default_source: Seq<char>,
    source: Seq<char>,
    period: Seq<char>,
) -> Option<UsageBucket> {
    let nested = stats::nested_views(existing@);
    if !totals.dom().contains(period) {
        None
    } else if source == default_source {
        let rest = stats::remainder(
            totals[period],
            kept_cells(existing.keys(), nested, period, default_source),
        );
        if stats::has_usage(rest) {
            Some(rest)
        } else {
            None
        }
    } else {
        kept_cell(nested, source, period, default_source)
    }
}

/// `existing` with the usage of each period that stays with no source put down
/// to `default_source`.
pub open spec fn filled_nested(
    existing: OrderedMap<OrderedMap<UsageBucket>>,
    totals: Map<Seq<char>, UsageBucket>,
    default_source: Seq<char>,
) -> Map<Seq<char>, Map<Seq<char>, UsageBucket>> {
    Map::new(
        |source: Seq<char>|
            exists|period: Seq<char>| #[trigger]
                filled_cell(existing, totals, default_source, source, period) is Some,
        |source: Seq<char>|
            Map::new(
                |period: Seq<char>|
                    filled_cell(existing, totals, default_source, source, period) is Some,
                |period: Seq<char>|
                    filled_cell(existing, totals, default_source, source, period)->0,
            ),
    )
}

/// Every source in `nested` has a period.
spec fn no_hollow(nested: Map<Seq<char>, Map<Seq<char>, UsageBucket>>) -> bool {
    forall|source: Seq<char>| #[trigger]
        nested.dom().contains(source) ==> exists|period: Seq<char>| #[trigger]
            nested[source].dom().contains(period)
}

/// What `nested` counts once `bucket` stands at `source` and `period`.
proof fn lemma_cell_insert(
    nested: Map<Seq<char>, Map<Seq<char>, UsageBucket>>,
    source: Seq<char>,
    period: Seq<char>,
    bucket: UsageBucket,
)
    ensures
        ({
            let more = nested.insert(
                source,
                stats::buckets_at(nested, source).insert(period, bucket),
            );
            &&& forall|s: Seq<char>, p: Seq<char>| #[trigger]
                cell(more, s, p) == (if s == source && p == period {
                    Some(bucket)
                } else {
                    cell(nested, s, p)
                })
            &&& no_hollow(nested) ==> no_hollow(more)
        }),
{
    let more = nested.insert(source, stats::buckets_at(nested, source).insert(period, bucket));
    if no_hollow(nested) {
        assert forall|s: Seq<char>| #[trigger] more.dom().contains(s) implies exists|p: Seq<char>|
            #[trigger]
            more[s].dom().contains(p) by {
            if s == source {
                assert(more[s].dom().contains(period));
            } else {
                assert(nested.dom().contains(s));
                let p = choose|p: Seq<char>| #[trigger] nested[s].dom().contains(p);
                assert(more[s].dom().contains(p));
            }
        }
    }
}

/// `existing` with the usage of each period of `totals` that stays with no source
/// put down to `default_source`.
pub fn backfill_source_nested_map(
    existing: &OrderedMap<OrderedMap<UsageBucket>>,
    totals: &OrderedMap<UsageBucket>,
    default_source: &str,
) -> (r: OrderedMap<OrderedMap<UsageBucket>>)
    requires
        stats::nested_wf(*existing),
        totals.wf(),
    ensures
        stats::nested_wf(r),
        stats::nested_views(r@) == filled_nested(*existing, totals@, default_source@),
{
    let ghost nested = stats::nested_views(existing@);
    let ghost sources = existing.keys();
    let ghost periods = totals.keys();
    let mut out: OrderedMap<OrderedMap<UsageBucket>> = OrderedMap::new();
    let mut i: usize = 0;
    proof {
        existing.lemma_keys();
        totals.lemma_keys();
    }
    while i < totals.len()
        invariant
            stats::nested_wf(*existing),
            totals.wf(),
            stats::nested_wf(out),
            nested == stats::nested_views(existing@),
            sources == existing.keys(),
            sources.no_duplicates(),
            forall|source: Seq<char>| #[trigger]
                existing@.dom().contains(source) ==> sources.contains(source),
            periods == totals.keys(),
            periods.no_duplicates(),
            i <= periods.len(),
            no_hollow(stats::nested_views(out@)),
            forall|s: Seq<char>, p: Seq<char>| #[trigger]
                cell(stats::nested_views(out@), s, p) == (if periods.take(i as int).contains(p) {
                    filled_cell(*existing, totals@, default_source@, s, p)
                } else {
                    None
                }),
        decreases periods.len() - i,
    {
        let (period, total): (&String, &UsageBucket) = totals.entry_at(i);
        let ghost start = stats::nested_views(out@);
        let mut preserved: Vec<UsageBucket> = Vec::new();
        let mut j: usize = 0;
        proof {
            assert(sources.take(0) =~= Seq::<Seq<char>>::empty());
            assert(periods.take(i + 1) =~= periods.take(i as int).push(periods[i as int]));
            assert(!periods.take(i as int).contains(period@)) by {
                if periods.take(i as int).contains(period@) {
                    let k = choose|k: int|
                        0 <= k < periods.take(i as int).len() && periods.take(i as int)[k]
                            == period@;
                    assert(periods[k] == periods[i as int]);
                }
            }
        }
        while j < existing.len()
            invariant
                stats::nested_wf(*existing),
                stats::nested_wf(out),
                nested == stats::nested_views(existing@),
                sources == existing.keys(),
                sources.no_duplicates(),
                j <= sources.len(),
                no_hollow(stats::nested_views(out@)),
                preserved@ == kept_cells(
                    sources.take(j as int),
                    nested,
                    period@,
                    default_source@,
                ),
                forall|s: Seq<char>, p: Seq<char>| #[trigger]
                    cell(stats::nested_views(out@), s, p) == (if p == period@ && sources.take(
                        j as int,
                    ).contains(s) && kept_cell(nested, s, p, default_source@) is Some {
                        kept_cell(nested, s, p, default_source@)
                    } else {
                        cell(start, s, p)
                    }),
            decreases sources.len() - j,
        {
            let (source, buckets): (&String, &OrderedMap<UsageBucket>) = existing.entry_at(j);
            let ghost before = stats::nested_views(out@);
            proof {
                assert(existing@[source@].wf());
                assert(sources.take(j + 1).drop_last() =~= sources.take(j as int));
                assert(sources.take(j + 1) =~= sources.take(j as int).push(sources[j as int]));
            }
            let found: Option<UsageBucket> = match buckets.get(period.as_str()) {
                Some(bucket) => Some(*bucket),
                None => None,
            };
            assert(found == cell(nested, source@, period@));
            if !text::same_text(source.as_str(), default_source) && !text::same_text(
                source.as_str(),
                "unknown-source",
            ) {
                if let Some(bucket) = found {
                    if stats::bucket_has_usage(&bucket) {
                        stats::insert_nested(&mut out, source.as_str(), period.as_str(), bucket);
                        preserved.push(bucket);
                        proof {
                            lemma_cell_insert(before, source@, period@, bucket);
                        }
                    }
                }
            }
            proof {
                assert forall|s: Seq<char>|
                    sources.take(j + 1).contains(s) == (sources.take(j as int).contains(s) || s
                        == source@) by {
                    lemma_push_contains(sources.take(j as int), sources[j as int], s);
                }
            }
            j += 1;
        }
        assert(sources.take(sources.len() as int) =~= sources);
        let default_bucket: UsageBucket = stats::subtract_buckets(total, &preserved);
        let ghost before = stats::nested_views(out@);
        if stats::bucket_has_usage(&default_bucket) {
            stats::insert_nested(&mut out, default_source, period.as_str(), default_bucket);
            proof {
                lemma_cell_insert(before, default_source@, period@, default_bucket);
            }
        }
        proof {
            assert forall|s: Seq<char>, p: Seq<char>| #[trigger]
                cell(stats::nested_views(out@), s, p) == (if periods.take(i + 1).contains(p) {
                    filled_cell(*existing, totals@, default_source@, s, p)
                } else {
                    None
                }) by {
                lemma_push_contains(periods.take(i as int), periods[i as int], p);
                assert(cell(start, s, p) == (if periods.take(i as int).contains(p) {
                    filled_cell(*existing, totals@, default_source@, s, p)
                } else {
                    None
                }));
                if p == period@ && kept_cell(nested, s, p, default_source@) is Some {
                    assert(existing@.dom().contains(s));
                    assert(sources.contains(s));
                }
            }
        }
        i += 1;
    }
    proof {
        assert(periods.take(periods.len() as int) =~= periods);
        let got = stats::nested_views(out@);
        let want = filled_nested(*existing, totals@, default_source@);
        assert forall|s: Seq<char>, p: Seq<char>| #[trigger]
            cell(got, s, p) == filled_cell(*existing, totals@, default_source@, s, p) by {
            if totals@.dom().contains(p) {
                assert(periods.contains(p));
            } else if periods.contains(p) {
                let k = choose|k: int| 0 <= k < periods.len() && periods[k] == p;
                assert(totals@.dom().contains(periods[k]));
            }
        }
        assert forall|s: Seq<char>| #[trigger] got.dom().contains(s) == want.dom().contains(s) by {
            if got.dom().contains(s) {
                let p = choose|p: Seq<char>| #[trigger] got[s].dom().contains(p);
                assert(cell(got, s, p) is Some);
                assert(filled_cell(*existing, totals@, default_source@, s, p) is Some);
            }
            if want.dom().contains(s) {
                let p = choose|p: Seq<char>| #[trigger]
                    filled_cell(*existing, totals@, default_source@, s, p) is Some;
                assert(cell(got, s, p) is Some);
            }
        }
        assert forall|s: Seq<char>| #[trigger] got.dom().contains(s) implies got[s]
            == want[s] by {
            assert forall|p: Seq<char>| #[trigger] got[s].dom().contains(p) == want[s].dom().contains(
            p) by {
                assert(cell(got, s, p) == filled_cell(*existing, totals@, default_source@, s, p));
            }
            assert forall|p: Seq<char>| #[trigger] got[s].dom().contains(p) implies got[s][p]
                == want[s][p] by {
                assert(cell(got, s, p) == filled_cell(*existing, totals@, default_source@, s, p));
            }
            assert(got[s] =~= want[s]);
        }
        assert(got =~= want);
    }
    out
}

/// The log `log` with `default_source` for a source that is not known.
pub open spec fn sourced(log: RequestLogView, default_source: Seq<char>) -> RequestLogView {
    if text::blank(log.source) || log.source == "unknown-source"@ {
        RequestLogView { source: default_source, ..log }
    } else {
        log
    }
}

/// `logs` with `default_source` for each source that is not known.
pub open spec fn all_sourced(
    logs: Seq<RequestLogView>,
    default_source: Seq<char>,
) -> Seq<RequestLogView> {
    Seq::new(logs.len(), |i: int| sourced(logs[i], default_source))
}

/// The sources do not account for all requests, or one of them is the unknown one.
pub open spec fn needs_sources(ledger: UsageStats) -> bool {
    total_requests(ledger.by_source) < ledger.total.requests || ledger.by_source@.dom().contains(
        "unknown-source"@,
    )
}

/// What the ledger holds once the usage of unknown source has been put down to
/// `default_source`.
pub open spec fn backfilled(ledger: UsageStats, default_source: Seq<char>) -> stats::UsageStatsView {
    let logs = stats::UsageStatsView {
        recent: all_sourced(ledger@.recent, default_source),
        ..ledger@
    };
    if needs_sources(ledger) {
        stats::UsageStatsView {
            by_source: filled(ledger.by_source, ledger.total, default_source),
            by_source_day: filled_nested(ledger.by_source_day, ledger.by_day@, default_source),
            by_source_month: filled_nested(
                ledger.by_source_month,
                ledger.by_month@,
                default_source,
            ),
            ..logs
        }
    } else {
        logs
    }
}

impl UsageStats {
    /// Puts usage of unknown source down to `default_source`.
    pub fn backfill_default_source(&mut self, default_source: &str)
        requires
            old(self).wf(),
            total_requests(old(self).by_source) <= u64::MAX,
        ensures
            final(self).wf(),
            final(self)@ == backfilled(*old(self), default_source@),
            final(self).by_model == old(self).by_model,
    {
        let ghost before = *self;
        let ghost logs = usage::log_views(before.recent@);
        let mut i: usize = 0;
        while i < self.recent.len()
            invariant
                i <= self.recent@.len(),
                self.recent@.len() == before.recent@.len(),
                logs == usage::log_views(before.recent@),
                *self == (UsageStats { recent: self.recent, ..before }),
                forall|j: int|
                    0 <= j < i ==> (#[trigger] self.recent@[j])@ == sourced(
                        logs[j],
                        default_source@,
                    ),
                forall|j: int| i <= j < self.recent@.len() ==> #[trigger] self.recent@[j] == before.recent@[j],
            decreases self.recent@.len() - i,
        {
            let blank: bool = text::trim(self.recent[i].source.as_str()).is_empty();
            if blank || text::same_text(self.recent[i].source.as_str(), "unknown-source") {
                let mut log: RequestLog = self.recent[i].clone();
                log.source = default_source.to_owned();
                self.recent.set(i, log);
            }
            i += 1;
        }
        assert(usage::log_views(self.recent@) =~= all_sourced(logs, default_source@));
        let source_requests: u64 = sum_requests(&self.by_source);
        if source_requests >= self.total.requests && !self.by_source.contains_key(
            "unknown-source",
        ) {
            return;
        }
        self.by_source = backfill_source_map(&self.by_source, &self.total, default_source);
        self.by_source_day = backfill_source_nested_map(
            &self.by_source_day,
            &self.by_day,
            default_source,
        );
        self.by_source_month = backfill_source_nested_map(
            &self.by_source_month,
            &self.by_month,
            default_source,
        );
    }
}

/// The requests of the ledger, by model and by source, fit in 64 bits.
pub open spec fn countable(ledger: UsageStats) -> bool {
    total_requests(ledger.by_model) <= u64::MAX && total_requests(ledger.by_source) <= u64::MAX
}

/// `after` is the ledger `before` with its unknown sources put down to
/// `default_source` and its two parts rebuilt where they need it.
pub open spec fn repaired_from(
    before: UsageStats,
    default_source: Seq<char>,
    after: UsageStats,
) -> bool {
    exists|filled: UsageStats|
        filled@ == backfilled(before, default_source) && #[trigger] rebuilt_from(filled, after)
}

impl UsageStats {
    /// Repairs a ledger that was read back: puts usage of unknown source down to
    /// `default_source` and rebuilds the two parts. A ledger whose requests cannot
    /// be counted is left as it is.
    pub fn repair(&mut self, default_source: &str) -> (r: bool)
        requires
            old(self).wf(),
        ensures
            final(self).wf(),
            r == countable(*old(self)),
            r ==> repaired_from(*old(self), default_source@, *final(self)),
            !r ==> *final(self) == *old(self),
    {
        if !requests_fit(&self.by_model) || !requests_fit(&self.by_source) {
            return false;
        }
        self.backfill_default_source(default_source);
        let ghost filled = *self;
        self.rebuild_billing_if_empty();
        assert(rebuilt_from(filled, *self));
        true
    }
}

/// Once sources have been filled in, nothing is of unknown source: neither a log
/// nor a count.
pub proof fn law_backfill_leaves_no_unknown(ledger: UsageStats, default_source: Seq<char>)
    requires
        default_source != "unknown-source"@,
        !text::blank(default_source),
    ensures
        ({
            let after = backfilled(ledger, default_source);
            &&& !after.by_source.dom().contains("unknown-source"@)
            &&& forall|i: int|
                0 <= i < after.recent.len() ==> (#[trigger] after.recent[i]).source
                    != "unknown-source"@ && !text::blank(after.recent[i].source)
            &&& needs_sources(ledger) ==> !after.by_source_day.dom().contains(
                "unknown-source"@,
            ) && !after.by_source_month.dom().contains("unknown-source"@)
        }),
{
    assert forall|period: Seq<char>|
        filled_cell(
            ledger.by_source_day,
            ledger.by_day@,
            default_source,
            "unknown-source"@,
            period,
        ) is None && filled_cell(
            ledger.by_source_month,
            ledger.by_month@,
            default_source,
            "unknown-source"@,
            period,
        ) is None by {}
}

proof fn lemma_requests_without(
    keys: Seq<Seq<char>>,
    buckets: Map<Seq<char>, UsageBucket>,
    i: int,
)
    requires
        0 <= i < keys.len(),
    ensures
        requests_at(keys, buckets) == requests_at(keys.remove(i), buckets)
            + buckets[keys[i]].requests,
    decreases keys.len(),
{
    if i == keys.len() - 1 {
        assert(keys.remove(i) =~= keys.drop_last());
    } else {
        lemma_requests_without(keys.drop_last(), buckets, i);
        assert(keys.remove(i).drop_last() =~= keys.drop_last().remove(i));
        assert(keys.remove(i).last() == keys.last());
    }
}

proof fn lemma_requests_of_same_keys(
    a: Seq<Seq<char>>,
    b: Seq<Seq<char>>,
    buckets: Map<Seq<char>, UsageBucket>,
)
    requires
        a.no_duplicates(),
        b.no_duplicates(),
        forall|key: Seq<char>| a.contains(key) <==> b.contains(key),
    ensures
        requests_at(a, buckets) == requests_at(b, buckets),
    decreases a.len(),
{
    if a.len() == 0 {
        if b.len() > 0 {
            assert(b.contains(b[0]));
        }
    } else {
        let last = a[a.len() - 1];
        let rest = a.drop_last();
        assert(a.contains(last));
        let i = choose|i: int| 0 <= i < b.len() && b[i] == last;
        let other = b.remove(i);
        lemma_requests_without(b, buckets, i);
        assert forall|key: Seq<char>| rest.contains(key) <==> other.contains(key) by {
            if rest.contains(key) {
                let j = choose|j: int| 0 <= j < rest.len() && rest[j] == key;
                assert(a[j] == key);
                assert(key != last);
                assert(b.contains(key));
                let k = choose|k: int| 0 <= k < b.len() && b[k] == key;
                if k < i {
                    assert(other[k] == key);
                } else {
                    assert(other[k - 1] == key);
                }
            }
            if other.contains(key) {
                let k = choose|k: int| 0 <= k < other.len() && other[k] == key;
                let at = if k < i {
                    k
                } else {
                    k + 1
                };
                assert(b[at] == key);
                assert(key != last);
                assert(a.contains(key));
                let j = choose|j: int| 0 <= j < a.len() && a[j] == key;
                assert(rest[j] == key);
            }
        }
        assert(other.no_duplicates()) by {
            assert forall|j: int, k: int|
                0 <= j < other.len() && 0 <= k < other.len() && j != k implies other[j]
                    != other[k] by {
                let from = if j < i {
                    j
                } else {
                    j + 1
                };
                let to = if k < i {
                    k
                } else {
                    k + 1
                };
                assert(other[j] == b[from] && other[k] == b[to]);
            }
        }
        lemma_requests_of_same_keys(rest, other, buckets);
    }
}

proof fn lemma_requests_agree(
    keys: Seq<Seq<char>>,
    a: Map<Seq<char>, UsageBucket>,
    b: Map<Seq<char>, UsageBucket>,
)
    requires
        forall|i: int| 0 <= i < keys.len() ==> a[#[trigger] keys[i]] == b[keys[i]],
    ensures
        requests_at(keys, a) == requests_at(keys, b),
    decreases keys.len(),
{
    if keys.len() > 0 {
        assert(keys.last() == keys[keys.len() - 1]);
        assert forall|i: int| 0 <= i < keys.drop_last().len() implies a[
            #[trigger] keys.drop_last()[i]
        ] == b[keys.drop_last()[i]] by {
            assert(keys.drop_last()[i] == keys[i]);
        }
        lemma_requests_agree(keys.drop_last(), a, b);
    }
}

/// The parts of a rebuilt ledger count as many requests between them as its
/// models do, as long as the count fits.
pub proof fn law_rebuilt_parts_account_for_models(ledger: UsageStats)
    requires
        total_requests(ledger.by_model) <= u64::MAX,
    ensures
        rebuilt(ledger, true).total.requests + rebuilt(ledger, false).total.requests
            == total_requests(ledger.by_model),
{
    lemma_billed_requests(
        ledger.by_model.keys(),
        ledger.by_model@,
        only_key(ledger.by_month),
    );
}

proof fn lemma_billed_requests(
    models: Seq<Seq<char>>,
    buckets: Map<Seq<char>, UsageBucket>,
    month: Option<Seq<char>>,
)
    requires
        requests_at(models, buckets) <= u64::MAX,
    ensures
        billed(models, buckets, true, month).total.requests + billed(
            models,
            buckets,
            false,
            month,
        ).total.requests == requests_at(models, buckets),
    decreases models.len(),
{
    if models.len() > 0 {
        lemma_billed_requests(models.drop_last(), buckets, month);
    }
}

/// Those of `sources` that keep what is counted for them.
spec fn kept_sources(
    sources: Seq<Seq<char>>,
    buckets: Map<Seq<char>, UsageBucket>,
    default_source: Seq<char>,
) -> Seq<Seq<char>>
    decreases sources.len(),
{
    if sources.len() == 0 {
        Seq::empty()
    } else {
        let before = kept_sources(sources.drop_last(), buckets, default_source);
        match kept_bucket(buckets, sources.last(), default_source) {
            Some(_) => before.push(sources.last()),
            None => before,
        }
    }
}

proof fn lemma_kept_sources(
    sources: Seq<Seq<char>>,
    buckets: Map<Seq<char>, UsageBucket>,
    default_source: Seq<char>,
    total: UsageBucket,
)
    requires
        sources.no_duplicates(),
    ensures
        ({
            let kept = kept_sources(sources, buckets, default_source);
            let rest = stats::remainder(total, kept_buckets(sources, buckets, default_source));
            &&& kept.no_duplicates()
            &&& rest.requests + requests_at(kept, buckets) >= total.requests
            &&& forall|source: Seq<char>| #[trigger]
                kept.contains(source) <==> sources.contains(source) && kept_bucket(
                    buckets,
                    source,
                    default_source,
                ) is Some
        }),
    decreases sources.len(),
{
    if sources.len() > 0 {
        let fewer = sources.drop_last();
        let last = sources[sources.len() - 1];
        let before = kept_sources(fewer, buckets, default_source);
        let kept = kept_sources(sources, buckets, default_source);
        assert forall|i: int, j: int|
            0 <= i < fewer.len() && 0 <= j < fewer.len() && i != j implies fewer[i]
                != fewer[j] by {
            assert(fewer[i] == sources[i] && fewer[j] == sources[j]);
        }
        lemma_kept_sources(fewer, buckets, default_source, total);
        assert(fewer.push(last) =~= sources);
        assert(!fewer.contains(last)) by {
            if fewer.contains(last) {
                let i = choose|i: int| 0 <= i < fewer.len() && fewer[i] == last;
                assert(sources[i] == sources[sources.len() - 1]);
            }
        }
        assert forall|source: Seq<char>| #[trigger]
            kept.contains(source) <==> sources.contains(source) && kept_bucket(
                buckets,
                source,
                default_source,
            ) is Some by {
            lemma_push_contains(fewer, last, source);
            lemma_push_contains(before, last, source);
        }
        if kept_bucket(buckets, last, default_source) is Some {
            assert(!before.contains(last));
            assert forall|i: int, j: int|
                0 <= i < kept.len() && 0 <= j < kept.len() && i != j implies kept[i]
                    != kept[j] by {
                if i < before.len() && j < before.len() {
                    assert(kept[i] == before[i] && kept[j] == before[j]);
                } else if i < before.len() {
                    assert(before.contains(kept[i]));
                } else {
                    assert(before.contains(kept[j]));
                }
            }
            assert(kept.drop_last() =~= before);
            let items = kept_buckets(sources, buckets, default_source);
            assert(items.drop_last() =~= kept_buckets(fewer, buckets, default_source));
            assert(items.last() == buckets[last]);
        }
    }
}

/// Once the usage that stays with no source has been put down to a source, the
/// sources account for all requests.
pub proof fn law_filled_sources_account_for_all(
    existing: OrderedMap<UsageBucket>,
    total: UsageBucket,
    default_source: Seq<char>,
    after: OrderedMap<UsageBucket>,
)
    requires
        existing.wf(),
        after.wf(),
        after@ == filled(existing, total, default_source),
    ensures
        total_requests(after) >= total.requests,
{
    existing.lemma_keys();
    after.lemma_keys();
    let sources = existing.keys();
    let kept = kept_sources(sources, existing@, default_source);
    let rest = stats::remainder(total, kept_buckets(sources, existing@, default_source));
    lemma_kept_sources(sources, existing@, default_source, total);
    assert forall|i: int| 0 <= i < kept.len() implies after@[#[trigger] kept[i]]
        == existing@[kept[i]] && kept[i] != default_source by {
        assert(kept.contains(kept[i]));
    }
    lemma_requests_agree(kept, after@, existing@);
    let all = if stats::has_usage(rest) {
        kept.push(default_source)
    } else {
        kept
    };
    assert(all.no_duplicates());
    assert forall|source: Seq<char>| all.contains(source) <==> after.keys().contains(source) by {
        lemma_push_contains(kept, default_source, source);
        if after.keys().contains(source) {
            let i = choose|i: int| 0 <= i < after.keys().len() && after.keys()[i] == source;
            assert(after@.dom().contains(after.keys()[i]));
            if source != default_source {
                assert(kept_bucket(existing@, source, default_source) is Some);
                assert(sources.contains(source));
                assert(kept.contains(source));
            }
        }
        if all.contains(source) {
            assert(after@.dom().contains(source));
        }
    }
    lemma_requests_of_same_keys(all, after.keys(), after@);
    if stats::has_usage(rest) {
        assert(all.drop_last() =~= kept);
        assert(after@[default_source] == rest);
    }
}

/// Filling in sources once more changes nothing more.
pub proof fn law_backfill_once(
    before: UsageStats,
    once: UsageStats,
    twice: UsageStats,
    default_source: Seq<char>,
)
    requires
        before.wf(),
        once.wf(),
        once@ == backfilled(before, default_source),
        twice@ == backfilled(once, default_source),
        default_source != "unknown-source"@,
        !text::blank(default_source),
    ensures
        twice@ == once@,
{
    law_backfill_leaves_no_unknown(before, default_source);
    if needs_sources(before) {
        law_filled_sources_account_for_all(before.by_source, before.total, default_source, once.by_source);
    } else {
        before.by_source.lemma_keys();
        once.by_source.lemma_keys();
        assert forall|key: Seq<char>|
            before.by_source.keys().contains(key) <==> once.by_source.keys().contains(key) by {
            if before.by_source.keys().contains(key) {
                let i = choose|i: int|
                    0 <= i < before.by_source.keys().len() && before.by_source.keys()[i] == key;
                assert(before.by_source@.dom().contains(before.by_source.keys()[i]));
            }
            if once.by_source.keys().contains(key) {
                let i = choose|i: int|
                    0 <= i < once.by_source.keys().len() && once.by_source.keys()[i] == key;
                assert(once.by_source@.dom().contains(once.by_source.keys()[i]));
            }
        }
        lemma_requests_of_same_keys(
            before.by_source.keys(),
            once.by_source.keys(),
            before.by_source@,
        );
    }
    assert(!needs_sources(once));
    assert(all_sourced(once@.recent, default_source) =~= once@.recent);
}

/// The requests of one more key are those of the others and its own.
pub proof fn law_requests_at(
    keys: Seq<Seq<char>>,
    key: Seq<char>,
    buckets: Map<Seq<char>, UsageBucket>,
)
    ensures
        requests_at(Seq::<Seq<char>>::empty(), buckets) == 0,
        requests_at(keys.push(key), buckets) == requests_at(keys, buckets) + buckets[key].requests,
{
    assert(keys.push(key).drop_last() =~= keys);
}

/// Usage that is not told apart is put down to the only source that is known, to a made-up one
/// where there are several, and to none where there is none.
pub proof fn law_legacy_source(sources: OrderedMap<UsageBucket>)
    ensures
        sources.keys().len() == 0 ==> legacy_source(sources) is None,
        sources.keys().len() == 1 ==> legacy_source(sources) == Some(sources.keys()[0]),
        sources.keys().len() > 1 ==> legacy_source(sources) == Some("历史来源未拆分"@),
{
}

/// The parts of a ledger are rebuilt where they count fewer requests than the ledger, or fewer
/// than its models, or where sources are known, something is counted, and a part has none; and
/// in no other case.
pub proof fn law_needs_rebuild(ledger: UsageStats)
    requires
        ledger.paid.total.requests + ledger.free.total.requests <= u64::MAX,
    ensures
        ({
            let both = ledger.paid.total.requests + ledger.free.total.requests;
            let counts = stats::has_usage(ledger.paid.total) || stats::has_usage(ledger.free.total);
            let lacking = ledger.paid.by_source.keys().len() == 0
                || ledger.free.by_source.keys().len() == 0;
            &&& both < ledger.total.requests ==> needs_rebuild(ledger)
            &&& both < total_requests(ledger.by_model) ==> needs_rebuild(ledger)
            &&& ledger.by_source.keys().len() > 0 && counts && lacking ==> needs_rebuild(ledger)
            &&& both >= ledger.total.requests && both >= total_requests(ledger.by_model) && !(
            ledger.by_source.keys().len() > 0 && counts && lacking) ==> !needs_rebuild(ledger)
        }),
{
}

/// A rebuilt part counts what its models count: with one more model it is that part with the
/// use of the model put in where the model is on that side, and unchanged where it is not.
pub proof fn law_billed(
    models: Seq<Seq<char>>,
    model: Seq<char>,
    buckets: Map<Seq<char>, UsageBucket>,
    paid: bool,
    month: Option<Seq<char>>,
)
    ensures
        ({
            let before = billed(models, buckets, paid, month);
            let after = billed(models.push(model), buckets, paid, month);
            let own = usage::paid_use(model, buckets[model].cost_nano_cny) == paid;
            &&& own ==> after.total == stats::sum(before.total, buckets[model])
            &&& own ==> after.by_model == before.by_model.insert(model, buckets[model])
            &&& !own ==> after == before
        }),
{
    assert(models.push(model).drop_last() =~= models);
    stats::law_model_put_in(
        billed(models, buckets, paid, month),
        model,
        buckets[model],
        month,
    );
}

/// What is rebuilt goes by the only month that the ledger knows, and is put down to the source
/// that the ledger knows.
pub proof fn law_rebuilt_source(ledger: UsageStats, paid: bool)
    ensures
        ({
            let part = rebuilt(ledger, paid);
            let month = if ledger.by_month.keys().len() == 1 {
                Some(ledger.by_month.keys()[0])
            } else {
                None
            };
            let bare = billed(ledger.by_model.keys(), ledger.by_model@, paid, month);
            &&& part.total == bare.total && part.by_model == bare.by_model
            &&& ledger.by_source.keys().len() == 0 ==> part == bare
            &&& ledger.by_source.keys().len() == 1 && stats::has_usage(bare.total)
                ==> part.by_source == bare.by_source.insert(
                ledger.by_source.keys()[0],
                bare.total,
            )
            &&& ledger.by_source.keys().len() > 1 && stats::has_usage(bare.total)
                ==> part.by_source == bare.by_source.insert("历史来源未拆分"@, bare.total)
        }),
{
}

/// A source keeps what is counted for it, where that is anything, unless it is the unknown one
/// or the one that takes over the rest; that one gets what is left of the total, where anything
/// is left.
pub proof fn law_filled(
    existing: OrderedMap<UsageBucket>,
    total: UsageBucket,
    default_source: Seq<char>,
    source: Seq<char>,
)
    ensures
        ({
            let after = filled(existing, total, default_source);
            let rest = stats::remainder(
                total,
                kept_buckets(existing.keys(), existing@, default_source),
            );
            let own = source != default_source && source != "unknown-source"@;
            &&& own ==> (after.dom().contains(source) <==> existing@.dom().contains(source)
                && stats::has_usage(existing@[source]))
            &&& own && after.dom().contains(source) ==> after[source] == existing@[source]
            &&& after.dom().contains(default_source) <==> stats::has_usage(rest)
            &&& after.dom().contains(default_source) ==> after[default_source] == rest
            &&& "unknown-source"@ != default_source ==> !after.dom().contains("unknown-source"@)
        }),
{
}

/// What is taken off the total is what the sources keep, each in its turn.
pub proof fn law_kept_buckets(
    sources: Seq<Seq<char>>,
    source: Seq<char>,
    buckets: Map<Seq<char>, UsageBucket>,
    default_source: Seq<char>,
)
    ensures
        ({
            let before = kept_buckets(sources, buckets, default_source);
            let after = kept_buckets(sources.push(source), buckets, default_source);
            let keeps = buckets.dom().contains(source) && source != default_source && source
                != "unknown-source"@ && stats::has_usage(buckets[source]);
            &&& keeps ==> after == before.push(buckets[source])
            &&& !keeps ==> after == before
        }),
        kept_buckets(Seq::<Seq<char>>::empty(), buckets, default_source).len() == 0,
{
    assert(sources.push(source).drop_last() =~= sources);
}

/// In each period a source keeps what is counted for it, and the one that takes over the rest
/// gets what is left of the period; periods that the totals do not know are left out.
pub proof fn law_filled_nested(
    existing: OrderedMap<OrderedMap<UsageBucket>>,
    totals: Map<Seq<char>, UsageBucket>,
    default_source: Seq<char>,
    source: Seq<char>,
    period: Seq<char>,
)
    ensures
        ({
            let nested = stats::nested_views(existing@);
            let after = filled_nested(existing, totals, default_source);
            let own = source != default_source && source != "unknown-source"@;
            let there = nested.dom().contains(source) && nested[source].dom().contains(period)
                && stats::has_usage(nested[source][period]);
            let rest = stats::remainder(
                totals[period],
                kept_cells(existing.keys(), nested, period, default_source),
            );
            &&& own && there && totals.dom().contains(period) ==> cell(after, source, period)
                == Some(nested[source][period])
            &&& own && !there ==> cell(after, source, period) is None
            &&& !totals.dom().contains(period) ==> cell(after, source, period) is None
            &&& totals.dom().contains(period) && stats::has_usage(rest) ==> cell(
                after,
                default_source,
                period,
            ) == Some(rest)
            &&& !stats::has_usage(rest) ==> cell(after, default_source, period) is None
            &&& "unknown-source"@ != default_source ==> cell(after, "unknown-source"@, period) is None
        }),
{
    let after = filled_nested(existing, totals, default_source);
    assert forall|s: Seq<char>| #[trigger] cell(after, s, period) == filled_cell(
        existing,
        totals,
        default_source,
        s,
        period,
    ) by {
        if filled_cell(existing, totals, default_source, s, period) is Some {
            assert(after.dom().contains(s));
        }
    }
}

/// What is taken off a period is what the sources keep in it, each in its turn.
pub proof fn law_kept_cells(
    sources: Seq<Seq<char>>,
    source: Seq<char>,
    nested: Map<Seq<char>, Map<Seq<char>, UsageBucket>>,
    period: Seq<char>,
    default_source: Seq<char>,
)
    ensures
        ({
            let before = kept_cells(sources, nested, period, default_source);
            let after = kept_cells(sources.push(source), nested, period, default_source);
            let keeps = nested.dom().contains(source) && nested[source].dom().contains(period)
                && source != default_source && source != "unknown-source"@ && stats::has_usage(
                nested[source][period],
            );
            &&& keeps ==> after == before.push(nested[source][period])
            &&& !keeps ==> after == before
        }),
        kept_cells(Seq::<Seq<char>>::empty(), nested, period, default_source).len() == 0,
{
    assert(sources.push(source).drop_last() =~= sources);
}

/// A log of which the source is not known gets the given one; nothing else in it changes, and
/// other logs stay.
pub proof fn law_sourced(log: RequestLogView, default_source: Seq<char>)
    ensures
        ({
            let unknown = text::blank(log.source) || log.source == "unknown-source"@;
            &&& unknown ==> sourced(log, default_source).source == default_source
            &&& !unknown ==> sourced(log, default_source) == log
            &&& sourced(log, default_source) == RequestLogView {
                source: sourced(log, default_source).source,
                ..log
            }
        }),
{
}

/// Filling in sources changes the tables by source and the logs, and nothing else: the tables
/// where the sources count fewer requests than the ledger or one is the unknown one, and the
/// logs in any case.
pub proof fn law_backfilled(ledger: UsageStats, default_source: Seq<char>, i: int)
    ensures
        ({
            let after = backfilled(ledger, default_source);
            let lacking = total_requests(ledger.by_source) < ledger.total.requests
                || ledger.by_source@.dom().contains("unknown-source"@);
            &&& after.recent.len() == ledger@.recent.len()
            &&& 0 <= i < after.recent.len() ==> after.recent[i] == sourced(
                ledger@.recent[i],
                default_source,
            )
            &&& after.total == ledger@.total && after.by_day == ledger@.by_day && after.by_month
                == ledger@.by_month
            &&& after.by_model == ledger@.by_model && after.by_channel == ledger@.by_channel
                && after.by_route == ledger@.by_route
            &&& after.paid == ledger@.paid && after.free == ledger@.free
            &&& !lacking ==> after.by_source == ledger@.by_source && after.by_source_day
                == ledger@.by_source_day && after.by_source_month == ledger@.by_source_month
            &&& lacking ==> after.by_source == filled(
                ledger.by_source,
                ledger.total,
                default_source,
            )
            &&& lacking ==> after.by_source_day == filled_nested(
                ledger.by_source_day,
                ledger.by_day@,
                default_source,
            )
            &&& lacking ==> after.by_source_month == filled_nested(
                ledger.by_source_month,
                ledger.by_month@,
                default_source,
            )
        }),
{
}

/// Rebuilding changes the two parts of a ledger and nothing else, and those only where they need
/// it.
pub proof fn law_rebuild_keeps(before: UsageStats, after: UsageStats)
    requires
        rebuilt_from(before, after),
    ensures
        after.total == before.total,
        after.by_day == before.by_day && after.by_month == before.by_month,
        after.by_model == before.by_model && after.by_channel == before.by_channel,
        after.by_route == before.by_route && after.by_source == before.by_source,
        after.by_source_day == before.by_source_day,
        after.by_source_month == before.by_source_month,
        after.recent == before.recent,
        !needs_rebuild(before) ==> after == before,
        needs_rebuild(before) ==> after.paid@ == rebuilt(before, true) && after.free@ == rebuilt(
            before,
            false,
        ),
{
}

/// A repaired ledger counts what it counted, in all and by day, by month, by model, by channel
/// and by route.
pub proof fn law_repair_keeps(before: UsageStats, default_source: Seq<char>, after: UsageStats)
    requires
        repaired_from(before, default_source, after),
    ensures
        after@.total == before@.total,
        after@.by_day == before@.by_day && after@.by_month == before@.by_month,
        after@.by_model == before@.by_model && after@.by_channel == before@.by_channel,
        after@.by_route == before@.by_route,
        after@.by_source == backfilled(before, default_source).by_source,
        after@.recent == backfilled(before, default_source).recent,
{
    let middle = choose|middle: UsageStats|
        middle@ == backfilled(before, default_source) && #[trigger] rebuilt_from(middle, after);
    law_rebuild_keeps(middle, after);
}

} // verus!
