//! What the tables of a ledger add up to.
use crate::stats;
use crate::stats::{UsageBreakdownView, UsageBucket, UsageStatsView};
use crate::usage;
use crate::usage::RequestLogView;
use vstd::prelude::*;
use vstd::string::*;

verus! {

/// One of the numbers that a bucket counts.
pub enum Counter {
    Requests,
    Success,
    Errors,
    LatencyMs,
    PromptTokens,
    CachedTokens,
    UncachedPromptTokens,
    CompletionTokens,
    TotalTokens,
    Cost,
}

/// What `bucket` counts.
pub open spec fn count(bucket: UsageBucket, counter: Counter) -> int {
    match counter {
        Counter::Requests => bucket.requests as int,
        Counter::Success => bucket.success as int,
        Counter::Errors => bucket.errors as int,
        Counter::LatencyMs => bucket.latency_ms as int,
        Counter::PromptTokens => bucket.prompt_tokens as int,
        Counter::CachedTokens => bucket.cached_tokens as int,
        Counter::UncachedPromptTokens => bucket.uncached_prompt_tokens as int,
        Counter::CompletionTokens => bucket.completion_tokens as int,
        Counter::TotalTokens => bucket.total_tokens as int,
        Counter::Cost => bucket.cost_nano_cny as int,
    }
}

/// The most that a bucket can count.
pub open spec fn limit(counter: Counter) -> int {
    match counter {
        Counter::Cost => u128::MAX as int,
        _ => u64::MAX as int,
    }
}

/// What `buckets` count in all.
pub open spec fn counted(buckets: Map<Seq<char>, UsageBucket>, counter: Counter) -> int
    decreases buckets.dom().len(),
{
    if !buckets.dom().finite() || buckets.dom().len() == 0 {
        0
    } else {
        let key = buckets.dom().choose();
        count(buckets[key], counter) + counted(buckets.remove(key), counter)
    }
}

proof fn lemma_counted_without(
    buckets: Map<Seq<char>, UsageBucket>,
    key: Seq<char>,
    counter: Counter,
)
    requires
        buckets.dom().finite(),
        buckets.dom().contains(key),
    ensures
        counted(buckets, counter) == count(buckets[key], counter) + counted(
            buckets.remove(key),
            counter,
        ),
    decreases buckets.dom().len(),
{
    let first = buckets.dom().choose();
    if first != key {
        let without_first = buckets.remove(first);
        let without_key = buckets.remove(key);
        lemma_counted_without(without_first, key, counter);
        lemma_counted_without(without_key, first, counter);
        assert(without_first.remove(key) =~= without_key.remove(first));
    }
}

proof fn lemma_counted_is_not_negative(buckets: Map<Seq<char>, UsageBucket>, counter: Counter)
    ensures
        counted(buckets, counter) >= 0,
    decreases buckets.dom().len(),
{
    if buckets.dom().finite() && buckets.dom().len() > 0 {
        lemma_counted_is_not_negative(buckets.remove(buckets.dom().choose()), counter);
    }
}

/// `buckets` count as much in all as `total` does.
pub open spec fn adds_up(
    buckets: Map<Seq<char>, UsageBucket>,
    total: UsageBucket,
    counter: Counter,
) -> bool {
    buckets.dom().finite() && counted(buckets, counter) == count(total, counter)
}

/// A table that adds up to a total still does once a request is counted in both,
/// whatever the key, as long as the total fits.
pub proof fn law_table_adds_up(
    buckets: Map<Seq<char>, UsageBucket>,
    total: UsageBucket,
    key: Seq<char>,
    log: RequestLogView,
    counter: Counter,
)
    requires
        adds_up(buckets, total, counter),
        count(total, counter) + count(stats::one_request(log), counter) <= limit(counter),
    ensures
        adds_up(
            stats::tallied(buckets, key, log),
            stats::sum(total, stats::one_request(log)),
            counter,
        ),
{
    let after = stats::tallied(buckets, key, log);
    lemma_counted_without(after, key, counter);
    assert(after.remove(key) =~= buckets.remove(key));
    lemma_counted_is_not_negative(buckets.remove(key), counter);
    if buckets.dom().contains(key) {
        lemma_counted_without(buckets, key, counter);
    } else {
        assert(buckets.remove(key) =~= buckets);
    }
}

/// Each table of the part counts as much in all as the part does.
pub open spec fn part_adds_up(part: UsageBreakdownView, counter: Counter) -> bool {
    &&& adds_up(part.by_day, part.total, counter)
    &&& adds_up(part.by_month, part.total, counter)
    &&& adds_up(part.by_channel, part.total, counter)
    &&& adds_up(part.by_source, part.total, counter)
    &&& adds_up(part.by_model, part.total, counter)
    &&& adds_up(part.by_route, part.total, counter)
}

/// Each table of the ledger counts as much in all as the ledger does, and so do
/// its two parts together; and each part adds up too.
pub open spec fn ledger_adds_up(ledger: UsageStatsView, counter: Counter) -> bool {
    &&& adds_up(ledger.by_day, ledger.total, counter)
    &&& adds_up(ledger.by_month, ledger.total, counter)
    &&& adds_up(ledger.by_channel, ledger.total, counter)
    &&& adds_up(ledger.by_source, ledger.total, counter)
    &&& adds_up(ledger.by_model, ledger.total, counter)
    &&& adds_up(ledger.by_route, ledger.total, counter)
    &&& part_adds_up(ledger.paid, counter)
    &&& part_adds_up(ledger.free, counter)
    &&& count(ledger.total, counter) == count(ledger.paid.total, counter) + count(
        ledger.free.total,
        counter,
    )
}

proof fn lemma_part_adds_up(part: UsageBreakdownView, log: RequestLogView, counter: Counter)
    requires
        part_adds_up(part, counter),
        count(part.total, counter) + count(stats::one_request(log), counter) <= limit(counter),
    ensures
        part_adds_up(part.with_log(log), counter),
{
    let channel = usage::key_or(log.channel, "unknown-channel"@);
    let source = usage::key_or(log.source, "unknown-source"@);
    let model = usage::key_or(log.model, "unknown-model"@);
    let route = usage::key_or(log.route, "unknown-route"@);
    law_table_adds_up(part.by_day, part.total, log.day, log, counter);
    law_table_adds_up(part.by_month, part.total, log.month, log, counter);
    law_table_adds_up(part.by_channel, part.total, channel, log, counter);
    law_table_adds_up(part.by_source, part.total, source, log, counter);
    law_table_adds_up(part.by_model, part.total, model, log, counter);
    law_table_adds_up(part.by_route, part.total, route, log, counter);
}

/// A ledger that adds up still does with each request that is recorded, as long
/// as the count fits.
pub proof fn law_recording_adds_up(ledger: UsageStatsView, log: RequestLogView, counter: Counter)
    requires
        ledger_adds_up(ledger, counter),
        count(ledger.total, counter) + count(stats::one_request(log), counter) <= limit(counter),
    ensures
        ledger_adds_up(ledger.with_log(log), counter),
{
    let channel = usage::key_or(log.channel, "unknown-channel"@);
    let source = usage::key_or(log.source, "unknown-source"@);
    let model = usage::key_or(log.model, "unknown-model"@);
    let route = usage::key_or(log.route, "unknown-route"@);
    law_table_adds_up(ledger.by_day, ledger.total, log.day, log, counter);
    law_table_adds_up(ledger.by_month, ledger.total, log.month, log, counter);
    law_table_adds_up(ledger.by_channel, ledger.total, channel, log, counter);
    law_table_adds_up(ledger.by_source, ledger.total, source, log, counter);
    law_table_adds_up(ledger.by_model, ledger.total, model, log, counter);
    law_table_adds_up(ledger.by_route, ledger.total, route, log, counter);
    if usage::paid_use(log.model, log.cost_nano_cny) {
        lemma_part_adds_up(ledger.paid, log, counter);
    } else {
        lemma_part_adds_up(ledger.free, log, counter);
    }
}

/// The ledger in which `logs` were recorded, and nothing else.
pub open spec fn recorded(logs: Seq<RequestLogView>) -> UsageStatsView
    decreases logs.len(),
{
    if logs.len() == 0 {
        stats::empty_stats()
    } else {
        recorded(logs.drop_last()).with_log(logs.last())
    }
}

/// What the requests of `logs` come to.
pub open spec fn logged(logs: Seq<RequestLogView>, counter: Counter) -> int
    decreases logs.len(),
{
    if logs.len() == 0 {
        0
    } else {
        logged(logs.drop_last(), counter) + count(stats::one_request(logs.last()), counter)
    }
}

/// Whatever is recorded in a new ledger, it counts what the requests come to, and
/// every table and every part adds up, as long as the count fits.
pub proof fn law_ledger_adds_up(logs: Seq<RequestLogView>, counter: Counter)
    requires
        logged(logs, counter) <= limit(counter),
    ensures
        ledger_adds_up(recorded(logs), counter),
        count(recorded(logs).total, counter) == logged(logs, counter),
    decreases logs.len(),
{
    if logs.len() > 0 {
        law_ledger_adds_up(logs.drop_last(), counter);
        law_recording_adds_up(recorded(logs.drop_last()), logs.last(), counter);
    }
}

proof fn lemma_logged_success_or_error(logs: Seq<RequestLogView>)
    ensures
        logged(logs, Counter::Success) >= 0,
        logged(logs, Counter::Errors) >= 0,
        logged(logs, Counter::Success) + logged(logs, Counter::Errors) == logged(
            logs,
            Counter::Requests,
        ),
        logged(logs, Counter::Requests) == logs.len(),
    decreases logs.len(),
{
    if logs.len() > 0 {
        lemma_logged_success_or_error(logs.drop_last());
    }
}

/// Whatever is recorded in a new ledger, it counts one request for each, and each
/// as a success or as an error, as long as the count fits.
pub proof fn law_each_request_is_counted(logs: Seq<RequestLogView>)
    requires
        logs.len() <= u64::MAX,
    ensures
        recorded(logs).total.requests == logs.len(),
        recorded(logs).total.success + recorded(logs).total.errors == logs.len(),
{
    lemma_logged_success_or_error(logs);
    law_ledger_adds_up(logs, Counter::Requests);
    law_ledger_adds_up(logs, Counter::Success);
    law_ledger_adds_up(logs, Counter::Errors);
}

} // verus!
