//! The balances of DeepSeek accounts. `A` stands for an amount of money.
use crate::channel;
use crate::channel::{Channel, ChannelView};
use crate::clock;
use crate::json;
use crate::json::{Json, JsonTree};
use crate::numeral;
use crate::sorting;
use crate::stats::UsageBucket;
use crate::stream;
use crate::text;
use vstd::prelude::*;
use vstd::string::*;

verus! {

/// The most snapshots that are kept.
pub const MAX_SNAPSHOTS: usize = 500;

/// What is asked of the balance report.
pub struct DeepSeekBalanceQuery {
    /// Ask the accounts for their balances first.
    pub refresh: bool,
}

impl Default for DeepSeekBalanceQuery {
    fn default() -> (r: Self)
        ensures
            !r.refresh,
    {
        DeepSeekBalanceQuery { refresh: false }
    }
}

/// The balance of an account in one currency, at one time.
pub struct DeepSeekBalanceSnapshot<A> {
    pub ts: i64,
    pub day: String,
    pub time: String,
    pub account_id: String,
    pub channel_id: Option<u64>,
    pub channel: String,
    pub is_available: bool,
    pub currency: String,
    pub total_balance: A,
    pub granted_balance: A,
    pub topped_up_balance: A,
}

impl<A: Copy> Clone for DeepSeekBalanceSnapshot<A> {
    fn clone(&self) -> (r: Self)
        ensures
            r == *self,
    {
        DeepSeekBalanceSnapshot {
            ts: self.ts,
            day: self.day.clone(),
            time: self.time.clone(),
            account_id: self.account_id.clone(),
            channel_id: self.channel_id,
            channel: self.channel.clone(),
            is_available: self.is_available,
            currency: self.currency.clone(),
            total_balance: self.total_balance,
            granted_balance: self.granted_balance,
            topped_up_balance: self.topped_up_balance,
        }
    }
}

/// The snapshots that were taken.
pub struct DeepSeekBalanceStore<A> {
    pub snapshots: Vec<DeepSeekBalanceSnapshot<A>>,
}

impl<A> Default for DeepSeekBalanceStore<A> {
    fn default() -> (r: Self)
        ensures
            r.snapshots@.len() == 0,
    {
        DeepSeekBalanceStore { snapshots: Vec::new() }
    }
}

/// What is reported of one account in one currency.
pub struct DeepSeekAccountReport<A> {
    pub account_id: String,
    pub channel_id: Option<u64>,
    pub channel: String,
    pub is_available: bool,
    pub currency: String,
    pub total_balance: A,
    pub granted_balance: A,
    pub topped_up_balance: A,
    pub checked_at: i64,
    pub checked_time: String,
    pub spend_since_first: Option<A>,
    pub spend_since_previous: Option<A>,
    pub first_checked_time: Option<String>,
    pub previous_checked_time: Option<String>,
}

/// What the ledger knows of the use of DeepSeek models.
pub struct DeepSeekLocalUsage {
    pub month: String,
    pub current_month: UsageBucket,
    pub total: UsageBucket,
}

/// The balance report.
pub struct DeepSeekBalanceReport<A> {
    pub ok: bool,
    pub refreshed: bool,
    pub message: String,
    pub snapshot_count: usize,
    pub accounts: Vec<DeepSeekAccountReport<A>>,
    pub local_usage: DeepSeekLocalUsage,
}

/// An account that can be asked for its balance.
pub struct DeepSeekAccount {
    pub account_id: String,
    pub channel_id: Option<u64>,
    pub channel: String,
    pub key: String,
    pub balance_url: String,
}

/// What an account holds.
#[verifier::ext_equal]
pub struct DeepSeekAccountView {
    pub account_id: Seq<char>,
    pub channel_id: Option<u64>,
    pub channel: Seq<char>,
    pub key: Seq<char>,
    pub balance_url: Seq<char>,
}

impl View for DeepSeekAccount {
    type V = DeepSeekAccountView;

    open spec fn view(&self) -> DeepSeekAccountView {
        DeepSeekAccountView {
            account_id: self.account_id@,
            channel_id: self.channel_id,
            channel: self.channel@,
            key: self.key@,
            balance_url: self.balance_url@,
        }
    }
}

/// What each of `accounts` holds.
pub open spec fn account_views(accounts: Seq<DeepSeekAccount>) -> Seq<DeepSeekAccountView> {
    Seq::new(accounts.len(), |i: int| accounts[i]@)
}

/// The hash that a fresh `DefaultHasher` gives for `text`.
pub uninterp spec fn default_hash(text: Seq<char>) -> u64;

/// Calls `BuildHasher::hash_one` of a `BuildHasherDefault` for `DefaultHasher`,
/// which starts from the same keys each time; its result is named `default_hash`.
#[verifier::external_body]
fn std_default_hash(text: &str) -> (r: u64)
    ensures
        r == default_hash(text@),
{
    std::hash::BuildHasher::hash_one(
        &std::hash::BuildHasherDefault::<std::collections::hash_map::DefaultHasher>::default(),
        text,
    )
}

/// The hash of `text`, in sixteen hexadecimal digits.
pub open spec fn hash_text(hash: u64) -> Seq<char> {
    numeral::zero_padded(numeral::numeral(hash as int, 16), 16)
}

/// A hash, in sixteen hexadecimal digits.
pub fn hash_digits(hash: u64) -> (r: String)
    ensures
        r@ == hash_text(hash),
{
    numeral::pad_zeros(numeral::to_hex(hash as u128), 16)
}

/// The hash of `text`, in sixteen hexadecimal digits.
pub fn stable_hash(text: &str) -> (r: String)
    ensures
        r@ == hash_text(default_hash(text@)),
{
    hash_digits(std_default_hash(text))
}

/// The channel leads to DeepSeek, by its address, its group, its cost model or
/// its name.
pub open spec fn leads_to_deepseek(channel: ChannelView) -> bool {
    ||| text::contains_text(text::lowercase(channel.base), "api.deepseek.com"@)
    ||| text::lowercase(channel.group) == "deepseek"@
    ||| text::contains_text(text::lowercase(channel.cost_model), "deepseek"@)
    ||| text::contains_text(text::lowercase(channel.name), "deepseek"@)
}

/// Does the channel lead to DeepSeek?
pub fn is_deepseek_channel(channel: &Channel) -> (r: bool)
    ensures
        r == leads_to_deepseek(channel@),
{
    text::contains(text::to_lowercase(channel.base.as_str()).as_str(), "api.deepseek.com")
        || text::same_text(text::to_lowercase(channel.group.as_str()).as_str(), "deepseek")
        || text::contains(text::to_lowercase(channel.cost_model.as_str()).as_str(), "deepseek")
        || text::contains(text::to_lowercase(channel.name.as_str()).as_str(), "deepseek")
}

/// The address of the balance below `base`, without the version that it ends
/// with.
pub open spec fn balance_address(base: Seq<char>) -> Seq<char> {
    let whole = text::without_trailing(text::trimmed(base), '/');
    let root = if text::closes_with(whole, "/v1"@) {
        text::without_trailing(whole.take(whole.len() - 3), '/')
    } else {
        whole
    };
    (if root.len() == 0 {
        "https://api.deepseek.com"@
    } else {
        root
    }) + "/user/balance"@
}

/// The address of the balance below `base`.
pub fn deepseek_balance_url(base: &str) -> (r: String)
    ensures
        r@ == balance_address(base@),
{
    let whole: &str = text::trim_end_char(text::trim(base), '/');
    let root: &str = if text::ends_with(whole, "/v1") {
        proof {
            reveal_strlit("/v1");
        }
        let size: usize = whole.unicode_len();
        assert(whole@.subrange(0, size - 3) =~= whole@.take(size - 3));
        text::trim_end_char(whole.substring_char(0, size - 3), '/')
    } else {
        whole
    };
    if root.is_empty() {
        text::concat2("https://api.deepseek.com", "/user/balance")
    } else {
        text::concat2(root, "/user/balance")
    }
}

/// The account behind a channel, given the hash of its key.
pub open spec fn account_of(channel: ChannelView, hash: u64) -> DeepSeekAccountView {
    DeepSeekAccountView {
        account_id: "deepseek-"@ + hash_text(hash),
        channel_id: channel.id,
        channel: if text::blank(channel.name) {
            "DeepSeek"@
        } else {
            channel.name
        },
        key: text::trimmed(channel.key),
        balance_url: balance_address(channel.base),
    }
}

/// The channel can be asked for a balance at the time `now`.
pub open spec fn askable(channel: ChannelView, now: int) -> bool {
    &&& channel.active_at(now)
    &&& leads_to_deepseek(channel)
    &&& !text::blank(channel.key)
    &&& text::trimmed(channel.key) != "***"@
}

/// `accounts` with `account` at the end, where none has its id.
pub open spec fn with_account(
    accounts: Seq<DeepSeekAccountView>,
    account: DeepSeekAccountView,
) -> Seq<DeepSeekAccountView> {
    if exists|i: int|
        0 <= i < accounts.len() && (#[trigger] accounts[i]).account_id == account.account_id {
        accounts
    } else {
        accounts.push(account)
    }
}

/// The accounts behind `channels` at the time `now`, each once.
pub open spec fn accounts_of(channels: Seq<ChannelView>, now: int) -> Seq<DeepSeekAccountView>
    decreases channels.len(),
{
    if channels.len() == 0 {
        Seq::empty()
    } else {
        let before = accounts_of(channels.drop_last(), now);
        let channel = channels.last();
        if askable(channel, now) {
            with_account(before, account_of(channel, default_hash(text::trimmed(channel.key))))
        } else {
            before
        }
    }
}

/// The account behind a channel, given the hash of its key.
pub fn account_for(channel: &Channel, hash: u64) -> (r: DeepSeekAccount)
    ensures
        r@ == account_of(channel@, hash),
{
    DeepSeekAccount {
        account_id: text::concat2("deepseek-", hash_digits(hash).as_str()),
        channel_id: channel.id,
        channel: if text::trim(channel.name.as_str()).is_empty() {
            "DeepSeek".to_owned()
        } else {
            channel.name.clone()
        },
        key: text::trim(channel.key.as_str()).to_owned(),
        balance_url: deepseek_balance_url(channel.base.as_str()),
    }
}

/// Adds an account, where none has its id.
pub fn add_account(accounts: &mut Vec<DeepSeekAccount>, account: DeepSeekAccount)
    ensures
        account_views(final(accounts)@) == with_account(account_views(old(accounts)@), account@),
{
    let ghost before = accounts@;
    let ghost all = account_views(accounts@);
    let mut i: usize = 0;
    while i < accounts.len()
        invariant
            i <= accounts@.len(),
            accounts@ == before,
            all == account_views(before),
            forall|j: int|
                0 <= j < i ==> (#[trigger] all[j]).account_id != account@.account_id,
        decreases accounts@.len() - i,
    {
        assert(all[i as int] == accounts@[i as int]@);
        if accounts[i].account_id == account.account_id {
            return ;
        }
        i += 1;
    }
    accounts.push(account);
    assert(account_views(accounts@) =~= all.push(account@));
}

/// The accounts behind `channels` at the time `now`, each once.
pub fn select_deepseek_accounts_at(channels: &[Channel], now: u64) -> (r: Vec<DeepSeekAccount>)
    ensures
        account_views(r@) == accounts_of(channel::channel_views(channels@), now as int),
{
    let ghost all = channel::channel_views(channels@);
    let mut accounts: Vec<DeepSeekAccount> = Vec::new();
    let mut i: usize = 0;
    assert(all.take(0) =~= Seq::<ChannelView>::empty());
    assert(account_views(accounts@) =~= Seq::<DeepSeekAccountView>::empty());
    while i < channels.len()
        invariant
            i <= channels@.len(),
            all == channel::channel_views(channels@),
            account_views(accounts@) == accounts_of(all.take(i as int), now as int),
        decreases channels@.len() - i,
    {
        assert(all.take(i + 1).drop_last() =~= all.take(i as int));
        assert(all.take(i + 1).last() == channels@[i as int]@);
        let key: &str = text::trim(channels[i].key.as_str());
        if channels[i].is_active_at(now) && is_deepseek_channel(&channels[i]) && !key.is_empty()
            && !text::same_text(key, "***") {
            let account: DeepSeekAccount = account_for(&channels[i], std_default_hash(key));
            add_account(&mut accounts, account);
        }
        i += 1;
    }
    assert(all.take(all.len() as int) =~= all);
    accounts
}

/// The accounts behind `channels` now, each once.
pub fn select_deepseek_accounts(channels: &[Channel]) -> (r: Vec<DeepSeekAccount>)
    ensures
        exists|now: u64|
            account_views(r@) == #[trigger] accounts_of(
                channel::channel_views(channels@),
                now as int,
            ),
{
    let now: u64 = clock::unix_now_secs();
    select_deepseek_accounts_at(channels, now)
}

/// A snapshot of `account` of which `item` tells, at the time `ts`. The amounts
/// are as the account gave them.
pub open spec fn is_reading(
    snapshot: DeepSeekBalanceSnapshot<Option<Json>>,
    account: DeepSeekAccountView,
    available: bool,
    item: JsonTree,
    ts: i64,
) -> bool {
    &&& snapshot.ts == ts
    &&& snapshot.day@ == clock::shanghai_day(ts as int)
    &&& snapshot.time@ == clock::shanghai_time(ts as int)
    &&& snapshot.account_id@ == account.account_id
    &&& snapshot.channel_id == account.channel_id
    &&& snapshot.channel@ == account.channel
    &&& snapshot.is_available == available
    &&& snapshot.currency@ == (match json::text_member(item, "currency"@) {
        Some(currency) => currency,
        None => "CNY"@,
    })
    &&& json::maybe_tree(snapshot.total_balance) == item.get("total_balance"@)
    &&& json::maybe_tree(snapshot.granted_balance) == item.get("granted_balance"@)
    &&& json::maybe_tree(snapshot.topped_up_balance) == item.get("topped_up_balance"@)
}

/// What an account says of whether it can be used.
pub open spec fn says_available(response: JsonTree) -> bool {
    match response.get("is_available"@) {
        Some(JsonTree::Bool(flag)) => flag,
        _ => false,
    }
}

/// The balances that a response lists.
pub open spec fn balance_items(response: JsonTree) -> Seq<JsonTree> {
    match json::array_member(response, "balance_infos"@) {
        Some(items) => items,
        None => Seq::empty(),
    }
}

/// The snapshots of `account` that `response` gives, at the time `ts`.
pub open spec fn are_readings(
    snapshots: Seq<DeepSeekBalanceSnapshot<Option<Json>>>,
    account: DeepSeekAccountView,
    response: JsonTree,
    ts: i64,
) -> bool {
    &&& snapshots.len() == balance_items(response).len()
    &&& forall|i: int|
        0 <= i < snapshots.len() ==> is_reading(
            #[trigger] snapshots[i],
            account,
            says_available(response),
            balance_items(response)[i],
            ts,
        )
}

/// A copy of what may be there.
fn copy_member(value: &Json, key: &str) -> (r: Option<Json>)
    ensures
        json::maybe_tree(r) == value.tree().get(key@),
{
    match value.get(key) {
        Some(found) => Some(found.copied()),
        None => None,
    }
}

/// The snapshots of `account` that a response gives, at the time `ts`. The
/// amounts are as the account gave them.
pub fn parse_balance_response_at(account: &DeepSeekAccount, value: &Json, ts: i64) -> (r: Vec<
    DeepSeekBalanceSnapshot<Option<Json>>,
>)
    requires
        ts <= clock::LATEST_SECS,
    ensures
        are_readings(r@, account@, value.tree(), ts),
{
    let is_available: bool = match value.get("is_available") {
        Some(flag) => flag.as_bool().unwrap_or(false),
        None => false,
    };
    let mut out: Vec<DeepSeekBalanceSnapshot<Option<Json>>> = Vec::new();
    let items: &Vec<Json> = match value.array_member("balance_infos") {
        Some(items) => items,
        None => {
            return out;
        },
    };
    let ghost all = json::trees(items@);
    let mut i: usize = 0;
    while i < items.len()
        invariant
            i <= items@.len(),
            all == json::trees(items@),
            all == balance_items(value.tree()),
            is_available == says_available(value.tree()),
            ts <= clock::LATEST_SECS,
            out@.len() == i,
            forall|j: int|
                0 <= j < i ==> is_reading(
                    #[trigger] out@[j],
                    account@,
                    is_available,
                    all[j],
                    ts,
                ),
        decreases items@.len() - i,
    {
        assert(all[i as int] == items@[i as int].tree());
        let (day, time): (String, String) = clock::shanghai_strings(ts);
        let currency: String = match items[i].text_member("currency") {
            Some(currency) => currency.to_owned(),
            None => "CNY".to_owned(),
        };
        out.push(
            DeepSeekBalanceSnapshot {
                ts,
                day,
                time,
                account_id: account.account_id.clone(),
                channel_id: account.channel_id,
                channel: account.channel.clone(),
                is_available,
                currency,
                total_balance: copy_member(&items[i], "total_balance"),
                granted_balance: copy_member(&items[i], "granted_balance"),
                topped_up_balance: copy_member(&items[i], "topped_up_balance"),
            },
        );
        i += 1;
    }
    out
}

/// The snapshots of `account` that a response gives now.
pub fn parse_balance_response(account: &DeepSeekAccount, value: &Json) -> (r: Vec<
    DeepSeekBalanceSnapshot<Option<Json>>,
>)
    ensures
        exists|ts: i64|
            0 <= ts <= clock::LATEST_SECS && #[trigger] are_readings(
                r@,
                account@,
                value.tree(),
                ts,
            ),
{
    let ts: i64 = clock::now_unix_secs();
    parse_balance_response_at(account, value, ts)
}

/// The snapshot with the amounts given.
pub fn with_amounts<A, B>(
    snapshot: DeepSeekBalanceSnapshot<A>,
    total_balance: B,
    granted_balance: B,
    topped_up_balance: B,
) -> (r: DeepSeekBalanceSnapshot<B>)
    ensures
        r.ts == snapshot.ts,
        r.day == snapshot.day,
        r.time == snapshot.time,
        r.account_id == snapshot.account_id,
        r.channel_id == snapshot.channel_id,
        r.channel == snapshot.channel,
        r.is_available == snapshot.is_available,
        r.currency == snapshot.currency,
        r.total_balance == total_balance,
        r.granted_balance == granted_balance,
        r.topped_up_balance == topped_up_balance,
{
    DeepSeekBalanceSnapshot {
        ts: snapshot.ts,
        day: snapshot.day,
        time: snapshot.time,
        account_id: snapshot.account_id,
        channel_id: snapshot.channel_id,
        channel: snapshot.channel,
        is_available: snapshot.is_available,
        currency: snapshot.currency,
        total_balance,
        granted_balance,
        topped_up_balance,
    }
}

/// What is said of an account that answered with another status than success.
pub open spec fn refusal_text(status: u16, body: Seq<u8>) -> Seq<char> {
    "HTTP "@ + numeral::decimal(status as int) + " "@ + text::trimmed(stream::lossy_text(body))
}

/// What is said of an account that answered with another status than success.
pub fn balance_http_error(status: u16, body: &[u8]) -> (r: String)
    ensures
        r@ == refusal_text(status, body@),
{
    let mut out: String = text::concat2("HTTP ", numeral::to_decimal(status as u128).as_str());
    out.append(" ");
    out.append(text::trim(stream::text_of_bytes(body).as_str()));
    out
}

/// Why an account gave no balances.
pub enum BalanceError {
    /// It answered with another status than success.
    Refused(String),
    /// It did not answer with JSON.
    NotJson(String),
}

/// The snapshots of `account` that the body of its answer gives, at the time
/// `ts`.
pub fn read_balances_at(account: &DeepSeekAccount, status: u16, body: &[u8], ts: i64) -> (r: Result<
    Vec<DeepSeekBalanceSnapshot<Option<Json>>>,
    BalanceError,
>)
    requires
        ts <= clock::LATEST_SECS,
    ensures
        match r {
            Ok(snapshots) => 200 <= status < 300 && (json::parsed_bytes(body@) matches Some(
                response,
            ) && are_readings(snapshots@, account@, response, ts)),
            Err(BalanceError::Refused(said)) => !(200 <= status < 300) && said@ == refusal_text(
                status,
                body@,
            ),
            Err(BalanceError::NotJson(said)) => 200 <= status < 300 && (json::slice_result(
                body@,
            ) matches Err(error) && said@ == "JSON 解析失败："@ + error),
        },
{
    if status < 200 || status >= 300 {
        return Err(BalanceError::Refused(balance_http_error(status, body)));
    }
    match Json::read(body) {
        Ok(response) => Ok(parse_balance_response_at(account, &response, ts)),
        Err(error) => Err(
            BalanceError::NotJson(text::concat2("JSON 解析失败：", error.as_str())),
        ),
    }
}

/// The snapshots of `account` that the body of its answer gives now.
pub fn read_balances(account: &DeepSeekAccount, status: u16, body: &[u8]) -> (r: Result<
    Vec<DeepSeekBalanceSnapshot<Option<Json>>>,
    BalanceError,
>)
    ensures
        match r {
            Ok(snapshots) => 200 <= status < 300 && (json::parsed_bytes(body@) matches Some(
                response,
            ) && exists|ts: i64|
                0 <= ts <= clock::LATEST_SECS && #[trigger] are_readings(
                    snapshots@,
                    account@,
                    response,
                    ts,
                )),
            Err(BalanceError::Refused(said)) => !(200 <= status < 300) && said@ == refusal_text(
                status,
                body@,
            ),
            Err(BalanceError::NotJson(said)) => 200 <= status < 300 && (json::slice_result(
                body@,
            ) matches Err(error) && said@ == "JSON 解析失败："@ + error),
        },
{
    let ts: i64 = clock::now_unix_secs();
    read_balances_at(account, status, body, ts)
}

/// The order of snapshots by their time.
pub open spec fn by_time<A>() -> spec_fn(
    DeepSeekBalanceSnapshot<A>,
    DeepSeekBalanceSnapshot<A>,
) -> bool {
    |a: DeepSeekBalanceSnapshot<A>, b: DeepSeekBalanceSnapshot<A>| a.ts < b.ts
}

/// The order by time is an order up to ties.
pub proof fn law_time_order<A>()
    ensures
        sorting::weak_order(by_time::<A>()),
{
}

/// Puts `snapshot` into `sorted` behind all that are not later.
fn insert_by_time<A>(
    sorted: &mut Vec<DeepSeekBalanceSnapshot<A>>,
    snapshot: DeepSeekBalanceSnapshot<A>,
)
    ensures
        final(sorted)@ == sorting::inserted(old(sorted)@, snapshot, by_time()),
{
    let ghost all = sorted@;
    let mut at: usize = 0;
    assert(all.skip(0) =~= all);
    while at < sorted.len() && snapshot.ts >= sorted[at].ts
        invariant
            at <= sorted@.len(),
            sorted@ == all,
            sorting::place(all, snapshot, by_time()) == at + sorting::place(
                all.skip(at as int),
                snapshot,
                by_time(),
            ),
        decreases sorted@.len() - at,
    {
        assert(all.skip(at as int).skip(1) =~= all.skip(at + 1));
        at += 1;
    }
    assert(sorting::place(all, snapshot, by_time()) == at);
    sorted.insert(at, snapshot);
}

/// `snapshots` by their time, those of one time as they stood.
pub fn sort_by_time<A>(snapshots: Vec<DeepSeekBalanceSnapshot<A>>) -> (r: Vec<
    DeepSeekBalanceSnapshot<A>,
>)
    ensures
        r@ == sorting::ordered(snapshots@, by_time()),
{
    let ghost all = snapshots@;
    let mut rest: Vec<DeepSeekBalanceSnapshot<A>> = snapshots;
    let mut out: Vec<DeepSeekBalanceSnapshot<A>> = Vec::new();
    let ghost mut n: int = 0;
    assert(all.take(0) =~= Seq::<DeepSeekBalanceSnapshot<A>>::empty());
    assert(all.skip(0) =~= all);
    while rest.len() > 0
        invariant
            0 <= n <= all.len(),
            rest@ == all.skip(n),
            out@ == sorting::ordered(all.take(n), by_time()),
        decreases rest@.len(),
    {
        let first: DeepSeekBalanceSnapshot<A> = rest.remove(0);
        assert(all.take(n + 1).drop_last() =~= all.take(n));
        assert(rest@ =~= all.skip(n + 1));
        insert_by_time(&mut out, first);
        proof {
            n = n + 1;
        }
    }
    assert(all.take(all.len() as int) =~= all);
    out
}

/// The latest of `snapshots`, in order; at most as many as are kept.
pub open spec fn latest<A>(snapshots: Seq<DeepSeekBalanceSnapshot<A>>) -> Seq<
    DeepSeekBalanceSnapshot<A>,
> {
    let sorted = sorting::ordered(snapshots, by_time());
    if sorted.len() > MAX_SNAPSHOTS {
        sorted.skip(sorted.len() - MAX_SNAPSHOTS)
    } else {
        sorted
    }
}

/// The latest of `snapshots`, in order; at most as many as are kept.
pub fn trim_snapshots<A>(snapshots: Vec<DeepSeekBalanceSnapshot<A>>) -> (r: Vec<
    DeepSeekBalanceSnapshot<A>,
>)
    ensures
        r@ == latest(snapshots@),
{
    let mut sorted: Vec<DeepSeekBalanceSnapshot<A>> = sort_by_time(snapshots);
    if sorted.len() > MAX_SNAPSHOTS {
        let removed: usize = sorted.len() - MAX_SNAPSHOTS;
        let ghost all = sorted@;
        let kept: Vec<DeepSeekBalanceSnapshot<A>> = sorted.split_off(removed);
        assert(kept@ =~= all.skip(removed as int));
        kept
    } else {
        sorted
    }
}

/// The pair `a` comes before `b`: by its first text, or else by its second.
pub open spec fn pair_before(a: (Seq<char>, Seq<char>), b: (Seq<char>, Seq<char>)) -> bool {
    if a.0 != b.0 {
        text::text_before(a.0, b.0)
    } else {
        text::text_before(a.1, b.1)
    }
}

/// The order of pairs of texts.
pub open spec fn by_pair() -> spec_fn((Seq<char>, Seq<char>), (Seq<char>, Seq<char>)) -> bool {
    |a: (Seq<char>, Seq<char>), b: (Seq<char>, Seq<char>)| pair_before(a, b)
}

/// The account and the currency of a snapshot.
pub open spec fn group_key<A>(snapshot: DeepSeekBalanceSnapshot<A>) -> (Seq<char>, Seq<char>) {
    (snapshot.account_id@, snapshot.currency@)
}

/// The accounts and currencies of `snapshots`, each once, in ascending order.
pub open spec fn group_keys<A>(snapshots: Seq<DeepSeekBalanceSnapshot<A>>) -> Seq<
    (Seq<char>, Seq<char>),
>
    decreases snapshots.len(),
{
    if snapshots.len() == 0 {
        Seq::empty()
    } else {
        let before = group_keys(snapshots.drop_last());
        let key = group_key(snapshots.last());
        if before.contains(key) {
            before
        } else {
            sorting::inserted(before, key, by_pair())
        }
    }
}

/// Those of `snapshots` with the account and the currency `key`.
pub open spec fn grouped<A>(
    snapshots: Seq<DeepSeekBalanceSnapshot<A>>,
    key: (Seq<char>, Seq<char>),
) -> Seq<DeepSeekBalanceSnapshot<A>>
    decreases snapshots.len(),
{
    if snapshots.len() == 0 {
        snapshots
    } else if group_key(snapshots.last()) == key {
        grouped(snapshots.drop_last(), key).push(snapshots.last())
    } else {
        grouped(snapshots.drop_last(), key)
    }
}

/// The first, the last but one and the last snapshot of an account.
pub struct AccountHistory<A> {
    pub first: DeepSeekBalanceSnapshot<A>,
    pub previous: Option<DeepSeekBalanceSnapshot<A>>,
    pub current: DeepSeekBalanceSnapshot<A>,
}

/// The history that `items`, which are in order, give.
pub open spec fn history_of<A>(items: Seq<DeepSeekBalanceSnapshot<A>>) -> AccountHistory<A> {
    AccountHistory {
        first: items[0],
        previous: if items.len() >= 2 {
            Some(items[items.len() - 2])
        } else {
            None
        },
        current: items[items.len() - 1],
    }
}

/// The history of the account and currency `key`.
pub open spec fn history_at<A>(
    snapshots: Seq<DeepSeekBalanceSnapshot<A>>,
    key: (Seq<char>, Seq<char>),
) -> AccountHistory<A> {
    history_of(sorting::ordered(grouped(snapshots, key), by_time()))
}

/// The content of a list of pairs.
pub open spec fn key_views(keys: Seq<(String, String)>) -> Seq<(Seq<char>, Seq<char>)> {
    Seq::new(keys.len(), |i: int| (keys[i].0@, keys[i].1@))
}

/// Does the pair of `a1` and `a2` come before that of `b1` and `b2`?
fn pair_precedes(a1: &str, a2: &str, b1: &str, b2: &str) -> (r: bool)
    ensures
        r == pair_before((a1@, a2@), (b1@, b2@)),
{
    if !text::same_text(a1, b1) {
        text::precedes(a1, b1)
    } else {
        text::precedes(a2, b2)
    }
}

/// Puts the pair of `account` and `currency` into `keys`, where it is not there.
fn add_key(keys: &mut Vec<(String, String)>, account: &str, currency: &str)
    ensures
        key_views(final(keys)@) == (if key_views(old(keys)@).contains((account@, currency@)) {
            key_views(old(keys)@)
        } else {
            sorting::inserted(key_views(old(keys)@), (account@, currency@), by_pair())
        }),
{
    let ghost before = keys@;
    let ghost all = key_views(keys@);
    let ghost key = (account@, currency@);
    let mut i: usize = 0;
    while i < keys.len()
        invariant
            i <= keys@.len(),
            keys@ == before,
            before == old(keys)@,
            all == key_views(before),
            key == (account@, currency@),
            forall|j: int| 0 <= j < i ==> #[trigger] all[j] != key,
        decreases keys@.len() - i,
    {
        assert(all[i as int] == (keys@[i as int].0@, keys@[i as int].1@));
        if text::same_text(keys[i].0.as_str(), account) && text::same_text(
            keys[i].1.as_str(),
            currency,
        ) {
            assert(all.contains(key));
            return ;
        }
        i += 1;
    }
    assert(!all.contains(key));
    let mut at: usize = 0;
    assert(all.skip(0) =~= all);
    while at < keys.len() && !pair_precedes(
        account,
        currency,
        keys[at].0.as_str(),
        keys[at].1.as_str(),
    )
        invariant
            at <= keys@.len(),
            keys@ == before,
            all == key_views(before),
            key == (account@, currency@),
            sorting::place(all, key, by_pair()) == at + sorting::place(
                all.skip(at as int),
                key,
                by_pair(),
            ),
        decreases keys@.len() - at,
    {
        assert(all.skip(at as int).skip(1) =~= all.skip(at + 1));
        at += 1;
    }
    assert(sorting::place(all, key, by_pair()) == at);
    keys.insert(at, (account.to_owned(), currency.to_owned()));
    assert(key_views(keys@) =~= all.insert(at as int, key));
}

/// Those of `snapshots` with the given account and currency.
fn group<A: Copy>(
    snapshots: &Vec<DeepSeekBalanceSnapshot<A>>,
    account: &str,
    currency: &str,
) -> (r: Vec<DeepSeekBalanceSnapshot<A>>)
    ensures
        r@ == grouped(snapshots@, (account@, currency@)),
{
    let ghost all = snapshots@;
    let mut out: Vec<DeepSeekBalanceSnapshot<A>> = Vec::new();
    let mut i: usize = 0;
    assert(all.take(0) =~= Seq::<DeepSeekBalanceSnapshot<A>>::empty());
    while i < snapshots.len()
        invariant
            i <= snapshots@.len(),
            all == snapshots@,
            out@ == grouped(all.take(i as int), (account@, currency@)),
        decreases snapshots@.len() - i,
    {
        assert(all.take(i + 1).drop_last() =~= all.take(i as int));
        if text::same_text(snapshots[i].account_id.as_str(), account) && text::same_text(
            snapshots[i].currency.as_str(),
            currency,
        ) {
            out.push(snapshots[i].clone());
        }
        i += 1;
    }
    assert(all.take(all.len() as int) =~= all);
    out
}

proof fn lemma_group_keys<A>(snapshots: Seq<DeepSeekBalanceSnapshot<A>>, key: (Seq<char>, Seq<char>))
    ensures
        group_keys(snapshots).contains(key) <==> grouped(snapshots, key).len() > 0,
        group_keys(snapshots).contains(key) <==> exists|i: int|
            0 <= i < snapshots.len() && group_key(#[trigger] snapshots[i]) == key,
    decreases snapshots.len(),
{
    if snapshots.len() > 0 {
        let rest = snapshots.drop_last();
        let before = group_keys(rest);
        let last = group_key(snapshots[snapshots.len() - 1]);
        lemma_group_keys(rest, key);
        sorting::lemma_place(before, last, by_pair());
        let at = sorting::place(before, last, by_pair());
        let longer = before.insert(at, last);
        if before.contains(key) {
            let i = choose|i: int| 0 <= i < before.len() && before[i] == key;
            if i < at {
                assert(longer[i] == key);
            } else {
                assert(longer[i + 1] == key);
            }
            let j = choose|j: int| 0 <= j < rest.len() && group_key(#[trigger] rest[j]) == key;
            assert(group_key(snapshots[j]) == key);
        }
        assert(longer[at] == last);
        if longer.contains(key) {
            let i = choose|i: int| 0 <= i < longer.len() && longer[i] == key;
            if i < at {
                assert(before[i] == key);
            } else if i > at {
                assert(before[i - 1] == key);
            }
        }
        if exists|i: int| 0 <= i < snapshots.len() && group_key(#[trigger] snapshots[i]) == key {
            let i = choose|i: int|
                0 <= i < snapshots.len() && group_key(#[trigger] snapshots[i]) == key;
            if i < rest.len() {
                assert(group_key(rest[i]) == key);
            }
        }
    }
}

proof fn lemma_pair_order(a: (Seq<char>, Seq<char>), b: (Seq<char>, Seq<char>))
    ensures
        !(pair_before(a, b) && pair_before(b, a)),
        pair_before(a, b) || pair_before(b, a) || a == b,
{
    if text::text_before(a.0, b.0) && text::text_before(b.0, a.0) {
        text::lemma_order_transitive(a.0, b.0, a.0);
    }
    if text::text_before(a.1, b.1) && text::text_before(b.1, a.1) {
        text::lemma_order_transitive(a.1, b.1, a.1);
    }
    text::lemma_order_irreflexive(a.0);
    text::lemma_order_irreflexive(a.1);
    text::lemma_order_total(a.0, b.0);
    text::lemma_order_total(a.1, b.1);
}

proof fn lemma_pair_order_transitive(
    a: (Seq<char>, Seq<char>),
    b: (Seq<char>, Seq<char>),
    c: (Seq<char>, Seq<char>),
)
    requires
        pair_before(a, b),
        pair_before(b, c),
    ensures
        pair_before(a, c),
{
    lemma_pair_order(a, b);
    lemma_pair_order(b, c);
    if text::text_before(a.0, b.0) && text::text_before(b.0, c.0) {
        text::lemma_order_transitive(a.0, b.0, c.0);
    }
    if text::text_before(a.1, b.1) && text::text_before(b.1, c.1) {
        text::lemma_order_transitive(a.1, b.1, c.1);
    }
}

proof fn lemma_pair_weak_order()
    ensures
        sorting::weak_order(by_pair()),
{
    let before = by_pair();
    assert forall|a: (Seq<char>, Seq<char>), b: (Seq<char>, Seq<char>)| #[trigger]
        before(a, b) implies !before(b, a) by {
        lemma_pair_order(a, b);
    }
    assert forall|
        a: (Seq<char>, Seq<char>),
        b: (Seq<char>, Seq<char>),
        c: (Seq<char>, Seq<char>),
    |
        !#[trigger] before(b, a) && !#[trigger] before(c, b) implies !before(c, a) by {
        lemma_pair_order(a, b);
        lemma_pair_order(b, c);
        lemma_pair_order(a, c);
        if pair_before(a, b) && pair_before(b, c) {
            lemma_pair_order_transitive(a, b, c);
        }
    }
}

proof fn lemma_group_keys_in_order<A>(snapshots: Seq<DeepSeekBalanceSnapshot<A>>)
    ensures
        sorting::in_order(group_keys(snapshots), by_pair()),
        group_keys(snapshots).no_duplicates(),
    decreases snapshots.len(),
{
    if snapshots.len() > 0 {
        let before = group_keys(snapshots.drop_last());
        let key = group_key(snapshots.last());
        lemma_group_keys_in_order(snapshots.drop_last());
        if !before.contains(key) {
            lemma_pair_weak_order();
            sorting::lemma_inserted_in_order(before, key, by_pair());
            sorting::lemma_place(before, key, by_pair());
            let at = sorting::place(before, key, by_pair());
            let longer = before.insert(at, key);
            assert forall|i: int, j: int| 0 <= i < j < longer.len() implies longer[i]
                != longer[j] by {
                let from = if i < at {
                    i
                } else {
                    i - 1
                };
                let to = if j < at {
                    j
                } else {
                    j - 1
                };
                if i == at {
                    assert(before[to] == longer[j]);
                } else if j == at {
                    assert(before[from] == longer[i]);
                } else {
                    assert(before[from] == longer[i] && before[to] == longer[j]);
                }
            }
        }
    }
}

/// The accounts and currencies that are reported on ascend, each standing once, and
/// they are those of the snapshots.
pub proof fn law_accounts_in_order<A>(snapshots: Seq<DeepSeekBalanceSnapshot<A>>)
    ensures
        forall|i: int, j: int|
            0 <= i < j < group_keys(snapshots).len() ==> pair_before(
                #[trigger] group_keys(snapshots)[i],
                #[trigger] group_keys(snapshots)[j],
            ),
        forall|key: (Seq<char>, Seq<char>)| #[trigger]
            group_keys(snapshots).contains(key) <==> exists|i: int|
                0 <= i < snapshots.len() && group_key(#[trigger] snapshots[i]) == key,
{
    let keys = group_keys(snapshots);
    lemma_group_keys_in_order(snapshots);
    assert forall|i: int, j: int| 0 <= i < j < keys.len() implies pair_before(
        #[trigger] keys[i],
        #[trigger] keys[j],
    ) by {
        let before = by_pair();
        assert(!before(keys[j], keys[i]));
        lemma_pair_order(keys[i], keys[j]);
    }
    assert forall|key: (Seq<char>, Seq<char>)| #[trigger]
        keys.contains(key) <==> exists|i: int|
            0 <= i < snapshots.len() && group_key(#[trigger] snapshots[i]) == key by {
        lemma_group_keys(snapshots, key);
    }
}

/// The history of each account in each currency, in ascending order.
pub fn account_histories<A: Copy>(snapshots: &Vec<DeepSeekBalanceSnapshot<A>>) -> (r: Vec<
    AccountHistory<A>,
>)
    ensures
        r@ == Seq::new(
            group_keys(snapshots@).len(),
            |i: int| history_at(snapshots@, group_keys(snapshots@)[i]),
        ),
{
    let ghost all = snapshots@;
    let mut keys: Vec<(String, String)> = Vec::new();
    let mut i: usize = 0;
    assert(all.take(0) =~= Seq::<DeepSeekBalanceSnapshot<A>>::empty());
    assert(key_views(keys@) =~= Seq::<(Seq<char>, Seq<char>)>::empty());
    while i < snapshots.len()
        invariant
            i <= snapshots@.len(),
            all == snapshots@,
            key_views(keys@) == group_keys(all.take(i as int)),
        decreases snapshots@.len() - i,
    {
        assert(all.take(i + 1).drop_last() =~= all.take(i as int));
        add_key(&mut keys, snapshots[i].account_id.as_str(), snapshots[i].currency.as_str());
        i += 1;
    }
    assert(all.take(all.len() as int) =~= all);
    let ghost found = key_views(keys@);
    let mut out: Vec<AccountHistory<A>> = Vec::new();
    let mut k: usize = 0;
    while k < keys.len()
        invariant
            k <= keys@.len(),
            all == snapshots@,
            found == key_views(keys@),
            found == group_keys(all),
            out@.len() == k,
            forall|j: int| 0 <= j < k ==> #[trigger] out@[j] == history_at(all, found[j]),
        decreases keys@.len() - k,
    {
        let ghost key = found[k as int];
        proof {
            assert(found.contains(key));
            lemma_group_keys(all, key);
            sorting::law_ordered_keeps_items(grouped(all, key), by_time());
        }
        let items: Vec<DeepSeekBalanceSnapshot<A>> = sort_by_time(
            group(snapshots, keys[k].0.as_str(), keys[k].1.as_str()),
        );
        let size: usize = items.len();
        let previous: Option<DeepSeekBalanceSnapshot<A>> = if size >= 2 {
            Some(items[size - 2].clone())
        } else {
            None
        };
        let history: AccountHistory<A> = AccountHistory {
            first: items[0].clone(),
            previous,
            current: items[size - 1].clone(),
        };
        assert(history == history_at(all, key));
        out.push(history);
        k += 1;
    }
    assert(out@ =~= Seq::new(
        group_keys(snapshots@).len(),
        |i: int| history_at(snapshots@, group_keys(snapshots@)[i]),
    ));
    out
}

/// The report of an account, given what it spent since the first and since the
/// last but one snapshot.
pub fn account_report<A: Copy>(
    history: &AccountHistory<A>,
    spend_since_first: Option<A>,
    spend_since_previous: Option<A>,
) -> (r: DeepSeekAccountReport<A>)
    ensures
        r.account_id == history.current.account_id,
        r.channel_id == history.current.channel_id,
        r.channel == history.current.channel,
        r.is_available == history.current.is_available,
        r.currency == history.current.currency,
        r.total_balance == history.current.total_balance,
        r.granted_balance == history.current.granted_balance,
        r.topped_up_balance == history.current.topped_up_balance,
        r.checked_at == history.current.ts,
        r.checked_time == history.current.time,
        r.spend_since_first == spend_since_first,
        r.spend_since_previous == (if history.previous is Some {
            spend_since_previous
        } else {
            None
        }),
        r.first_checked_time == Some(history.first.time),
        r.previous_checked_time == (match history.previous {
            Some(previous) => Some(previous.time),
            None => None,
        }),
{
    DeepSeekAccountReport {
        account_id: history.current.account_id.clone(),
        channel_id: history.current.channel_id,
        channel: history.current.channel.clone(),
        is_available: history.current.is_available,
        currency: history.current.currency.clone(),
        total_balance: history.current.total_balance,
        granted_balance: history.current.granted_balance,
        topped_up_balance: history.current.topped_up_balance,
        checked_at: history.current.ts,
        checked_time: history.current.time.clone(),
        spend_since_first,
        spend_since_previous: match &history.previous {
            Some(_) => spend_since_previous,
            None => None,
        },
        first_checked_time: Some(history.first.time.clone()),
        previous_checked_time: match &history.previous {
            Some(previous) => Some(previous.time.clone()),
            None => None,
        },
    }
}

/// The way through the accounts that are asked for their balances.
pub struct BalanceRefresh<A> {
    pub snapshots: Vec<DeepSeekBalanceSnapshot<A>>,
    pub errors: Vec<String>,
    pub refreshed: bool,
}

impl<A> BalanceRefresh<A> {
    /// The start: the snapshots there are, and nothing asked yet.
    pub fn start(snapshots: Vec<DeepSeekBalanceSnapshot<A>>) -> (r: Self)
        ensures
            r.snapshots@ == snapshots@,
            r.errors@.len() == 0,
            !r.refreshed,
    {
        BalanceRefresh { snapshots, errors: Vec::new(), refreshed: false }
    }

    /// Notes whether there is an account to ask.
    pub fn note_accounts(&mut self, accounts: &Vec<DeepSeekAccount>)
        ensures
            final(self).snapshots@ == old(self).snapshots@,
            final(self).refreshed == old(self).refreshed,
            text::texts(final(self).errors@) == (if accounts@.len() == 0 {
                text::texts(old(self).errors@).push(
                    "没有找到可用于查询余额的 DeepSeek 渠道"@,
                )
            } else {
                text::texts(old(self).errors@)
            }),
    {
        if accounts.len() == 0 {
            let ghost before = self.errors@;
            self.errors.push("没有找到可用于查询余额的 DeepSeek 渠道".to_owned());
            assert(text::texts(self.errors@) =~= text::texts(before).push(
                "没有找到可用于查询余额的 DeepSeek 渠道"@,
            ));
        }
    }

    /// Takes in the balances that an account gave.
    pub fn answered(&mut self, snapshots: Vec<DeepSeekBalanceSnapshot<A>>)
        ensures
            final(self).snapshots@ == old(self).snapshots@ + snapshots@,
            final(self).refreshed,
            final(self).errors@ == old(self).errors@,
    {
        let mut new: Vec<DeepSeekBalanceSnapshot<A>> = snapshots;
        self.snapshots.append(&mut new);
        self.refreshed = true;
    }

    /// Notes that an account could not be asked.
    pub fn failed(&mut self, account: &DeepSeekAccount, error: &str)
        ensures
            final(self).snapshots@ == old(self).snapshots@,
            final(self).refreshed == old(self).refreshed,
            text::texts(final(self).errors@) == text::texts(old(self).errors@).push(
                account@.channel + ": "@ + error@,
            ),
    {
        let ghost before = self.errors@;
        let said: String = text::concat3(account.channel.as_str(), ": ", error);
        self.errors.push(said);
        assert(text::texts(self.errors@) =~= text::texts(before).push(said@));
    }
}

/// What the report says as a whole.
pub open spec fn report_message(
    errors: Seq<Seq<char>>,
    refreshed: bool,
    has_snapshots: bool,
) -> Seq<char> {
    if errors.len() > 0 {
        text::joined(errors, "；"@)
    } else if refreshed {
        "DeepSeek 余额已刷新"@
    } else if has_snapshots {
        "显示最近一次 DeepSeek 余额快照"@
    } else {
        "还没有 DeepSeek 余额快照，点刷新后开始记录"@
    }
}

/// The balance report at the time `ts`: of the refresh, of the accounts, and of
/// the use that the ledger knows.
pub fn assemble_report_at<A>(
    refresh: &BalanceRefresh<A>,
    accounts: Vec<DeepSeekAccountReport<A>>,
    current_month: UsageBucket,
    total: UsageBucket,
    ts: i64,
) -> (r: DeepSeekBalanceReport<A>)
    requires
        ts <= clock::LATEST_SECS,
    ensures
        r.ok == (refresh.errors@.len() == 0 && (accounts@.len() > 0 || refresh.refreshed)),
        r.refreshed == refresh.refreshed,
        r.message@ == report_message(
            text::texts(refresh.errors@),
            refresh.refreshed,
            accounts@.len() > 0,
        ),
        r.snapshot_count == refresh.snapshots@.len(),
        r.accounts@ == accounts@,
        r.local_usage.month@ == clock::shanghai_month_text(ts as int),
        r.local_usage.current_month == current_month,
        r.local_usage.total == total,
{
    let has_snapshots: bool = accounts.len() > 0;
    let message: String = if refresh.errors.len() > 0 {
        text::join(&refresh.errors, "；")
    } else if refresh.refreshed {
        "DeepSeek 余额已刷新".to_owned()
    } else if has_snapshots {
        "显示最近一次 DeepSeek 余额快照".to_owned()
    } else {
        "还没有 DeepSeek 余额快照，点刷新后开始记录".to_owned()
    };
    DeepSeekBalanceReport {
        ok: refresh.errors.len() == 0 && (has_snapshots || refresh.refreshed),
        refreshed: refresh.refreshed,
        message,
        snapshot_count: refresh.snapshots.len(),
        accounts,
        local_usage: DeepSeekLocalUsage { month: clock::shanghai_month(ts), current_month, total },
    }
}

/// No two of the accounts that are asked have the same id.
pub proof fn law_accounts_differ(channels: Seq<ChannelView>, now: int)
    ensures
        forall|i: int, j: int|
            0 <= i < j < accounts_of(channels, now).len() ==> (#[trigger] accounts_of(
                channels,
                now,
            )[i]).account_id != (#[trigger] accounts_of(channels, now)[j]).account_id,
    decreases channels.len(),
{
    if channels.len() > 0 {
        law_accounts_differ(channels.drop_last(), now);
    }
}

/// At most as many snapshots are kept as are allowed, and they are in order.
pub proof fn law_trimmed_snapshots<A>(snapshots: Seq<DeepSeekBalanceSnapshot<A>>)
    ensures
        latest(snapshots).len() <= MAX_SNAPSHOTS,
        sorting::in_order(latest(snapshots), by_time()),
        forall|item: DeepSeekBalanceSnapshot<A>| #[trigger]
            latest(snapshots).contains(item) ==> snapshots.contains(item),
{
    law_time_order::<A>();
    sorting::law_ordered_in_order(snapshots, by_time());
    sorting::law_ordered_keeps_items(snapshots, by_time());
    let sorted = sorting::ordered(snapshots, by_time::<A>());
    let kept = latest(snapshots);
    assert forall|item: DeepSeekBalanceSnapshot<A>| #[trigger]
        kept.contains(item) implies snapshots.contains(item) by {
        let i = choose|i: int| 0 <= i < kept.len() && kept[i] == item;
        assert(sorted[i + sorted.len() - kept.len()] == item);
        assert(sorted.contains(item));
    }
}

/// The balance that is reported of an account is its latest one: no snapshot of
/// the account in that currency is later.
pub proof fn law_current_is_latest<A>(
    snapshots: Seq<DeepSeekBalanceSnapshot<A>>,
    i: int,
)
    requires
        0 <= i < snapshots.len(),
    ensures
        snapshots[i].ts <= history_at(snapshots, group_key(snapshots[i])).current.ts,
        history_at(snapshots, group_key(snapshots[i])).first.ts <= snapshots[i].ts,
{
    let key = group_key(snapshots[i]);
    let items = grouped(snapshots, key);
    let sorted = sorting::ordered(items, by_time::<A>());
    lemma_in_group(snapshots, i);
    law_time_order::<A>();
    sorting::law_ordered_in_order(items, by_time());
    sorting::law_ordered_keeps_items(items, by_time());
    assert(sorted.contains(snapshots[i]));
    let k = choose|k: int| 0 <= k < sorted.len() && sorted[k] == snapshots[i];
    if k < sorted.len() - 1 {
        assert(!by_time::<A>()(sorted[sorted.len() - 1], sorted[k]));
    }
    if k > 0 {
        assert(!by_time::<A>()(sorted[k], sorted[0]));
    }
}

proof fn lemma_in_group<A>(snapshots: Seq<DeepSeekBalanceSnapshot<A>>, i: int)
    requires
        0 <= i < snapshots.len(),
    ensures
        grouped(snapshots, group_key(snapshots[i])).contains(snapshots[i]),
    decreases snapshots.len(),
{
    let key = group_key(snapshots[i]);
    let rest = snapshots.drop_last();
    let items = grouped(snapshots, key);
    if i == snapshots.len() - 1 {
        assert(items[items.len() - 1] == snapshots[i]);
    } else {
        assert(rest[i] == snapshots[i]);
        lemma_in_group(rest, i);
        let before = grouped(rest, key);
        let k = choose|k: int| 0 <= k < before.len() && before[k] == snapshots[i];
        assert(items[k] == snapshots[i]);
    }
}

/// A channel leads to DeepSeek by its address, by its group, by its cost model or by its name,
/// whatever their case, and by nothing else.
pub proof fn law_leads_to_deepseek(channel: ChannelView)
    ensures
        text::contains_text(text::lowercase(channel.base), "api.deepseek.com"@)
            ==> leads_to_deepseek(channel),
        text::lowercase(channel.group) == "deepseek"@ ==> leads_to_deepseek(channel),
        text::contains_text(text::lowercase(channel.cost_model), "deepseek"@)
            ==> leads_to_deepseek(channel),
        text::contains_text(text::lowercase(channel.name), "deepseek"@) ==> leads_to_deepseek(
            channel,
        ),
        leads_to_deepseek(channel) ==> text::contains_text(
            text::lowercase(channel.base),
            "api.deepseek.com"@,
        ) || text::lowercase(channel.group) == "deepseek"@ || text::contains_text(
            text::lowercase(channel.cost_model),
            "deepseek"@,
        ) || text::contains_text(text::lowercase(channel.name), "deepseek"@),
{
}

/// The balance is asked for below the address of the channel, without a version at its end;
/// slashes at the end do not matter, and where no address is given that of DeepSeek counts.
pub proof fn law_balance_address(base: Seq<char>, root: Seq<char>)
    requires
        root.len() > 0,
        root.last() != '/',
    ensures
        text::trimmed(base) == root && !text::closes_with(root, "/v1"@) ==> balance_address(base)
            == root + "/user/balance"@,
        text::trimmed(base) == root.push('/') && !text::closes_with(root, "/v1"@)
            ==> balance_address(base) == root + "/user/balance"@,
        text::trimmed(base) == root + "/v1"@ ==> balance_address(base) == root + "/user/balance"@,
        text::trimmed(base).len() == 0 ==> balance_address(base) == "https://api.deepseek.com"@
            + "/user/balance"@,
{
    reveal_strlit("/v1");
    assert("/v1"@.len() == 3 && "/v1"@[2] == '1');
    reveal_with_fuel(text::without_trailing, 2);
    assert(root.push('/').drop_last() =~= root);
    let versioned = root + "/v1"@;
    assert(versioned.last() == '1');
    assert(text::without_trailing(versioned, '/') == versioned);
    assert(versioned.subrange(root.len() as int, versioned.len() as int) =~= "/v1"@);
    assert(versioned.take(versioned.len() - 3) =~= root);
    assert(text::without_trailing(root, '/') == root);
    if text::trimmed(base).len() == 0 {
        let none = text::trimmed(base);
        assert(text::without_trailing(none, '/').len() == 0);
        assert(!text::closes_with(none, "/v1"@));
    }
}

/// An account is known by the hash of its key; it has the id, the name and the address of its
/// channel, and the name of DeepSeek where the channel has none.
pub proof fn law_account_of(channel: ChannelView, hash: u64)
    ensures
        ({
            let account = account_of(channel, hash);
            &&& account.account_id == "deepseek-"@ + numeral::zero_padded(
                numeral::numeral(hash as int, 16),
                16,
            )
            &&& account.channel_id == channel.id
            &&& text::blank(channel.name) ==> account.channel == "DeepSeek"@
            &&& !text::blank(channel.name) ==> account.channel == channel.name
            &&& account.key == text::trimmed(channel.key)
            &&& account.balance_url == balance_address(channel.base)
        }),
{
}

/// A channel is asked for its balance where it is in use, leads to DeepSeek and has a key that
/// is not hidden; and the account of one key is asked once.
pub proof fn law_accounts_asked(channels: Seq<ChannelView>, channel: ChannelView, now: int)
    ensures
        ({
            let before = accounts_of(channels, now);
            let after = accounts_of(channels.push(channel), now);
            let key = text::trimmed(channel.key);
            let account = account_of(channel, default_hash(key));
            let asked = channel.active_at(now) && leads_to_deepseek(channel) && key.len() > 0 && key
                != "***"@;
            let there = exists|i: int|
                0 <= i < before.len() && (#[trigger] before[i]).account_id == account.account_id;
            &&& !asked ==> after == before
            &&& asked && there ==> after == before
            &&& asked && !there ==> after == before.push(account)
        }),
        accounts_of(Seq::<ChannelView>::empty(), now).len() == 0,
{
    assert(channels.push(channel).drop_last() =~= channels);
}

/// What a response says: whether the account can be used, where it says so, and the balances
/// that it lists.
pub proof fn law_balance_response(response: JsonTree, flag: bool, items: Seq<JsonTree>)
    ensures
        response.get("is_available"@) == Some(JsonTree::Bool(flag)) ==> says_available(response)
            == flag,
        response.get("is_available"@) is None ==> !says_available(response),
        response.get("balance_infos"@) == Some(JsonTree::Array(items)) ==> balance_items(response)
            == items,
        response.get("balance_infos"@) is None ==> balance_items(response).len() == 0,
{
}

/// The snapshots that are kept are the latest five hundred, or all of them: none that is left
/// out is later than one that is kept.
pub proof fn law_latest_are_kept<A>(
    snapshots: Seq<DeepSeekBalanceSnapshot<A>>,
    item: DeepSeekBalanceSnapshot<A>,
    i: int,
)
    ensures
        snapshots.len() <= 500 ==> latest(snapshots).len() == snapshots.len(),
        snapshots.len() > 500 ==> latest(snapshots).len() == 500,
        snapshots.contains(item) && !latest(snapshots).contains(item) && 0 <= i < latest(
            snapshots,
        ).len() ==> item.ts <= latest(snapshots)[i].ts,
        forall|a: int, b: int|
            0 <= a < b < latest(snapshots).len() ==> (#[trigger] latest(snapshots)[a]).ts <= (
            #[trigger] latest(snapshots)[b]).ts,
{
    let order = by_time::<A>();
    law_time_order::<A>();
    sorting::law_ordered_in_order(snapshots, order);
    sorting::law_ordered_keeps_items(snapshots, order);
    let sorted = sorting::ordered(snapshots, order);
    let kept = latest(snapshots);
    let cut = sorted.len() - kept.len();
    assert forall|a: int, b: int| 0 <= a < b < kept.len() implies (#[trigger] kept[a]).ts <= (
    #[trigger] kept[b]).ts by {
        assert(!order(sorted[cut + b], sorted[cut + a]));
    }
    if snapshots.contains(item) && !kept.contains(item) && 0 <= i < kept.len() {
        assert(sorted.contains(item));
        let k = choose|k: int| 0 <= k < sorted.len() && sorted[k] == item;
        if k >= cut {
            assert(kept[k - cut] == item);
        }
        assert(!order(sorted[cut + i], sorted[k]));
    }
}

/// Snapshots are put together by account and currency, in the order in which they stand.
pub proof fn law_grouped<A>(
    snapshots: Seq<DeepSeekBalanceSnapshot<A>>,
    snapshot: DeepSeekBalanceSnapshot<A>,
    account: Seq<char>,
    currency: Seq<char>,
)
    ensures
        ({
            let before = grouped(snapshots, (account, currency));
            let after = grouped(snapshots.push(snapshot), (account, currency));
            let own = snapshot.account_id@ == account && snapshot.currency@ == currency;
            &&& own ==> after == before.push(snapshot)
            &&& !own ==> after == before
        }),
        grouped(Seq::<DeepSeekBalanceSnapshot<A>>::empty(), (account, currency)).len() == 0,
{
    assert(snapshots.push(snapshot).drop_last() =~= snapshots);
}

/// One more snapshot in a history is the current one, and the one before it the previous one;
/// the first stays. A history of one snapshot has no previous one.
pub proof fn law_history<A>(
    items: Seq<DeepSeekBalanceSnapshot<A>>,
    next: DeepSeekBalanceSnapshot<A>,
)
    ensures
        items.len() > 0 ==> {
            &&& history_of(items.push(next)).current == next
            &&& history_of(items.push(next)).previous == Some(history_of(items).current)
            &&& history_of(items.push(next)).first == history_of(items).first
        },
        history_of(seq![next]).current == next,
        history_of(seq![next]).first == next,
        history_of(seq![next]).previous is None,
{
}

/// The history of an account is that of its own snapshots: each of the three it tells of is a
/// snapshot of that account in that currency, and the previous one is none that is later than
/// the current one or earlier than the first.
pub proof fn law_history_at<A>(snapshots: Seq<DeepSeekBalanceSnapshot<A>>, i: int)
    requires
        0 <= i < snapshots.len(),
    ensures
        ({
            let key = group_key(snapshots[i]);
            let history = history_at(snapshots, key);
            &&& snapshots.contains(history.first) && snapshots.contains(history.current)
            &&& history.first.account_id@ == snapshots[i].account_id@
            &&& history.current.account_id@ == snapshots[i].account_id@
            &&& history.first.currency@ == snapshots[i].currency@
            &&& history.current.currency@ == snapshots[i].currency@
            &&& history.previous matches Some(previous) ==> history.first.ts <= previous.ts
                <= history.current.ts
        }),
{
    let key = group_key(snapshots[i]);
    let order = by_time::<A>();
    let own = grouped(snapshots, key);
    law_time_order::<A>();
    sorting::law_ordered_in_order(own, order);
    sorting::law_ordered_keeps_items(own, order);
    lemma_in_group(snapshots, i);
    let sorted = sorting::ordered(own, order);
    let last = sorted.len() - 1;
    assert(sorted.contains(sorted[0]) && sorted.contains(sorted[last]));
    lemma_group_items(snapshots, key, sorted[0]);
    lemma_group_items(snapshots, key, sorted[last]);
    if sorted.len() >= 2 {
        assert(!order(sorted[last], sorted[last - 1]));
        if last - 1 > 0 {
            assert(!order(sorted[last - 1], sorted[0]));
        }
    }
}

proof fn lemma_group_items<A>(
    snapshots: Seq<DeepSeekBalanceSnapshot<A>>,
    key: (Seq<char>, Seq<char>),
    item: DeepSeekBalanceSnapshot<A>,
)
    ensures
        grouped(snapshots, key).contains(item) ==> snapshots.contains(item) && group_key(item)
            == key,
    decreases snapshots.len(),
{
    if snapshots.len() > 0 && grouped(snapshots, key).contains(item) {
        let rest = snapshots.drop_last();
        let last = snapshots[snapshots.len() - 1];
        lemma_group_items(rest, key, item);
        if group_key(last) == key {
            let out = grouped(rest, key);
            let k = choose|k: int| 0 <= k < out.push(last).len() && out.push(last)[k] == item;
            if k < out.len() {
                assert(out[k] == item);
                let m = choose|m: int| 0 <= m < rest.len() && rest[m] == item;
                assert(snapshots[m] == item);
            }
        } else {
            let m = choose|m: int| 0 <= m < rest.len() && rest[m] == item;
            assert(snapshots[m] == item);
        }
    }
}

/// What a report says: the errors, where there are any; otherwise that the balances are new,
/// or that they are the last that were seen, or that there are none yet.
pub proof fn law_report_message(errors: Seq<Seq<char>>, refreshed: bool, has_snapshots: bool)
    ensures
        errors.len() > 0 ==> report_message(errors, refreshed, has_snapshots) == text::joined(
            errors,
            "；"@,
        ),
        errors.len() == 0 && refreshed ==> report_message(errors, refreshed, has_snapshots)
            == "DeepSeek 余额已刷新"@,
        errors.len() == 0 && !refreshed && has_snapshots ==> report_message(
            errors,
            refreshed,
            has_snapshots,
        ) == "显示最近一次 DeepSeek 余额快照"@,
        errors.len() == 0 && !refreshed && !has_snapshots ==> report_message(
            errors,
            refreshed,
            has_snapshots,
        ) == "还没有 DeepSeek 余额快照，点刷新后开始记录"@,
{
}

/// What is said of an account that refused: its status, and what it answered without white
/// space around it.
pub proof fn law_refusal_text(status: u16, body: Seq<u8>)
    ensures
        refusal_text(status, body) == "HTTP "@ + numeral::decimal(status as int) + " "@
            + text::trimmed(stream::lossy_text(body)),
{
}

/// A reading of an account has its id, its channel and the time, and each of the amounts under
/// the name under which the account gave it; without a currency it is in yuan.
pub proof fn law_readings(
    snapshots: Seq<DeepSeekBalanceSnapshot<Option<Json>>>,
    account: DeepSeekAccountView,
    response: JsonTree,
    items: Seq<JsonTree>,
    ts: i64,
    i: int,
)
    requires
        are_readings(snapshots, account, response, ts),
        response.get("balance_infos"@) == Some(JsonTree::Array(items)),
    ensures
        snapshots.len() == items.len(),
        0 <= i < items.len() ==> {
            let snapshot = snapshots[i];
            &&& snapshot.ts == ts
            &&& snapshot.account_id@ == account.account_id
            &&& snapshot.channel_id == account.channel_id && snapshot.channel@ == account.channel
            &&& snapshot.day@ == clock::shanghai_day(ts as int)
            &&& snapshot.time@ == clock::shanghai_time(ts as int)
            &&& snapshot.is_available <==> response.get("is_available"@) == Some(
                JsonTree::Bool(true),
            )
            &&& json::maybe_tree(snapshot.total_balance) == items[i].get("total_balance"@)
            &&& json::maybe_tree(snapshot.granted_balance) == items[i].get("granted_balance"@)
            &&& json::maybe_tree(snapshot.topped_up_balance) == items[i].get("topped_up_balance"@)
            &&& items[i].get("currency"@) matches Some(JsonTree::Text(currency))
                ==> snapshot.currency@ == currency
            &&& items[i].get("currency"@) is None ==> snapshot.currency@ == "CNY"@
        },
{
    if 0 <= i < items.len() {
        assert(is_reading(
            snapshots[i],
            account,
            says_available(response),
            balance_items(response)[i],
            ts,
        ));
    }
}

/// Accounts come by their ids, and those of one id by their currencies.
pub proof fn law_pair_order(a: (Seq<char>, Seq<char>), b: (Seq<char>, Seq<char>))
    ensures
        a.0 != b.0 ==> (pair_before(a, b) <==> text::text_before(a.0, b.0)),
        a.0 == b.0 ==> (pair_before(a, b) <==> text::text_before(a.1, b.1)),
{
}

} // verus!
