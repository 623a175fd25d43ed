//! The choice of the model and the role for a request.
use crate::channel;
use crate::clock;
use crate::config::{RouterConfig, RouterConfigView};
use crate::hints::{RouteHints, RouteHintsView};
use crate::json;
use crate::json::{Json, JsonTree};
use crate::numeral;
use crate::prompt;
use crate::stats;
use crate::stats::UsageStats;
use crate::text;
use vstd::prelude::*;
use vstd::string::*;

verus! {

/// Hints that ask for the larger model.
pub open spec fn pro_hints() -> Seq<Seq<char>> {
    seq![
        "compact"@,
        "compression"@,
        "summarize"@,
        "summary"@,
        "memory"@,
        "reflection"@,
        "reflexio"@,
        "dream"@,
        "review"@,
        "code_review"@,
        "architecture"@,
        "design"@,
        "migration"@,
        "reasoning"@,
        "analysis"@,
        "diagnose"@,
        "troubleshoot"@,
        "root_cause"@,
    ]
}

/// Hints that ask for the larger model.
fn pro_hints_list() -> (r: Vec<&'static str>)
    ensures
        text::strs(r@) == pro_hints(),
{
    let list: Vec<&'static str> = vec![
        "compact",
        "compression",
        "summarize",
        "summary",
        "memory",
        "reflection",
        "reflexio",
        "dream",
        "review",
        "code_review",
        "architecture",
        "design",
        "migration",
        "reasoning",
        "analysis",
        "diagnose",
        "troubleshoot",
        "root_cause",
    ];
    assert(text::strs(list@) =~= pro_hints());
    list
}

/// Hints that the default model will do.
pub open spec fn light_hints() -> Seq<Seq<char>> {
    seq![
        "status"@,
        "health"@,
        "weather"@,
        "cron"@,
        "schedule"@,
        "lof"@,
        "rss"@,
        "quote"@,
        "simple"@,
        "simple_chat"@,
        "fast_chat"@,
    ]
}

/// Hints that the default model will do.
fn light_hints_list() -> (r: Vec<&'static str>)
    ensures
        text::strs(r@) == light_hints(),
{
    let list: Vec<&'static str> = vec![
        "status",
        "health",
        "weather",
        "cron",
        "schedule",
        "lof",
        "rss",
        "quote",
        "simple",
        "simple_chat",
        "fast_chat",
    ];
    assert(text::strs(list@) =~= light_hints());
    list
}

/// Hints of a task for the free models.
pub open spec fn free_hints() -> Seq<Seq<char>> {
    seq![
        "heartbeat"@,
        "healthcheck"@,
        "self_check"@,
        "self-check"@,
    ]
}

/// Hints of a task for the free models.
fn free_hints_list() -> (r: Vec<&'static str>)
    ensures
        text::strs(r@) == free_hints(),
{
    let list: Vec<&'static str> = vec![
        "heartbeat",
        "healthcheck",
        "self_check",
        "self-check",
    ];
    assert(text::strs(list@) =~= free_hints());
    list
}

/// The marks of a heartbeat in the text of a request.
pub open spec fn heartbeat_patterns() -> Seq<Seq<char>> {
    seq![
        "heartbeat.md"@,
        "heartbeat agent"@,
        "heartbeat tool"@,
        "\"name\":\"heartbeat\""@,
        "\"name\": \"heartbeat\""@,
    ]
}

/// The marks of a heartbeat in the text of a request.
fn heartbeat_patterns_list() -> (r: Vec<&'static str>)
    ensures
        text::strs(r@) == heartbeat_patterns(),
{
    let list: Vec<&'static str> = vec![
        "heartbeat.md",
        "heartbeat agent",
        "heartbeat tool",
        "\"name\":\"heartbeat\"",
        "\"name\": \"heartbeat\"",
    ];
    assert(text::strs(list@) =~= heartbeat_patterns());
    list
}

/// The marks of a task for the free models.
pub open spec fn free_task_patterns() -> Seq<Seq<char>> {
    seq![
        "extract key facts from this conversation"@,
        "only output items matching these categories"@,
        "output as concise bullet points"@,
    ]
}

/// The marks of a task for the free models.
fn free_task_patterns_list() -> (r: Vec<&'static str>)
    ensures
        text::strs(r@) == free_task_patterns(),
{
    let list: Vec<&'static str> = vec![
        "extract key facts from this conversation",
        "only output items matching these categories",
        "output as concise bullet points",
    ];
    assert(text::strs(list@) =~= free_task_patterns());
    list
}

/// The marks of a task for the larger model.
pub open spec fn pro_patterns() -> Seq<Seq<char>> {
    seq![
        "context compression"@,
        "context summary"@,
        "conversation summary"@,
        "memory consolidation"@,
        "compact conversation"@,
        "summarize conversation"@,
        "summarize this conversation"@,
        "summarize the conversation"@,
        "conversation so far"@,
        "consolidate memory"@,
        "code review"@,
        "review existing"@,
        "root cause"@,
        "上下文压缩"@,
        "压缩上下文"@,
        "总结对话"@,
        "对话总结"@,
        "记忆整理"@,
        "代码审查"@,
        "根因"@,
        "排障"@,
    ]
}

/// The marks of a task for the larger model.
fn pro_patterns_list() -> (r: Vec<&'static str>)
    ensures
        text::strs(r@) == pro_patterns(),
{
    let list: Vec<&'static str> = vec![
        "context compression",
        "context summary",
        "conversation summary",
        "memory consolidation",
        "compact conversation",
        "summarize conversation",
        "summarize this conversation",
        "summarize the conversation",
        "conversation so far",
        "consolidate memory",
        "code review",
        "review existing",
        "root cause",
        "上下文压缩",
        "压缩上下文",
        "总结对话",
        "对话总结",
        "记忆整理",
        "代码审查",
        "根因",
        "排障",
    ];
    assert(text::strs(list@) =~= pro_patterns());
    list
}

/// What the name of a larger model holds.
pub open spec fn pro_names() -> Seq<Seq<char>> {
    seq![
        "pro"@,
        "reasoner"@,
    ]
}

/// What the name of a larger model holds.
fn pro_names_list() -> (r: Vec<&'static str>)
    ensures
        text::strs(r@) == pro_names(),
{
    let list: Vec<&'static str> = vec![
        "pro",
        "reasoner",
    ];
    assert(text::strs(list@) =~= pro_names());
    list
}

/// One of `needles` stands in `hay`.
pub open spec fn holds_any(hay: Seq<char>, needles: Seq<Seq<char>>) -> bool {
    exists|i: int| 0 <= i < needles.len() && text::contains_text(hay, #[trigger] needles[i])
}

/// Does one of `needles` stand in `text`?
pub fn contains_any(text: &str, needles: &Vec<&str>) -> (r: bool)
    ensures
        r == holds_any(text@, text::strs(needles@)),
{
    let ghost all = text::strs(needles@);
    let mut i: usize = 0;
    while i < needles.len()
        invariant
            i <= needles@.len(),
            all == text::strs(needles@),
            forall|j: int| 0 <= j < i ==> !text::contains_text(text@, #[trigger] all[j]),
        decreases needles@.len() - i,
    {
        assert(all[i as int] == needles@[i as int]@);
        if text::contains(text, needles[i]) {
            return true;
        }
        i += 1;
    }
    false
}

/// The hint `value` says one of `patterns`, whatever the case.
pub open spec fn says_any(value: Seq<char>, patterns: Seq<Seq<char>>) -> bool {
    let plain = text::lowercase(text::trimmed(value));
    plain.len() > 0 && exists|i: int|
        0 <= i < patterns.len() && text::contains_text(
            plain,
            text::lowercase(#[trigger] patterns[i]),
        )
}

/// Does the hint `value` say one of `patterns`, whatever the case?
pub fn hint_matches(value: &str, patterns: &Vec<&str>) -> (r: bool)
    ensures
        r == says_any(value@, text::strs(patterns@)),
{
    let plain: String = text::to_lowercase(text::trim(value));
    if plain.as_str().is_empty() {
        return false;
    }
    let ghost all = text::strs(patterns@);
    let mut i: usize = 0;
    while i < patterns.len()
        invariant
            i <= patterns@.len(),
            all == text::strs(patterns@),
            plain@ == text::lowercase(text::trimmed(value@)),
            plain@.len() > 0,
            forall|j: int|
                0 <= j < i ==> !text::contains_text(plain@, text::lowercase(#[trigger] all[j])),
        decreases patterns@.len() - i,
    {
        assert(all[i as int] == patterns@[i as int]@);
        if text::contains(plain.as_str(), text::to_lowercase(patterns[i]).as_str()) {
            return true;
        }
        i += 1;
    }
    false
}

/// The first of `patterns` that stands in `hay`.
pub open spec fn first_held(hay: Seq<char>, patterns: Seq<Seq<char>>) -> Option<Seq<char>>
    decreases patterns.len(),
{
    if patterns.len() == 0 {
        None
    } else if text::contains_text(hay, patterns[0]) {
        Some(patterns[0])
    } else {
        first_held(hay, patterns.skip(1))
    }
}

/// The first of `patterns` that stands in `hay`.
fn find_pattern<'a>(hay: &str, patterns: &Vec<&'a str>) -> (r: Option<&'a str>)
    ensures
        text::maybe_str(r) == first_held(hay@, text::strs(patterns@)),
{
    let ghost all = text::strs(patterns@);
    let mut i: usize = 0;
    assert(all.skip(0) =~= all);
    while i < patterns.len()
        invariant
            i <= patterns@.len(),
            all == text::strs(patterns@),
            first_held(hay@, all) == first_held(hay@, all.skip(i as int)),
        decreases patterns@.len() - i,
    {
        assert(all.skip(i as int).skip(1) =~= all.skip(i + 1));
        if text::contains(hay, patterns[i]) {
            return Some(patterns[i]);
        }
        i += 1;
    }
    None
}

/// The first of `keywords` whose lower case stands in `hay`.
pub open spec fn first_keyword(hay: Seq<char>, keywords: Seq<Seq<char>>) -> Option<Seq<char>>
    decreases keywords.len(),
{
    if keywords.len() == 0 {
        None
    } else if text::contains_text(hay, text::lowercase(keywords[0])) {
        Some(keywords[0])
    } else {
        first_keyword(hay, keywords.skip(1))
    }
}

/// The first of `keywords` whose lower case stands in `hay`.
fn find_keyword(hay: &str, keywords: &Vec<String>) -> (r: Option<String>)
    ensures
        channel::maybe_text(r) == first_keyword(hay@, text::texts(keywords@)),
{
    let ghost all = text::texts(keywords@);
    let mut i: usize = 0;
    assert(all.skip(0) =~= all);
    while i < keywords.len()
        invariant
            i <= keywords@.len(),
            all == text::texts(keywords@),
            first_keyword(hay@, all) == first_keyword(hay@, all.skip(i as int)),
        decreases keywords@.len() - i,
    {
        assert(all.skip(i as int).skip(1) =~= all.skip(i + 1));
        if text::contains(hay, text::to_lowercase(keywords[i].as_str()).as_str()) {
            return Some(keywords[i].clone());
        }
        i += 1;
    }
    None
}

/// The hint that says one of `patterns`, told in words.
pub open spec fn hint_reason(
    hints: RouteHintsView,
    patterns: Seq<Seq<char>>,
    words: Seq<char>,
) -> Option<Seq<char>> {
    if says_any(hints.purpose, patterns) {
        Some("purpose"@ + words + hints.purpose)
    } else if says_any(hints.intent, patterns) {
        Some("intent"@ + words + hints.intent)
    } else {
        None
    }
}

impl RouteHints {
    /// The hint that says one of `patterns`, told in words.
    fn reason(&self, patterns: &Vec<&str>, words: &str) -> (r: Option<String>)
        ensures
            channel::maybe_text(r) == hint_reason(self@, text::strs(patterns@), words@),
    {
        if hint_matches(self.purpose.as_str(), patterns) {
            return Some(text::concat3("purpose", words, self.purpose.as_str()));
        }
        if hint_matches(self.intent.as_str(), patterns) {
            return Some(text::concat3("intent", words, self.intent.as_str()));
        }
        None
    }

    /// The hint that asks for the larger model.
    pub fn pro_reason(&self) -> (r: Option<String>)
        ensures
            channel::maybe_text(r) == hint_reason(self@, pro_hints(), " hint matched: "@),
    {
        self.reason(&pro_hints_list(), " hint matched: ")
    }

    /// The hint that the default model will do.
    pub fn light_reason(&self) -> (r: Option<String>)
        ensures
            channel::maybe_text(r) == hint_reason(self@, light_hints(), " hint keeps default: "@),
    {
        self.reason(&light_hints_list(), " hint keeps default: ")
    }
}

/// What marks a request as a task for the free models.
pub open spec fn free_mark(
    hints: RouteHintsView,
    latest: Seq<char>,
    task: Seq<char>,
) -> Option<Seq<char>> {
    if hint_reason(hints, free_hints(), " hint matched: "@) is Some {
        hint_reason(hints, free_hints(), " hint matched: "@)
    } else if first_held(latest, heartbeat_patterns()) is Some {
        first_held(latest, heartbeat_patterns())
    } else {
        first_held(task, free_task_patterns())
    }
}

/// What marks a request as a task for the free models.
pub fn free_longcat_trigger(
    hints: &RouteHints,
    latest_routing_text: &str,
    task_routing_text: &str,
) -> (r: Option<String>)
    ensures
        channel::maybe_text(r) == free_mark(hints@, latest_routing_text@, task_routing_text@),
{
    if let Some(reason) = hints.reason(&free_hints_list(), " hint matched: ") {
        return Some(reason);
    }
    if let Some(pattern) = find_pattern(latest_routing_text, &heartbeat_patterns_list()) {
        return Some(pattern.to_owned());
    }
    match find_pattern(task_routing_text, &free_task_patterns_list()) {
        Some(pattern) => Some(pattern.to_owned()),
        None => None,
    }
}

/// `a` and `b` name the same model.
pub open spec fn same_model(a: Seq<char>, b: Seq<char>) -> bool {
    !text::blank(b) && channel::same_word(text::trimmed(a), text::trimmed(b))
}

/// Do `a` and `b` name the same model?
pub fn model_eq(a: &str, b: &str) -> (r: bool)
    ensures
        r == same_model(a@, b@),
{
    !text::trim(b).is_empty() && text::eq_ignore_ascii_case(text::trim(a), text::trim(b))
}

/// One of `aliases` names `model`.
pub open spec fn named_among(model: Seq<char>, aliases: Seq<Seq<char>>) -> bool {
    exists|i: int| 0 <= i < aliases.len() && same_model(model, #[trigger] aliases[i])
}

/// Does one of `aliases` name `model`?
pub fn model_in(model: &str, aliases: &Vec<String>) -> (r: bool)
    ensures
        r == named_among(model@, text::texts(aliases@)),
{
    let ghost all = text::texts(aliases@);
    let mut i: usize = 0;
    while i < aliases.len()
        invariant
            i <= aliases@.len(),
            all == text::texts(aliases@),
            forall|j: int| 0 <= j < i ==> !same_model(model@, #[trigger] all[j]),
        decreases aliases@.len() - i,
    {
        assert(all[i as int] == aliases@[i as int]@);
        if model_eq(model, aliases[i].as_str()) {
            return true;
        }
        i += 1;
    }
    false
}

/// The group that serves the role `role`, in lower case; none for other roles.
pub open spec fn role_group(router: RouterConfigView, role: Seq<char>) -> Seq<char> {
    if role == "default"@ {
        text::lowercase(text::trimmed(router.default_group))
    } else if role == "pro"@ {
        text::lowercase(text::trimmed(router.pro_group))
    } else if role == "emergency"@ {
        text::lowercase(text::trimmed(router.emergency_group))
    } else if role == "backup"@ {
        text::lowercase(text::trimmed(router.backup_group))
    } else {
        Seq::<char>::empty()
    }
}

/// The group that serves the role `role`.
pub fn group_for_role(router: &RouterConfig, role: &str) -> (r: String)
    ensures
        r@ == role_group(router@, role@),
{
    if text::same_text(role, "default") {
        text::to_lowercase(text::trim(router.default_group.as_str()))
    } else if text::same_text(role, "pro") {
        text::to_lowercase(text::trim(router.pro_group.as_str()))
    } else if text::same_text(role, "emergency") {
        text::to_lowercase(text::trim(router.emergency_group.as_str()))
    } else if text::same_text(role, "backup") {
        text::to_lowercase(text::trim(router.backup_group.as_str()))
    } else {
        String::new()
    }
}

/// The model that serves the role `role`; the default one for other roles.
pub open spec fn role_model(router: RouterConfigView, role: Seq<char>) -> Seq<char> {
    if role == "pro"@ {
        router.pro_model
    } else if role == "emergency"@ {
        router.emergency_model
    } else if role == "backup"@ {
        router.backup_model
    } else {
        router.default_model
    }
}

/// The model that serves the role `role`.
pub fn model_for_role<'a>(router: &'a RouterConfig, role: &str) -> (r: &'a str)
    ensures
        r@ == role_model(router@, role@),
{
    if text::same_text(role, "pro") {
        router.pro_model.as_str()
    } else if text::same_text(role, "emergency") {
        router.emergency_model.as_str()
    } else if text::same_text(role, "backup") {
        router.backup_model.as_str()
    } else {
        router.default_model.as_str()
    }
}

/// The whole number nearest to `a / b`; halfway between two, the even one.
pub open spec fn nearest(a: int, b: int) -> int {
    let whole = a / b;
    let rest = a % b;
    if 2 * rest > b || (2 * rest == b && whole % 2 == 1) {
        whole + 1
    } else {
        whole
    }
}

/// The whole number nearest to `a / b`; halfway between two, the even one.
fn round_to_even(a: u128, b: u128) -> (r: u128)
    requires
        b > 0,
    ensures
        r == nearest(a as int, b as int),
{
    let whole: u128 = a / b;
    let rest: u128 = a % b;
    if rest > b - rest || (rest == b - rest && whole % 2 == 1) {
        assert(whole < u128::MAX) by (nonlinear_arith)
            requires
                whole == a / b,
                rest == a % b,
                0 < rest < b,
                a <= u128::MAX,
        ;
        whole + 1
    } else {
        whole
    }
}

/// A number in binary with 53 significant bits is at least as large as this when
/// it is written without a point, and less than twice as large.
pub const LEAST_SIGNIFICAND: u128 = 0x10_0000_0000_0000;

/// The cents in `num / den / unit`, which is rounded to 53 significant bits
/// first; the bits that are missing are made up by doubling `num` and `unit`.
pub open spec fn cents_of_small(num: int, den: int, unit: int) -> int
    decreases 2 * LEAST_SIGNIFICAND * den - num,
{
    if num <= 0 || den <= 0 {
        0
    } else if num < LEAST_SIGNIFICAND * den {
        proof {
            assert(2 * LEAST_SIGNIFICAND * den == 2 * (LEAST_SIGNIFICAND * den))
                by (nonlinear_arith);
        }
        cents_of_small(2 * num, den, 2 * unit)
    } else {
        nearest(100 * nearest(num, den), unit)
    }
}

/// The cents in `num / den * unit`, which is rounded to 53 significant bits
/// first; the bits that are too many are taken off by doubling `den` and `unit`.
pub open spec fn cents_of_large(num: int, den: int, unit: int) -> int
    decreases num - LEAST_SIGNIFICAND * den,
{
    if den <= 0 {
        0
    } else if num >= 2 * LEAST_SIGNIFICAND * den {
        proof {
            assert(LEAST_SIGNIFICAND * (2 * den) == 2 * LEAST_SIGNIFICAND * den)
                by (nonlinear_arith);
            assert(LEAST_SIGNIFICAND * den > 0) by (nonlinear_arith)
                requires
                    den > 0,
            ;
        }
        cents_of_large(num, 2 * den, 2 * unit)
    } else {
        100 * nearest(num, den) * unit
    }
}

/// The cents in an amount in billionths of a yuan, taken as a binary number of
/// yuan with 53 significant bits; halfway between two cents, the even one.
pub open spec fn cents(amount: u128) -> int {
    if amount < LEAST_SIGNIFICAND * 1_000_000_000 {
        cents_of_small(amount as int, 1_000_000_000, 1)
    } else {
        cents_of_large(amount as int, 1_000_000_000, 1)
    }
}

/// The cents in an amount in billionths of a yuan.
fn count_cents(amount: u128) -> (r: u128)
    ensures
        r == cents(amount),
{
    if amount == 0 {
        return 0;
    }
    let mut num: u128 = amount;
    let mut den: u128 = 1_000_000_000;
    let mut unit: u128 = 1;
    if amount < LEAST_SIGNIFICAND * 1_000_000_000 {
        while num < LEAST_SIGNIFICAND * 1_000_000_000
            invariant
                0 < unit <= num < 2 * LEAST_SIGNIFICAND * 1_000_000_000,
                cents(amount) == cents_of_small(num as int, 1_000_000_000, unit as int),
            decreases 2 * LEAST_SIGNIFICAND * 1_000_000_000 - num,
        {
            num = 2 * num;
            unit = 2 * unit;
        }
        let significand: u128 = round_to_even(num, 1_000_000_000);
        return round_to_even(100 * significand, unit);
    }
    while num / den >= 2 * LEAST_SIGNIFICAND
        invariant
            num == amount,
            num >= LEAST_SIGNIFICAND * den,
            0 < unit,
            den == 1_000_000_000 * unit,
            cents(amount) == cents_of_large(num as int, den as int, unit as int),
        decreases num - LEAST_SIGNIFICAND * den,
    {
        assert(num >= 2 * LEAST_SIGNIFICAND * den) by (nonlinear_arith)
            requires
                num / den >= 2 * LEAST_SIGNIFICAND,
                den > 0,
        ;
        den = 2 * den;
        unit = 2 * unit;
    }
    assert(num < 2 * LEAST_SIGNIFICAND * den) by (nonlinear_arith)
        requires
            num / den < 2 * LEAST_SIGNIFICAND,
            den > 0,
    ;
    let significand: u128 = round_to_even(num, den);
    assert(significand <= 2 * LEAST_SIGNIFICAND) by (nonlinear_arith)
        requires
            significand <= num / den + 1,
            num / den < 2 * LEAST_SIGNIFICAND,
    ;
    assert(100 * significand * unit <= 200 * LEAST_SIGNIFICAND * unit) by (nonlinear_arith)
        requires
            significand <= 2 * LEAST_SIGNIFICAND,
            unit > 0,
    ;
    assert(200 * LEAST_SIGNIFICAND * unit <= num) by (nonlinear_arith)
        requires
            num >= LEAST_SIGNIFICAND * den,
            den == 1_000_000_000 * unit,
            unit > 0,
    ;
    100 * significand * unit
}

/// An amount in billionths of a yuan, written in yuan with two decimals.
pub open spec fn yuan_text(amount: u128) -> Seq<char> {
    numeral::decimal(cents(amount) / 100) + "."@ + numeral::zero_padded(
        numeral::decimal(cents(amount) % 100),
        2,
    )
}

/// An amount in billionths of a yuan, written in yuan with two decimals.
pub fn yuan(amount: u128) -> (r: String)
    ensures
        r@ == yuan_text(amount),
{
    let rounded: u128 = count_cents(amount);
    let fraction: String = numeral::pad_zeros(numeral::to_decimal(rounded % 100), 2);
    text::concat3(numeral::to_decimal(rounded / 100).as_str(), ".", fraction.as_str())
}

/// Where a request is to go, and why.
pub struct RouteDecision {
    pub requested_model: String,
    pub desired_model: String,
    pub role: String,
    pub group: String,
    pub reason: String,
}

/// What a decision holds.
#[verifier::ext_equal]
pub struct RouteDecisionView {
    pub requested_model: Seq<char>,
    pub desired_model: Seq<char>,
    pub role: Seq<char>,
    pub group: Seq<char>,
    pub reason: Seq<char>,
}

impl View for RouteDecision {
    type V = RouteDecisionView;

    open spec fn view(&self) -> RouteDecisionView {
        RouteDecisionView {
            requested_model: self.requested_model@,
            desired_model: self.desired_model@,
            role: self.role@,
            group: self.group@,
            reason: self.reason@,
        }
    }
}

/// The decision for the model that serves `role`.
pub open spec fn role_decision(
    router: RouterConfigView,
    requested: Seq<char>,
    role: Seq<char>,
    reason: Seq<char>,
) -> RouteDecisionView {
    RouteDecisionView {
        requested_model: requested,
        desired_model: role_model(router, role),
        role,
        group: role_group(router, role),
        reason,
    }
}

/// The decision for the model that serves `role`.
fn decide_role(router: &RouterConfig, requested: &str, role: &str, reason: String) -> (r:
    RouteDecision)
    ensures
        r@ == role_decision(router@, requested@, role@, reason@),
{
    RouteDecision {
        requested_model: requested.to_owned(),
        desired_model: model_for_role(router, role).to_owned(),
        role: role.to_owned(),
        group: group_for_role(router, role),
        reason,
    }
}

/// The decision that lets any channel serve the model asked for.
pub open spec fn pass_through(requested: Seq<char>, reason: Seq<char>) -> RouteDecisionView {
    RouteDecisionView {
        requested_model: requested,
        desired_model: requested,
        role: "any"@,
        group: Seq::<char>::empty(),
        reason,
    }
}

/// The decision that lets any channel serve the model asked for.
fn decide_any(requested: &str, reason: String) -> (r: RouteDecision)
    ensures
        r@ == pass_through(requested@, reason@),
{
    RouteDecision {
        requested_model: requested.to_owned(),
        desired_model: requested.to_owned(),
        role: "any".to_owned(),
        group: String::new(),
        reason,
    }
}

/// The decision as it stands where the router only says what it would do.
pub open spec fn tried(router: RouterConfigView, decision: RouteDecisionView) -> RouteDecisionView {
    if router.dry_run {
        pass_through(
            decision.requested_model,
            "dry-run: would use "@ + decision.role + "/"@ + decision.desired_model + " because "@
                + decision.reason,
        )
    } else {
        decision
    }
}

/// The decision as it stands where the router only says what it would do.
fn try_out(router: &RouterConfig, decision: RouteDecision) -> (r: RouteDecision)
    ensures
        r@ == tried(router@, decision@),
{
    if !router.dry_run {
        return decision;
    }
    let mut reason: String = "dry-run: would use ".to_owned();
    reason.append(decision.role.as_str());
    reason.append("/");
    reason.append(decision.desired_model.as_str());
    reason.append(" because ");
    reason.append(decision.reason.as_str());
    decide_any(decision.requested_model.as_str(), reason)
}

/// The decision for a request that asks for a model by its name. A request for
/// the default model goes by its text instead.
pub open spec fn explicit_route(router: RouterConfigView, requested: Seq<char>) -> Option<
    RouteDecisionView,
> {
    let model = text::trimmed(requested);
    if model.len() == 0 || channel::same_word(model, "unknown"@) {
        None
    } else if same_model(model, router.default_model) || named_among(
        model,
        router.default_alias_models,
    ) {
        None
    } else if same_model(model, router.pro_model) || named_among(model, router.pro_alias_models) {
        Some(role_decision(router, model, "pro"@, "requested configured pro model"@))
    } else if same_model(model, router.emergency_model) {
        Some(role_decision(router, model, "emergency"@, "requested configured emergency model"@))
    } else if same_model(model, router.backup_model) {
        Some(role_decision(router, model, "backup"@, "requested configured backup model"@))
    } else {
        Some(pass_through(model, "requested explicit model passthrough"@))
    }
}

/// What a decision that may be there holds.
pub open spec fn maybe_decision(decision: Option<RouteDecision>) -> Option<RouteDecisionView> {
    match decision {
        Some(decision) => Some(decision@),
        None => None,
    }
}

/// The decision for a request that asks for a model by its name.
pub fn explicit_model_route(router: &RouterConfig, requested_model: &str) -> (r: Option<
    RouteDecision,
>)
    ensures
        maybe_decision(r) == explicit_route(router@, requested_model@),
{
    let requested: &str = text::trim(requested_model);
    if requested.is_empty() || text::eq_ignore_ascii_case(requested, "unknown") {
        return None;
    }
    if model_eq(requested, router.default_model.as_str()) || model_in(
        requested,
        &router.default_alias_models,
    ) {
        return None;
    }
    if model_eq(requested, router.pro_model.as_str()) || model_in(
        requested,
        &router.pro_alias_models,
    ) {
        return Some(
            decide_role(router, requested, "pro", "requested configured pro model".to_owned()),
        );
    }
    if model_eq(requested, router.emergency_model.as_str()) {
        return Some(
            decide_role(
                router,
                requested,
                "emergency",
                "requested configured emergency model".to_owned(),
            ),
        );
    }
    if model_eq(requested, router.backup_model.as_str()) {
        return Some(
            decide_role(router, requested, "backup", "requested configured backup model".to_owned()),
        );
    }
    Some(decide_any(requested, "requested explicit model passthrough".to_owned()))
}

/// Whether a request for the default model is to go to the larger one, and why.
pub open spec fn weighed(
    router: RouterConfigView,
    latest: Seq<char>,
    requested: Seq<char>,
    hints: RouteHintsView,
) -> (bool, Seq<char>) {
    let light_pattern = first_held(latest, heartbeat_patterns());
    let open = light_pattern is None && !says_any(hints.intent, light_hints());
    let pro_hint = hint_reason(hints, pro_hints(), " hint matched: "@);
    let light_hint = hint_reason(hints, light_hints(), " hint keeps default: "@);
    if holds_any(text::lowercase(requested), pro_names()) {
        (true, "requested pro/reasoner model"@)
    } else if pro_hint is Some {
        (true, pro_hint->0)
    } else if open && first_held(latest, pro_patterns()) is Some {
        (true, "task pattern matched: "@ + first_held(latest, pro_patterns())->0)
    } else if open && first_keyword(latest, router.pro_keywords) is Some {
        (true, "keyword matched: "@ + first_keyword(latest, router.pro_keywords)->0)
    } else if light_pattern is Some {
        (false, "task pattern keeps default: "@ + light_pattern->0)
    } else if light_hint is Some {
        (false, light_hint->0)
    } else {
        (false, "default lightweight route"@)
    }
}

/// Whether a request for the default model is to go to the larger one, and why.
fn weigh(router: &RouterConfig, latest: &str, requested_model: &str, hints: &RouteHints) -> (r: (
    bool,
    String,
))
    ensures
        (r.0, r.1@) == weighed(router@, latest@, requested_model@, hints@),
{
    if contains_any(text::to_lowercase(requested_model).as_str(), &pro_names_list()) {
        return (true, "requested pro/reasoner model".to_owned());
    }
    if let Some(reason) = hints.pro_reason() {
        return (true, reason);
    }
    let light_pattern: Option<&str> = find_pattern(latest, &heartbeat_patterns_list());
    if light_pattern.is_none() && !hint_matches(hints.intent.as_str(), &light_hints_list()) {
        if let Some(pattern) = find_pattern(latest, &pro_patterns_list()) {
            return (true, text::concat2("task pattern matched: ", pattern));
        }
        if let Some(keyword) = find_keyword(latest, &router.pro_keywords) {
            return (true, text::concat2("keyword matched: ", keyword.as_str()));
        }
    }
    if let Some(pattern) = light_pattern {
        return (false, text::concat2("task pattern keeps default: ", pattern));
    }
    match hints.light_reason() {
        Some(reason) => (false, reason),
        None => (false, "default lightweight route".to_owned()),
    }
}

/// The limit `limit` is set, and `cost` has reached it.
pub open spec fn reached(limit: u128, cost: u128) -> bool {
    0 < limit <= cost
}

/// The text of a request by which it is routed, in lower case.
pub open spec fn latest_of(request: Option<JsonTree>) -> Seq<char> {
    match request {
        Some(request) => text::lowercase(prompt::latest_text(json::sorted_tree(request))),
        None => Seq::<char>::empty(),
    }
}

/// The text of a request by which a task for the free models is known, in lower
/// case.
pub open spec fn task_of(request: Option<JsonTree>) -> Seq<char> {
    match request {
        Some(request) => text::lowercase(prompt::task_text(json::sorted_tree(request))),
        None => Seq::<char>::empty(),
    }
}

/// The decision for a request whose text and hints are left to say where it goes.
pub open spec fn smart_route(
    router: RouterConfigView,
    cost: u128,
    latest: Seq<char>,
    requested: Seq<char>,
    hints: RouteHintsView,
) -> RouteDecisionView {
    let (wants_pro, reason) = weighed(router, latest, requested, hints);
    if !wants_pro {
        role_decision(router, requested, "default"@, reason)
    } else if reached(router.monthly_downgrade_nano_cny, cost) {
        role_decision(
            router,
            requested,
            "default"@,
            "monthly downgrade threshold reached "@ + yuan_text(cost)
                + " CNY; suppressed pro route ("@ + reason + ")"@,
        )
    } else {
        role_decision(router, requested, "pro"@, reason)
    }
}

/// Where a request goes, in a month that has cost `cost` so far.
pub open spec fn route(
    router: RouterConfigView,
    cost: u128,
    request: Option<JsonTree>,
    requested: Seq<char>,
    hints: RouteHintsView,
) -> RouteDecisionView {
    let mark = free_mark(hints, latest_of(request), task_of(request));
    if !router.enabled {
        pass_through(requested, "router disabled"@)
    } else if mark is Some {
        tried(
            router,
            role_decision(
                router,
                requested,
                "emergency"@,
                "free task pattern matched: "@ + mark->0,
            ),
        )
    } else if reached(router.monthly_hard_limit_nano_cny, cost) {
        tried(
            router,
            role_decision(
                router,
                requested,
                "backup"@,
                "monthly hard limit reached "@ + yuan_text(cost) + " CNY"@,
            ),
        )
    } else if explicit_route(router, requested) is Some {
        explicit_route(router, requested)->0
    } else {
        tried(router, smart_route(router, cost, latest_of(request), requested, hints))
    }
}

/// Where a request goes, in a month that has cost `monthly_cost` so far, in
/// billionths of a yuan.
pub fn route_decision_at(
    router: &RouterConfig,
    monthly_cost: u128,
    request_json: Option<&Json>,
    requested_model: &str,
    hints: &RouteHints,
) -> (r: RouteDecision)
    ensures
        r@ == route(
            router@,
            monthly_cost,
            json::maybe_tree_ref(request_json),
            requested_model@,
            hints@,
        ),
{
    if !router.enabled {
        return decide_any(requested_model, "router disabled".to_owned());
    }
    let latest: String = match request_json {
        Some(request) => text::to_lowercase(prompt::extract_routing_text(request).as_str()),
        None => String::new(),
    };
    let task: String = match request_json {
        Some(request) => text::to_lowercase(
            prompt::extract_free_task_routing_text(request).as_str(),
        ),
        None => String::new(),
    };
    if let Some(pattern) = free_longcat_trigger(hints, latest.as_str(), task.as_str()) {
        let reason: String = text::concat2("free task pattern matched: ", pattern.as_str());
        return try_out(router, decide_role(router, requested_model, "emergency", reason));
    }
    if router.monthly_hard_limit_nano_cny > 0 && monthly_cost
        >= router.monthly_hard_limit_nano_cny {
        let reason: String = text::concat3(
            "monthly hard limit reached ",
            yuan(monthly_cost).as_str(),
            " CNY",
        );
        return try_out(router, decide_role(router, requested_model, "backup", reason));
    }
    if let Some(decision) = explicit_model_route(router, requested_model) {
        return decision;
    }
    let (wants_pro, reason): (bool, String) = weigh(router, latest.as_str(), requested_model, hints);
    let decision: RouteDecision = if !wants_pro {
        decide_role(router, requested_model, "default", reason)
    } else if router.monthly_downgrade_nano_cny > 0 && monthly_cost
        >= router.monthly_downgrade_nano_cny {
        let mut downgraded: String = "monthly downgrade threshold reached ".to_owned();
        downgraded.append(yuan(monthly_cost).as_str());
        downgraded.append(" CNY; suppressed pro route (");
        downgraded.append(reason.as_str());
        downgraded.append(")");
        decide_role(router, requested_model, "default", downgraded)
    } else {
        decide_role(router, requested_model, "pro", reason)
    };
    try_out(router, decision)
}

/// Where a request goes now.
pub fn route_decision(
    router: &RouterConfig,
    stats: &UsageStats,
    request_json: Option<&Json>,
    requested_model: &str,
    hints: &RouteHints,
) -> (r: RouteDecision)
    requires
        stats.wf(),
    ensures
        exists|ts: i64|
            0 <= ts <= clock::LATEST_SECS && r@ == route(
                router@,
                stats::bucket_at(
                    stats@.by_month,
                    #[trigger] clock::shanghai_month_text(ts as int),
                ).cost_nano_cny,
                json::maybe_tree_ref(request_json),
                requested_model@,
                hints@,
            ),
{
    route_decision_at(router, stats.current_month_cost(), request_json, requested_model, hints)
}

/// What is left of `parts` can be found in `s` from `from` on, one after the
/// other and without overlap.
pub open spec fn in_order(parts: Seq<Seq<char>>, s: Seq<char>, from: int) -> bool
    decreases parts.len(),
{
    parts.len() == 0 || exists|i: int|
        from <= i && #[trigger] text::occurs_at(s, parts[0], i) && in_order(
            parts.skip(1),
            s,
            i + parts[0].len(),
        )
}

/// Those of `parts` that are not empty.
pub open spec fn filled_parts(parts: Seq<Seq<char>>) -> Seq<Seq<char>>
    decreases parts.len(),
{
    if parts.len() == 0 {
        parts
    } else if parts.last().len() == 0 {
        filled_parts(parts.drop_last())
    } else {
        filled_parts(parts.drop_last()).push(parts.last())
    }
}

/// `model` is what `pattern` stands for: its lower case where it has no star,
/// and otherwise any text with its parts between the stars in their order.
pub open spec fn pattern_fits(pattern: Seq<char>, model: Seq<char>) -> bool {
    let plain = text::lowercase(pattern);
    if !plain.contains('*') {
        plain == model
    } else {
        in_order(filled_parts(text::pieces(plain, '*')), model, 0)
    }
}

proof fn lemma_in_order_earlier(parts: Seq<Seq<char>>, s: Seq<char>, from: int, later: int)
    requires
        from <= later,
        in_order(parts, s, later),
    ensures
        in_order(parts, s, from),
{
    if parts.len() > 0 {
        let i = choose|i: int|
            later <= i && #[trigger] text::occurs_at(s, parts[0], i) && in_order(
                parts.skip(1),
                s,
                i + parts[0].len(),
            );
        assert(text::occurs_at(s, parts[0], i));
    }
}

/// Those of `parts` that are not empty.
fn without_empty(parts: &Vec<String>) -> (r: Vec<String>)
    ensures
        text::texts(r@) == filled_parts(text::texts(parts@)),
{
    let ghost all = text::texts(parts@);
    let mut out: Vec<String> = Vec::new();
    let mut i: usize = 0;
    assert(all.take(0) =~= Seq::<Seq<char>>::empty());
    assert(text::texts(out@) =~= Seq::<Seq<char>>::empty());
    while i < parts.len()
        invariant
            i <= parts@.len(),
            all == text::texts(parts@),
            text::texts(out@) == filled_parts(all.take(i as int)),
        decreases parts@.len() - i,
    {
        assert(all.take(i + 1).drop_last() =~= all.take(i as int));
        let ghost before = out@;
        if !parts[i].as_str().is_empty() {
            out.push(parts[i].clone());
            assert(text::texts(out@) =~= text::texts(before).push(parts@[i as int]@));
        }
        i += 1;
    }
    assert(all.take(all.len() as int) =~= all);
    out
}

/// Is `model`, in lower case, what `pattern` stands for?
pub fn model_pattern_matches(pattern: &str, model: &str) -> (r: bool)
    ensures
        r == pattern_fits(pattern@, model@),
{
    let plain: String = text::to_lowercase(pattern);
    if !has_star(plain.as_str()) {
        return text::same_text(plain.as_str(), model);
    }
    let parts: Vec<String> = without_empty(&text::split(plain.as_str(), '*'));
    let ghost all = text::texts(parts@);
    let hay: Vec<char> = text::chars_of(model);
    let size: usize = hay.len();
    let mut from: usize = 0;
    let mut i: usize = 0;
    assert(all.skip(0) =~= all);
    while i < parts.len()
        invariant
            i <= parts@.len(),
            from <= size,
            size == hay@.len(),
            hay@ == model@,
            all == text::texts(parts@),
            in_order(all, model@, 0) == in_order(all.skip(i as int), model@, from as int),
            pattern_fits(pattern@, model@) == in_order(all, model@, 0),
        decreases parts@.len() - i,
    {
        let ghost rest = all.skip(i as int);
        assert(rest.skip(1) =~= all.skip(i + 1));
        let part: Vec<char> = text::chars_of(parts[i].as_str());
        assert(rest[0] == part@);
        proof {
            text::lemma_found_from(model@, part@, from as int);
        }
        match text::find_from(&hay, &part, from) {
            Some(at) => {
                proof {
                    let next = at + part@.len();
                    if in_order(rest, model@, from as int) {
                        let k = choose|k: int|
                            from <= k && #[trigger] text::occurs_at(model@, rest[0], k)
                                && in_order(rest.skip(1), model@, k + rest[0].len());
                        assert(at <= k);
                        lemma_in_order_earlier(rest.skip(1), model@, next, k + rest[0].len());
                    }
                    if in_order(rest.skip(1), model@, next) {
                        assert(text::occurs_at(model@, rest[0], at as int));
                    }
                }
                from = at + part.len();
            },
            None => {
                return false;
            },
        }
        i += 1;
    }
    true
}

/// Is there a star in `text`?
fn has_star(text: &str) -> (r: bool)
    ensures
        r == text@.contains('*'),
{
    let chars: Vec<char> = text::chars_of(text);
    let mut i: usize = 0;
    while i < chars.len()
        invariant
            i <= chars@.len(),
            chars@ == text@,
            forall|j: int| 0 <= j < i ==> text@[j] != '*',
        decreases chars@.len() - i,
    {
        if chars[i] == '*' {
            return true;
        }
        i += 1;
    }
    false
}

/// Clients may ask for `model`: no list is given, or an entry of it fits.
pub open spec fn model_allowed(allowed: Seq<Seq<char>>, model: Seq<char>) -> bool {
    allowed.len() == 0 || exists|i: int|
        0 <= i < allowed.len() && !text::blank(#[trigger] allowed[i]) && pattern_fits(
            text::trimmed(allowed[i]),
            text::lowercase(text::trimmed(model)),
        )
}

/// May clients ask for `model`?
pub fn external_model_allowed(router: &RouterConfig, model: &str) -> (r: bool)
    ensures
        r == model_allowed(router@.external_allowed_models, model@),
{
    let allowed: &Vec<String> = &router.external_allowed_models;
    let ghost all = text::texts(allowed@);
    if allowed.len() == 0 {
        return true;
    }
    let target: String = text::to_lowercase(text::trim(model));
    let mut i: usize = 0;
    while i < allowed.len()
        invariant
            i <= allowed@.len(),
            all == text::texts(allowed@),
            all == router@.external_allowed_models,
            allowed@.len() > 0,
            target@ == text::lowercase(text::trimmed(model@)),
            forall|j: int|
                0 <= j < i ==> text::blank(#[trigger] all[j]) || !pattern_fits(
                    text::trimmed(all[j]),
                    target@,
                ),
        decreases allowed@.len() - i,
    {
        assert(all[i as int] == allowed@[i as int]@);
        let item: &str = text::trim(allowed[i].as_str());
        if !item.is_empty() && model_pattern_matches(item, target.as_str()) {
            return true;
        }
        i += 1;
    }
    false
}

proof fn lemma_roles_differ()
    ensures
        "pro"@ != "default"@,
        "pro"@ != "emergency"@,
        "pro"@ != "backup"@,
        "pro"@ != "any"@,
        "emergency"@ != "backup"@,
        "emergency"@ != "default"@,
        "backup"@ != "default"@,
{
    reveal_strlit("pro");
    reveal_strlit("default");
    reveal_strlit("emergency");
    reveal_strlit("backup");
    reveal_strlit("any");
    assert("pro"@.len() == 3 && "default"@.len() == 7 && "emergency"@.len() == 9);
    assert("backup"@.len() == 6 && "any"@[0] == 'a' && "pro"@[0] == 'p');
}

/// With the router switched off, every request keeps the model it asks for.
pub proof fn law_disabled_router(
    router: RouterConfigView,
    cost: u128,
    request: Option<JsonTree>,
    requested: Seq<char>,
    hints: RouteHintsView,
)
    requires
        !router.enabled,
    ensures
        route(router, cost, request, requested, hints).requested_model == requested,
        route(router, cost, request, requested, hints).desired_model == requested,
        route(router, cost, request, requested, hints).role == "any"@,
{
}

/// A router that only says what it would do keeps the model asked for, but for
/// the models that a request may ask for by name.
pub proof fn law_dry_run(
    router: RouterConfigView,
    cost: u128,
    request: Option<JsonTree>,
    requested: Seq<char>,
    hints: RouteHintsView,
)
    requires
        router.dry_run,
    ensures
        ({
            let decision = route(router, cost, request, requested, hints);
            ||| decision.desired_model == requested && decision.role == "any"@
                && decision.group.len() == 0
            ||| Some(decision) == explicit_route(router, requested)
        }),
{
}

/// A task for the free models goes to the emergency models, whatever model it
/// asks for and whatever the month has cost.
pub proof fn law_free_task(
    router: RouterConfigView,
    cost: u128,
    request: Option<JsonTree>,
    requested: Seq<char>,
    hints: RouteHintsView,
)
    requires
        router.enabled,
        !router.dry_run,
        free_mark(hints, latest_of(request), task_of(request)) is Some,
    ensures
        route(router, cost, request, requested, hints).role == "emergency"@,
        route(router, cost, request, requested, hints).desired_model == router.emergency_model,
{
    lemma_roles_differ();
}

/// Past the hard limit of the month every other request goes to the backup
/// models, whatever model it asks for.
pub proof fn law_hard_limit(
    router: RouterConfigView,
    cost: u128,
    request: Option<JsonTree>,
    requested: Seq<char>,
    hints: RouteHintsView,
)
    requires
        router.enabled,
        !router.dry_run,
        free_mark(hints, latest_of(request), task_of(request)) is None,
        reached(router.monthly_hard_limit_nano_cny, cost),
    ensures
        route(router, cost, request, requested, hints).role == "backup"@,
        route(router, cost, request, requested, hints).desired_model == router.backup_model,
{
    lemma_roles_differ();
}

/// Past the threshold of the month only a request that names the larger model is
/// sent to it.
pub proof fn law_downgrade(
    router: RouterConfigView,
    cost: u128,
    request: Option<JsonTree>,
    requested: Seq<char>,
    hints: RouteHintsView,
)
    requires
        reached(router.monthly_downgrade_nano_cny, cost),
        explicit_route(router, requested) is None,
    ensures
        route(router, cost, request, requested, hints).role != "pro"@,
{
    lemma_roles_differ();
}

/// A decision is for one of five roles. But for the role that any channel may
/// serve, the model and the group are those of the role.
pub proof fn law_decision_of_role(
    router: RouterConfigView,
    cost: u128,
    request: Option<JsonTree>,
    requested: Seq<char>,
    hints: RouteHintsView,
)
    ensures
        ({
            let decision = route(router, cost, request, requested, hints);
            let role = decision.role;
            ||| role == "any"@ && decision.group.len() == 0
            ||| {
                &&& role == "default"@ || role == "pro"@ || role == "emergency"@ || role
                    == "backup"@
                &&& decision.desired_model == role_model(router, role)
                &&& decision.group == role_group(router, role)
            }
        }),
{
}

proof fn lemma_pieces_of_star()
    ensures
        filled_parts(text::pieces("*"@, '*')).len() == 0,
        "*"@.contains('*'),
        text::lowercase("*"@) == "*"@,
{
    reveal_strlit("*");
    let star = "*"@;
    assert(star[0] == '*');
    assert(star.drop_last() =~= Seq::<char>::empty());
    assert(text::pieces(star, '*') =~= seq![Seq::<char>::empty(), Seq::<char>::empty()]) by {
        reveal_with_fuel(text::pieces, 3);
    }
    let parts = text::pieces(star, '*');
    assert(parts.drop_last() =~= seq![Seq::<char>::empty()]);
    assert(parts.drop_last().drop_last() =~= Seq::<Seq<char>>::empty());
    assert(filled_parts(parts).len() == 0) by {
        reveal_with_fuel(filled_parts, 4);
    }
    assert(text::lowercase(star) =~= star);
}

/// The pattern of a single star stands for every model.
pub proof fn law_star_fits_all(model: Seq<char>)
    ensures
        pattern_fits("*"@, model),
{
    lemma_pieces_of_star();
}

/// A pattern with a star that fits a text also fits every longer text that it
/// begins.
pub proof fn law_pattern_open_at_end(pattern: Seq<char>, model: Seq<char>, more: Seq<char>)
    requires
        text::lowercase(pattern).contains('*'),
        pattern_fits(pattern, model),
    ensures
        pattern_fits(pattern, model + more),
{
    lemma_in_order_longer(filled_parts(text::pieces(text::lowercase(pattern), '*')), model, more, 0);
}

proof fn lemma_in_order_longer(parts: Seq<Seq<char>>, s: Seq<char>, more: Seq<char>, from: int)
    requires
        in_order(parts, s, from),
    ensures
        in_order(parts, s + more, from),
    decreases parts.len(),
{
    if parts.len() > 0 {
        let i = choose|i: int|
            from <= i && #[trigger] text::occurs_at(s, parts[0], i) && in_order(
                parts.skip(1),
                s,
                i + parts[0].len(),
            );
        lemma_in_order_longer(parts.skip(1), s, more, i + parts[0].len());
        assert((s + more).subrange(i, i + parts[0].len()) =~= s.subrange(i, i + parts[0].len()));
        assert(text::occurs_at(s + more, parts[0], i));
    }
}

/// A request with a list of allowed models that holds a star is never refused.
pub proof fn law_star_allows_all(allowed: Seq<Seq<char>>, model: Seq<char>)
    requires
        allowed.contains("*"@),
    ensures
        model_allowed(allowed, model),
{
    let i = choose|i: int| 0 <= i < allowed.len() && allowed[i] == "*"@;
    reveal_strlit("*");
    assert(text::trimmed(allowed[i]) =~= "*"@);
    law_star_fits_all(text::lowercase(text::trimmed(model)));
    assert(!text::blank(allowed[i]));
}

/// A pattern is found in a text exactly where one of them stands in it, and it is
/// the first one in the list that does.
pub proof fn law_first_held(hay: Seq<char>, patterns: Seq<Seq<char>>)
    ensures
        first_held(hay, patterns) is Some <==> exists|i: int|
            0 <= i < patterns.len() && text::contains_text(hay, #[trigger] patterns[i]),
        first_held(hay, patterns) matches Some(found) ==> exists|i: int|
            0 <= i < patterns.len() && #[trigger] patterns[i] == found && text::contains_text(
                hay,
                found,
            ) && forall|j: int| 0 <= j < i ==> !text::contains_text(hay, #[trigger] patterns[j]),
    decreases patterns.len(),
{
    if patterns.len() > 0 && !text::contains_text(hay, patterns[0]) {
        let rest = patterns.skip(1);
        law_first_held(hay, rest);
        if exists|i: int|
            0 <= i < patterns.len() && text::contains_text(hay, #[trigger] patterns[i]) {
            let i = choose|i: int|
                0 <= i < patterns.len() && text::contains_text(hay, #[trigger] patterns[i]);
            assert(rest[i - 1] == patterns[i]);
        }
        if first_held(hay, rest) is Some {
            let found = first_held(hay, rest)->0;
            let i = choose|i: int|
                0 <= i < rest.len() && #[trigger] rest[i] == found && text::contains_text(
                    hay,
                    found,
                ) && forall|j: int| 0 <= j < i ==> !text::contains_text(hay, #[trigger] rest[j]);
            assert(patterns[i + 1] == found);
            assert forall|j: int| 0 <= j < i + 1 implies !text::contains_text(
                hay,
                #[trigger] patterns[j],
            ) by {
                if j > 0 {
                    assert(rest[j - 1] == patterns[j]);
                }
            }
        }
    } else if patterns.len() > 0 {
        assert(patterns[0] == patterns[0]);
    }
}

/// A keyword is found in a text exactly where the lower case of one of them stands
/// in it, and it is the first one in the list that does.
pub proof fn law_first_keyword(hay: Seq<char>, keywords: Seq<Seq<char>>)
    ensures
        first_keyword(hay, keywords) is Some <==> exists|i: int|
            0 <= i < keywords.len() && text::contains_text(
                hay,
                text::lowercase(#[trigger] keywords[i]),
            ),
        first_keyword(hay, keywords) matches Some(found) ==> exists|i: int|
            0 <= i < keywords.len() && #[trigger] keywords[i] == found && text::contains_text(
                hay,
                text::lowercase(found),
            ) && forall|j: int|
                0 <= j < i ==> !text::contains_text(hay, text::lowercase(#[trigger] keywords[j])),
    decreases keywords.len(),
{
    if keywords.len() > 0 && !text::contains_text(hay, text::lowercase(keywords[0])) {
        let rest = keywords.skip(1);
        law_first_keyword(hay, rest);
        if exists|i: int|
            0 <= i < keywords.len() && text::contains_text(
                hay,
                text::lowercase(#[trigger] keywords[i]),
            ) {
            let i = choose|i: int|
                0 <= i < keywords.len() && text::contains_text(
                    hay,
                    text::lowercase(#[trigger] keywords[i]),
                );
            assert(rest[i - 1] == keywords[i]);
        }
        if first_keyword(hay, rest) is Some {
            let found = first_keyword(hay, rest)->0;
            let i = choose|i: int|
                0 <= i < rest.len() && #[trigger] rest[i] == found && text::contains_text(
                    hay,
                    text::lowercase(found),
                ) && forall|j: int|
                    0 <= j < i ==> !text::contains_text(hay, text::lowercase(#[trigger] rest[j]));
            assert(keywords[i + 1] == found);
            assert forall|j: int| 0 <= j < i + 1 implies !text::contains_text(
                hay,
                text::lowercase(#[trigger] keywords[j]),
            ) by {
                if j > 0 {
                    assert(rest[j - 1] == keywords[j]);
                }
            }
        }
    } else if keywords.len() > 0 {
        assert(keywords[0] == keywords[0]);
    }
}

/// The hint speaks of work for the larger model.
pub open spec fn hints_at_larger_work(hint: Seq<char>) -> bool {
    let said = text::lowercase(text::trimmed(hint));
    &&& said.len() > 0
    &&& {
        ||| text::contains_text(said, "compact"@)
        ||| text::contains_text(said, "compression"@)
        ||| text::contains_text(said, "summarize"@)
        ||| text::contains_text(said, "summary"@)
        ||| text::contains_text(said, "memory"@)
        ||| text::contains_text(said, "reflection"@)
        ||| text::contains_text(said, "reflexio"@)
        ||| text::contains_text(said, "dream"@)
        ||| text::contains_text(said, "review"@)
        ||| text::contains_text(said, "code_review"@)
        ||| text::contains_text(said, "architecture"@)
        ||| text::contains_text(said, "design"@)
        ||| text::contains_text(said, "migration"@)
        ||| text::contains_text(said, "reasoning"@)
        ||| text::contains_text(said, "analysis"@)
        ||| text::contains_text(said, "diagnose"@)
        ||| text::contains_text(said, "troubleshoot"@)
        ||| text::contains_text(said, "root_cause"@)
    }
}

/// The hint speaks of work that the default model can do.
pub open spec fn hints_at_light_work(hint: Seq<char>) -> bool {
    let said = text::lowercase(text::trimmed(hint));
    &&& said.len() > 0
    &&& {
        ||| text::contains_text(said, "status"@)
        ||| text::contains_text(said, "health"@)
        ||| text::contains_text(said, "weather"@)
        ||| text::contains_text(said, "cron"@)
        ||| text::contains_text(said, "schedule"@)
        ||| text::contains_text(said, "lof"@)
        ||| text::contains_text(said, "rss"@)
        ||| text::contains_text(said, "quote"@)
        ||| text::contains_text(said, "simple"@)
        ||| text::contains_text(said, "simple_chat"@)
        ||| text::contains_text(said, "fast_chat"@)
    }
}

/// The hint speaks of a check of health.
pub open spec fn hints_at_health_check(hint: Seq<char>) -> bool {
    let said = text::lowercase(text::trimmed(hint));
    &&& said.len() > 0
    &&& {
        ||| text::contains_text(said, "heartbeat"@)
        ||| text::contains_text(said, "healthcheck"@)
        ||| text::contains_text(said, "self_check"@)
        ||| text::contains_text(said, "self-check"@)
    }
}

/// The text is that of a heartbeat.
pub open spec fn speaks_of_heartbeat(said: Seq<char>) -> bool {
    ||| text::contains_text(said, "heartbeat.md"@)
    ||| text::contains_text(said, "heartbeat agent"@)
    ||| text::contains_text(said, "heartbeat tool"@)
    ||| text::contains_text(said, "\"name\":\"heartbeat\""@)
    ||| text::contains_text(said, "\"name\": \"heartbeat\""@)
}

/// The text asks for the facts of a conversation to be kept.
pub open spec fn speaks_of_memory(said: Seq<char>) -> bool {
    ||| text::contains_text(said, "extract key facts from this conversation"@)
    ||| text::contains_text(said, "only output items matching these categories"@)
    ||| text::contains_text(said, "output as concise bullet points"@)
}

/// The text speaks of work for the larger model.
pub open spec fn speaks_of_larger_work(said: Seq<char>) -> bool {
    ||| text::contains_text(said, "context compression"@)
    ||| text::contains_text(said, "context summary"@)
    ||| text::contains_text(said, "conversation summary"@)
    ||| text::contains_text(said, "memory consolidation"@)
    ||| text::contains_text(said, "compact conversation"@)
    ||| text::contains_text(said, "summarize conversation"@)
    ||| text::contains_text(said, "summarize this conversation"@)
    ||| text::contains_text(said, "summarize the conversation"@)
    ||| text::contains_text(said, "conversation so far"@)
    ||| text::contains_text(said, "consolidate memory"@)
    ||| text::contains_text(said, "code review"@)
    ||| text::contains_text(said, "review existing"@)
    ||| text::contains_text(said, "root cause"@)
    ||| text::contains_text(said, "上下文压缩"@)
    ||| text::contains_text(said, "压缩上下文"@)
    ||| text::contains_text(said, "总结对话"@)
    ||| text::contains_text(said, "对话总结"@)
    ||| text::contains_text(said, "记忆整理"@)
    ||| text::contains_text(said, "代码审查"@)
    ||| text::contains_text(said, "根因"@)
    ||| text::contains_text(said, "排障"@)
}

proof fn lemma_pro_hints(hint: Seq<char>)
    ensures
        says_any(hint, pro_hints()) == hints_at_larger_work(hint),
{
    reveal_strlit("compact");
    assert(text::lowercase("compact"@) =~= "compact"@);
    assert(pro_hints()[0] == "compact"@);
    reveal_strlit("compression");
    assert(text::lowercase("compression"@) =~= "compression"@);
    assert(pro_hints()[1] == "compression"@);
    reveal_strlit("summarize");
    assert(text::lowercase("summarize"@) =~= "summarize"@);
    assert(pro_hints()[2] == "summarize"@);
    reveal_strlit("summary");
    assert(text::lowercase("summary"@) =~= "summary"@);
    assert(pro_hints()[3] == "summary"@);
    reveal_strlit("memory");
    assert(text::lowercase("memory"@) =~= "memory"@);
    assert(pro_hints()[4] == "memory"@);
    reveal_strlit("reflection");
    assert(text::lowercase("reflection"@) =~= "reflection"@);
    assert(pro_hints()[5] == "reflection"@);
    reveal_strlit("reflexio");
    assert(text::lowercase("reflexio"@) =~= "reflexio"@);
    assert(pro_hints()[6] == "reflexio"@);
    reveal_strlit("dream");
    assert(text::lowercase("dream"@) =~= "dream"@);
    assert(pro_hints()[7] == "dream"@);
    reveal_strlit("review");
    assert(text::lowercase("review"@) =~= "review"@);
    assert(pro_hints()[8] == "review"@);
    reveal_strlit("code_review");
    assert(text::lowercase("code_review"@) =~= "code_review"@);
    assert(pro_hints()[9] == "code_review"@);
    reveal_strlit("architecture");
    assert(text::lowercase("architecture"@) =~= "architecture"@);
    assert(pro_hints()[10] == "architecture"@);
    reveal_strlit("design");
    assert(text::lowercase("design"@) =~= "design"@);
    assert(pro_hints()[11] == "design"@);
    reveal_strlit("migration");
    assert(text::lowercase("migration"@) =~= "migration"@);
    assert(pro_hints()[12] == "migration"@);
    reveal_strlit("reasoning");
    assert(text::lowercase("reasoning"@) =~= "reasoning"@);
    assert(pro_hints()[13] == "reasoning"@);
    reveal_strlit("analysis");
    assert(text::lowercase("analysis"@) =~= "analysis"@);
    assert(pro_hints()[14] == "analysis"@);
    reveal_strlit("diagnose");
    assert(text::lowercase("diagnose"@) =~= "diagnose"@);
    assert(pro_hints()[15] == "diagnose"@);
    reveal_strlit("troubleshoot");
    assert(text::lowercase("troubleshoot"@) =~= "troubleshoot"@);
    assert(pro_hints()[16] == "troubleshoot"@);
    reveal_strlit("root_cause");
    assert(text::lowercase("root_cause"@) =~= "root_cause"@);
    assert(pro_hints()[17] == "root_cause"@);
    assert(pro_hints().len() == 18);
    let said = text::lowercase(text::trimmed(hint));
    if says_any(hint, pro_hints()) {
        let i = choose|i: int|
            0 <= i < pro_hints().len() && text::contains_text(
                said,
                text::lowercase(#[trigger] pro_hints()[i]),
            );
        assert(text::contains_text(said, text::lowercase(pro_hints()[i])));
    }
}

proof fn lemma_light_hints(hint: Seq<char>)
    ensures
        says_any(hint, light_hints()) == hints_at_light_work(hint),
{
    reveal_strlit("status");
    assert(text::lowercase("status"@) =~= "status"@);
    assert(light_hints()[0] == "status"@);
    reveal_strlit("health");
    assert(text::lowercase("health"@) =~= "health"@);
    assert(light_hints()[1] == "health"@);
    reveal_strlit("weather");
    assert(text::lowercase("weather"@) =~= "weather"@);
    assert(light_hints()[2] == "weather"@);
    reveal_strlit("cron");
    assert(text::lowercase("cron"@) =~= "cron"@);
    assert(light_hints()[3] == "cron"@);
    reveal_strlit("schedule");
    assert(text::lowercase("schedule"@) =~= "schedule"@);
    assert(light_hints()[4] == "schedule"@);
    reveal_strlit("lof");
    assert(text::lowercase("lof"@) =~= "lof"@);
    assert(light_hints()[5] == "lof"@);
    reveal_strlit("rss");
    assert(text::lowercase("rss"@) =~= "rss"@);
    assert(light_hints()[6] == "rss"@);
    reveal_strlit("quote");
    assert(text::lowercase("quote"@) =~= "quote"@);
    assert(light_hints()[7] == "quote"@);
    reveal_strlit("simple");
    assert(text::lowercase("simple"@) =~= "simple"@);
    assert(light_hints()[8] == "simple"@);
    reveal_strlit("simple_chat");
    assert(text::lowercase("simple_chat"@) =~= "simple_chat"@);
    assert(light_hints()[9] == "simple_chat"@);
    reveal_strlit("fast_chat");
    assert(text::lowercase("fast_chat"@) =~= "fast_chat"@);
    assert(light_hints()[10] == "fast_chat"@);
    assert(light_hints().len() == 11);
    let said = text::lowercase(text::trimmed(hint));
    if says_any(hint, light_hints()) {
        let i = choose|i: int|
            0 <= i < light_hints().len() && text::contains_text(
                said,
                text::lowercase(#[trigger] light_hints()[i]),
            );
        assert(text::contains_text(said, text::lowercase(light_hints()[i])));
    }
}

proof fn lemma_free_hints(hint: Seq<char>)
    ensures
        says_any(hint, free_hints()) == hints_at_health_check(hint),
{
    reveal_strlit("heartbeat");
    assert(text::lowercase("heartbeat"@) =~= "heartbeat"@);
    assert(free_hints()[0] == "heartbeat"@);
    reveal_strlit("healthcheck");
    assert(text::lowercase("healthcheck"@) =~= "healthcheck"@);
    assert(free_hints()[1] == "healthcheck"@);
    reveal_strlit("self_check");
    assert(text::lowercase("self_check"@) =~= "self_check"@);
    assert(free_hints()[2] == "self_check"@);
    reveal_strlit("self-check");
    assert(text::lowercase("self-check"@) =~= "self-check"@);
    assert(free_hints()[3] == "self-check"@);
    assert(free_hints().len() == 4);
    let said = text::lowercase(text::trimmed(hint));
    if says_any(hint, free_hints()) {
        let i = choose|i: int|
            0 <= i < free_hints().len() && text::contains_text(
                said,
                text::lowercase(#[trigger] free_hints()[i]),
            );
        assert(text::contains_text(said, text::lowercase(free_hints()[i])));
    }
}

proof fn lemma_heartbeat_patterns(said: Seq<char>)
    ensures
        first_held(said, heartbeat_patterns()) is Some == speaks_of_heartbeat(said),
{
    law_first_held(said, heartbeat_patterns());
    assert(heartbeat_patterns()[0] == "heartbeat.md"@);
    assert(heartbeat_patterns()[1] == "heartbeat agent"@);
    assert(heartbeat_patterns()[2] == "heartbeat tool"@);
    assert(heartbeat_patterns()[3] == "\"name\":\"heartbeat\""@);
    assert(heartbeat_patterns()[4] == "\"name\": \"heartbeat\""@);
    assert(heartbeat_patterns().len() == 5);
}

proof fn lemma_free_task_patterns(said: Seq<char>)
    ensures
        first_held(said, free_task_patterns()) is Some == speaks_of_memory(said),
{
    law_first_held(said, free_task_patterns());
    assert(free_task_patterns()[0] == "extract key facts from this conversation"@);
    assert(free_task_patterns()[1] == "only output items matching these categories"@);
    assert(free_task_patterns()[2] == "output as concise bullet points"@);
    assert(free_task_patterns().len() == 3);
}

proof fn lemma_pro_patterns(said: Seq<char>)
    ensures
        first_held(said, pro_patterns()) is Some == speaks_of_larger_work(said),
{
    law_first_held(said, pro_patterns());
    assert(pro_patterns()[0] == "context compression"@);
    assert(pro_patterns()[1] == "context summary"@);
    assert(pro_patterns()[2] == "conversation summary"@);
    assert(pro_patterns()[3] == "memory consolidation"@);
    assert(pro_patterns()[4] == "compact conversation"@);
    assert(pro_patterns()[5] == "summarize conversation"@);
    assert(pro_patterns()[6] == "summarize this conversation"@);
    assert(pro_patterns()[7] == "summarize the conversation"@);
    assert(pro_patterns()[8] == "conversation so far"@);
    assert(pro_patterns()[9] == "consolidate memory"@);
    assert(pro_patterns()[10] == "code review"@);
    assert(pro_patterns()[11] == "review existing"@);
    assert(pro_patterns()[12] == "root cause"@);
    assert(pro_patterns()[13] == "上下文压缩"@);
    assert(pro_patterns()[14] == "压缩上下文"@);
    assert(pro_patterns()[15] == "总结对话"@);
    assert(pro_patterns()[16] == "对话总结"@);
    assert(pro_patterns()[17] == "记忆整理"@);
    assert(pro_patterns()[18] == "代码审查"@);
    assert(pro_patterns()[19] == "根因"@);
    assert(pro_patterns()[20] == "排障"@);
    assert(pro_patterns().len() == 21);
}

/// The request is a task for the free models: a hint says that it is a check of
/// health, its last text is a heartbeat, or its task is to keep the facts of a
/// conversation.
pub open spec fn is_free_task(
    hints: RouteHintsView,
    latest: Seq<char>,
    task: Seq<char>,
) -> bool {
    ||| hints_at_health_check(hints.purpose)
    ||| hints_at_health_check(hints.intent)
    ||| speaks_of_heartbeat(latest)
    ||| speaks_of_memory(task)
}

/// A request for the default model is work for the larger one: its model is named
/// so, a hint says so, or its text does, by a pattern or by a keyword, unless it is
/// a heartbeat or its intent is light.
pub open spec fn is_larger_work(
    router: RouterConfigView,
    latest: Seq<char>,
    requested: Seq<char>,
    hints: RouteHintsView,
) -> bool {
    ||| text::contains_text(text::lowercase(requested), "pro"@)
    ||| text::contains_text(text::lowercase(requested), "reasoner"@)
    ||| hints_at_larger_work(hints.purpose)
    ||| hints_at_larger_work(hints.intent)
    ||| {
        &&& !speaks_of_heartbeat(latest)
        &&& !hints_at_light_work(hints.intent)
        &&& speaks_of_larger_work(latest) || exists|i: int|
            0 <= i < router.pro_keywords.len() && text::contains_text(
                latest,
                text::lowercase(#[trigger] router.pro_keywords[i]),
            )
    }
}

proof fn lemma_free_mark(hints: RouteHintsView, latest: Seq<char>, task: Seq<char>)
    ensures
        free_mark(hints, latest, task) is Some == is_free_task(hints, latest, task),
{
    lemma_free_hints(hints.purpose);
    lemma_free_hints(hints.intent);
    lemma_heartbeat_patterns(latest);
    lemma_free_task_patterns(task);
}

proof fn lemma_weighed(
    router: RouterConfigView,
    latest: Seq<char>,
    requested: Seq<char>,
    hints: RouteHintsView,
)
    ensures
        weighed(router, latest, requested, hints).0 == is_larger_work(
            router,
            latest,
            requested,
            hints,
        ),
{
    lemma_pro_hints(hints.purpose);
    lemma_pro_hints(hints.intent);
    lemma_light_hints(hints.intent);
    lemma_heartbeat_patterns(latest);
    lemma_pro_patterns(latest);
    law_first_keyword(latest, router.pro_keywords);
    assert(pro_names()[0] == "pro"@ && pro_names()[1] == "reasoner"@ && pro_names().len() == 2);
}

/// `a` and `b` name one model: they are equal but for the case of ASCII letters and
/// for white space around them, and `b` is not blank.
pub open spec fn one_model(a: Seq<char>, b: Seq<char>) -> bool {
    &&& text::trimmed(b).len() > 0
    &&& text::ascii_lowered(text::trimmed(a)) == text::ascii_lowered(text::trimmed(b))
}

/// The request leaves the model to the router: it names none, or the default model
/// by one of its names.
pub open spec fn leaves_model_open(router: RouterConfigView, requested: Seq<char>) -> bool {
    ||| text::trimmed(requested).len() == 0
    ||| text::ascii_lowered(text::trimmed(requested)) == text::ascii_lowered("unknown"@)
    ||| one_model(requested, router.default_model)
    ||| exists|i: int|
        0 <= i < router.default_alias_models.len() && one_model(
            requested,
            #[trigger] router.default_alias_models[i],
        )
}

/// The request names the larger model, by one of its names.
pub open spec fn names_larger_model(router: RouterConfigView, requested: Seq<char>) -> bool {
    ||| one_model(requested, router.pro_model)
    ||| exists|i: int|
        0 <= i < router.pro_alias_models.len() && one_model(
            requested,
            #[trigger] router.pro_alias_models[i],
        )
}

/// The decision is for the default role, with the model and the group of it.
pub open spec fn goes_to_default(router: RouterConfigView, decision: RouteDecisionView) -> bool {
    &&& decision.role == "default"@
    &&& decision.desired_model == router.default_model
    &&& decision.group == text::lowercase(text::trimmed(router.default_group))
}

/// The decision is for the larger model, and the group of it.
pub open spec fn goes_to_pro(router: RouterConfigView, decision: RouteDecisionView) -> bool {
    &&& decision.role == "pro"@
    &&& decision.desired_model == router.pro_model
    &&& decision.group == text::lowercase(text::trimmed(router.pro_group))
}

/// The decision is for the emergency model, and the group of it.
pub open spec fn goes_to_emergency(router: RouterConfigView, decision: RouteDecisionView) -> bool {
    &&& decision.role == "emergency"@
    &&& decision.desired_model == router.emergency_model
    &&& decision.group == text::lowercase(text::trimmed(router.emergency_group))
}

/// The decision is for the backup model, and the group of it.
pub open spec fn goes_to_backup(router: RouterConfigView, decision: RouteDecisionView) -> bool {
    &&& decision.role == "backup"@
    &&& decision.desired_model == router.backup_model
    &&& decision.group == text::lowercase(text::trimmed(router.backup_group))
}

/// The decision lets any channel serve `model`.
pub open spec fn goes_anywhere(decision: RouteDecisionView, model: Seq<char>) -> bool {
    decision.role == "any"@ && decision.desired_model == model && decision.group.len() == 0
}

proof fn lemma_leaves_model_open(router: RouterConfigView, requested: Seq<char>)
    ensures
        explicit_route(router, requested) is None == leaves_model_open(router, requested),
        explicit_route(router, requested) is Some && names_larger_model(router, requested)
            ==> explicit_route(router, requested)->0.role == "pro"@,
        explicit_route(router, requested) is Some && explicit_route(router, requested)->0.reason
            == "requested configured pro model"@ ==> names_larger_model(router, requested),
{
    text::lemma_trimmed_twice(requested);
    let model = text::trimmed(requested);
    assert forall|b: Seq<char>| #[trigger] same_model(model, b) == one_model(requested, b) by {}
    if leaves_model_open(router, requested) && model.len() > 0 && !channel::same_word(
        model,
        "unknown"@,
    ) && !one_model(requested, router.default_model) {
        let i = choose|i: int|
            0 <= i < router.default_alias_models.len() && one_model(
                requested,
                #[trigger] router.default_alias_models[i],
            );
        assert(same_model(model, router.default_alias_models[i]));
    }
    if named_among(model, router.default_alias_models) {
        let i = choose|i: int|
            0 <= i < router.default_alias_models.len() && same_model(
                model,
                #[trigger] router.default_alias_models[i],
            );
        assert(one_model(requested, router.default_alias_models[i]));
    }
    if names_larger_model(router, requested) && !one_model(requested, router.pro_model) {
        let i = choose|i: int|
            0 <= i < router.pro_alias_models.len() && one_model(
                requested,
                #[trigger] router.pro_alias_models[i],
            );
        assert(same_model(model, router.pro_alias_models[i]));
    }
    if named_among(model, router.pro_alias_models) {
        let i = choose|i: int|
            0 <= i < router.pro_alias_models.len() && same_model(
                model,
                #[trigger] router.pro_alias_models[i],
            );
        assert(one_model(requested, router.pro_alias_models[i]));
    }
    reveal_strlit("requested configured pro model");
    reveal_strlit("requested configured emergency model");
    reveal_strlit("requested configured backup model");
    reveal_strlit("requested explicit model passthrough");
    assert("requested configured pro model"@.len() == 30);
    assert("requested configured emergency model"@.len() == 36);
    assert("requested configured backup model"@.len() == 33);
    assert("requested explicit model passthrough"@.len() == 36);
}

/// Where a request goes, as long as the router is on and not only tried out. A task
/// for the free models goes to the emergency model. Past the hard limit everything
/// else goes to the backup model. A request that names a model gets it: the larger,
/// the emergency or the backup model by their names, and any other model from any
/// channel. What is left goes to the larger model where it is larger work and the
/// threshold is not reached, and to the default model otherwise.
pub proof fn law_where_requests_go(
    router: RouterConfigView,
    cost: u128,
    request: Option<JsonTree>,
    requested: Seq<char>,
    hints: RouteHintsView,
)
    requires
        router.enabled,
        !router.dry_run,
    ensures
        ({
            let decision = route(router, cost, request, requested, hints);
            let latest = latest_of(request);
            let hard = 0 < router.monthly_hard_limit_nano_cny <= cost;
            let threshold = 0 < router.monthly_downgrade_nano_cny <= cost;
            let free = is_free_task(hints, latest, task_of(request));
            let open = leaves_model_open(router, requested);
            let named = !free && !hard && !open;
            let larger = names_larger_model(router, requested);
            let more = is_larger_work(router, latest, requested, hints);
            &&& free ==> goes_to_emergency(router, decision)
            &&& !free && hard ==> goes_to_backup(router, decision)
            &&& named && larger ==> goes_to_pro(router, decision)
            &&& named && !larger && one_model(requested, router.emergency_model)
                ==> goes_to_emergency(router, decision)
            &&& named && !larger && !one_model(requested, router.emergency_model) && one_model(
                requested,
                router.backup_model,
            ) ==> goes_to_backup(router, decision)
            &&& named && !larger && !one_model(requested, router.emergency_model) && !one_model(
                requested,
                router.backup_model,
            ) ==> goes_anywhere(decision, text::trimmed(requested))
            &&& !free && !hard && open && more && !threshold ==> goes_to_pro(router, decision)
            &&& !free && !hard && open && more && threshold ==> goes_to_default(router, decision)
            &&& !free && !hard && open && !more ==> goes_to_default(router, decision)
        }),
{
    let latest = latest_of(request);
    lemma_roles_differ();
    lemma_free_mark(hints, latest, task_of(request));
    lemma_weighed(router, latest, requested, hints);
    lemma_leaves_model_open(router, requested);
    text::lemma_trimmed_twice(requested);
    let model = text::trimmed(requested);
    assert(same_model(model, router.emergency_model) == one_model(
        requested,
        router.emergency_model,
    ));
    assert(same_model(model, router.backup_model) == one_model(requested, router.backup_model));
}

/// A router that is off, or that only tries out what it would do with a request
/// that leaves the model open, a task for the free models or one past the hard
/// limit, lets any channel serve the model that was asked for.
pub proof fn law_router_that_stands_by(
    router: RouterConfigView,
    cost: u128,
    request: Option<JsonTree>,
    requested: Seq<char>,
    hints: RouteHintsView,
)
    requires
        !router.enabled || (router.dry_run && (leaves_model_open(router, requested) || is_free_task(
            hints,
            latest_of(request),
            task_of(request),
        ) || 0 < router.monthly_hard_limit_nano_cny <= cost)),
    ensures
        goes_anywhere(route(router, cost, request, requested, hints), requested),
        route(router, cost, request, requested, hints).requested_model == requested,
{
    lemma_free_mark(hints, latest_of(request), task_of(request));
    lemma_leaves_model_open(router, requested);
}

/// A request keeps the model that it asked for in the decision, without white
/// space around it where it names a model of its own.
pub proof fn law_requested_model_is_kept(
    router: RouterConfigView,
    cost: u128,
    request: Option<JsonTree>,
    requested: Seq<char>,
    hints: RouteHintsView,
)
    ensures
        text::trimmed(route(router, cost, request, requested, hints).requested_model)
            == text::trimmed(requested),
{
    text::lemma_trimmed_twice(requested);
}

/// Why a request goes where it goes is told in words: what marked it as a free
/// task, what the month has cost, which keyword was found.
pub proof fn law_reasons_are_told(
    router: RouterConfigView,
    cost: u128,
    request: Option<JsonTree>,
    requested: Seq<char>,
    hints: RouteHintsView,
)
    requires
        router.enabled,
        !router.dry_run,
        hints.purpose.len() == 0,
        hints.intent.len() == 0,
    ensures
        ({
            let reason = route(router, cost, request, requested, hints).reason;
            let latest = latest_of(request);
            let free = is_free_task(hints, latest, task_of(request));
            let hard = 0 < router.monthly_hard_limit_nano_cny <= cost;
            let threshold = 0 < router.monthly_downgrade_nano_cny <= cost;
            let open = leaves_model_open(router, requested);
            let named = text::contains_text(text::lowercase(requested), "pro"@)
                || text::contains_text(text::lowercase(requested), "reasoner"@);
            let keyword = first_keyword(latest, router.pro_keywords);
            &&& free && speaks_of_heartbeat(latest) ==> exists|k: int|
                0 <= k < heartbeat_patterns().len() && text::contains_text(
                    latest,
                    #[trigger] heartbeat_patterns()[k],
                ) && reason == "free task pattern matched: "@ + heartbeat_patterns()[k]
            &&& !free && hard ==> reason == "monthly hard limit reached "@ + yuan_text(cost)
                + " CNY"@
            &&& !free && !hard && open && named && !threshold ==> reason
                == "requested pro/reasoner model"@
            &&& !free && !hard && open && !named && !threshold && !speaks_of_larger_work(latest)
                && keyword is Some ==> reason == "keyword matched: "@ + keyword->0
            &&& !free && !hard && open && !named && !speaks_of_larger_work(latest) && keyword is None
                ==> reason == "default lightweight route"@
        }),
{
    let latest = latest_of(request);
    lemma_free_mark(hints, latest, task_of(request));
    lemma_leaves_model_open(router, requested);
    lemma_heartbeat_patterns(latest);
    lemma_pro_patterns(latest);
    law_first_held(latest, heartbeat_patterns());
    law_first_keyword(latest, router.pro_keywords);
    assert(text::trimmed(hints.purpose).len() == 0) by {
        reveal_with_fuel(text::trimmed_start, 2);
        reveal_with_fuel(text::trimmed_end, 2);
    }
    assert(text::trimmed(hints.intent).len() == 0);
    assert(text::lowercase(text::trimmed(hints.purpose)).len() == 0);
    assert(text::lowercase(text::trimmed(hints.intent)).len() == 0);
    assert(!says_any(hints.purpose, pro_hints()) && !says_any(hints.intent, pro_hints()));
    assert(!says_any(hints.purpose, light_hints()) && !says_any(hints.intent, light_hints()));
    assert(!says_any(hints.purpose, free_hints()) && !says_any(hints.intent, free_hints()));
    assert(pro_names()[0] == "pro"@ && pro_names()[1] == "reasoner"@ && pro_names().len() == 2);
}

/// The group and the model of each role are those that the configuration names for
/// it, the group in lower case and without white space around it.
pub proof fn law_roles(router: RouterConfigView)
    ensures
        role_model(router, "default"@) == router.default_model,
        role_model(router, "pro"@) == router.pro_model,
        role_model(router, "emergency"@) == router.emergency_model,
        role_model(router, "backup"@) == router.backup_model,
        role_model(router, "any"@) == router.default_model,
        role_group(router, "default"@) == text::lowercase(text::trimmed(router.default_group)),
        role_group(router, "pro"@) == text::lowercase(text::trimmed(router.pro_group)),
        role_group(router, "emergency"@) == text::lowercase(text::trimmed(router.emergency_group)),
        role_group(router, "backup"@) == text::lowercase(text::trimmed(router.backup_group)),
        role_group(router, "any"@).len() == 0,
{
    lemma_roles_differ();
    reveal_strlit("any");
    reveal_strlit("default");
    reveal_strlit("emergency");
    reveal_strlit("backup");
    assert("any"@.len() == 3 && "default"@.len() == 7 && "emergency"@.len() == 9);
    assert("backup"@.len() == 6);
}

/// A pattern without a star fits the one name that is its lower case.
pub proof fn law_plain_pattern(pattern: Seq<char>, model: Seq<char>)
    requires
        !text::lowercase(pattern).contains('*'),
    ensures
        pattern_fits(pattern, model) <==> model == text::lowercase(pattern),
{
}

proof fn lemma_filled_part(parts: Seq<Seq<char>>, part: Seq<char>)
    ensures
        filled_parts(parts).contains(part) <==> part.len() > 0 && parts.contains(part),
    decreases parts.len(),
{
    if parts.len() > 0 {
        let rest = parts.drop_last();
        lemma_filled_part(rest, part);
        assert(parts =~= rest.push(parts.last()));
        if parts.contains(part) {
            let i = choose|i: int| 0 <= i < parts.len() && parts[i] == part;
            if i < rest.len() {
                assert(rest[i] == part);
            }
        }
        if rest.contains(part) {
            let i = choose|i: int| 0 <= i < rest.len() && rest[i] == part;
            assert(parts[i] == part);
        }
        let before = filled_parts(rest);
        if parts.last().len() > 0 {
            let after = before.push(parts.last());
            if before.contains(part) {
                let i = choose|i: int| 0 <= i < before.len() && before[i] == part;
                assert(after[i] == part);
            }
            if after.contains(part) && part != parts.last() {
                let i = choose|i: int| 0 <= i < after.len() && after[i] == part;
                assert(before[i] == part);
            }
            if part == parts.last() {
                assert(after[after.len() - 1] == part);
                assert(parts[parts.len() - 1] == part);
            }
        }
    }
}

proof fn lemma_in_order_parts(parts: Seq<Seq<char>>, s: Seq<char>, from: int, k: int)
    requires
        in_order(parts, s, from),
        0 <= k < parts.len(),
    ensures
        text::contains_text(s, parts[k]),
    decreases parts.len(),
{
    let i = choose|i: int|
        from <= i && #[trigger] text::occurs_at(s, parts[0], i) && in_order(
            parts.skip(1),
            s,
            i + parts[0].len(),
        );
    if k > 0 {
        lemma_in_order_parts(parts.skip(1), s, i + parts[0].len(), k - 1);
        assert(parts.skip(1)[k - 1] == parts[k]);
    }
}

/// A pattern with a star fits no text that lacks one of the parts between the
/// stars.
pub proof fn law_parts_of_pattern(pattern: Seq<char>, model: Seq<char>, part: Seq<char>)
    requires
        text::lowercase(pattern).contains('*'),
        pattern_fits(pattern, model),
        text::pieces(text::lowercase(pattern), '*').contains(part),
    ensures
        text::contains_text(model, part),
{
    let parts = text::pieces(text::lowercase(pattern), '*');
    lemma_filled_part(parts, part);
    if part.len() == 0 {
        assert(model.subrange(0, 0) =~= part);
        assert(text::occurs_at(model, part, 0));
    } else {
        let list = filled_parts(parts);
        let k = choose|k: int| 0 <= k < list.len() && list[k] == part;
        lemma_in_order_parts(list, model, 0, k);
    }
}

/// Clients may ask for every model where no list is given; otherwise for the models
/// that the list names, whatever their case and the white space around them, and
/// for no other where it holds no star.
pub proof fn law_allowed_models(allowed: Seq<Seq<char>>, model: Seq<char>)
    requires
        forall|i: int|
            0 <= i < allowed.len() ==> !text::lowercase(
                text::trimmed(#[trigger] allowed[i]),
            ).contains('*'),
    ensures
        model_allowed(allowed, model) <==> allowed.len() == 0 || exists|i: int|
            0 <= i < allowed.len() && text::trimmed(#[trigger] allowed[i]).len() > 0
                && text::lowercase(text::trimmed(allowed[i])) == text::lowercase(
                text::trimmed(model),
            ),
{
}

/// The nearest whole number is no further off than half; halfway between two it is the even
/// one.
pub proof fn law_nearest(a: int, b: int)
    requires
        b > 0,
    ensures
        -b <= 2 * (a - nearest(a, b) * b) <= b,
        2 * (a - nearest(a, b) * b) == b || 2 * (a - nearest(a, b) * b) == -b ==> nearest(a, b) % 2
            == 0,
{
    let whole = a / b;
    let rest = a % b;
    vstd::arithmetic::div_mod::lemma_fundamental_div_mod(a, b);
    assert(a == b * whole + rest && 0 <= rest < b);
    assert((whole + 1) * b == b * whole + b) by (nonlinear_arith);
    assert(whole * b == b * whole) by (nonlinear_arith);
}

proof fn lemma_is_nearest(a: int, b: int, n: int)
    requires
        b > 0,
        -b < 2 * (a - n * b) < b,
    ensures
        nearest(a, b) == n,
{
    law_nearest(a, b);
    let m = nearest(a, b);
    assert(m == n) by (nonlinear_arith)
        requires
            b > 0,
            -b < 2 * (a - n * b) < b,
            -b <= 2 * (a - m * b) <= b,
    ;
}

proof fn lemma_small_cents(k: int, num: int, unit: int)
    requires
        0 < k < 0x2000_0000_0000,
        unit > 0,
        num == k * 10_000_000 * unit,
    ensures
        cents_of_small(num, 1_000_000_000, unit) == k,
    decreases 2 * LEAST_SIGNIFICAND * 1_000_000_000 - num,
{
    let den: int = 1_000_000_000;
    assert(num > 0) by (nonlinear_arith)
        requires
            num == k * 10_000_000 * unit,
            k > 0,
            unit > 0,
    ;
    if num < LEAST_SIGNIFICAND * den {
        assert(2 * num == k * 10_000_000 * (2 * unit)) by (nonlinear_arith)
            requires
                num == k * 10_000_000 * unit,
        ;
        lemma_small_cents(k, 2 * num, 2 * unit);
    } else {
        let near = nearest(num, den);
        law_nearest(num, den);
        let whole = k * unit;
        assert(num == 10_000_000 * whole) by (nonlinear_arith)
            requires
                num == k * 10_000_000 * unit,
                whole == k * unit,
        ;
        assert(whole >= 0x10_0000_0000_0000 * 100);
        assert(unit > 100) by (nonlinear_arith)
            requires
                whole == k * unit,
                whole >= 0x10_0000_0000_0000 * 100,
                0 < k < 0x2000_0000_0000,
        ;
        assert(-100 <= 2 * (100 * near - whole) <= 100);
        lemma_is_nearest(100 * near, unit, k);
    }
}

/// An amount of whole cents is told exactly, up to hundreds of billions of yuan: the yuan, a
/// point and the two digits of the cents.
pub proof fn law_whole_cents_are_told(amount: u128, k: int)
    requires
        0 <= k < 0x2000_0000_0000,
        amount == k * 10_000_000,
    ensures
        cents(amount) == k,
        yuan_text(amount) == numeral::decimal(k / 100) + "."@ + numeral::zero_padded(
            numeral::decimal(k % 100),
            2,
        ),
{
    if k > 0 {
        lemma_small_cents(k, amount as int, 1);
    }
}

/// Where a hint says so, the reason names it: the purpose first, and then the intent, in its
/// own words.
pub proof fn law_hints_are_told(
    router: RouterConfigView,
    cost: u128,
    request: Option<JsonTree>,
    requested: Seq<char>,
    hints: RouteHintsView,
)
    requires
        router.enabled,
        !router.dry_run,
    ensures
        ({
            let reason = route(router, cost, request, requested, hints).reason;
            let latest = latest_of(request);
            let purpose = hints_at_health_check(hints.purpose);
            let intent = hints_at_health_check(hints.intent);
            let free = is_free_task(hints, latest, task_of(request));
            let hard = 0 < router.monthly_hard_limit_nano_cny <= cost;
            let threshold = 0 < router.monthly_downgrade_nano_cny <= cost;
            let left = !free && !hard && leaves_model_open(router, requested);
            let named = text::contains_text(text::lowercase(requested), "pro"@)
                || text::contains_text(text::lowercase(requested), "reasoner"@);
            let more = is_larger_work(router, latest, requested, hints);
            let by_purpose = "purpose"@ + " hint matched: "@ + hints.purpose;
            let by_intent = "intent"@ + " hint matched: "@ + hints.intent;
            let threshold_told = "monthly downgrade threshold reached "@ + yuan_text(cost)
                + " CNY; suppressed pro route ("@;
            &&& purpose ==> reason == "free task pattern matched: "@ + by_purpose
            &&& !purpose && intent ==> reason == "free task pattern matched: "@ + by_intent
            &&& left && !named && hints_at_larger_work(hints.purpose) && !threshold ==> reason
                == by_purpose
            &&& left && !named && !hints_at_larger_work(hints.purpose) && hints_at_larger_work(
                hints.intent,
            ) && !threshold ==> reason == by_intent
            &&& left && !named && hints_at_larger_work(hints.purpose) && threshold ==> reason
                == threshold_told + by_purpose + ")"@
            &&& left && named && threshold ==> reason == threshold_told
                + "requested pro/reasoner model"@ + ")"@
            &&& left && !more && !speaks_of_heartbeat(latest) && hints_at_light_work(hints.purpose)
                ==> reason == "purpose"@ + " hint keeps default: "@ + hints.purpose
            &&& left && !more && !speaks_of_heartbeat(latest) && !hints_at_light_work(hints.purpose)
                && hints_at_light_work(hints.intent) ==> reason == "intent"@
                + " hint keeps default: "@ + hints.intent
        }),
{
    let latest = latest_of(request);
    lemma_free_mark(hints, latest, task_of(request));
    lemma_weighed(router, latest, requested, hints);
    lemma_leaves_model_open(router, requested);
    lemma_free_hints(hints.purpose);
    lemma_free_hints(hints.intent);
    lemma_pro_hints(hints.purpose);
    lemma_pro_hints(hints.intent);
    lemma_light_hints(hints.purpose);
    lemma_light_hints(hints.intent);
    lemma_heartbeat_patterns(latest);
    assert(pro_names()[0] == "pro"@ && pro_names()[1] == "reasoner"@ && pro_names().len() == 2);
}

/// A request that names a model is told so; a router that is off says that, and one that only
/// tries out says where the request would go and why.
pub proof fn law_other_reasons(
    router: RouterConfigView,
    cost: u128,
    request: Option<JsonTree>,
    requested: Seq<char>,
    hints: RouteHintsView,
)
    ensures
        ({
            let reason = route(router, cost, request, requested, hints).reason;
            let live = RouterConfigView { dry_run: false, ..router };
            let meant = route(live, cost, request, requested, hints);
            let free = is_free_task(hints, latest_of(request), task_of(request));
            let hard = 0 < router.monthly_hard_limit_nano_cny <= cost;
            let open = leaves_model_open(router, requested);
            let named = router.enabled && !free && !hard && !open;
            let larger = names_larger_model(router, requested);
            let emergency = one_model(requested, router.emergency_model);
            let backup = one_model(requested, router.backup_model);
            &&& !router.enabled ==> reason == "router disabled"@
            &&& named && larger ==> reason == "requested configured pro model"@
            &&& named && !larger && emergency ==> reason == "requested configured emergency model"@
            &&& named && !larger && !emergency && backup ==> reason
                == "requested configured backup model"@
            &&& named && !larger && !emergency && !backup ==> reason
                == "requested explicit model passthrough"@
            &&& router.enabled && router.dry_run && !named ==> reason == "dry-run: would use "@
                + meant.role + "/"@ + meant.desired_model + " because "@ + meant.reason
        }),
{
    lemma_free_mark(hints, latest_of(request), task_of(request));
    lemma_leaves_model_open(router, requested);
    text::lemma_trimmed_twice(requested);
    let model = text::trimmed(requested);
    let live = RouterConfigView { dry_run: false, ..router };
    assert(same_model(model, router.emergency_model) == one_model(
        requested,
        router.emergency_model,
    ));
    assert(same_model(model, router.backup_model) == one_model(requested, router.backup_model));
    assert(explicit_route(live, requested) == explicit_route(router, requested));
    lemma_larger_by_name(router, requested);
}

proof fn lemma_larger_by_name(router: RouterConfigView, requested: Seq<char>)
    ensures
        ({
            let model = text::trimmed(requested);
            names_larger_model(router, requested) == (same_model(model, router.pro_model)
                || named_among(model, router.pro_alias_models))
        }),
{
    text::lemma_trimmed_twice(requested);
    let model = text::trimmed(requested);
    assert forall|b: Seq<char>| #[trigger] same_model(model, b) == one_model(requested, b) by {}
    if names_larger_model(router, requested) && !one_model(requested, router.pro_model) {
        let i = choose|i: int|
            0 <= i < router.pro_alias_models.len() && one_model(
                requested,
                #[trigger] router.pro_alias_models[i],
            );
        assert(same_model(model, router.pro_alias_models[i]));
    }
    if named_among(model, router.pro_alias_models) {
        let i = choose|i: int|
            0 <= i < router.pro_alias_models.len() && same_model(
                model,
                #[trigger] router.pro_alias_models[i],
            );
        assert(one_model(requested, router.pro_alias_models[i]));
    }
}

proof fn lemma_two_pieces(a: Seq<char>, b: Seq<char>)
    requires
        !a.contains('*'),
        !b.contains('*'),
    ensures
        text::pieces(a + seq!['*'] + b, '*') == seq![a, b],
{
    let head = a + seq!['*'];
    lemma_no_star(a);
    lemma_no_star(b);
    assert(head.drop_last() =~= a);
    assert(text::pieces(head, '*') =~= seq![a, Seq::<char>::empty()]);
    text::law_pieces_of_parts(head, b, '*');
    assert(text::pieces(head, '*').drop_last() =~= seq![a]);
    assert(Seq::<char>::empty() + b =~= b);
    assert(seq![a] + seq![b] =~= seq![a, b]);
}

proof fn lemma_no_star(s: Seq<char>)
    requires
        !s.contains('*'),
    ensures
        text::pieces(s, '*') == seq![s],
    decreases s.len(),
{
    if s.len() > 0 {
        let rest = s.drop_last();
        assert(!rest.contains('*')) by {
            if rest.contains('*') {
                let k = choose|k: int| 0 <= k < rest.len() && rest[k] == '*';
                assert(s[k] == '*');
            }
        }
        lemma_no_star(rest);
        assert(s[s.len() - 1] != '*');
        assert(text::pieces(rest, '*').drop_last() =~= Seq::<Seq<char>>::empty());
        assert(rest.push(s.last()) =~= s);
        assert(text::pieces(s, '*') =~= seq![s]);
    } else {
        assert(s =~= Seq::<char>::empty());
    }
}

/// A pattern of two parts with a star between them fits the texts in which the first part stands
/// somewhere, and the second behind it.
pub proof fn law_pattern_of_two_parts(
    pattern: Seq<char>,
    a: Seq<char>,
    b: Seq<char>,
    model: Seq<char>,
)
    requires
        text::lowercase(pattern) == a + seq!['*'] + b,
        !a.contains('*'),
        !b.contains('*'),
        a.len() > 0,
        b.len() > 0,
    ensures
        pattern_fits(pattern, model) <==> exists|i: int, j: int|
            0 <= i && i + a.len() <= j && #[trigger] text::occurs_at(model, a, i)
                && #[trigger] text::occurs_at(model, b, j),
{
    let plain = text::lowercase(pattern);
    lemma_two_pieces(a, b);
    assert(plain[a.len() as int] == '*');
    let parts = seq![a, b];
    reveal_with_fuel(filled_parts, 3);
    assert(parts.drop_last() =~= seq![a]);
    assert(seq![a].drop_last() =~= Seq::<Seq<char>>::empty());
    assert(filled_parts(parts) =~= parts);
    reveal_with_fuel(in_order, 3);
    assert(parts.skip(1) =~= seq![b]);
    assert(seq![b].skip(1) =~= Seq::<Seq<char>>::empty());
    if in_order(parts, model, 0) {
        let i = choose|i: int|
            0 <= i && #[trigger] text::occurs_at(model, parts[0], i) && in_order(
                parts.skip(1),
                model,
                i + parts[0].len(),
            );
        assert(in_order(seq![b], model, i + a.len()));
        let j = choose|j: int|
            i + a.len() <= j && #[trigger] text::occurs_at(model, seq![b][0], j) && in_order(
                seq![b].skip(1),
                model,
                j + b.len(),
            );
        assert(text::occurs_at(model, a, i) && text::occurs_at(model, b, j));
    }
    if exists|i: int, j: int|
        0 <= i && i + a.len() <= j && #[trigger] text::occurs_at(model, a, i)
            && #[trigger] text::occurs_at(model, b, j) {
        let (i, j) = choose|i: int, j: int|
            0 <= i && i + a.len() <= j && #[trigger] text::occurs_at(model, a, i)
                && #[trigger] text::occurs_at(model, b, j);
        assert(text::occurs_at(model, seq![b][0], j));
        assert(in_order(seq![b].skip(1), model, j + b.len()));
        assert(in_order(seq![b], model, i + a.len()));
        assert(text::occurs_at(model, parts[0], i));
    }
}

/// The text that a request is routed by is that of its messages, as `prompt` reads it from the
/// request with its members in order, in lower case; a request without a body has none.
pub proof fn law_texts_of_request(request: JsonTree, content: Seq<char>)
    ensures
        prompt::latest_text(json::sorted_tree(request)) == content ==> latest_of(Some(request))
            == text::lowercase(content),
        prompt::task_text(json::sorted_tree(request)) == content ==> task_of(Some(request))
            == text::lowercase(content),
        latest_of(None).len() == 0,
        task_of(None).len() == 0,
{
}

/// A list allows the models that one of its entries fits, in lower case and without white space
/// around either; an empty entry fits none.
pub proof fn law_allowed_by_pattern(allowed: Seq<Seq<char>>, model: Seq<char>, i: int)
    ensures
        ({
            let name = text::lowercase(text::trimmed(model));
            &&& 0 <= i < allowed.len() && !text::blank(allowed[i]) && pattern_fits(
                text::trimmed(allowed[i]),
                name,
            ) ==> model_allowed(allowed, model)
            &&& allowed.len() > 0 && (forall|j: int|
                0 <= j < allowed.len() ==> text::blank(#[trigger] allowed[j]) || !pattern_fits(
                    text::trimmed(allowed[j]),
                    name,
                )) ==> !model_allowed(allowed, model)
        }),
{
}

proof fn lemma_large_cents(m: int, t: nat, den: int, unit: int)
    requires
        LEAST_SIGNIFICAND <= m < 2 * LEAST_SIGNIFICAND,
        den > 0,
    ensures
        cents_of_large(m * vstd::arithmetic::power2::pow2(t) * den, den, unit) == 100 * m * vstd::arithmetic::power2::pow2(t) * unit,
    decreases t,
{
    let num = m * vstd::arithmetic::power2::pow2(t) * den;
    if t == 0 {
        vstd::arithmetic::power2::lemma2_to64();
        assert(vstd::arithmetic::power2::pow2(0) == 1);
        assert(num == m * den);
        assert(num < 2 * LEAST_SIGNIFICAND * den) by (nonlinear_arith)
            requires
                num == m * den,
                m < 2 * LEAST_SIGNIFICAND,
                den > 0,
        ;
        lemma_is_nearest(num, den, m);
        assert(100 * m * vstd::arithmetic::power2::pow2(t) * unit == 100 * m * unit);
    } else {
        let less = (t - 1) as nat;
        vstd::arithmetic::power2::lemma_pow2_unfold(t);
        vstd::arithmetic::power2::lemma_pow2_pos(less);
        let half = vstd::arithmetic::power2::pow2(less);
        assert(vstd::arithmetic::power2::pow2(t) == 2 * half);
        assert(num == m * half * (2 * den)) by (nonlinear_arith)
            requires
                num == m * vstd::arithmetic::power2::pow2(t) * den,
                vstd::arithmetic::power2::pow2(t) == 2 * half,
        ;
        assert(num >= 2 * LEAST_SIGNIFICAND * den) by (nonlinear_arith)
            requires
                num == m * half * (2 * den),
                m >= LEAST_SIGNIFICAND,
                half >= 1,
                den > 0,
        ;
        lemma_large_cents(m, less, 2 * den, 2 * unit);
        assert(100 * m * half * (2 * unit) == 100 * m * vstd::arithmetic::power2::pow2(t) * unit) by (nonlinear_arith)
            requires
                vstd::arithmetic::power2::pow2(t) == 2 * half,
        ;
    }
}

/// An amount beyond that, of as many yuan as 53 bits and zeros behind them can write, is told
/// exactly too.
pub proof fn law_large_amounts_are_told(amount: u128, m: int, t: nat)
    requires
        LEAST_SIGNIFICAND <= m < 2 * LEAST_SIGNIFICAND,
        amount == m * vstd::arithmetic::power2::pow2(t) * 1_000_000_000,
    ensures
        cents(amount) == 100 * m * vstd::arithmetic::power2::pow2(t),
{
    vstd::arithmetic::power2::lemma_pow2_pos(t);
    assert(m * vstd::arithmetic::power2::pow2(t) >= LEAST_SIGNIFICAND) by (nonlinear_arith)
        requires
            m >= LEAST_SIGNIFICAND,
            vstd::arithmetic::power2::pow2(t) >= 1,
    ;
    lemma_large_cents(m, t, 1_000_000_000, 1);
    assert(100 * m * vstd::arithmetic::power2::pow2(t) * 1 == 100 * m * vstd::arithmetic::power2::pow2(t));
}

} // verus!
