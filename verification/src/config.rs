//! The configuration of the router.
use crate::ordered::OrderedMap;
use crate::text;
use vstd::prelude::*;
use vstd::string::*;

verus! {

/// The models and the groups that go with the four roles.
pub struct RouteProfile {
    pub default_model: String,
    pub pro_model: String,
    pub emergency_model: String,
    pub backup_model: String,
    pub default_group: String,
    pub pro_group: String,
    pub emergency_group: String,
    pub backup_group: String,
}

/// What a profile holds.
#[verifier::ext_equal]
pub struct RouteProfileView {
    pub default_model: Seq<char>,
    pub pro_model: Seq<char>,
    pub emergency_model: Seq<char>,
    pub backup_model: Seq<char>,
    pub default_group: Seq<char>,
    pub pro_group: Seq<char>,
    pub emergency_group: Seq<char>,
    pub backup_group: Seq<char>,
}

impl View for RouteProfile {
    type V = RouteProfileView;

    open spec fn view(&self) -> RouteProfileView {
        RouteProfileView {
            default_model: self.default_model@,
            pro_model: self.pro_model@,
            emergency_model: self.emergency_model@,
            backup_model: self.backup_model@,
            default_group: self.default_group@,
            pro_group: self.pro_group@,
            emergency_group: self.emergency_group@,
            backup_group: self.backup_group@,
        }
    }
}

impl Clone for RouteProfile {
    fn clone(&self) -> (r: Self)
        ensures
            r == *self,
    {
        RouteProfile {
            default_model: self.default_model.clone(),
            pro_model: self.pro_model.clone(),
            emergency_model: self.emergency_model.clone(),
            backup_model: self.backup_model.clone(),
            default_group: self.default_group.clone(),
            pro_group: self.pro_group.clone(),
            emergency_group: self.emergency_group.clone(),
            backup_group: self.backup_group.clone(),
        }
    }
}

/// The profile named `default`.
pub open spec fn default_profile() -> RouteProfileView {
    RouteProfileView {
        default_model: "deepseek-v4-flash"@,
        pro_model: "deepseek-v4-pro"@,
        emergency_model: "LongCat-Flash-Chat"@,
        backup_model: "MiniMax-M2.7"@,
        default_group: "deepseek"@,
        pro_group: "deepseek"@,
        emergency_group: "longcat"@,
        backup_group: "minimax"@,
    }
}

/// The profile named `gemini`.
pub open spec fn gemini_profile() -> RouteProfileView {
    RouteProfileView {
        default_model: "gemini-flash"@,
        pro_model: "gemini-pro"@,
        emergency_model: "LongCat-Flash-Chat"@,
        backup_model: "gemini-flash"@,
        default_group: "gemini"@,
        pro_group: "gemini"@,
        emergency_group: "longcat"@,
        backup_group: "gemini"@,
    }
}

impl RouteProfile {
    /// The profile that routes to DeepSeek.
    pub fn default_stack() -> (r: Self)
        ensures
            r@ == default_profile(),
    {
        RouteProfile {
            default_model: "deepseek-v4-flash".to_owned(),
            pro_model: "deepseek-v4-pro".to_owned(),
            emergency_model: "LongCat-Flash-Chat".to_owned(),
            backup_model: "MiniMax-M2.7".to_owned(),
            default_group: "deepseek".to_owned(),
            pro_group: "deepseek".to_owned(),
            emergency_group: "longcat".to_owned(),
            backup_group: "minimax".to_owned(),
        }
    }

    /// The profile that routes to Gemini.
    pub fn gemini_stack() -> (r: Self)
        ensures
            r@ == gemini_profile(),
    {
        RouteProfile {
            default_model: "gemini-flash".to_owned(),
            pro_model: "gemini-pro".to_owned(),
            emergency_model: "LongCat-Flash-Chat".to_owned(),
            backup_model: "gemini-flash".to_owned(),
            default_group: "gemini".to_owned(),
            pro_group: "gemini".to_owned(),
            emergency_group: "longcat".to_owned(),
            backup_group: "gemini".to_owned(),
        }
    }

    /// Puts the models and the groups of the profile into `router`.
    pub fn apply_to(&self, router: &mut RouterConfig)
        ensures
            final(router)@ == old(router)@.with_profile(self@),
            old(router).wf() ==> final(router).wf(),
    {
        router.default_model = self.default_model.clone();
        router.pro_model = self.pro_model.clone();
        router.emergency_model = self.emergency_model.clone();
        router.backup_model = self.backup_model.clone();
        router.default_group = self.default_group.clone();
        router.pro_group = self.pro_group.clone();
        router.emergency_group = self.emergency_group.clone();
        router.backup_group = self.backup_group.clone();
    }
}

impl Default for RouteProfile {
    fn default() -> (r: Self)
        ensures
            r@ == default_profile(),
    {
        RouteProfile::default_stack()
    }
}

/// A rule that names the role for requests of a certain shape.
pub struct RouteRule {
    pub name: String,
    pub enabled: bool,
    pub priority: u32,
    pub role: String,
    pub model: String,
    pub group: String,
    pub reason: String,
    pub requested_models: Vec<String>,
    pub source_patterns: Vec<String>,
    pub hint_patterns: Vec<String>,
    pub latest_text_patterns: Vec<String>,
    pub task_text_patterns: Vec<String>,
    pub any_text_patterns: Vec<String>,
    /// In billionths of a yuan.
    pub min_monthly_cost_nano_cny: u128,
}

/// What a rule holds.
#[verifier::ext_equal]
pub struct RouteRuleView {
    pub name: Seq<char>,
    pub enabled: bool,
    pub priority: u32,
    pub role: Seq<char>,
    pub model: Seq<char>,
    pub group: Seq<char>,
    pub reason: Seq<char>,
    pub requested_models: Seq<Seq<char>>,
    pub source_patterns: Seq<Seq<char>>,
    pub hint_patterns: Seq<Seq<char>>,
    pub latest_text_patterns: Seq<Seq<char>>,
    pub task_text_patterns: Seq<Seq<char>>,
    pub any_text_patterns: Seq<Seq<char>>,
    pub min_monthly_cost_nano_cny: u128,
}

impl View for RouteRule {
    type V = RouteRuleView;

    open spec fn view(&self) -> RouteRuleView {
        RouteRuleView {
            name: self.name@,
            enabled: self.enabled,
            priority: self.priority,
            role: self.role@,
            model: self.model@,
            group: self.group@,
            reason: self.reason@,
            requested_models: text::texts(self.requested_models@),
            source_patterns: text::texts(self.source_patterns@),
            hint_patterns: text::texts(self.hint_patterns@),
            latest_text_patterns: text::texts(self.latest_text_patterns@),
            task_text_patterns: text::texts(self.task_text_patterns@),
            any_text_patterns: text::texts(self.any_text_patterns@),
            min_monthly_cost_nano_cny: self.min_monthly_cost_nano_cny,
        }
    }
}

impl Clone for RouteRule {
    fn clone(&self) -> (r: Self)
        ensures
            r@ == self@,
    {
        RouteRule {
            name: self.name.clone(),
            enabled: self.enabled,
            priority: self.priority,
            role: self.role.clone(),
            model: self.model.clone(),
            group: self.group.clone(),
            reason: self.reason.clone(),
            requested_models: text::copy_texts(&self.requested_models),
            source_patterns: text::copy_texts(&self.source_patterns),
            hint_patterns: text::copy_texts(&self.hint_patterns),
            latest_text_patterns: text::copy_texts(&self.latest_text_patterns),
            task_text_patterns: text::copy_texts(&self.task_text_patterns),
            any_text_patterns: text::copy_texts(&self.any_text_patterns),
            min_monthly_cost_nano_cny: self.min_monthly_cost_nano_cny,
        }
    }
}

/// What each of `rules` holds.
pub open spec fn rule_views(rules: Seq<RouteRule>) -> Seq<RouteRuleView> {
    Seq::new(rules.len(), |i: int| rules[i]@)
}

/// No texts.
pub open spec fn no_texts() -> Seq<Seq<char>> {
    Seq::<Seq<char>>::empty()
}

/// What a rule holds that nothing has been said of.
pub open spec fn default_rule() -> RouteRuleView {
    RouteRuleView {
        name: Seq::<char>::empty(),
        enabled: true,
        priority: 100,
        role: "default"@,
        model: Seq::<char>::empty(),
        group: Seq::<char>::empty(),
        reason: Seq::<char>::empty(),
        requested_models: no_texts(),
        source_patterns: no_texts(),
        hint_patterns: no_texts(),
        latest_text_patterns: no_texts(),
        task_text_patterns: no_texts(),
        any_text_patterns: no_texts(),
        min_monthly_cost_nano_cny: 0,
    }
}

impl Default for RouteRule {
    fn default() -> (r: Self)
        ensures
            r@ == default_rule(),
    {
        let r: RouteRule = RouteRule {
            name: String::new(),
            enabled: true,
            priority: 100,
            role: "default".to_owned(),
            model: String::new(),
            group: String::new(),
            reason: String::new(),
            requested_models: Vec::new(),
            source_patterns: Vec::new(),
            hint_patterns: Vec::new(),
            latest_text_patterns: Vec::new(),
            task_text_patterns: Vec::new(),
            any_text_patterns: Vec::new(),
            min_monthly_cost_nano_cny: 0,
        };
        assert(r@ =~= default_rule());
        r
    }
}

/// The rule for checks of health and for keeping memory.
pub open spec fn free_rule() -> RouteRuleView {
    RouteRuleView {
        name: "free-health-and-memory"@,
        priority: 10,
        role: "emergency"@,
        model: "LongCat-Flash-Chat"@,
        group: "longcat"@,
        reason: "free task pattern matched"@,
        hint_patterns: seq!["heartbeat"@, "healthcheck"@, "self_check"@, "self-check"@],
        latest_text_patterns: seq![
            "heartbeat.md"@,
            "heartbeat agent"@,
            "heartbeat tool"@,
            "\"name\":\"heartbeat\""@,
            "\"name\": \"heartbeat\""@,
        ],
        task_text_patterns: seq![
            "extract key facts from this conversation"@,
            "only output items matching these categories"@,
            "output as concise bullet points"@,
        ],
        ..default_rule()
    }
}

/// The rule for complex work.
pub open spec fn complex_rule() -> RouteRuleView {
    RouteRuleView {
        name: "complex-work-to-pro"@,
        priority: 80,
        role: "pro"@,
        reason: "complex task pattern matched"@,
        hint_patterns: seq![
            "compact"@,
            "compression"@,
            "summarize"@,
            "summary"@,
            "memory"@,
            "reflection"@,
            "review"@,
            "code_review"@,
            "architecture"@,
            "migration"@,
            "reasoning"@,
            "analysis"@,
            "diagnose"@,
            "root_cause"@,
        ],
        any_text_patterns: seq![
            "context compression"@,
            "memory consolidation"@,
            "code review"@,
            "review existing"@,
            "root cause"@,
            "上下文压缩"@,
            "压缩上下文"@,
            "代码审查"@,
            "根因"@,
            "排障"@,
        ],
        ..default_rule()
    }
}

/// The rules of a router of which nothing has been said.
pub open spec fn default_rules() -> Seq<RouteRuleView> {
    seq![free_rule(), complex_rule()]
}

/// The rules of a router of which nothing has been said.
pub fn default_route_rules() -> (r: Vec<RouteRule>)
    ensures
        rule_views(r@) == default_rules(),
{
    let free: RouteRule = RouteRule {
        name: "free-health-and-memory".to_owned(),
        priority: 10,
        role: "emergency".to_owned(),
        model: "LongCat-Flash-Chat".to_owned(),
        group: "longcat".to_owned(),
        reason: "free task pattern matched".to_owned(),
        hint_patterns: vec![
            "heartbeat".to_owned(),
            "healthcheck".to_owned(),
            "self_check".to_owned(),
            "self-check".to_owned(),
        ],
        latest_text_patterns: vec![
            "heartbeat.md".to_owned(),
            "heartbeat agent".to_owned(),
            "heartbeat tool".to_owned(),
            "\"name\":\"heartbeat\"".to_owned(),
            "\"name\": \"heartbeat\"".to_owned(),
        ],
        task_text_patterns: vec![
            "extract key facts from this conversation".to_owned(),
            "only output items matching these categories".to_owned(),
            "output as concise bullet points".to_owned(),
        ],
        ..RouteRule::default()
    };
    assert(free@ =~= free_rule()) by {
        assert(free@.hint_patterns =~= free_rule().hint_patterns);
        assert(free@.latest_text_patterns =~= free_rule().latest_text_patterns);
        assert(free@.task_text_patterns =~= free_rule().task_text_patterns);
    }
    let complex: RouteRule = RouteRule {
        name: "complex-work-to-pro".to_owned(),
        priority: 80,
        role: "pro".to_owned(),
        reason: "complex task pattern matched".to_owned(),
        hint_patterns: vec![
            "compact".to_owned(),
            "compression".to_owned(),
            "summarize".to_owned(),
            "summary".to_owned(),
            "memory".to_owned(),
            "reflection".to_owned(),
            "review".to_owned(),
            "code_review".to_owned(),
            "architecture".to_owned(),
            "migration".to_owned(),
            "reasoning".to_owned(),
            "analysis".to_owned(),
            "diagnose".to_owned(),
            "root_cause".to_owned(),
        ],
        any_text_patterns: vec![
            "context compression".to_owned(),
            "memory consolidation".to_owned(),
            "code review".to_owned(),
            "review existing".to_owned(),
            "root cause".to_owned(),
            "上下文压缩".to_owned(),
            "压缩上下文".to_owned(),
            "代码审查".to_owned(),
            "根因".to_owned(),
            "排障".to_owned(),
        ],
        ..RouteRule::default()
    };
    assert(complex@ =~= complex_rule()) by {
        assert(complex@.hint_patterns =~= complex_rule().hint_patterns);
        assert(complex@.any_text_patterns =~= complex_rule().any_text_patterns);
    }
    let rules: Vec<RouteRule> = vec![free, complex];
    assert(rule_views(rules@) =~= default_rules());
    rules
}

/// The configuration of the router.
pub struct RouterConfig {
    pub enabled: bool,
    pub dry_run: bool,
    pub external_enabled: bool,
    /// The models that clients may ask for; all where the list is empty.
    pub external_allowed_models: Vec<String>,
    pub default_model: String,
    pub pro_model: String,
    pub emergency_model: String,
    pub backup_model: String,
    pub default_group: String,
    pub pro_group: String,
    pub emergency_group: String,
    pub backup_group: String,
    /// Names that clients use for the default model.
    pub default_alias_models: Vec<String>,
    /// Names that clients use for the pro model.
    pub pro_alias_models: Vec<String>,
    pub route_profiles: OrderedMap<RouteProfile>,
    /// The profile for each source; `*` stands for the sources not named.
    pub source_route_profiles: OrderedMap<String>,
    pub route_rules: Vec<RouteRule>,
    pub pro_prompt_chars: usize,
    pub pro_message_count: usize,
    /// In billionths of a yuan, as are the two limits below.
    pub monthly_warn_nano_cny: u128,
    pub monthly_downgrade_nano_cny: u128,
    pub monthly_hard_limit_nano_cny: u128,
    pub retry_statuses: Vec<u16>,
    pub pro_keywords: Vec<String>,
}

/// What the configuration holds.
#[verifier::ext_equal]
pub struct RouterConfigView {
    pub enabled: bool,
    pub dry_run: bool,
    pub external_enabled: bool,
    pub external_allowed_models: Seq<Seq<char>>,
    pub default_model: Seq<char>,
    pub pro_model: Seq<char>,
    pub emergency_model: Seq<char>,
    pub backup_model: Seq<char>,
    pub default_group: Seq<char>,
    pub pro_group: Seq<char>,
    pub emergency_group: Seq<char>,
    pub backup_group: Seq<char>,
    pub default_alias_models: Seq<Seq<char>>,
    pub pro_alias_models: Seq<Seq<char>>,
    pub route_profiles: Map<Seq<char>, RouteProfileView>,
    pub source_route_profiles: Map<Seq<char>, Seq<char>>,
    pub route_rules: Seq<RouteRuleView>,
    pub pro_prompt_chars: usize,
    pub pro_message_count: usize,
    pub monthly_warn_nano_cny: u128,
    pub monthly_downgrade_nano_cny: u128,
    pub monthly_hard_limit_nano_cny: u128,
    pub retry_statuses: Seq<u16>,
    pub pro_keywords: Seq<Seq<char>>,
}

/// What each of `profiles` holds.
pub open spec fn profile_views(profiles: Map<Seq<char>, RouteProfile>) -> Map<
    Seq<char>,
    RouteProfileView,
> {
    Map::new(|name: Seq<char>| profiles.dom().contains(name), |name: Seq<char>| profiles[name]@)
}

/// The content of each of `names`.
pub open spec fn text_values(names: Map<Seq<char>, String>) -> Map<Seq<char>, Seq<char>> {
    Map::new(|key: Seq<char>| names.dom().contains(key), |key: Seq<char>| names[key]@)
}

impl View for RouterConfig {
    type V = RouterConfigView;

    open spec fn view(&self) -> RouterConfigView {
        RouterConfigView {
            enabled: self.enabled,
            dry_run: self.dry_run,
            external_enabled: self.external_enabled,
            external_allowed_models: text::texts(self.external_allowed_models@),
            default_model: self.default_model@,
            pro_model: self.pro_model@,
            emergency_model: self.emergency_model@,
            backup_model: self.backup_model@,
            default_group: self.default_group@,
            pro_group: self.pro_group@,
            emergency_group: self.emergency_group@,
            backup_group: self.backup_group@,
            default_alias_models: text::texts(self.default_alias_models@),
            pro_alias_models: text::texts(self.pro_alias_models@),
            route_profiles: profile_views(self.route_profiles@),
            source_route_profiles: text_values(self.source_route_profiles@),
            route_rules: rule_views(self.route_rules@),
            pro_prompt_chars: self.pro_prompt_chars,
            pro_message_count: self.pro_message_count,
            monthly_warn_nano_cny: self.monthly_warn_nano_cny,
            monthly_downgrade_nano_cny: self.monthly_downgrade_nano_cny,
            monthly_hard_limit_nano_cny: self.monthly_hard_limit_nano_cny,
            retry_statuses: self.retry_statuses@,
            pro_keywords: text::texts(self.pro_keywords@),
        }
    }
}

/// The profiles of a router of which nothing has been said.
pub open spec fn default_profiles() -> Map<Seq<char>, RouteProfileView> {
    Map::<Seq<char>, RouteProfileView>::empty().insert("default"@, default_profile()).insert(
        "gemini"@,
        gemini_profile(),
    )
}

/// The sources known to a router of which nothing has been said.
pub open spec fn default_sources() -> Map<Seq<char>, Seq<char>> {
    Map::<Seq<char>, Seq<char>>::empty().insert("default-nanobot"@, "gemini"@).insert(
        "guangzhou-nanobot"@,
        "default"@,
    )
}

/// Names for the default model that are known without being configured.
pub open spec fn default_aliases() -> Seq<Seq<char>> {
    seq!["deepseek-v4-flash"@, "gpt-4o-mini"@, "gpt-3.5-turbo"@]
}

/// Names for the pro model that are known without being configured.
pub open spec fn pro_aliases() -> Seq<Seq<char>> {
    seq!["deepseek-v4-pro"@, "deepseek-reasoner"@, "gpt-4o"@]
}

/// What a configuration holds of which nothing has been said.
pub open spec fn default_router() -> RouterConfigView {
    RouterConfigView {
        enabled: true,
        dry_run: false,
        external_enabled: true,
        external_allowed_models: seq![
            "deepseek-v4-flash"@,
            "deepseek-v4-pro"@,
            "MiniMax-M2.7"@,
            "LongCat-Flash-Chat"@,
        ],
        default_model: "deepseek-v4-flash"@,
        pro_model: "deepseek-v4-pro"@,
        emergency_model: "LongCat-Flash-Chat"@,
        backup_model: "coding-plan"@,
        default_group: "deepseek"@,
        pro_group: "deepseek"@,
        emergency_group: "longcat"@,
        backup_group: Seq::<char>::empty(),
        default_alias_models: default_aliases(),
        pro_alias_models: pro_aliases(),
        route_profiles: default_profiles(),
        source_route_profiles: default_sources(),
        route_rules: default_rules(),
        pro_prompt_chars: 0,
        pro_message_count: 0,
        monthly_warn_nano_cny: 10_000_000_000,
        monthly_downgrade_nano_cny: 20_000_000_000,
        monthly_hard_limit_nano_cny: 30_000_000_000,
        retry_statuses: seq![
            408u16,
            409u16,
            425u16,
            429u16,
            500u16,
            502u16,
            503u16,
            504u16,
            529u16,
        ],
        pro_keywords: seq![
            "深度分析"@,
            "深入分析"@,
            "架构"@,
            "architecture"@,
            "review"@,
            "code review"@,
            "代码审查"@,
            "重构"@,
            "refactor"@,
            "取舍"@,
            "迁移"@,
            "migration"@,
            "全盘"@,
            "排障"@,
            "root cause"@,
            "压缩"@,
            "上下文压缩"@,
            "反思"@,
        ],
    }
}

/// The profiles of a router of which nothing has been said.
pub fn default_route_profiles() -> (r: OrderedMap<RouteProfile>)
    ensures
        r.wf(),
        profile_views(r@) == default_profiles(),
{
    let mut out: OrderedMap<RouteProfile> = OrderedMap::new();
    out.insert("default".to_owned(), RouteProfile::default_stack());
    out.insert("gemini".to_owned(), RouteProfile::gemini_stack());
    assert(profile_views(out@) =~= default_profiles());
    out
}

/// The sources known to a router of which nothing has been said.
pub fn default_source_route_profiles() -> (r: OrderedMap<String>)
    ensures
        r.wf(),
        text_values(r@) == default_sources(),
{
    let mut out: OrderedMap<String> = OrderedMap::new();
    out.insert("default-nanobot".to_owned(), "gemini".to_owned());
    out.insert("guangzhou-nanobot".to_owned(), "default".to_owned());
    assert(text_values(out@) =~= default_sources());
    out
}

fn default_alias_names() -> (r: Vec<String>)
    ensures
        text::texts(r@) == default_aliases(),
{
    let out: Vec<String> = vec![
        "deepseek-v4-flash".to_owned(),
        "gpt-4o-mini".to_owned(),
        "gpt-3.5-turbo".to_owned(),
    ];
    assert(text::texts(out@) =~= default_aliases());
    out
}

fn pro_alias_names() -> (r: Vec<String>)
    ensures
        text::texts(r@) == pro_aliases(),
{
    let out: Vec<String> = vec![
        "deepseek-v4-pro".to_owned(),
        "deepseek-reasoner".to_owned(),
        "gpt-4o".to_owned(),
    ];
    assert(text::texts(out@) =~= pro_aliases());
    out
}

impl Default for RouterConfig {
    fn default() -> (r: Self)
        ensures
            r@ == default_router(),
            r.wf(),
    {
        let r: RouterConfig = RouterConfig {
            enabled: true,
            dry_run: false,
            external_enabled: true,
            external_allowed_models: vec![
                "deepseek-v4-flash".to_owned(),
                "deepseek-v4-pro".to_owned(),
                "MiniMax-M2.7".to_owned(),
                "LongCat-Flash-Chat".to_owned(),
            ],
            default_model: "deepseek-v4-flash".to_owned(),
            pro_model: "deepseek-v4-pro".to_owned(),
            emergency_model: "LongCat-Flash-Chat".to_owned(),
            backup_model: "coding-plan".to_owned(),
            default_group: "deepseek".to_owned(),
            pro_group: "deepseek".to_owned(),
            emergency_group: "longcat".to_owned(),
            backup_group: String::new(),
            default_alias_models: default_alias_names(),
            pro_alias_models: pro_alias_names(),
            route_profiles: default_route_profiles(),
            source_route_profiles: default_source_route_profiles(),
            route_rules: default_route_rules(),
            pro_prompt_chars: 0,
            pro_message_count: 0,
            monthly_warn_nano_cny: 10_000_000_000,
            monthly_downgrade_nano_cny: 20_000_000_000,
            monthly_hard_limit_nano_cny: 30_000_000_000,
            retry_statuses: vec![408, 409, 425, 429, 500, 502, 503, 504, 529],
            pro_keywords: vec![
                "深度分析".to_owned(),
                "深入分析".to_owned(),
                "架构".to_owned(),
                "architecture".to_owned(),
                "review".to_owned(),
                "code review".to_owned(),
                "代码审查".to_owned(),
                "重构".to_owned(),
                "refactor".to_owned(),
                "取舍".to_owned(),
                "迁移".to_owned(),
                "migration".to_owned(),
                "全盘".to_owned(),
                "排障".to_owned(),
                "root cause".to_owned(),
                "压缩".to_owned(),
                "上下文压缩".to_owned(),
                "反思".to_owned(),
            ],
        };
        assert(r@.external_allowed_models =~= default_router().external_allowed_models);
        assert(r@.pro_keywords =~= default_router().pro_keywords);
        assert(r@.retry_statuses =~= default_router().retry_statuses);
        r
    }
}

fn copy_rules(rules: &Vec<RouteRule>) -> (r: Vec<RouteRule>)
    ensures
        rule_views(r@) == rule_views(rules@),
{
    let mut out: Vec<RouteRule> = Vec::new();
    let mut i: usize = 0;
    while i < rules.len()
        invariant
            i <= rules@.len(),
            rule_views(out@) == rule_views(rules@).take(i as int),
        decreases rules@.len() - i,
    {
        let ghost before = out@;
        out.push(rules[i].clone());
        assert(rule_views(out@) =~= rule_views(before).push(rules@[i as int]@));
        assert(rule_views(out@) =~= rule_views(rules@).take(i + 1));
        i += 1;
    }
    assert(rule_views(rules@).take(rules@.len() as int) =~= rule_views(rules@));
    out
}

impl RouterConfig {
    /// A copy of the configuration.
    pub fn copied(&self) -> (r: Self)
        requires
            self.wf(),
        ensures
            r.wf(),
            r@ == self@,
    {
        let r: RouterConfig = RouterConfig {
            enabled: self.enabled,
            dry_run: self.dry_run,
            external_enabled: self.external_enabled,
            external_allowed_models: text::copy_texts(&self.external_allowed_models),
            default_model: self.default_model.clone(),
            pro_model: self.pro_model.clone(),
            emergency_model: self.emergency_model.clone(),
            backup_model: self.backup_model.clone(),
            default_group: self.default_group.clone(),
            pro_group: self.pro_group.clone(),
            emergency_group: self.emergency_group.clone(),
            backup_group: self.backup_group.clone(),
            default_alias_models: text::copy_texts(&self.default_alias_models),
            pro_alias_models: text::copy_texts(&self.pro_alias_models),
            route_profiles: self.route_profiles.copied(),
            source_route_profiles: self.source_route_profiles.copied(),
            route_rules: copy_rules(&self.route_rules),
            pro_prompt_chars: self.pro_prompt_chars,
            pro_message_count: self.pro_message_count,
            monthly_warn_nano_cny: self.monthly_warn_nano_cny,
            monthly_downgrade_nano_cny: self.monthly_downgrade_nano_cny,
            monthly_hard_limit_nano_cny: self.monthly_hard_limit_nano_cny,
            retry_statuses: self.retry_statuses.clone(),
            pro_keywords: text::copy_texts(&self.pro_keywords),
        };
        proof {
            assert forall|name: Seq<char>| self.route_profiles@.dom().contains(name) implies
                r.route_profiles@[name]@ == self.route_profiles@[name]@ by {
                assert(cloned(self.route_profiles@[name], r.route_profiles@[name]));
            }
            assert(profile_views(r.route_profiles@) =~= profile_views(self.route_profiles@));
            assert forall|name: Seq<char>| self.source_route_profiles@.dom().contains(name) implies
                r.source_route_profiles@[name]@ == self.source_route_profiles@[name]@ by {
                assert(cloned(self.source_route_profiles@[name], r.source_route_profiles@[name]));
            }
            assert(text_values(r.source_route_profiles@) =~= text_values(
                self.source_route_profiles@,
            ));
            assert(r.retry_statuses@ =~= self.retry_statuses@);
        }
        r
    }
}

/// `given`, or `fallback` where it is empty.
pub open spec fn or_texts(given: Seq<Seq<char>>, fallback: Seq<Seq<char>>) -> Seq<Seq<char>> {
    if given.len() == 0 {
        fallback
    } else {
        given
    }
}

/// `profiles` with `profile` as `name` where there is none of that name.
pub open spec fn with_missing(
    profiles: Map<Seq<char>, RouteProfileView>,
    name: Seq<char>,
    profile: RouteProfileView,
) -> Map<Seq<char>, RouteProfileView> {
    if profiles.dom().contains(name) {
        profiles
    } else {
        profiles.insert(name, profile)
    }
}

impl RouterConfigView {
    /// The configuration with the models and the groups of `profile`.
    pub open spec fn with_profile(self, profile: RouteProfileView) -> RouterConfigView {
        RouterConfigView {
            default_model: profile.default_model,
            pro_model: profile.pro_model,
            emergency_model: profile.emergency_model,
            backup_model: profile.backup_model,
            default_group: profile.default_group,
            pro_group: profile.pro_group,
            emergency_group: profile.emergency_group,
            backup_group: profile.backup_group,
            ..self
        }
    }

    /// The configuration with what it lacks filled in.
    pub open spec fn normalized(self) -> RouterConfigView {
        RouterConfigView {
            default_alias_models: or_texts(self.default_alias_models, default_aliases()),
            pro_alias_models: or_texts(self.pro_alias_models, pro_aliases()),
            route_profiles: with_missing(
                with_missing(self.route_profiles, "default"@, default_profile()),
                "gemini"@,
                gemini_profile(),
            ),
            source_route_profiles: if self.source_route_profiles == Map::<
                Seq<char>,
                Seq<char>,
            >::empty() {
                default_sources()
            } else {
                self.source_route_profiles
            },
            route_rules: if self.route_rules.len() == 0 {
                default_rules()
            } else {
                self.route_rules
            },
            ..self
        }
    }

    /// The name of the profile for `source`.
    pub open spec fn profile_name(self, source: Seq<char>) -> Seq<char> {
        if self.source_route_profiles.dom().contains(source) {
            self.source_route_profiles[source]
        } else if self.source_route_profiles.dom().contains("*"@) {
            self.source_route_profiles["*"@]
        } else {
            "default"@
        }
    }

    /// The configuration as it holds for `source`: what it lacks is filled in, and
    /// the profile for the source, where there is one, sets the models and groups.
    pub open spec fn effective_for(self, source: Seq<char>) -> RouterConfigView {
        let full = self.normalized();
        let name = full.profile_name(source);
        if full.route_profiles.dom().contains(name) {
            full.with_profile(full.route_profiles[name])
        } else {
            full
        }
    }
}

impl RouterConfig {
    /// The maps are in order.
    pub open spec fn wf(&self) -> bool {
        self.route_profiles.wf() && self.source_route_profiles.wf()
    }

    /// The configuration with what it lacks filled in.
    pub fn normalized(self) -> (r: Self)
        requires
            self.wf(),
        ensures
            r.wf(),
            r@ == self@.normalized(),
    {
        let mut router: RouterConfig = self;
        router.ensure_defaults();
        router
    }

    /// Fills in what the configuration lacks: names, profiles, sources and rules.
    pub fn ensure_defaults(&mut self)
        requires
            old(self).wf(),
        ensures
            final(self).wf(),
            final(self)@ == old(self)@.normalized(),
    {
        let ghost before = self@;
        if self.default_alias_models.len() == 0 {
            self.default_alias_models = default_alias_names();
        }
        if self.pro_alias_models.len() == 0 {
            self.pro_alias_models = pro_alias_names();
        }
        let ghost profiles = self.route_profiles@;
        if !self.route_profiles.contains_key("default") {
            self.route_profiles.insert("default".to_owned(), RouteProfile::default_stack());
        }
        assert(profile_views(self.route_profiles@) =~= with_missing(
            profile_views(profiles),
            "default"@,
            default_profile(),
        ));
        let ghost profiles = self.route_profiles@;
        if !self.route_profiles.contains_key("gemini") {
            self.route_profiles.insert("gemini".to_owned(), RouteProfile::gemini_stack());
        }
        assert(profile_views(self.route_profiles@) =~= with_missing(
            profile_views(profiles),
            "gemini"@,
            gemini_profile(),
        ));
        proof {
            self.source_route_profiles.lemma_keys();
            let sources = self.source_route_profiles;
            if sources.keys().len() == 0 {
                assert forall|key: Seq<char>| !sources@.dom().contains(key) by {
                    if sources@.dom().contains(key) {
                        assert(sources.keys().contains(key));
                    }
                }
                assert(text_values(sources@) =~= Map::<Seq<char>, Seq<char>>::empty());
            } else {
                assert(sources@.dom().contains(sources.keys()[0]));
                assert(text_values(sources@).dom().contains(sources.keys()[0]));
            }
        }
        if self.source_route_profiles.is_empty() {
            self.source_route_profiles = default_source_route_profiles();
        }
        if self.route_rules.len() == 0 {
            self.route_rules = default_route_rules();
        }
        assert(self@ =~= before.normalized());
    }

    /// The name of the profile for `source`.
    pub fn profile_name_for_source(&self, source: &str) -> (r: String)
        requires
            self.wf(),
        ensures
            r@ == self@.profile_name(source@),
    {
        match self.source_route_profiles.get(source) {
            Some(name) => name.clone(),
            None => match self.source_route_profiles.get("*") {
                Some(name) => name.clone(),
                None => "default".to_owned(),
            },
        }
    }

    /// The configuration as it holds for `source`.
    pub fn effective_for_source(&self, source: &str) -> (r: Self)
        requires
            self.wf(),
        ensures
            r.wf(),
            r@ == self@.effective_for(source@),
    {
        let mut router: RouterConfig = self.copied().normalized();
        let profile_name: String = router.profile_name_for_source(source);
        let profile: Option<RouteProfile> = match router.route_profiles.get(profile_name.as_str()) {
            Some(profile) => Some(profile.clone()),
            None => None,
        };
        if let Some(profile) = profile {
            profile.apply_to(&mut router);
        }
        router
    }
}

/// Filling in what is there already changes nothing.
pub proof fn law_normalized_once(router: RouterConfigView)
    ensures
        router.normalized().normalized() == router.normalized(),
{
    let once = router.normalized();
    assert(default_sources().dom().contains("default-nanobot"@));
    assert(once.normalized() =~= once);
}

/// What is configured stays: names, profiles, sources and rules that are there are
/// those of the configuration that has been filled in.
pub proof fn law_normalized_keeps(router: RouterConfigView)
    ensures
        router.default_alias_models.len() > 0 ==> router.normalized().default_alias_models
            == router.default_alias_models,
        router.pro_alias_models.len() > 0 ==> router.normalized().pro_alias_models
            == router.pro_alias_models,
        router.route_rules.len() > 0 ==> router.normalized().route_rules == router.route_rules,
        forall|name: Seq<char>|
            router.route_profiles.dom().contains(name) ==> router.normalized().route_profiles.dom().contains(
            name) && #[trigger] router.normalized().route_profiles[name]
                == router.route_profiles[name],
        router.normalized().route_profiles.dom().contains("default"@),
        router.normalized().route_profiles.dom().contains("gemini"@),
{
}

/// A source of its own and the catch-all decide the profile, in this order; each
/// source then has the models and the groups of its profile and nothing else changed.
pub proof fn law_source_profile(router: RouterConfigView, source: Seq<char>)
    ensures
        ({
            let full = router.normalized();
            let name = full.profile_name(source);
            let effective = router.effective_for(source);
            &&& full.route_profiles.dom().contains(name) ==> effective == full.with_profile(
                full.route_profiles[name],
            )
            &&& effective.route_profiles == full.route_profiles
            &&& effective.source_route_profiles == full.source_route_profiles
            &&& effective.external_allowed_models == router.external_allowed_models
            &&& effective.retry_statuses == router.retry_statuses
            &&& effective.effective_for(source) == effective
        }),
{
    let effective = router.effective_for(source);
    law_normalized_once(router);
    assert(effective.normalized() =~= effective);
    assert(effective.effective_for(source) =~= effective);
}

/// A source has the models and the groups of its profile: each of the four models
/// and of the four groups is the one of that name in the profile. A source without
/// a profile keeps those of the configuration.
pub proof fn law_effective_fields(router: RouterConfigView, source: Seq<char>)
    ensures
        ({
            let full = router.normalized();
            let effective = router.effective_for(source);
            let name = if full.source_route_profiles.dom().contains(source) {
                full.source_route_profiles[source]
            } else if full.source_route_profiles.dom().contains("*"@) {
                full.source_route_profiles["*"@]
            } else {
                "default"@
            };
            let profile = full.route_profiles[name];
            &&& full.route_profiles.dom().contains(name) ==> {
                &&& effective.default_model == profile.default_model
                &&& effective.pro_model == profile.pro_model
                &&& effective.emergency_model == profile.emergency_model
                &&& effective.backup_model == profile.backup_model
                &&& effective.default_group == profile.default_group
                &&& effective.pro_group == profile.pro_group
                &&& effective.emergency_group == profile.emergency_group
                &&& effective.backup_group == profile.backup_group
            }
            &&& !full.route_profiles.dom().contains(name) ==> {
                &&& effective.default_model == router.default_model
                &&& effective.pro_model == router.pro_model
                &&& effective.emergency_model == router.emergency_model
                &&& effective.backup_model == router.backup_model
                &&& effective.default_group == router.default_group
                &&& effective.pro_group == router.pro_group
                &&& effective.emergency_group == router.emergency_group
                &&& effective.backup_group == router.backup_group
            }
        }),
{
}

/// Nothing but the models and the groups depends on the source.
pub proof fn law_sources_share(router: RouterConfigView, source: Seq<char>)
    ensures
        ({
            let effective = router.effective_for(source);
            &&& effective.enabled == router.enabled
            &&& effective.dry_run == router.dry_run
            &&& effective.external_enabled == router.external_enabled
            &&& effective.external_allowed_models == router.external_allowed_models
            &&& effective.pro_prompt_chars == router.pro_prompt_chars
            &&& effective.pro_message_count == router.pro_message_count
            &&& effective.monthly_warn_nano_cny == router.monthly_warn_nano_cny
            &&& effective.monthly_downgrade_nano_cny == router.monthly_downgrade_nano_cny
            &&& effective.monthly_hard_limit_nano_cny == router.monthly_hard_limit_nano_cny
            &&& effective.retry_statuses == router.retry_statuses
            &&& effective.pro_keywords == router.pro_keywords
            &&& router.default_alias_models.len() > 0 ==> effective.default_alias_models
                == router.default_alias_models
            &&& router.pro_alias_models.len() > 0 ==> effective.pro_alias_models
                == router.pro_alias_models
        }),
{
}

/// What a configuration lacks is filled in with what a new one has, and what it
/// has stays: names, sources and rules each as a whole, profiles one by one.
pub proof fn law_lacks_are_filled(router: RouterConfigView)
    ensures
        ({
            let full = router.normalized();
            let fresh = default_router();
            &&& router.default_alias_models.len() == 0 ==> full.default_alias_models
                == fresh.default_alias_models
            &&& router.pro_alias_models.len() == 0 ==> full.pro_alias_models
                == fresh.pro_alias_models
            &&& router.route_rules.len() == 0 ==> full.route_rules == fresh.route_rules
            &&& router.source_route_profiles == Map::<Seq<char>, Seq<char>>::empty()
                ==> full.source_route_profiles == fresh.source_route_profiles
            &&& router.source_route_profiles != Map::<Seq<char>, Seq<char>>::empty()
                ==> full.source_route_profiles == router.source_route_profiles
            &&& !router.route_profiles.dom().contains("default"@) ==> full.route_profiles["default"@]
                == fresh.route_profiles["default"@]
            &&& !router.route_profiles.dom().contains("gemini"@) ==> full.route_profiles["gemini"@]
                == fresh.route_profiles["gemini"@]
            &&& full.default_model == router.default_model && full.pro_model == router.pro_model
            &&& full.emergency_model == router.emergency_model
            &&& full.backup_model == router.backup_model
            &&& full.default_group == router.default_group && full.pro_group == router.pro_group
            &&& full.emergency_group == router.emergency_group
            &&& full.backup_group == router.backup_group
            &&& full.monthly_hard_limit_nano_cny == router.monthly_hard_limit_nano_cny
            &&& full.monthly_downgrade_nano_cny == router.monthly_downgrade_nano_cny
            &&& full.pro_keywords == router.pro_keywords
            &&& full.enabled == router.enabled && full.dry_run == router.dry_run
        }),
{
    reveal_strlit("default");
    reveal_strlit("gemini");
    assert("default"@.len() == 7 && "gemini"@.len() == 6);
}

/// A new configuration routes the two known sources apart: one to Gemini, the other
/// to DeepSeek, and so every source that it does not know. Both fall back on the
/// free models of LongCat in an emergency.
pub proof fn law_new_router_sources(source: Seq<char>)
    ensures
        ({
            let gemini = default_router().effective_for("default-nanobot"@);
            &&& gemini.default_model == "gemini-flash"@ && gemini.pro_model == "gemini-pro"@
            &&& gemini.backup_model == "gemini-flash"@
            &&& gemini.default_group == "gemini"@ && gemini.pro_group == "gemini"@
            &&& gemini.backup_group == "gemini"@
            &&& gemini.emergency_model == "LongCat-Flash-Chat"@
            &&& gemini.emergency_group == "longcat"@
        }),
        source != "default-nanobot"@ ==> {
            let other = default_router().effective_for(source);
            &&& other.default_model == "deepseek-v4-flash"@
            &&& other.pro_model == "deepseek-v4-pro"@
            &&& other.backup_model == "MiniMax-M2.7"@
            &&& other.default_group == "deepseek"@ && other.pro_group == "deepseek"@
            &&& other.backup_group == "minimax"@
            &&& other.emergency_model == "LongCat-Flash-Chat"@
            &&& other.emergency_group == "longcat"@
        },
{
    reveal_strlit("default");
    reveal_strlit("gemini");
    reveal_strlit("*");
    reveal_strlit("default-nanobot");
    reveal_strlit("guangzhou-nanobot");
    assert("default"@.len() == 7 && "gemini"@.len() == 6 && "*"@.len() == 1);
    assert("default-nanobot"@.len() == 15 && "guangzhou-nanobot"@.len() == 17);
    assert(default_sources().dom().contains("default-nanobot"@));
}

/// The limits of a new configuration lie at ten, twenty and thirty yuan; it is
/// switched on, open to clients, and tries again what may pass: statuses of an
/// overloaded or failing server, and none that tells of success.
pub proof fn law_new_router_limits()
    ensures
        ({
            let fresh = default_router();
            &&& fresh.enabled && !fresh.dry_run && fresh.external_enabled
            &&& fresh.monthly_warn_nano_cny == 10 * 1_000_000_000
            &&& fresh.monthly_downgrade_nano_cny == 20 * 1_000_000_000
            &&& fresh.monthly_hard_limit_nano_cny == 30 * 1_000_000_000
            &&& fresh.pro_prompt_chars == 0 && fresh.pro_message_count == 0
            &&& forall|status: u16| #[trigger]
                fresh.retry_statuses.contains(status) <==> status == 408 || status == 409 || status
                    == 425 || status == 429 || status == 500 || status == 502 || status == 503
                    || status == 504 || status == 529
            &&& fresh.default_model == "deepseek-v4-flash"@ && fresh.pro_model
                == "deepseek-v4-pro"@
            &&& fresh.emergency_model == "LongCat-Flash-Chat"@ && fresh.backup_model
                == "coding-plan"@
            &&& fresh.default_group == "deepseek"@ && fresh.pro_group == "deepseek"@
            &&& fresh.emergency_group == "longcat"@ && fresh.backup_group.len() == 0
            &&& fresh.external_allowed_models.contains(fresh.default_model)
            &&& fresh.external_allowed_models.contains(fresh.pro_model)
            &&& fresh.external_allowed_models.contains(fresh.emergency_model)
            &&& fresh.external_allowed_models.contains("MiniMax-M2.7"@)
            &&& fresh.external_allowed_models.len() == 4
            &&& fresh.default_alias_models.contains(fresh.default_model)
            &&& fresh.default_alias_models.contains("gpt-4o-mini"@)
            &&& fresh.default_alias_models.contains("gpt-3.5-turbo"@)
            &&& fresh.default_alias_models.len() == 3
            &&& fresh.pro_alias_models.contains(fresh.pro_model)
            &&& fresh.pro_alias_models.contains("deepseek-reasoner"@)
            &&& fresh.pro_alias_models.contains("gpt-4o"@)
            &&& fresh.pro_alias_models.len() == 3
        }),
{
    let fresh = default_router();
    let list = fresh.retry_statuses;
    assert(list[0] == 408 && list[1] == 409 && list[2] == 425 && list[3] == 429);
    assert(list[4] == 500 && list[5] == 502 && list[6] == 503 && list[7] == 504);
    assert(list[8] == 529 && list.len() == 9);
    let allowed = fresh.external_allowed_models;
    assert(allowed[0] == fresh.default_model && allowed[1] == fresh.pro_model);
    assert(allowed[2] == "MiniMax-M2.7"@ && allowed[3] == fresh.emergency_model);
    let names = fresh.default_alias_models;
    assert(names[0] == fresh.default_model && names[1] == "gpt-4o-mini"@);
    assert(names[2] == "gpt-3.5-turbo"@);
    let larger = fresh.pro_alias_models;
    assert(larger[0] == fresh.pro_model && larger[1] == "deepseek-reasoner"@);
    assert(larger[2] == "gpt-4o"@);
}

/// The keywords that send work to the larger model, in the two languages of the
/// clients.
pub proof fn law_new_router_keywords(word: Seq<char>)
    ensures
        default_router().pro_keywords.contains(word) <==> word == "深度分析"@ || word == "深入分析"@
            || word == "架构"@ || word == "architecture"@ || word == "review"@ || word
            == "code review"@ || word == "代码审查"@ || word == "重构"@ || word == "refactor"@
            || word == "取舍"@ || word == "迁移"@ || word == "migration"@ || word == "全盘"@
            || word == "排障"@ || word == "root cause"@ || word == "压缩"@ || word == "上下文压缩"@
            || word == "反思"@,
{
    let list = default_router().pro_keywords;
    assert(list.len() == 18);
    assert(list[0] == "深度分析"@ && list[1] == "深入分析"@ && list[2] == "架构"@);
    assert(list[3] == "architecture"@ && list[4] == "review"@ && list[5] == "code review"@);
    assert(list[6] == "代码审查"@ && list[7] == "重构"@ && list[8] == "refactor"@);
    assert(list[9] == "取舍"@ && list[10] == "迁移"@ && list[11] == "migration"@);
    assert(list[12] == "全盘"@ && list[13] == "排障"@ && list[14] == "root cause"@);
    assert(list[15] == "压缩"@ && list[16] == "上下文压缩"@ && list[17] == "反思"@);
}

/// The rules of a new configuration: health checks and the keeping of memory go to
/// the free models first of all, complex work to the larger model.
pub proof fn law_new_router_rules()
    ensures
        ({
            let rules = default_router().route_rules;
            let free = rules[0];
            let complex = rules[1];
            &&& rules.len() == 2
            &&& free.enabled && complex.enabled && free.priority == 10 && complex.priority == 80
            &&& free.role == "emergency"@ && free.group == "longcat"@
            &&& free.model == "LongCat-Flash-Chat"@ && free.name == "free-health-and-memory"@
            &&& complex.role == "pro"@ && complex.model.len() == 0 && complex.group.len() == 0
            &&& complex.name == "complex-work-to-pro"@
            &&& free.min_monthly_cost_nano_cny == 0 && complex.min_monthly_cost_nano_cny == 0
            &&& free.hint_patterns.contains("heartbeat"@) && free.hint_patterns.len() == 4
            &&& free.latest_text_patterns.contains("heartbeat.md"@)
            &&& free.latest_text_patterns.len() == 5
            &&& free.task_text_patterns.len() == 3 && free.any_text_patterns.len() == 0
            &&& complex.hint_patterns.len() == 14 && complex.any_text_patterns.len() == 10
            &&& free.reason == "free task pattern matched"@
            &&& complex.reason == "complex task pattern matched"@
        }),
{
    assert(free_rule().hint_patterns[0] == "heartbeat"@);
    assert(free_rule().latest_text_patterns[0] == "heartbeat.md"@);
}

/// The words that the rules of a new configuration go by: each list holds its words and no
/// other, and the lists that are not named hold none.
pub proof fn law_words_of_rules(word: Seq<char>)
    ensures
        ({
            let free = default_router().route_rules[0];
            let complex = default_router().route_rules[1];
            &&& free.hint_patterns.contains(word) <==> word == "heartbeat"@
                || word == "healthcheck"@
                || word == "self_check"@
                || word == "self-check"@
            &&& free.latest_text_patterns.contains(word) <==> word == "heartbeat.md"@
                || word == "heartbeat agent"@
                || word == "heartbeat tool"@
                || word == "\"name\":\"heartbeat\""@
                || word == "\"name\": \"heartbeat\""@
            &&& free.task_text_patterns.contains(word) <==> word == "extract key facts from this conversation"@
                || word == "only output items matching these categories"@
                || word == "output as concise bullet points"@
            &&& complex.hint_patterns.contains(word) <==> word == "compact"@
                || word == "compression"@
                || word == "summarize"@
                || word == "summary"@
                || word == "memory"@
                || word == "reflection"@
                || word == "review"@
                || word == "code_review"@
                || word == "architecture"@
                || word == "migration"@
                || word == "reasoning"@
                || word == "analysis"@
                || word == "diagnose"@
                || word == "root_cause"@
            &&& complex.any_text_patterns.contains(word) <==> word == "context compression"@
                || word == "memory consolidation"@
                || word == "code review"@
                || word == "review existing"@
                || word == "root cause"@
                || word == "上下文压缩"@
                || word == "压缩上下文"@
                || word == "代码审查"@
                || word == "根因"@
                || word == "排障"@
            &&& !free.requested_models.contains(word) && !free.source_patterns.contains(word)
            &&& !free.any_text_patterns.contains(word)
            &&& !complex.requested_models.contains(word)
            &&& !complex.source_patterns.contains(word)
            &&& !complex.latest_text_patterns.contains(word)
            &&& !complex.task_text_patterns.contains(word)
        }),
{
    let free = default_router().route_rules[0];
    let complex = default_router().route_rules[1];
    assert(free.hint_patterns.len() == 4);
    assert(free.hint_patterns[0] == "heartbeat"@);
    assert(free.hint_patterns[1] == "healthcheck"@);
    assert(free.hint_patterns[2] == "self_check"@);
    assert(free.hint_patterns[3] == "self-check"@);
    assert(free.latest_text_patterns.len() == 5);
    assert(free.latest_text_patterns[0] == "heartbeat.md"@);
    assert(free.latest_text_patterns[1] == "heartbeat agent"@);
    assert(free.latest_text_patterns[2] == "heartbeat tool"@);
    assert(free.latest_text_patterns[3] == "\"name\":\"heartbeat\""@);
    assert(free.latest_text_patterns[4] == "\"name\": \"heartbeat\""@);
    assert(free.task_text_patterns.len() == 3);
    assert(free.task_text_patterns[0] == "extract key facts from this conversation"@);
    assert(free.task_text_patterns[1] == "only output items matching these categories"@);
    assert(free.task_text_patterns[2] == "output as concise bullet points"@);
    assert(complex.hint_patterns.len() == 14);
    assert(complex.hint_patterns[0] == "compact"@);
    assert(complex.hint_patterns[1] == "compression"@);
    assert(complex.hint_patterns[2] == "summarize"@);
    assert(complex.hint_patterns[3] == "summary"@);
    assert(complex.hint_patterns[4] == "memory"@);
    assert(complex.hint_patterns[5] == "reflection"@);
    assert(complex.hint_patterns[6] == "review"@);
    assert(complex.hint_patterns[7] == "code_review"@);
    assert(complex.hint_patterns[8] == "architecture"@);
    assert(complex.hint_patterns[9] == "migration"@);
    assert(complex.hint_patterns[10] == "reasoning"@);
    assert(complex.hint_patterns[11] == "analysis"@);
    assert(complex.hint_patterns[12] == "diagnose"@);
    assert(complex.hint_patterns[13] == "root_cause"@);
    assert(complex.any_text_patterns.len() == 10);
    assert(complex.any_text_patterns[0] == "context compression"@);
    assert(complex.any_text_patterns[1] == "memory consolidation"@);
    assert(complex.any_text_patterns[2] == "code review"@);
    assert(complex.any_text_patterns[3] == "review existing"@);
    assert(complex.any_text_patterns[4] == "root cause"@);
    assert(complex.any_text_patterns[5] == "上下文压缩"@);
    assert(complex.any_text_patterns[6] == "压缩上下文"@);
    assert(complex.any_text_patterns[7] == "代码审查"@);
    assert(complex.any_text_patterns[8] == "根因"@);
    assert(complex.any_text_patterns[9] == "排障"@);
}

/// A rule of which nothing has been said is in force, of the priority 100 and for the role
/// `default`, and goes by no words.
pub proof fn law_new_rule(word: Seq<char>)
    ensures
        default_rule().enabled && default_rule().priority == 100,
        default_rule().role == "default"@,
        default_rule().name.len() == 0 && default_rule().model.len() == 0,
        default_rule().group.len() == 0 && default_rule().reason.len() == 0,
        default_rule().min_monthly_cost_nano_cny == 0,
        !default_rule().requested_models.contains(word),
        !default_rule().source_patterns.contains(word),
        !default_rule().hint_patterns.contains(word),
        !default_rule().latest_text_patterns.contains(word),
        !default_rule().task_text_patterns.contains(word),
        !default_rule().any_text_patterns.contains(word),
{
}

/// No profile but the two of a new configuration is made up, and no source but its own.
pub proof fn law_nothing_else_is_filled_in(router: RouterConfigView, name: Seq<char>)
    ensures
        name != "default"@ && name != "gemini"@ && !router.route_profiles.dom().contains(name)
            ==> !router.normalized().route_profiles.dom().contains(name),
        default_router().source_route_profiles.dom().contains(name) <==> name
            == "default-nanobot"@ || name == "guangzhou-nanobot"@,
        router.normalized().external_allowed_models == router.external_allowed_models,
        router.normalized().external_enabled == router.external_enabled,
        router.normalized().retry_statuses == router.retry_statuses,
        router.normalized().monthly_warn_nano_cny == router.monthly_warn_nano_cny,
        router.normalized().pro_prompt_chars == router.pro_prompt_chars,
        router.normalized().pro_message_count == router.pro_message_count,
{
}

} // verus!
