//! The pattern that looks for falls of the value locked in protocols: what it remembers, which
//! rules an event concerns, and what it makes of samples and pauses.

use vstd::prelude::*;

use crate::assoc::is_place;
use crate::assoc::lemma_lookup;
use crate::assoc::lemma_place_of;
use crate::assoc::lemma_put;
use crate::assoc::lookup;
use crate::assoc::place_of;
use crate::assoc::put;
use crate::cache::prune;
use crate::cache::pruned;
use crate::cache::Aging;
use crate::double::Double;
use crate::event::append_snapshot_meta;
use crate::event::rank;
use crate::event::severity_rank;
use crate::event::severity_text;
use crate::event::snapshot_with_meta;
use crate::event::str_option;
use crate::event::DetectionResult;
use crate::event::DetectionView;
use crate::event::IncidentTransition;
use crate::event::UnifiedEvent;
use crate::json::Json;
use crate::json::JsonView;
use crate::outside::is_id;
use crate::outside::some_id;
use crate::settings::bind_sources;
use crate::settings::bindings_in;
use crate::settings::bindings_view;
use crate::settings::bound_sources;
use crate::settings::detection_part;
use crate::settings::extract_bound_source_ids;
use crate::settings::extract_detection_config;
use crate::settings::let_in;
use crate::settings::source_is_let_in;
use crate::settings::ConfigEntry;
use crate::settings::TenantBindings;
use crate::text::alike;
use crate::text::copy_option;
use crate::text::join;
use crate::text::join3;
use crate::text::lowercase;
use crate::text::lowered;
use crate::text::same;
use crate::text::same_ignoring_case;
use crate::text::stands_at;
use crate::text::starts_with;
use crate::text::text_option;
use crate::text::texts;
use crate::time::Timestamp;
use crate::tvl_drop::detection::build_pause_detection;
use crate::tvl_drop::detection::build_tvl_detection;
use crate::tvl_drop::detection::fall_detection;
use crate::tvl_drop::detection::final_severity;
use crate::tvl_drop::detection::pause_detection;
use crate::tvl_drop::detection::pause_snapshot;
use crate::tvl_drop::detection::sample_snapshot;
use crate::tvl_drop::detection::severity_label;
use crate::tvl_drop::detection::snapshot_of_pause;
use crate::tvl_drop::detection::snapshot_of_sample;
use crate::tvl_drop::detection::DetectionSubject;
use crate::tvl_drop::reading::parse_tvl_pause_event;
use crate::tvl_drop::reading::parse_tvl_state_event;
use crate::tvl_drop::reading::pause_in;
use crate::tvl_drop::reading::sample_in;
use crate::tvl_drop::reading::PauseView;
use crate::tvl_drop::reading::SampleView;
use crate::tvl_drop::reading::TvlPauseEvent;
use crate::tvl_drop::reading::TvlStateEvent;
use crate::tvl_drop::rule::concerns;
use crate::tvl_drop::rule::configured_rules;
use crate::tvl_drop::rule::for_market;
use crate::tvl_drop::rule::parse_tvl_drop_rules;
use crate::tvl_drop::rule::protocol_key;
use crate::tvl_drop::rule::rules_view;
use crate::tvl_drop::rule::subject;
use crate::tvl_drop::rule::RuleView;
use crate::tvl_drop::rule::TvlDropRule;
use crate::tvl_drop::state::evaluation;
use crate::tvl_drop::state::last_activity;
use crate::tvl_drop::state::pause_verdict;
use crate::tvl_drop::state::paused_state;
use crate::tvl_drop::state::sampled;
use crate::tvl_drop::state::settled;
use crate::tvl_drop::state::tvl_state_last_activity;
use crate::tvl_drop::state::verdict;
use crate::tvl_drop::state::with_position;
use crate::tvl_drop::state::StateView;
use crate::tvl_drop::state::TvlEvaluation;
use crate::tvl_drop::state::TvlRuleState;
use crate::tvl_drop::state::Verdict;
use crate::tvl_drop::window::start_of_window;
use crate::tvl_drop::window::window_start;

verus! {

/// For how many minutes the state of a subject is remembered when nothing is heard of it.
pub const STATE_CACHE_TTL_MINUTES: i64 = 1440;

/// How many states are remembered.
pub const STATE_CACHE_MAX_ENTRIES: usize = 4096;

/// The rules of a tenant.
#[derive(Debug)]
pub struct TenantRules {
    pub tenant_id: String,
    pub rules: Vec<TvlDropRule>,
}

/// The remembered state of a tenant's subject.
#[derive(Debug)]
pub struct CachedState {
    pub key: String,
    pub state: TvlRuleState,
}

impl Aging for CachedState {
    open spec fn seen(&self) -> Option<Timestamp> {
        last_activity(self.state@)
    }

    fn last_seen(&self) -> (r: Option<Timestamp>) {
        tvl_state_last_activity(&self.state)
    }
}

/// The pattern that looks for falls of the value locked in protocols.
#[derive(Debug)]
pub struct TvlDropPattern {
    pub configs: Vec<TenantRules>,
    pub state_cache: Vec<CachedState>,
    pub source_bindings: Vec<TenantBindings>,
}

impl Default for TvlDropPattern {
    fn default() -> (r: Self)
        ensures
            r.configs@.len() == 0,
            r.state_cache@.len() == 0,
            r.source_bindings@.len() == 0,
    {
        TvlDropPattern {
            configs: Vec::new(),
            state_cache: Vec::new(),
            source_bindings: Vec::new(),
        }
    }
}

/// Tenants and their rules.
pub open spec fn configs_view(v: Seq<TenantRules>) -> Seq<(Seq<char>, Seq<RuleView>)> {
    v.map_values(|t: TenantRules| (t.tenant_id@, rules_view(t.rules@)))
}

/// Keys and the states remembered under them.
pub open spec fn cache_view(v: Seq<CachedState>) -> Seq<(Seq<char>, StateView)> {
    v.map_values(|c: CachedState| (c.key@, c.state@))
}

/// The rules of a tenant; `None` where it is not configured.
pub open spec fn rules_of(d: TvlDropPattern, tenant: Seq<char>) -> Option<Seq<RuleView>> {
    lookup(configs_view(d.configs@), tenant)
}

fn find_tenant(v: &Vec<TenantRules>, tenant: &str) -> (i: usize)
    ensures
        is_place(configs_view(v@), tenant@, i as int),
{
    let mut i: usize = 0;
    while i < v.len() && !same(v[i].tenant_id.as_str(), tenant)
        invariant
            i <= v.len(),
            forall|k: int| 0 <= k < i ==> (#[trigger] configs_view(v@)[k]).0 != tenant@,
        decreases v.len() - i,
    {
        i = i + 1;
    }
    i
}

fn find_state(v: &Vec<CachedState>, key: &str) -> (i: usize)
    ensures
        is_place(cache_view(v@), key@, i as int),
{
    let mut i: usize = 0;
    while i < v.len() && !same(v[i].key.as_str(), key)
        invariant
            i <= v.len(),
            forall|k: int| 0 <= k < i ==> (#[trigger] cache_view(v@)[k]).0 != key@,
        decreases v.len() - i,
    {
        i = i + 1;
    }
    i
}

fn set_rules(v: &mut Vec<TenantRules>, tenant_id: &str, rules: Vec<TvlDropRule>)
    ensures
        configs_view(final(v)@) == put(configs_view(old(v)@), tenant_id@, rules_view(rules@)),
{
    let ghost before = configs_view(v@);
    let i: usize = find_tenant(v, tenant_id);
    proof {
        lemma_put(before, tenant_id@, rules_view(rules@), i as int);
    }
    let entry = TenantRules { tenant_id: tenant_id.to_owned(), rules };
    let ghost shown = (tenant_id@, rules_view(rules@));
    if i < v.len() {
        v.set(i, entry);
        assert(configs_view(v@) =~= before.update(i as int, shown));
    } else {
        v.push(entry);
        assert(configs_view(v@) =~= before.push(shown));
    }
}

// ---------------------------------------------------------------------------
// Configuration
// ---------------------------------------------------------------------------

/// The rules of the tenants of the first `n` rows.
pub open spec fn configs_after(rows: Seq<ConfigEntry>, n: nat) -> Seq<(Seq<char>, Seq<RuleView>)>
    decreases n,
{
    if n == 0 {
        Seq::<(Seq<char>, Seq<RuleView>)>::empty()
    } else {
        let before = configs_after(rows, (n - 1) as nat);
        let r = rows[n - 1];
        if r.pattern_id@ == "tvl_drop"@ {
            put(before, r.tenant_id@, configured_rules(detection_part(r.config@)))
        } else {
            before
        }
    }
}

/// The sources that the tenants of the first `n` rows bind.
pub open spec fn bindings_after(rows: Seq<ConfigEntry>, n: nat) -> Seq<(Seq<char>, Seq<Seq<char>>)>
    decreases n,
{
    if n == 0 {
        Seq::<(Seq<char>, Seq<Seq<char>>)>::empty()
    } else {
        let before = bindings_after(rows, (n - 1) as nat);
        let r = rows[n - 1];
        match bindings_in(r.config@) {
            Some(s) => if r.pattern_id@ == "tvl_drop"@ {
                put(before, r.tenant_id@, bound_sources(s))
            } else {
                before
            },
            None => before,
        }
    }
}

// ---------------------------------------------------------------------------
// What is remembered
// ---------------------------------------------------------------------------

/// The key of a rule's subject among the states of a tenant.
pub open spec fn state_key_of(rule: Seq<char>, subject: Seq<char>) -> Seq<char> {
    rule + ":"@ + subject
}

/// The key of a state among those of all tenants.
pub open spec fn cache_key_of(tenant: Seq<char>, state_key: Seq<char>) -> Seq<char> {
    tenant + ":"@ + state_key
}

/// The place of a key in the cache, if it is there.
pub open spec fn current_place(v: Seq<CachedState>, key: Seq<char>) -> Option<int> {
    let i = place_of(cache_view(v), key);
    if i < v.len() {
        Some(i)
    } else {
        None
    }
}

/// A cache without states that were not heard of for long, and with no more than may be
/// remembered; the one under `key` stays.
pub open spec fn tidied(v: Seq<CachedState>, key: Seq<char>, now: Timestamp) -> Seq<CachedState> {
    pruned(
        v,
        current_place(v, key),
        now.before_minutes(STATE_CACHE_TTL_MINUTES as int),
        STATE_CACHE_MAX_ENTRIES as nat,
    )
}

/// Whether `after` is the cache `before` once a state was put under `key`.
pub open spec fn remembers(
    before: Seq<CachedState>,
    after: Seq<CachedState>,
    key: Seq<char>,
    s: StateView,
    now: Timestamp,
) -> bool {
    exists|grown: Seq<CachedState>|
        cache_view(grown) == put(cache_view(before), key, s) && after == #[trigger] tidied(
            grown,
            key,
            now,
        )
}

/// Whether a remembered state is that of another falling protocol of the tenant.
pub open spec fn falls_too(
    c: (Seq<char>, StateView),
    tenant: Seq<char>,
    key: Seq<char>,
    protocol: Seq<char>,
    cutoff: Timestamp,
) -> bool {
    &&& c.0 != key
    &&& stands_at(c.0, tenant + ":"@, 0)
    &&& c.1.last_severity is Some
    &&& c.1.last_breach_at matches Some(t) && !t.before(cutoff)
    &&& c.1.protocol_chain_key matches Some(k) && k != protocol
}

/// Whether another protocol of the tenant fell within the window.
pub open spec fn concurrent_fall(
    cache: Seq<(Seq<char>, StateView)>,
    tenant: Seq<char>,
    key: Seq<char>,
    protocol: Seq<char>,
    now: Timestamp,
    minutes: i64,
) -> bool {
    exists|i: int|
        0 <= i < cache.len() && #[trigger] falls_too(
            cache[i],
            tenant,
            key,
            protocol,
            window_start(now, minutes),
        )
}

/// The key of a market that a rule looks at, if it is a market of the protocol and not the
/// given one.
pub open spec fn market_at_risk(
    r: RuleView,
    protocol: Seq<char>,
    chain: Seq<char>,
    market: Option<Seq<char>>,
) -> Option<Seq<char>> {
    if r.enabled && alike(r.protocol_id, protocol) && alike(r.chain_slug, chain) && for_market(r) {
        match r.market_id {
            Some(m) => if market matches Some(c) && alike(m, c) {
                None
            } else {
                Some(protocol_key(r) + ":"@ + lowered(m))
            },
            None => None,
        }
    } else {
        None
    }
}

/// The keys of the other markets of a protocol that the first `n` rules look at.
pub open spec fn markets_at_risk(
    rules: Seq<RuleView>,
    protocol: Seq<char>,
    chain: Seq<char>,
    market: Option<Seq<char>>,
    n: nat,
) -> Seq<Seq<char>>
    decreases n,
{
    if n == 0 {
        Seq::<Seq<char>>::empty()
    } else {
        let before = markets_at_risk(rules, protocol, chain, market, (n - 1) as nat);
        match market_at_risk(rules[n - 1], protocol, chain, market) {
            Some(k) => before.push(k),
            None => before,
        }
    }
}

/// The keys of the other markets of a protocol that a tenant looks at.
pub open spec fn at_risk(
    d: TvlDropPattern,
    tenant: Seq<char>,
    protocol: Seq<char>,
    chain: Seq<char>,
    market: Option<Seq<char>>,
) -> Seq<Seq<char>> {
    match rules_of(d, tenant) {
        Some(rules) => markets_at_risk(rules, protocol, chain, market, rules.len()),
        None => Seq::<Seq<char>>::empty(),
    }
}

// ---------------------------------------------------------------------------
// Work
// ---------------------------------------------------------------------------

/// A rule that an event concerns, and where the state of its subject is kept.
#[derive(Debug)]
pub struct RuleTask {
    pub rule: TvlDropRule,
    pub subject: DetectionSubject,
    pub protocol_chain_key: String,
    pub state_key: String,
    pub cache_key: String,
}

pub struct TaskView {
    pub rule: RuleView,
    pub subject: (Seq<char>, Seq<char>),
    pub protocol_chain_key: Seq<char>,
    pub state_key: Seq<char>,
    pub cache_key: Seq<char>,
}

impl View for RuleTask {
    type V = TaskView;

    open spec fn view(&self) -> TaskView {
        TaskView {
            rule: self.rule@,
            subject: (self.subject.subject_type@, self.subject.subject_key@),
            protocol_chain_key: self.protocol_chain_key@,
            state_key: self.state_key@,
            cache_key: self.cache_key@,
        }
    }
}

/// What there is to do about an event.
#[derive(Debug)]
pub enum TvlWork {
    Sample(TvlStateEvent, Vec<RuleTask>),
    Pause(TvlPauseEvent, Vec<RuleTask>),
    Nothing,
}

pub enum WorkView {
    Sample(SampleView, Seq<TaskView>),
    Pause(PauseView, Seq<TaskView>),
    Nothing,
}

/// The contents of a list of tasks.
pub open spec fn tasks_view(v: Seq<RuleTask>) -> Seq<TaskView> {
    v.map_values(|t: RuleTask| t@)
}

impl View for TvlWork {
    type V = WorkView;

    open spec fn view(&self) -> WorkView {
        match *self {
            TvlWork::Sample(s, t) => WorkView::Sample(s@, tasks_view(t@)),
            TvlWork::Pause(p, t) => WorkView::Pause(p@, tasks_view(t@)),
            TvlWork::Nothing => WorkView::Nothing,
        }
    }
}

/// The task that a rule has with a protocol, if it is switched on and about it.
pub open spec fn task_of(
    r: RuleView,
    tenant: Seq<char>,
    protocol: Seq<char>,
    chain: Seq<char>,
    market: Option<Seq<char>>,
) -> Option<TaskView> {
    if r.enabled && concerns(r, protocol, chain, market) {
        match subject(r, market) {
            Some(s) => Some(
                TaskView {
                    rule: r,
                    subject: (s.0, s.1),
                    protocol_chain_key: s.2,
                    state_key: state_key_of(r.rule_id, s.1),
                    cache_key: cache_key_of(tenant, state_key_of(r.rule_id, s.1)),
                },
            ),
            None => None,
        }
    } else {
        None
    }
}

/// The tasks that the first `n` rules have with a protocol.
pub open spec fn tasks_of(
    rules: Seq<RuleView>,
    tenant: Seq<char>,
    protocol: Seq<char>,
    chain: Seq<char>,
    market: Option<Seq<char>>,
    n: nat,
) -> Seq<TaskView>
    decreases n,
{
    if n == 0 {
        Seq::<TaskView>::empty()
    } else {
        let before = tasks_of(rules, tenant, protocol, chain, market, (n - 1) as nat);
        match task_of(rules[n - 1], tenant, protocol, chain, market) {
            Some(t) => before.push(t),
            None => before,
        }
    }
}

/// What there is to do about an event: nothing where its source is not let in or its tenant
/// is not configured.
pub open spec fn work_for(d: TvlDropPattern, event: UnifiedEvent) -> WorkView {
    let tenant = event.tenant_id@;
    if !let_in(d.source_bindings@, tenant, event.source_id@) {
        WorkView::Nothing
    } else {
        match rules_of(d, tenant) {
            Some(rules) => match sample_in(event) {
                Some(s) => WorkView::Sample(
                    s,
                    tasks_of(rules, tenant, s.protocol_id, s.chain_slug, s.market_id, rules.len()),
                ),
                None => match pause_in(event) {
                    Some(p) => WorkView::Pause(
                        p,
                        tasks_of(
                            rules,
                            tenant,
                            p.protocol_id,
                            p.chain_slug,
                            p.market_id,
                            rules.len(),
                        ),
                    ),
                    None => WorkView::Nothing,
                },
            },
            None => WorkView::Nothing,
        }
    }
}

/// What a task leads to: a snapshot and a state to keep, and a detection to report, if there
/// is one.
#[derive(Debug)]
pub struct TvlOutcome {
    pub snapshot: Json,
    pub score: Option<Double>,
    pub severity: Option<String>,
    pub state: TvlRuleState,
    pub detection: Option<DetectionResult>,
}

pub struct OutcomeView {
    pub snapshot: JsonView,
    pub score: Option<Double>,
    pub severity: Option<Seq<char>>,
    pub state: StateView,
    pub detection: Option<DetectionView>,
}

impl View for TvlOutcome {
    type V = OutcomeView;

    open spec fn view(&self) -> OutcomeView {
        OutcomeView {
            snapshot: self.snapshot@,
            score: self.score,
            severity: text_option(self.severity),
            state: self.state@,
            detection: detection_option(self.detection),
        }
    }
}

/// The contents of an optional detection.
pub open spec fn detection_option(d: Option<DetectionResult>) -> Option<DetectionView> {
    match d {
        Some(d) => Some(d@),
        None => None,
    }
}

/// The state of a task's subject with a sample.
pub open spec fn state_with(
    event: UnifiedEvent,
    p: SampleView,
    t: TaskView,
    loaded: StateView,
    now: Timestamp,
) -> StateView {
    sampled(
        t.rule,
        with_position(loaded, t.protocol_chain_key, event.payload@),
        p.tvl_usd,
        now,
    )
}

/// What a sample leads to, given the state with it and whether other protocols fall too.
#[verifier::opaque]
pub open spec fn sample_outcome(
    event: UnifiedEvent,
    p: SampleView,
    t: TaskView,
    s: StateView,
    systemic: bool,
    markets: Seq<Seq<char>>,
    now: Timestamp,
    id: Seq<char>,
    nonce: Seq<char>,
) -> OutcomeView {
    let e = evaluation(t.rule, s, p.tvl_usd, now);
    let v = verdict(s, e, systemic);
    OutcomeView {
        snapshot: snapshot_with_meta(
            event.payload@,
            event.timestamp,
            sample_snapshot(t.rule, t.subject.1, p.tvl_usd, e, v),
        ),
        score: Some(e.selected_drop_pct),
        severity: severity_label(final_severity(e, v)),
        state: settled(s, e, v, now),
        detection: match v.transition {
            Some(transition) => Some(
                fall_detection(
                    event,
                    t.rule,
                    t.subject,
                    v,
                    transition,
                    e,
                    p,
                    markets,
                    now,
                    id,
                    nonce,
                ),
            ),
            None => None,
        },
    }
}

/// Whether other protocols of the tenant fall too, as far as the rule wants to know.
pub open spec fn is_systemic(
    event: UnifiedEvent,
    p: SampleView,
    t: TaskView,
    loaded: StateView,
    cache: Seq<(Seq<char>, StateView)>,
    now: Timestamp,
) -> bool {
    let s = state_with(event, p, t, loaded, now);
    &&& evaluation(t.rule, s, p.tvl_usd, now).base_severity is Some
    &&& t.rule.contagion_enabled
    &&& concurrent_fall(
        cache,
        event.tenant_id@,
        t.cache_key,
        t.protocol_chain_key,
        now,
        t.rule.concurrent_window_minutes,
    )
}

/// Whether `o` is what a sample may lead to, where the state of its subject is remembered
/// first as it was loaded, which leaves `mid`, and then as it became.
pub open spec fn may_follow_sample(
    d: TvlDropPattern,
    after: Seq<CachedState>,
    event: UnifiedEvent,
    p: SampleView,
    t: TaskView,
    loaded: StateView,
    now: Timestamp,
    o: OutcomeView,
    mid: Seq<CachedState>,
) -> bool {
    let systemic = is_systemic(event, p, t, loaded, cache_view(mid), now);
    let markets = at_risk(d, event.tenant_id@, p.protocol_id, p.chain_slug, p.market_id);
    &&& remembers(d.state_cache@, mid, t.cache_key, loaded, now)
    &&& remembers(mid, after, t.cache_key, o.state, now)
    &&& exists|id: Seq<char>, nonce: Seq<char>|
        is_id(id) && is_id(nonce) && o == #[trigger] sample_outcome(
            event,
            p,
            t,
            state_with(event, p, t, loaded, now),
            systemic,
            markets,
            now,
            id,
            nonce,
        )
}

/// What a pause leads to.
#[verifier::opaque]
pub open spec fn pause_outcome(
    event: UnifiedEvent,
    p: PauseView,
    t: TaskView,
    loaded: StateView,
    v: Verdict,
    transition: IncidentTransition,
    now: Timestamp,
    id: Seq<char>,
    nonce: Seq<char>,
) -> OutcomeView {
    OutcomeView {
        snapshot: snapshot_with_meta(
            event.payload@,
            event.timestamp,
            pause_snapshot(t.rule.rule_id, t.subject.1, p.paused, transition, v.classification),
        ),
        score: loaded.last_drop_pct,
        severity: loaded.last_severity,
        state: paused_state(loaded, t.protocol_chain_key, p.paused, now),
        detection: Some(
            pause_detection(
                event,
                t.rule.rule_id,
                t.subject,
                v,
                transition,
                p,
                now,
                id,
                nonce,
            ),
        ),
    }
}

/// Whether `o` is what a pause may lead to, where the state of its subject is remembered
/// first as it was loaded, which leaves `mid`, and then as it became, where that is new.
pub open spec fn may_follow_pause(
    before: Seq<CachedState>,
    after: Seq<CachedState>,
    event: UnifiedEvent,
    p: PauseView,
    t: TaskView,
    loaded: StateView,
    now: Timestamp,
    o: Option<OutcomeView>,
    mid: Seq<CachedState>,
) -> bool {
    &&& remembers(before, mid, t.cache_key, loaded, now)
    &&& match pause_verdict(loaded, p.paused) {
        Some(v) => {
            &&& o is Some
            &&& remembers(mid, after, t.cache_key, o->0.state, now)
            &&& v.transition is Some
            &&& exists|id: Seq<char>, nonce: Seq<char>|
                is_id(id) && is_id(nonce) && o->0 == #[trigger] pause_outcome(
                    event,
                    p,
                    t,
                    loaded,
                    v,
                    v.transition->0,
                    now,
                    id,
                    nonce,
                )
        },
        None => o is None && after == mid,
    }
}

/// The contents of an optional outcome.
pub open spec fn outcome_option(o: Option<TvlOutcome>) -> Option<OutcomeView> {
    match o {
        Some(o) => Some(o@),
        None => None,
    }
}

impl TvlDropPattern {
    pub fn pattern_id(&self) -> (r: &'static str)
        ensures
            r@ == "tvl_drop"@,
    {
        "tvl_drop"
    }

    pub fn load_state_key(rule_id: &str, subject_key: &str) -> (r: String)
        ensures
            r@ == state_key_of(rule_id@, subject_key@),
    {
        join3(rule_id, ":", subject_key)
    }

    pub fn cache_key(tenant_id: &str, load_state_key: &str) -> (r: String)
        ensures
            r@ == cache_key_of(tenant_id@, load_state_key@),
    {
        join3(tenant_id, ":", load_state_key)
    }

    /// The rules of a tenant.
    pub fn effective_rules(&self, tenant_id: &str) -> (r: Option<&Vec<TvlDropRule>>)
        ensures
            match r {
                Some(v) => rules_of(*self, tenant_id@) == Some(rules_view(v@)),
                None => rules_of(*self, tenant_id@) is None,
            },
    {
        let i: usize = find_tenant(&self.configs, tenant_id);
        proof {
            lemma_lookup(configs_view(self.configs@), tenant_id@, i as int);
        }
        if i < self.configs.len() {
            Some(&self.configs[i].rules)
        } else {
            None
        }
    }

    /// Takes over the configuration of the tenants: their rules and the sources that they
    /// bind are replaced.
    pub fn reload_config(&mut self, rows: &Vec<ConfigEntry>)
        ensures
            configs_view(final(self).configs@) == configs_after(rows@, rows@.len()),
            bindings_view(final(self).source_bindings@) == bindings_after(rows@, rows@.len()),
            final(self).state_cache == old(self).state_cache,
    {
        let mut configs: Vec<TenantRules> = Vec::new();
        let mut bindings: Vec<TenantBindings> = Vec::new();
        let mut i: usize = 0;
        assert(configs_view(configs@) =~= Seq::<(Seq<char>, Seq<RuleView>)>::empty());
        assert(bindings_view(bindings@) =~= Seq::<(Seq<char>, Seq<Seq<char>>)>::empty());
        while i < rows.len()
            invariant
                i <= rows.len(),
                configs_view(configs@) == configs_after(rows@, i as nat),
                bindings_view(bindings@) == bindings_after(rows@, i as nat),
            decreases rows.len() - i,
        {
            let row: &ConfigEntry = &rows[i];
            if same(row.pattern_id.as_str(), "tvl_drop") {
                let rules: Vec<TvlDropRule> = parse_tvl_drop_rules(
                    extract_detection_config(&row.config),
                );
                set_rules(&mut configs, row.tenant_id.as_str(), rules);
                match extract_bound_source_ids(&row.config) {
                    Some(sources) => {
                        bind_sources(&mut bindings, row.tenant_id.as_str(), sources);
                    },
                    None => {},
                }
            }
            i = i + 1;
        }
        self.configs = configs;
        self.source_bindings = bindings;
    }

    /// Forgets states that were not heard of for long, and those heard of longest ago where
    /// there are too many; the one under the current key stays.
    pub fn prune_state_cache(&mut self, now: Timestamp, current_cache_key: &str)
        ensures
            final(self).state_cache@ == tidied(old(self).state_cache@, current_cache_key@, now),
            final(self).configs == old(self).configs,
            final(self).source_bindings == old(self).source_bindings,
    {
        let i: usize = find_state(&self.state_cache, current_cache_key);
        proof {
            lemma_place_of(cache_view(self.state_cache@), current_cache_key@, i as int);
        }
        let mut cache: Vec<CachedState> = Vec::new();
        std::mem::swap(&mut cache, &mut self.state_cache);
        let current: Option<usize> = if i < cache.len() {
            Some(i)
        } else {
            None
        };
        self.state_cache = prune(
            cache,
            current,
            now.minus_minutes(STATE_CACHE_TTL_MINUTES),
            STATE_CACHE_MAX_ENTRIES,
        );
    }

    fn remember(&mut self, key: &str, state: TvlRuleState, now: Timestamp)
        ensures
            remembers(old(self).state_cache@, final(self).state_cache@, key@, state@, now),
            final(self).configs == old(self).configs,
            final(self).source_bindings == old(self).source_bindings,
    {
        let ghost before = cache_view(self.state_cache@);
        let i: usize = find_state(&self.state_cache, key);
        proof {
            lemma_put(before, key@, state@, i as int);
        }
        let ghost shown = (key@, state@);
        let entry = CachedState { key: key.to_owned(), state };
        if i < self.state_cache.len() {
            self.state_cache.set(i, entry);
            assert(cache_view(self.state_cache@) =~= before.update(i as int, shown));
        } else {
            self.state_cache.push(entry);
            assert(cache_view(self.state_cache@) =~= before.push(shown));
        }
        let ghost grown = self.state_cache@;
        self.prune_state_cache(now, key);
        assert(self.state_cache@ == tidied(grown, key@, now));
    }

    /// The keys of the other markets of a protocol that a tenant looks at.
    pub fn find_at_risk_markets(
        &self,
        tenant_id: &str,
        protocol_id: &str,
        chain_slug: &str,
        current_market_id: Option<&str>,
    ) -> (r: Vec<String>)
        ensures
            texts(r@) == at_risk(
                *self,
                tenant_id@,
                protocol_id@,
                chain_slug@,
                str_option(current_market_id),
            ),
    {
        let mut r: Vec<String> = Vec::new();
        assert(texts(r@) =~= Seq::<Seq<char>>::empty());
        let rules: &Vec<TvlDropRule> = match self.effective_rules(tenant_id) {
            Some(rules) => rules,
            None => {
                return r;
            },
        };
        let ghost all = rules_view(rules@);
        let ghost market = str_option(current_market_id);
        let mut i: usize = 0;
        while i < rules.len()
            invariant
                i <= rules.len(),
                all == rules_view(rules@),
                market == str_option(current_market_id),
                texts(r@) == markets_at_risk(all, protocol_id@, chain_slug@, market, i as nat),
            decreases rules.len() - i,
        {
            let rule: &TvlDropRule = &rules[i];
            assert(all[i as int] == rule@);
            let ghost before = r@;
            if rule.enabled && same_ignoring_case(rule.protocol_id.as_str(), protocol_id)
                && same_ignoring_case(rule.chain_slug.as_str(), chain_slug)
                && rule.is_for_market() {
                match &rule.market_id {
                    Some(m) => {
                        let current: bool = match current_market_id {
                            Some(c) => same_ignoring_case(m.as_str(), c),
                            None => false,
                        };
                        if !current {
                            let key: String = join3(
                                lowercase(rule.protocol_id.as_str()).as_str(),
                                ":",
                                lowercase(rule.chain_slug.as_str()).as_str(),
                            );
                            let full: String = join3(
                                key.as_str(),
                                ":",
                                lowercase(m.as_str()).as_str(),
                            );
                            r.push(full);
                            assert(texts(r@) =~= texts(before).push(full@));
                        }
                    },
                    None => {},
                }
            }
            i = i + 1;
        }
        r
    }

    /// Whether another protocol of the tenant fell within the window.
    pub fn has_concurrent_active_drop(
        &self,
        tenant_id: &str,
        current_cache_key: &str,
        current_protocol_chain_key: &str,
        now: Timestamp,
        window_minutes: i64,
    ) -> (r: bool)
        ensures
            r == concurrent_fall(
                cache_view(self.state_cache@),
                tenant_id@,
                current_cache_key@,
                current_protocol_chain_key@,
                now,
                window_minutes,
            ),
    {
        let ghost cache = cache_view(self.state_cache@);
        let cutoff: Timestamp = start_of_window(now, window_minutes);
        let prefix: String = join(tenant_id, ":");
        let mut i: usize = 0;
        while i < self.state_cache.len()
            invariant
                i <= self.state_cache.len(),
                cache == cache_view(self.state_cache@),
                cutoff == window_start(now, window_minutes),
                prefix@ == tenant_id@ + ":"@,
                forall|k: int|
                    0 <= k < i ==> !(#[trigger] falls_too(
                        cache[k],
                        tenant_id@,
                        current_cache_key@,
                        current_protocol_chain_key@,
                        cutoff,
                    )),
            decreases self.state_cache.len() - i,
        {
            let entry: &CachedState = &self.state_cache[i];
            assert(cache[i as int] == (entry.key@, entry.state@));
            let recent: bool = match entry.state.last_breach_at {
                Some(t) => !t.is_before(cutoff),
                None => false,
            };
            let other: bool = match &entry.state.protocol_chain_key {
                Some(k) => !same(k.as_str(), current_protocol_chain_key),
                None => false,
            };
            if !same(entry.key.as_str(), current_cache_key) && starts_with(
                entry.key.as_str(),
                prefix.as_str(),
            ) && entry.state.last_severity.is_some() && recent && other {
                assert(falls_too(
                    cache[i as int],
                    tenant_id@,
                    current_cache_key@,
                    current_protocol_chain_key@,
                    cutoff,
                ));
                return true;
            }
            i = i + 1;
        }
        false
    }

    /// Takes a sample of a subject's value in and says what its samples show.
    pub fn process_state_sample(
        &self,
        rule: &TvlDropRule,
        state: &mut TvlRuleState,
        sample: &TvlStateEvent,
        now: Timestamp,
    ) -> (r: TvlEvaluation)
        ensures
            final(state)@ == sampled(rule@, old(state)@, sample.tvl_usd, now),
            r@ == evaluation(
                rule@,
                sampled(rule@, old(state)@, sample.tvl_usd, now),
                sample.tvl_usd,
                now,
            ),
    {
        state.take_sample(rule, sample.tvl_usd, now)
    }

    fn tasks(
        &self,
        rules: &Vec<TvlDropRule>,
        tenant_id: &str,
        protocol_id: &str,
        chain_slug: &str,
        market_id: Option<&str>,
    ) -> (r: Vec<RuleTask>)
        ensures
            tasks_view(r@) == tasks_of(
                rules_view(rules@),
                tenant_id@,
                protocol_id@,
                chain_slug@,
                str_option(market_id),
                rules@.len(),
            ),
    {
        let ghost all = rules_view(rules@);
        let ghost market = str_option(market_id);
        let mut r: Vec<RuleTask> = Vec::new();
        let mut i: usize = 0;
        assert(tasks_view(r@) =~= Seq::<TaskView>::empty());
        while i < rules.len()
            invariant
                i <= rules.len(),
                all == rules_view(rules@),
                market == str_option(market_id),
                tasks_view(r@) == tasks_of(
                    all,
                    tenant_id@,
                    protocol_id@,
                    chain_slug@,
                    market,
                    i as nat,
                ),
            decreases rules.len() - i,
        {
            let rule: &TvlDropRule = &rules[i];
            assert(all[i as int] == rule@);
            let ghost before = r@;
            if rule.enabled && rule.matches(protocol_id, chain_slug, market_id) {
                match rule.subject_for_event(market_id) {
                    Some((subject_type, subject_key, protocol_chain_key)) => {
                        let state_key: String = Self::load_state_key(
                            rule.rule_id.as_str(),
                            subject_key.as_str(),
                        );
                        let cache_key: String = Self::cache_key(tenant_id, state_key.as_str());
                        let task = RuleTask {
                            rule: rule.copy(),
                            subject: DetectionSubject { subject_type, subject_key },
                            protocol_chain_key,
                            state_key,
                            cache_key,
                        };
                        let ghost shown = task@;
                        r.push(task);
                        assert(tasks_view(r@) =~= tasks_view(before).push(shown));
                    },
                    None => {},
                }
            }
            i = i + 1;
        }
        r
    }

    /// What there is to do about an event: the sample or the pause that it tells of, and the
    /// rules that it concerns.
    pub fn plan(&self, event: &UnifiedEvent) -> (r: TvlWork)
        ensures
            r@ == work_for(*self, *event),
    {
        if !source_is_let_in(
            &self.source_bindings,
            event.tenant_id.as_str(),
            event.source_id.as_str(),
        ) {
            return TvlWork::Nothing;
        }
        let tenant: &str = event.tenant_id.as_str();
        let rules: &Vec<TvlDropRule> = match self.effective_rules(tenant) {
            Some(rules) => rules,
            None => {
                return TvlWork::Nothing;
            },
        };
        match parse_tvl_state_event(event) {
            Some(sample) => {
                let market: Option<&str> = match &sample.market_id {
                    Some(m) => Some(m.as_str()),
                    None => None,
                };
                let tasks: Vec<RuleTask> = self.tasks(
                    rules,
                    tenant,
                    sample.protocol_id.as_str(),
                    sample.chain_slug.as_str(),
                    market,
                );
                TvlWork::Sample(sample, tasks)
            },
            None => match parse_tvl_pause_event(event) {
                Some(pause) => {
                    let market: Option<&str> = match &pause.market_id {
                        Some(m) => Some(m.as_str()),
                        None => None,
                    };
                    let tasks: Vec<RuleTask> = self.tasks(
                        rules,
                        tenant,
                        pause.protocol_id.as_str(),
                        pause.chain_slug.as_str(),
                        market,
                    );
                    TvlWork::Pause(pause, tasks)
                },
                None => TvlWork::Nothing,
            },
        }
    }

    /// Works a task off for a sample, with the state that was kept of its subject.
    pub fn process_sample(
        &mut self,
        event: &UnifiedEvent,
        sample: &TvlStateEvent,
        task: &RuleTask,
        loaded: TvlRuleState,
        now: Timestamp,
    ) -> (r: TvlOutcome)
        requires
            event.timestamp.calendar(),
        ensures
            exists|mid: Seq<CachedState>|
                #[trigger] may_follow_sample(
                    *old(self),
                    final(self).state_cache@,
                    *event,
                    sample@,
                    task@,
                    loaded@,
                    now,
                    r@,
                    mid,
                ),
            final(self).configs == old(self).configs,
            final(self).source_bindings == old(self).source_bindings,
    {
        let ghost given = loaded@;
        let rule: &TvlDropRule = &task.rule;
        self.remember(task.cache_key.as_str(), loaded.copy(), now);
        let ghost mid = self.state_cache@;
        let mut state: TvlRuleState = loaded;
        state.note_position(task.protocol_chain_key.as_str(), &event.payload);
        let evaluation: TvlEvaluation = self.process_state_sample(rule, &mut state, sample, now);
        let systemic: bool = evaluation.base_severity.is_some() && rule.contagion_enabled
            && self.has_concurrent_active_drop(
            event.tenant_id.as_str(),
            task.cache_key.as_str(),
            task.protocol_chain_key.as_str(),
            now,
            rule.concurrent_window_minutes,
        );
        assert(state@ == state_with(*event, sample@, task@, given, now));
        assert(systemic == is_systemic(*event, sample@, task@, given, cache_view(mid), now));
        let market: Option<&str> = match &sample.market_id {
            Some(m) => Some(m.as_str()),
            None => None,
        };
        let markets: Vec<String> = self.find_at_risk_markets(
            event.tenant_id.as_str(),
            sample.protocol_id.as_str(),
            sample.chain_slug.as_str(),
            market,
        );
        let r: TvlOutcome = conclude_sample(
            event,
            sample,
            task,
            state,
            &evaluation,
            systemic,
            &markets,
            now,
        );
        self.remember(task.cache_key.as_str(), r.state.copy(), now);
        assert(may_follow_sample(
            *old(self),
            self.state_cache@,
            *event,
            sample@,
            task@,
            loaded@,
            now,
            r@,
            mid,
        ));
        r
    }

    /// Works a task off for a pause, with the state that was kept of its subject.
    pub fn process_pause(
        &mut self,
        event: &UnifiedEvent,
        pause: &TvlPauseEvent,
        task: &RuleTask,
        loaded: TvlRuleState,
        now: Timestamp,
    ) -> (r: Option<TvlOutcome>)
        requires
            event.timestamp.calendar(),
        ensures
            exists|mid: Seq<CachedState>|
                #[trigger] may_follow_pause(
                    old(self).state_cache@,
                    final(self).state_cache@,
                    *event,
                    pause@,
                    task@,
                    loaded@,
                    now,
                    outcome_option(r),
                    mid,
                ),
            final(self).configs == old(self).configs,
            final(self).source_bindings == old(self).source_bindings,
    {
        self.remember(task.cache_key.as_str(), loaded.copy(), now);
        let ghost mid = self.state_cache@;
        let verdict: Verdict = match loaded.judge_pause(pause.paused) {
            Some(v) => v,
            None => {
                assert(may_follow_pause(
                    old(self).state_cache@,
                    self.state_cache@,
                    *event,
                    pause@,
                    task@,
                    loaded@,
                    now,
                    None,
                    mid,
                ));
                return None;
            },
        };
        let transition: IncidentTransition = match verdict.transition {
            Some(t) => t,
            None => IncidentTransition::Update,
        };
        let r: TvlOutcome = conclude_pause(event, pause, task, loaded, &verdict, transition, now);
        self.remember(task.cache_key.as_str(), r.state.copy(), now);
        assert(may_follow_pause(
            old(self).state_cache@,
            self.state_cache@,
            *event,
            pause@,
            task@,
            loaded@,
            now,
            Some(r@),
            mid,
        ));
        Some(r)
    }
}

fn conclude_sample(
    event: &UnifiedEvent,
    sample: &TvlStateEvent,
    task: &RuleTask,
    state: TvlRuleState,
    evaluation: &TvlEvaluation,
    systemic: bool,
    markets: &Vec<String>,
    now: Timestamp,
) -> (r: TvlOutcome)
    requires
        event.timestamp.calendar(),
        evaluation@ == crate::tvl_drop::state::evaluation(
            task.rule@,
            state@,
            sample.tvl_usd,
            now,
        ),
    ensures
        exists|id: Seq<char>, nonce: Seq<char>|
            is_id(id) && is_id(nonce) && r@ == #[trigger] sample_outcome(
                *event,
                sample@,
                task@,
                state@,
                systemic,
                texts(markets@),
                now,
                id,
                nonce,
            ),
{
    reveal(sample_outcome);
    let ghost given = state@;
    let verdict: Verdict = state.judge_sample(evaluation, systemic);
    let mut state: TvlRuleState = state;
    state.settle(evaluation, &verdict, now);
    let snapshot: Json = append_snapshot_meta(
        event,
        &snapshot_of_sample(
            &task.rule,
            task.subject.subject_key.as_str(),
            sample.tvl_usd,
            evaluation,
            &verdict,
        ),
    );
    let severity: Option<String> = if evaluation.base_severity.is_some() {
        Some(severity_text(verdict.severity).to_owned())
    } else {
        None
    };
    let ghost mut id: Seq<char> = some_id();
    let ghost mut nonce: Seq<char> = some_id();
    let mut detection: Option<DetectionResult> = None;
    match verdict.transition {
        Some(transition) => {
            let built: DetectionResult = build_tvl_detection(
                event,
                &task.rule,
                &task.subject,
                &verdict,
                transition,
                evaluation,
                sample,
                markets,
                now,
            );
            proof {
                let (a, b) = choose|a: Seq<char>, b: Seq<char>|
                    is_id(a) && is_id(b) && built@ == #[trigger] fall_detection(
                        *event,
                        task.rule@,
                        task@.subject,
                        verdict,
                        transition,
                        evaluation@,
                        sample@,
                        texts(markets@),
                        now,
                        a,
                        b,
                    );
                id = a;
                nonce = b;
            }
            detection = Some(built);
        },
        None => {},
    }
    let r = TvlOutcome {
        snapshot,
        score: Some(evaluation.selected_drop_pct),
        severity,
        state,
        detection,
    };
    assert(r@ == sample_outcome(
        *event,
        sample@,
        task@,
        given,
        systemic,
        texts(markets@),
        now,
        id,
        nonce,
    ));
    r
}

fn conclude_pause(
    event: &UnifiedEvent,
    pause: &TvlPauseEvent,
    task: &RuleTask,
    loaded: TvlRuleState,
    verdict: &Verdict,
    transition: IncidentTransition,
    now: Timestamp,
) -> (r: TvlOutcome)
    requires
        event.timestamp.calendar(),
    ensures
        exists|id: Seq<char>, nonce: Seq<char>|
            is_id(id) && is_id(nonce) && r@ == #[trigger] pause_outcome(
                *event,
                pause@,
                task@,
                loaded@,
                *verdict,
                transition,
                now,
                id,
                nonce,
            ),
{
    reveal(pause_outcome);
    let ghost given = loaded@;
    let mut state: TvlRuleState = loaded;
    state.note_pause(task.protocol_chain_key.as_str(), pause.paused, now);
    let snapshot: Json = append_snapshot_meta(
        event,
        &snapshot_of_pause(
            task.rule.rule_id.as_str(),
            task.subject.subject_key.as_str(),
            pause.paused,
            transition,
            verdict.classification,
        ),
    );
    let built: DetectionResult = build_pause_detection(
        event,
        task.rule.rule_id.as_str(),
        &task.subject,
        verdict,
        transition,
        pause,
        now,
    );
    let ghost shown = built@;
    let r = TvlOutcome {
        snapshot,
        score: state.last_drop_pct,
        severity: copy_option(&state.last_severity),
        state,
        detection: Some(built),
    };
    proof {
        let (a, b) = choose|a: Seq<char>, b: Seq<char>|
            is_id(a) && is_id(b) && shown == #[trigger] pause_detection(
                *event,
                task.rule.rule_id@,
                task@.subject,
                *verdict,
                transition,
                pause@,
                now,
                a,
                b,
            );
        assert(r@ == pause_outcome(
            *event,
            pause@,
            task@,
            given,
            *verdict,
            transition,
            now,
            a,
            b,
        ));
    }
    r
}

/// The graver of two detections, the first where both are equally grave.
pub open spec fn graver(current: Option<DetectionResult>, candidate: DetectionResult) -> DetectionResult {
    match current {
        Some(existing) => if rank(Some(candidate.severity)) > rank(Some(existing.severity)) {
            candidate
        } else {
            existing
        },
        None => candidate,
    }
}

/// Of two detections the more severe one, the first where they are equally severe.
pub fn pick_higher_severity(current: Option<DetectionResult>, candidate: DetectionResult) -> (r:
    Option<DetectionResult>)
    ensures
        r == (match current {
            Some(existing) => if rank(Some(candidate.severity)) > rank(Some(existing.severity)) {
                Some(candidate)
            } else {
                Some(existing)
            },
            None => Some(candidate),
        }),
        r == Some(graver(current, candidate)),
{
    match current {
        Some(existing) => {
            if severity_rank(Some(&candidate.severity)) > severity_rank(Some(&existing.severity)) {
                Some(candidate)
            } else {
                Some(existing)
            }
        },
        None => Some(candidate),
    }
}

// ---------------------------------------------------------------------------
// Laws
// ---------------------------------------------------------------------------

/// An event of a tenant that is not configured, or from a source that is not let in, gives
/// nothing to do.
pub proof fn law_only_configured_tenants_have_work(d: TvlDropPattern, event: UnifiedEvent)
    requires
        rules_of(d, event.tenant_id@) is None || !let_in(
            d.source_bindings@,
            event.tenant_id@,
            event.source_id@,
        ),
    ensures
        work_for(d, event) is Nothing,
{
}

/// The tasks of an event have rules that are switched on and about its protocol, and their
/// states lie under the tenant's own keys.
pub proof fn law_tasks_belong_to_the_tenant(
    rules: Seq<RuleView>,
    tenant: Seq<char>,
    protocol: Seq<char>,
    chain: Seq<char>,
    market: Option<Seq<char>>,
    n: nat,
)
    requires
        n <= rules.len(),
    ensures
        forall|i: int|
            0 <= i < tasks_of(rules, tenant, protocol, chain, market, n).len() ==> {
                let t = #[trigger] tasks_of(rules, tenant, protocol, chain, market, n)[i];
                &&& t.rule.enabled
                &&& concerns(t.rule, protocol, chain, market)
                &&& rules.contains(t.rule)
                &&& t.cache_key == tenant + ":"@ + t.state_key
            },
    decreases n,
{
    if n > 0 {
        law_tasks_belong_to_the_tenant(rules, tenant, protocol, chain, market, (n - 1) as nat);
        assert(rules.contains(rules[n - 1]));
    }
}

/// States of other tenants have no say in whether a fall is systemic.
pub proof fn law_other_tenants_do_not_matter(
    cache: Seq<(Seq<char>, StateView)>,
    tenant: Seq<char>,
    key: Seq<char>,
    protocol: Seq<char>,
    now: Timestamp,
    minutes: i64,
)
    requires
        forall|i: int|
            0 <= i < cache.len() ==> !stands_at((#[trigger] cache[i]).0, tenant + ":"@, 0),
    ensures
        !concurrent_fall(cache, tenant, key, protocol, now, minutes),
{
}

/// A fall is systemic only where another protocol fell too, not another market of the same.
pub proof fn law_one_protocol_is_not_systemic(
    cache: Seq<(Seq<char>, StateView)>,
    tenant: Seq<char>,
    key: Seq<char>,
    protocol: Seq<char>,
    now: Timestamp,
    minutes: i64,
)
    requires
        forall|i: int|
            0 <= i < cache.len() ==> (#[trigger] cache[i]).1.protocol_chain_key is None
                || cache[i].1.protocol_chain_key == Some(protocol),
    ensures
        !concurrent_fall(cache, tenant, key, protocol, now, minutes),
{
}

/// No more states are remembered than may be, and the one just put in is among them.
pub proof fn law_cache_is_bounded(
    before: Seq<CachedState>,
    after: Seq<CachedState>,
    key: Seq<char>,
    s: StateView,
    now: Timestamp,
)
    requires
        before.len() < usize::MAX,
        remembers(before, after, key, s, now),
    ensures
        after.len() <= STATE_CACHE_MAX_ENTRIES,
        cache_view(after).contains((key, s)),
{
    let grown = choose|grown: Seq<CachedState>|
        cache_view(grown) == put(cache_view(before), key, s) && after == #[trigger] tidied(
            grown,
            key,
            now,
        );
    let cutoff = now.before_minutes(STATE_CACHE_TTL_MINUTES as int);
    let all = put(cache_view(before), key, s);
    lemma_put_places(cache_view(before), key, s);
    let i = place_of(all, key);
    assert(grown.len() == all.len());
    assert(all[i] == (grown[i].key@, grown[i].state@));
    crate::cache::law_pruned_cache_is_bounded(
        grown,
        Some(i),
        cutoff,
        STATE_CACHE_MAX_ENTRIES as nat,
    );
    crate::cache::law_current_entry_survives(grown, i, cutoff, STATE_CACHE_MAX_ENTRIES as nat);
    let k = choose|k: int| 0 <= k < after.len() && after[k] == grown[i];
    assert(cache_view(after)[k] == (key, s));
}

proof fn lemma_put_places(m: Seq<(Seq<char>, StateView)>, key: Seq<char>, s: StateView)
    ensures
        0 <= place_of(put(m, key, s), key) < put(m, key, s).len(),
        put(m, key, s)[place_of(put(m, key, s), key)] == (key, s),
        put(m, key, s).len() <= m.len() + 1,
    decreases m.len(),
{
    if m.len() > 0 && m[0].0 != key {
        lemma_put_places(m.skip(1), key, s);
        assert(put(m, key, s).skip(1) =~= put(m.skip(1), key, s));
    }
}

/// Whether a state is that of a subject of the tenant, under another key than `key` and of
/// another protocol than `protocol`, with a severity and a breach at `at`.
pub open spec fn fell_at(
    c: (Seq<char>, StateView),
    tenant: Seq<char>,
    rest: Seq<char>,
    key: Seq<char>,
    protocol: Seq<char>,
    at: Timestamp,
) -> bool {
    &&& c.0 == tenant + ":"@ + rest
    &&& c.0 != key
    &&& c.1.last_severity is Some
    &&& c.1.last_breach_at == Some(at)
    &&& c.1.protocol_chain_key is Some
    &&& c.1.protocol_chain_key != Some(protocol)
}

/// The nanoseconds of a window of so many minutes, of at least one.
pub open spec fn window_nanos(minutes: i64) -> int {
    60_000_000_000 * (if minutes < 1 {
        1
    } else {
        minutes as int
    })
}

/// A fall that lies before the window makes no other fall systemic, however grave it was.
pub proof fn law_old_falls_are_not_concurrent(
    cache: Seq<(Seq<char>, StateView)>,
    tenant: Seq<char>,
    key: Seq<char>,
    protocol: Seq<char>,
    now: Timestamp,
    minutes: i64,
)
    requires
        forall|i: int|
            0 <= i < cache.len() ==> ((#[trigger] cache[i]).1.last_breach_at matches Some(t)
                ==> t.nanos < now.nanos - window_nanos(minutes)),
    ensures
        !concurrent_fall(cache, tenant, key, protocol, now, minutes),
{
}

/// One fall of another protocol of the tenant within the window is enough.
pub proof fn law_one_recent_fall_is_concurrent(
    cache: Seq<(Seq<char>, StateView)>,
    tenant: Seq<char>,
    rest: Seq<char>,
    key: Seq<char>,
    protocol: Seq<char>,
    now: Timestamp,
    minutes: i64,
    i: int,
    at: Timestamp,
)
    requires
        0 <= i < cache.len(),
        fell_at(cache[i], tenant, rest, key, protocol, at),
        at.nanos >= now.nanos - window_nanos(minutes),
    ensures
        concurrent_fall(cache, tenant, key, protocol, now, minutes),
{
    assert(cache[i].0.subrange(0, (tenant + ":"@).len() as int) =~= tenant + ":"@);
    assert(falls_too(cache[i], tenant, key, protocol, window_start(now, minutes)));
}

/// A fall is systemic only where the rule looks for other falls, there is one, and the value
/// passed a limit itself.
pub proof fn law_systemic_falls_have_company(
    event: UnifiedEvent,
    p: SampleView,
    t: TaskView,
    loaded: StateView,
    cache: Seq<(Seq<char>, StateView)>,
    now: Timestamp,
)
    ensures
        !t.rule.contagion_enabled ==> !is_systemic(event, p, t, loaded, cache, now),
        is_systemic(event, p, t, loaded, cache, now) ==> exists|i: int|
            0 <= i < cache.len() && (#[trigger] cache[i]).0 != t.cache_key
                && cache[i].1.protocol_chain_key != Some(t.protocol_chain_key)
                && cache[i].1.last_severity is Some && cache[i].1.last_breach_at is Some
                && cache[i].1.last_breach_at->0.nanos >= now.nanos - window_nanos(
                t.rule.concurrent_window_minutes,
            ),
{
    if is_systemic(event, p, t, loaded, cache, now) {
        let cutoff = window_start(now, t.rule.concurrent_window_minutes);
        let i = choose|i: int|
            0 <= i < cache.len() && #[trigger] falls_too(
                cache[i],
                event.tenant_id@,
                t.cache_key,
                t.protocol_chain_key,
                cutoff,
            );
        assert(cache[i].0 != t.cache_key);
    }
}

proof fn lemma_tasks_of(
    rules: Seq<RuleView>,
    tenant: Seq<char>,
    protocol: Seq<char>,
    chain: Seq<char>,
    market: Option<Seq<char>>,
    n: nat,
    k: int,
)
    requires
        0 <= k < n <= rules.len(),
        task_of(rules[k], tenant, protocol, chain, market) is Some,
    ensures
        tasks_of(rules, tenant, protocol, chain, market, n).contains(
            task_of(rules[k], tenant, protocol, chain, market)->0,
        ),
    decreases n,
{
    let t = task_of(rules[k], tenant, protocol, chain, market)->0;
    let all = tasks_of(rules, tenant, protocol, chain, market, n);
    if k == n - 1 {
        assert(all[all.len() - 1] == t);
    } else {
        lemma_tasks_of(rules, tenant, protocol, chain, market, (n - 1) as nat, k);
        let before = tasks_of(rules, tenant, protocol, chain, market, (n - 1) as nat);
        let j = choose|j: int| 0 <= j < before.len() && before[j] == t;
        assert(all[j] == t);
    }
}

/// Whether a task is that of a rule for a whole protocol: its state lies under the tenant, the
/// rule, and the protocol with its chain.
pub open spec fn is_protocol_task(t: TaskView, r: RuleView, tenant: Seq<char>) -> bool {
    let key = lowered(r.protocol_id) + ":"@ + lowered(r.chain_slug);
    &&& t.rule == r
    &&& t.protocol_chain_key == key
    &&& t.subject.0 == "protocol"@
    &&& t.subject.1 == key
    &&& t.state_key == r.rule_id + ":"@ + key
    &&& t.cache_key == tenant + ":"@ + t.state_key
}

/// Every rule of a tenant that is switched on and names the protocol and the chain of a
/// sample, in letters of either case, has its task with it.
pub proof fn law_every_matching_rule_has_a_task(
    d: TvlDropPattern,
    event: UnifiedEvent,
    rules: Seq<RuleView>,
    p: SampleView,
    k: int,
)
    requires
        let_in(d.source_bindings@, event.tenant_id@, event.source_id@),
        rules_of(d, event.tenant_id@) == Some(rules),
        sample_in(event) == Some(p),
        0 <= k < rules.len(),
        rules[k].enabled,
        lowered(rules[k].protocol_id) == lowered(p.protocol_id),
        lowered(rules[k].chain_slug) == lowered(p.chain_slug),
        !alike(rules[k].scope, "market"@),
    ensures
        work_for(d, event) is Sample,
        work_for(d, event)->Sample_0 == p,
        exists|i: int|
            0 <= i < work_for(d, event)->Sample_1.len() && #[trigger] is_protocol_task(
                work_for(d, event)->Sample_1[i],
                rules[k],
                event.tenant_id@,
            ),
{
    let tenant = event.tenant_id@;
    let t = task_of(rules[k], tenant, p.protocol_id, p.chain_slug, p.market_id)->0;
    lemma_tasks_of(
        rules,
        tenant,
        p.protocol_id,
        p.chain_slug,
        p.market_id,
        rules.len(),
        k,
    );
    let tasks = tasks_of(rules, tenant, p.protocol_id, p.chain_slug, p.market_id, rules.len());
    let i = choose|i: int| 0 <= i < tasks.len() && tasks[i] == t;
    assert(work_for(d, event) == WorkView::Sample(p, tasks));
    let key = lowered(rules[k].protocol_id) + ":"@ + lowered(rules[k].chain_slug);
    assert(tasks[i].protocol_chain_key == key);
    assert(tasks[i].subject == ("protocol"@, key));
    assert(tasks[i].state_key == rules[k].rule_id + ":"@ + key);
    assert(tasks[i].cache_key == tenant + ":"@ + tasks[i].state_key);
    let w = work_for(d, event);
    assert(w->Sample_1 == tasks);
    assert(0 <= i < w->Sample_1.len());
    assert(is_protocol_task(w->Sample_1[i], rules[k], tenant));
}

/// A rule for one market has its task with samples of that market, and with no others.
pub proof fn law_market_rules_are_for_their_market(
    r: RuleView,
    tenant: Seq<char>,
    market: Seq<char>,
    other: Option<Seq<char>>,
)
    requires
        r.enabled,
        alike(r.scope, "market"@),
        r.market_id == Some(market),
        crate::text::trimmed(market).len() > 0,
    ensures
        task_of(r, tenant, r.protocol_id, r.chain_slug, other) is Some <==> lowered(market)
            == lowered(
            match other {
                Some(o) => o,
                None => Seq::<char>::empty(),
            },
        ),
        task_of(r, tenant, r.protocol_id, r.chain_slug, other) matches Some(t) ==> t.subject == (
            "market"@,
            lowered(r.protocol_id) + ":"@ + lowered(r.chain_slug) + ":"@ + lowered(
                crate::text::trimmed(market),
            ),
        ),
{
}

/// A sample that is none, but news of a pause, is worked off as that.
pub proof fn law_pauses_are_worked_off(
    d: TvlDropPattern,
    event: UnifiedEvent,
    rules: Seq<RuleView>,
    p: PauseView,
)
    requires
        let_in(d.source_bindings@, event.tenant_id@, event.source_id@),
        rules_of(d, event.tenant_id@) == Some(rules),
        sample_in(event) is None,
        pause_in(event) == Some(p),
    ensures
        work_for(d, event) matches WorkView::Pause(q, tasks) && q == p && forall|k: int|
            0 <= k < rules.len() && task_of(
                rules[k],
                event.tenant_id@,
                p.protocol_id,
                p.chain_slug,
                p.market_id,
            ) is Some ==> tasks.contains(
                #[trigger] task_of(
                    rules[k],
                    event.tenant_id@,
                    p.protocol_id,
                    p.chain_slug,
                    p.market_id,
                )->0,
            ),
{
    let tenant = event.tenant_id@;
    let tasks = tasks_of(rules, tenant, p.protocol_id, p.chain_slug, p.market_id, rules.len());
    assert forall|k: int|
        0 <= k < rules.len() && task_of(
            rules[k],
            tenant,
            p.protocol_id,
            p.chain_slug,
            p.market_id,
        ) is Some implies tasks.contains(
        #[trigger] task_of(rules[k], tenant, p.protocol_id, p.chain_slug, p.market_id)->0,
    ) by {
        lemma_tasks_of(
            rules,
            tenant,
            p.protocol_id,
            p.chain_slug,
            p.market_id,
            rules.len(),
            k,
        );
    }
}

proof fn lemma_at_risk(
    rules: Seq<RuleView>,
    protocol: Seq<char>,
    chain: Seq<char>,
    market: Option<Seq<char>>,
    n: nat,
    key: Seq<char>,
)
    requires
        n <= rules.len(),
    ensures
        markets_at_risk(rules, protocol, chain, market, n).contains(key) <==> exists|k: int|
            0 <= k < n && market_at_risk(#[trigger] rules[k], protocol, chain, market) == Some(key),
    decreases n,
{
    if n > 0 {
        let m = (n - 1) as nat;
        lemma_at_risk(rules, protocol, chain, market, m, key);
        let before = markets_at_risk(rules, protocol, chain, market, m);
        let all = markets_at_risk(rules, protocol, chain, market, n);
        if all.contains(key) {
            let j = choose|j: int| 0 <= j < all.len() && all[j] == key;
            if j < before.len() {
                assert(before[j] == key);
                let k = choose|k: int|
                    0 <= k < m && market_at_risk(
                        #[trigger] rules[k],
                        protocol,
                        chain,
                        market,
                    ) == Some(key);
                assert(market_at_risk(rules[k], protocol, chain, market) == Some(key));
            } else {
                assert(market_at_risk(rules[n - 1], protocol, chain, market) == Some(key));
            }
        }
        if exists|k: int|
            0 <= k < n && market_at_risk(#[trigger] rules[k], protocol, chain, market) == Some(
                key,
            ) {
            let k = choose|k: int|
                0 <= k < n && market_at_risk(#[trigger] rules[k], protocol, chain, market) == Some(
                    key,
                );
            if k < m {
                let j = choose|j: int| 0 <= j < before.len() && before[j] == key;
                assert(all[j] == key);
            } else {
                assert(all[all.len() - 1] == key);
            }
        }
    }
}

/// At risk are exactly the other markets of the same protocol on the same chain that rules of
/// the tenant look at.
pub proof fn law_other_markets_of_the_protocol_are_at_risk(
    d: TvlDropPattern,
    tenant: Seq<char>,
    protocol: Seq<char>,
    chain: Seq<char>,
    market: Option<Seq<char>>,
    rules: Seq<RuleView>,
    key: Seq<char>,
)
    requires
        rules_of(d, tenant) == Some(rules),
    ensures
        at_risk(d, tenant, protocol, chain, market).contains(key) <==> exists|k: int|
            0 <= k < rules.len() && (#[trigger] rules[k]).enabled && lowered(rules[k].protocol_id)
                == lowered(protocol) && lowered(rules[k].chain_slug) == lowered(chain) && alike(
                rules[k].scope,
                "market"@,
            ) && rules[k].market_id is Some && !(market is Some && lowered(market->0) == lowered(
                rules[k].market_id->0,
            )) && key == lowered(rules[k].protocol_id) + ":"@ + lowered(rules[k].chain_slug) + ":"@
                + lowered(rules[k].market_id->0),
{
    lemma_at_risk(rules, protocol, chain, market, rules.len(), key);
    if at_risk(d, tenant, protocol, chain, market).contains(key) {
        let k = choose|k: int|
            0 <= k < rules.len() && market_at_risk(
                #[trigger] rules[k],
                protocol,
                chain,
                market,
            ) == Some(key);
        assert(rules[k].enabled);
    }
    assert forall|k: int|
        0 <= k < rules.len() && (#[trigger] rules[k]).enabled && lowered(rules[k].protocol_id)
            == lowered(protocol) && lowered(rules[k].chain_slug) == lowered(chain) && alike(
            rules[k].scope,
            "market"@,
        ) && rules[k].market_id is Some && !(market is Some && lowered(market->0) == lowered(
            rules[k].market_id->0,
        )) && key == lowered(rules[k].protocol_id) + ":"@ + lowered(rules[k].chain_slug) + ":"@
            + lowered(rules[k].market_id->0) implies market_at_risk(
        rules[k],
        protocol,
        chain,
        market,
    ) == Some(key) by {}
}

proof fn lemma_configs_prefix(rows: Seq<ConfigEntry>, row: ConfigEntry, n: nat)
    requires
        n <= rows.len(),
    ensures
        configs_after(rows.push(row), n) == configs_after(rows, n),
        bindings_after(rows.push(row), n) == bindings_after(rows, n),
    decreases n,
{
    if n > 0 {
        lemma_configs_prefix(rows, row, (n - 1) as nat);
        assert(rows.push(row)[n - 1] == rows[n - 1]);
    }
}

/// A tenant's last row for the pattern gives its rules, and rows of other tenants and patterns
/// change nothing of them.
pub proof fn law_the_last_row_of_a_tenant_counts(
    rows: Seq<ConfigEntry>,
    row: ConfigEntry,
    tenant: Seq<char>,
)
    ensures
        ({
            let n = rows.len();
            let all = rows.push(row);
            &&& lookup(configs_after(all, all.len()), tenant) == (if row.pattern_id@ == "tvl_drop"@
                && row.tenant_id@ == tenant {
                Some(configured_rules(detection_part(row.config@)))
            } else {
                lookup(configs_after(rows, n), tenant)
            })
            &&& lookup(bindings_after(all, all.len()), tenant) == (if row.pattern_id@
                == "tvl_drop"@ && row.tenant_id@ == tenant && bindings_in(row.config@) is Some {
                Some(bound_sources(bindings_in(row.config@)->0))
            } else {
                lookup(bindings_after(rows, n), tenant)
            })
        }),
{
    let n = rows.len();
    lemma_configs_prefix(rows, row, n);
    assert(rows.push(row)[n as int] == row);
    crate::assoc::law_lookup_after_put(
        configs_after(rows, n),
        row.tenant_id@,
        configured_rules(detection_part(row.config@)),
        tenant,
    );
    if bindings_in(row.config@) is Some {
        crate::assoc::law_lookup_after_put(
            bindings_after(rows, n),
            row.tenant_id@,
            bound_sources(bindings_in(row.config@)->0),
            tenant,
        );
    }
}

/// Of two detections the graver one is reported, and the first where both are equally grave.
pub proof fn law_the_graver_detection_is_reported(
    current: DetectionResult,
    candidate: DetectionResult,
)
    ensures
        ({
            let r = graver(Some(current), candidate);
            &&& r == current || r == candidate
            &&& rank(Some(r.severity)) >= rank(Some(current.severity))
            &&& rank(Some(r.severity)) >= rank(Some(candidate.severity))
            &&& rank(Some(current.severity)) == rank(Some(candidate.severity)) ==> r == current
        }),
        graver(None, candidate) == candidate,
{
}

/// A state that was heard of within a day is still remembered after another one was put in,
/// as long as there is room.
pub proof fn law_recent_states_stay(
    before: Seq<CachedState>,
    after: Seq<CachedState>,
    key: Seq<char>,
    s: StateView,
    now: Timestamp,
    other: (Seq<char>, StateView),
)
    requires
        before.len() < 4096,
        remembers(before, after, key, s, now),
        cache_view(before).contains(other),
        other.0 != key,
        last_activity(other.1) is Some,
        last_activity(other.1)->0.nanos >= now.nanos - 86_400_000_000_000,
    ensures
        cache_view(after).contains(other),
{
    let grown = choose|grown: Seq<CachedState>|
        cache_view(grown) == put(cache_view(before), key, s) && after == #[trigger] tidied(
            grown,
            key,
            now,
        );
    let all = cache_view(grown);
    lemma_put_places(cache_view(before), key, s);
    lemma_put_keeps(cache_view(before), key, s, other);
    let i = choose|i: int| 0 <= i < all.len() && all[i] == other;
    assert(grown.len() == all.len());
    assert(all[i] == (grown[i].key@, grown[i].state@));
    crate::cache::law_fresh_entries_stay_while_there_is_room(
        grown,
        current_place(grown, key),
        now.before_minutes(STATE_CACHE_TTL_MINUTES as int),
        STATE_CACHE_MAX_ENTRIES as nat,
        i,
    );
    let k = choose|k: int| 0 <= k < after.len() && after[k] == grown[i];
    assert(cache_view(after)[k] == other);
}

proof fn lemma_put_keeps(
    m: Seq<(Seq<char>, StateView)>,
    key: Seq<char>,
    s: StateView,
    other: (Seq<char>, StateView),
)
    requires
        m.contains(other),
        other.0 != key,
    ensures
        put(m, key, s).contains(other),
    decreases m.len(),
{
    let k = choose|k: int| 0 <= k < m.len() && m[k] == other;
    let p = put(m, key, s);
    if m[0].0 == key {
        assert(p[k] == other);
    } else if k == 0 {
        assert(p[0] == other);
    } else {
        assert(m.skip(1)[k - 1] == other);
        lemma_put_keeps(m.skip(1), key, s, other);
        let q = put(m.skip(1), key, s);
        let j = choose|j: int| 0 <= j < q.len() && q[j] == other;
        assert(p[j + 1] == other);
    }
}

/// A sample is reported exactly where it brings about a transition; what is kept is the state
/// with the sample in it, and the score is the larger of the two falls.
pub proof fn law_transitions_are_reported(
    event: UnifiedEvent,
    p: SampleView,
    t: TaskView,
    s: StateView,
    systemic: bool,
    markets: Seq<Seq<char>>,
    now: Timestamp,
    id: Seq<char>,
    nonce: Seq<char>,
)
    ensures
        ({
            let o = sample_outcome(event, p, t, s, systemic, markets, now, id, nonce);
            let e = evaluation(t.rule, s, p.tvl_usd, now);
            let v = verdict(s, e, systemic);
            &&& o.detection is Some <==> v.transition is Some
            &&& o.score == Some(e.selected_drop_pct)
            &&& o.state.samples == s.samples
            &&& e.base_severity is Some ==> o.state.last_breach_at == Some(now)
            &&& e.base_severity is None ==> o.state.last_breach_at == s.last_breach_at
                && o.detection is None && o.severity is None
            &&& e.base_severity is Some ==> o.severity == Some(
                crate::event::severity_name(v.severity),
            )
        }),
{
    reveal(sample_outcome);
}

/// A fall that passed a limit is systemic where the rule looks for other falls and one of
/// another protocol of the tenant lies within the window.
pub proof fn law_company_makes_a_fall_systemic(
    event: UnifiedEvent,
    p: SampleView,
    t: TaskView,
    loaded: StateView,
    cache: Seq<(Seq<char>, StateView)>,
    now: Timestamp,
    rest: Seq<char>,
    i: int,
    at: Timestamp,
)
    requires
        evaluation(
            t.rule,
            state_with(event, p, t, loaded, now),
            p.tvl_usd,
            now,
        ).base_severity is Some,
        t.rule.contagion_enabled,
        0 <= i < cache.len(),
        fell_at(cache[i], event.tenant_id@, rest, t.cache_key, t.protocol_chain_key, at),
        at.nanos >= now.nanos - window_nanos(t.rule.concurrent_window_minutes),
    ensures
        is_systemic(event, p, t, loaded, cache, now),
{
    law_one_recent_fall_is_concurrent(
        cache,
        event.tenant_id@,
        rest,
        t.cache_key,
        t.protocol_chain_key,
        now,
        t.rule.concurrent_window_minutes,
        i,
        at,
    );
}

/// A sample is judged by the rule of its task, with what the event says of the tenant's deposits
/// and with the value among the samples.
pub proof fn law_samples_are_judged_with_what_the_event_says(
    event: UnifiedEvent,
    p: SampleView,
    t: TaskView,
    loaded: StateView,
    now: Timestamp,
)
    ensures
        ({
            let s = state_with(event, p, t, loaded, now);
            &&& s.protocol_chain_key == Some(t.protocol_chain_key)
            &&& s.tenant_has_deposit == with_position(
                loaded,
                t.protocol_chain_key,
                event.payload@,
            ).tenant_has_deposit
            &&& s.position_data_stale == with_position(
                loaded,
                t.protocol_chain_key,
                event.payload@,
            ).position_data_stale
            &&& s.samples == sampled(t.rule, loaded, p.tvl_usd, now).samples
            &&& s.last_severity == loaded.last_severity
            &&& s.last_drop_pct == loaded.last_drop_pct
            &&& s.last_context == loaded.last_context
            &&& s.active_since == loaded.active_since
        }),
{
}

/// What a sample leads to is scored by its fall, has the severity and the state of its verdict,
/// and is reported exactly where the verdict is a change.
pub proof fn law_sample_outcomes_follow_the_verdict(
    event: UnifiedEvent,
    p: SampleView,
    t: TaskView,
    s: StateView,
    systemic: bool,
    markets: Seq<Seq<char>>,
    now: Timestamp,
    id: Seq<char>,
    nonce: Seq<char>,
)
    ensures
        ({
            let o = sample_outcome(event, p, t, s, systemic, markets, now, id, nonce);
            let e = evaluation(t.rule, s, p.tvl_usd, now);
            let v = verdict(s, e, systemic);
            &&& o.score == Some(e.selected_drop_pct)
            &&& o.state == settled(s, e, v, now)
            &&& e.base_severity is Some ==> o.severity == Some(
                crate::event::severity_name(v.severity),
            )
            &&& e.base_severity is None ==> o.severity is None
            &&& o.detection is Some <==> v.transition is Some
            &&& v.transition is Some ==> o.detection == Some(
                fall_detection(
                    event,
                    t.rule,
                    t.subject,
                    v,
                    v.transition->0,
                    e,
                    p,
                    markets,
                    now,
                    id,
                    nonce,
                ),
            )
            &&& o.snapshot == snapshot_with_meta(
                event.payload@,
                event.timestamp,
                sample_snapshot(t.rule, t.subject.1, p.tvl_usd, e, v),
            )
        }),
{
    reveal(sample_outcome);
}

/// What a pause leads to is always reported, keeps the score and the severity that the subject
/// had, and is remembered.
pub proof fn law_pause_outcomes_keep_the_severity(
    event: UnifiedEvent,
    p: PauseView,
    t: TaskView,
    loaded: StateView,
    v: Verdict,
    transition: IncidentTransition,
    now: Timestamp,
    id: Seq<char>,
    nonce: Seq<char>,
)
    ensures
        ({
            let o = pause_outcome(event, p, t, loaded, v, transition, now, id, nonce);
            &&& o.score == loaded.last_drop_pct
            &&& o.severity == loaded.last_severity
            &&& o.state == paused_state(loaded, t.protocol_chain_key, p.paused, now)
            &&& o.detection == Some(
                pause_detection(
                    event,
                    t.rule.rule_id,
                    t.subject,
                    v,
                    transition,
                    p,
                    now,
                    id,
                    nonce,
                ),
            )
        }),
{
    reveal(pause_outcome);
}

/// The state that a sample leaves its subject in is remembered, and is the settled one of the
/// state that was loaded.
pub proof fn law_samples_are_remembered(
    d: TvlDropPattern,
    after: Seq<CachedState>,
    event: UnifiedEvent,
    p: SampleView,
    t: TaskView,
    loaded: StateView,
    now: Timestamp,
    o: OutcomeView,
    mid: Seq<CachedState>,
)
    requires
        may_follow_sample(d, after, event, p, t, loaded, now, o, mid),
        mid.len() < usize::MAX,
    ensures
        cache_view(after).contains((t.cache_key, o.state)),
        ({
            let s = state_with(event, p, t, loaded, now);
            let e = evaluation(t.rule, s, p.tvl_usd, now);
            let systemic = is_systemic(event, p, t, loaded, cache_view(mid), now);
            &&& o.state == settled(s, e, verdict(s, e, systemic), now)
            &&& o.detection is Some <==> verdict(s, e, systemic).transition is Some
            &&& o.score == Some(e.selected_drop_pct)
        }),
{
    reveal(sample_outcome);
    law_cache_is_bounded(mid, after, t.cache_key, o.state, now);
}

/// A tenant binds the sources of the last of its rows that has bindings.
pub proof fn law_the_last_bindings_of_a_tenant_count(
    rows: Seq<ConfigEntry>,
    n: nat,
    tenant: Seq<char>,
    j: int,
)
    requires
        n <= rows.len(),
        -1 <= j < n,
        j >= 0 ==> rows[j].pattern_id@ == "tvl_drop"@ && rows[j].tenant_id@ == tenant
            && bindings_in(rows[j].config@) is Some,
        forall|k: int|
            j < k < n ==> !((#[trigger] rows[k]).pattern_id@ == "tvl_drop"@ && rows[k].tenant_id@
                == tenant && bindings_in(rows[k].config@) is Some),
    ensures
        j >= 0 ==> lookup(bindings_after(rows, n), tenant) == Some(
            bound_sources(bindings_in(rows[j].config@)->0),
        ),
        j == -1 ==> lookup(bindings_after(rows, n), tenant) is None,
    decreases n,
{
    if n > 0 {
        let before = bindings_after(rows, (n - 1) as nat);
        let r = rows[n - 1];
        if bindings_in(r.config@) is Some {
            crate::assoc::law_lookup_after_put(
                before,
                r.tenant_id@,
                bound_sources(bindings_in(r.config@)->0),
                tenant,
            );
        }
        if j < n - 1 {
            law_the_last_bindings_of_a_tenant_count(rows, (n - 1) as nat, tenant, j);
        }
    }
}

} // verus!
