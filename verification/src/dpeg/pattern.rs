//! The first-generation depeg pattern: what it remembers, how it takes events in, and how it
//! judges them.

use vstd::prelude::*;

use crate::assoc::law_lookup_after_put;
use crate::assoc::lookup;
use crate::assoc::put;
use crate::cache::kept;
use crate::double::Double;
use crate::dpeg::detection::build_detection;
use crate::dpeg::detection::detection_of;
use crate::dpeg::detection::dpeg_test_mode_reason;
use crate::dpeg::detection::reason;
use crate::dpeg::detection::snapshot_document;
use crate::dpeg::detection::snapshot_json;
use crate::dpeg::evaluation::evaluate_policy;
use crate::dpeg::evaluation::evaluation;
use crate::dpeg::evaluation::market_divergence;
use crate::dpeg::evaluation::market_divergence_pct;
use crate::dpeg::evaluation::AlertView;
use crate::dpeg::evaluation::DpegAlertState;
use crate::dpeg::evaluation::EvaluationError;
use crate::dpeg::evaluation::EvaluationOutcome;
use crate::dpeg::evaluation::OutcomeView;
use crate::dpeg::policy::accepted_all;
use crate::dpeg::policy::parse_policies;
use crate::dpeg::policy::DpegPolicy;
use crate::depeg_v2::detection::total_of;
use crate::depeg_v2::pattern::in_dollars;
use crate::depeg_v2::pattern::scope_of;
use crate::depeg_v2::pattern::held_quotes;
use crate::event::append_snapshot_meta;
use crate::event::severity_name;
use crate::event::severity_text;
use crate::event::simulated;
use crate::event::simulation_metadata_from_event;
use crate::event::simulation_run;
use crate::event::snapshot_with_meta;
use crate::event::source_type_name;
use crate::event::source_type_text;
use crate::event::str_option;
use crate::event::ContextClassification;
use crate::event::DetectionResult;
use crate::event::DetectionView;
use crate::event::SimulationMetadata;
use crate::event::UnifiedEvent;
use crate::json::Json;
use crate::json::JsonView;
use crate::outside::is_id;
use crate::outside::some_id;
use crate::quotes::find_market;
use crate::quotes::forget_other_runs;
use crate::quotes::latest_quotes_for_time;
use crate::quotes::law_a_run_forgets_the_others;
use crate::quotes::law_quotes_go_to_their_market;
use crate::quotes::market_quotes;
use crate::quotes::markets;
use crate::quotes::markets_with;
use crate::quotes::quotes_at;
use crate::quotes::remember_in_market;
use crate::quotes::remembered;
use crate::quotes::run_flags;
use crate::quotes::stays_for_run;
use crate::quotes::CachedMarket;
use crate::quotes::MarketScope;
use crate::quotes::Markets;
use crate::quotes::QuoteInput;
use crate::quotes::ScopeView;
use crate::settings::bind_sources;
use crate::settings::bindings_in;
use crate::settings::bindings_view;
use crate::settings::bound_sources;
use crate::settings::extract_bound_source_ids;
use crate::settings::let_in;
use crate::settings::source_is_let_in;
use crate::settings::TenantBindings;
use crate::text::ends_with;
use crate::text::lowercase;
use crate::text::lowered;
use crate::text::same;
use crate::text::text_option;
use crate::text::uppercase;
use crate::time::Timestamp;

verus! {

/// How many quotes are kept for a source.
pub const MAX_QUOTE_HISTORY_PER_SOURCE: usize = 16;

/// The first-generation depeg pattern.
#[derive(Debug)]
pub struct DpegPattern {
    /// Policies, at most one for a tenant's market.
    pub policies: Vec<DpegPolicy>,
    /// Recent quotes, by tenant, market and replay.
    pub quote_cache: Vec<CachedMarket>,
    /// The sources that tenants bind.
    pub source_bindings: Vec<TenantBindings>,
}

impl Default for DpegPattern {
    fn default() -> (r: Self)
        ensures
            r.policies@.len() == 0,
            r.quote_cache@.len() == 0,
            r.source_bindings@.len() == 0,
    {
        DpegPattern {
            policies: Vec::new(),
            quote_cache: Vec::new(),
            source_bindings: Vec::new(),
        }
    }
}

/// The kind of the sources of a type.
pub open spec fn source_kind_of(source_type: Seq<char>) -> Seq<char> {
    let t = lowered(source_type);
    if t == "cexwebsocket"@ {
        "cex"@
    } else if t == "dexapi"@ {
        "dex"@
    } else if t == "oracleapi"@ {
        "oracle"@
    } else {
        "unknown"@
    }
}

pub fn infer_source_kind(source_type: &str) -> (r: String)
    ensures
        r@ == source_kind_of(source_type@),
{
    let t: String = lowercase(source_type);
    let t: &str = t.as_str();
    let kind: &str = if same(t, "cexwebsocket") {
        "cex"
    } else if same(t, "dexapi") {
        "dex"
    } else if same(t, "oracleapi") {
        "oracle"
    } else {
        "unknown"
    };
    kind.to_owned()
}

// ---------------------------------------------------------------------------
// Policies
// ---------------------------------------------------------------------------

/// Whether a policy is that of a tenant's market.
pub open spec fn is_for(p: DpegPolicy, tenant: Seq<char>, market: Seq<char>) -> bool {
    p.tenant_id@ == tenant && p.market_key@ == market
}

/// The place of the policy of a tenant's market, the number of policies where it has none.
pub open spec fn policy_place(s: Seq<DpegPolicy>, tenant: Seq<char>, market: Seq<char>) -> int
    decreases s.len(),
{
    if s.len() == 0 || is_for(s[0], tenant, market) {
        0
    } else {
        1 + policy_place(s.skip(1), tenant, market)
    }
}

/// The policy of a tenant's market.
pub open spec fn policy_for(s: Seq<DpegPolicy>, tenant: Seq<char>, market: Seq<char>) -> Option<
    DpegPolicy,
> {
    let i = policy_place(s, tenant, market);
    if i < s.len() {
        Some(s[i])
    } else {
        None
    }
}

/// Policies with one more, in the place of the one for the same market.
pub open spec fn installed(s: Seq<DpegPolicy>, p: DpegPolicy) -> Seq<DpegPolicy> {
    let i = policy_place(s, p.tenant_id@, p.market_key@);
    if i < s.len() {
        s.update(i, p)
    } else {
        s.push(p)
    }
}

/// Policies with those of a list, one after the other.
pub open spec fn installed_all(s: Seq<DpegPolicy>, list: Seq<DpegPolicy>) -> Seq<DpegPolicy>
    decreases list.len(),
{
    if list.len() == 0 {
        s
    } else {
        installed(installed_all(s, list.drop_last()), list.last())
    }
}

fn find_policy(v: &Vec<DpegPolicy>, tenant: &str, market: &str) -> (i: usize)
    ensures
        i <= v.len(),
        i == policy_place(v@, tenant@, market@),
{
    let mut i: usize = 0;
    assert(v@.skip(0) =~= v@);
    while i < v.len()
        invariant
            i <= v.len(),
            policy_place(v@, tenant@, market@) == i + policy_place(
                v@.skip(i as int),
                tenant@,
                market@,
            ),
        decreases v.len() - i,
    {
        if same(v[i].tenant_id.as_str(), tenant) && same(v[i].market_key.as_str(), market) {
            return i;
        }
        assert(v@.skip(i as int).skip(1) =~= v@.skip(i + 1));
        i = i + 1;
    }
    i
}

fn install(v: &mut Vec<DpegPolicy>, p: DpegPolicy)
    ensures
        final(v)@ == installed(old(v)@, p),
{
    let i: usize = find_policy(v, p.tenant_id.as_str(), p.market_key.as_str());
    if i < v.len() {
        v.set(i, p);
    } else {
        v.push(p);
    }
}

// ---------------------------------------------------------------------------
// Configuration
// ---------------------------------------------------------------------------

/// The configuration of a tenant for a pattern, with the policies that were read from it.
#[derive(Debug)]
pub struct ConfigRow {
    pub tenant_id: String,
    pub pattern_id: String,
    pub config: Json,
    pub entries: Option<Vec<DpegPolicy>>,
}

/// Whether a row is for this pattern.
pub open spec fn concerns(r: ConfigRow) -> bool {
    r.pattern_id@ == "dpeg"@
}

/// The policies accepted from a row.
pub open spec fn accepted_from(r: ConfigRow, list: Seq<DpegPolicy>) -> bool {
    if concerns(r) {
        match r.entries {
            Some(s) => accepted_all(r.tenant_id@, s@, list),
            None => list.len() == 0,
        }
    } else {
        list.len() == 0
    }
}

/// Whether `r` holds the policies of the first `n` rows, accepted one by one as in `lists`.
pub open spec fn policies_after(
    rows: Seq<ConfigRow>,
    lists: Seq<Seq<DpegPolicy>>,
    n: nat,
) -> Seq<DpegPolicy>
    decreases n,
{
    if n == 0 {
        Seq::<DpegPolicy>::empty()
    } else {
        installed_all(policies_after(rows, lists, (n - 1) as nat), lists[n - 1])
    }
}

/// The sources that the tenants of the first `n` rows bind.
pub open spec fn bindings_after(rows: Seq<ConfigRow>, n: nat) -> Seq<(Seq<char>, Seq<Seq<char>>)>
    decreases n,
{
    if n == 0 {
        Seq::<(Seq<char>, Seq<Seq<char>>)>::empty()
    } else {
        let before = bindings_after(rows, (n - 1) as nat);
        let r = rows[n - 1];
        match bindings_in(r.config@) {
            Some(s) => if concerns(r) {
                put(before, r.tenant_id@, bound_sources(s))
            } else {
                before
            },
            None => before,
        }
    }
}

// ---------------------------------------------------------------------------
// Context
// ---------------------------------------------------------------------------

/// How far the market of a policy is from its peg, if it is one of the tenant's that are
/// quoted in dollars and has quotes in the scope.
pub open spec fn candidate_divergence(
    p: DpegPolicy,
    cache: Markets,
    tenant: Seq<char>,
    replay: Seq<char>,
    now: Timestamp,
) -> Option<Double> {
    if p.tenant_id@ != tenant || !in_dollars(p.market_key@) {
        None
    } else {
        match market_quotes(
            cache,
            ScopeView { tenant_id: tenant, market_key: p.market_key@, replay_scope: replay },
        ) {
            Some(h) => market_divergence(p, quotes_at(h, now), now),
            None => None,
        }
    }
}

/// How many of the first `n` policies' markets deviate by their systemic floor or more.
pub open spec fn deviating(
    s: Seq<DpegPolicy>,
    cache: Markets,
    tenant: Seq<char>,
    replay: Seq<char>,
    now: Timestamp,
    n: nat,
) -> nat
    decreases n,
{
    if n == 0 {
        0
    } else {
        let p = s[n - 1];
        deviating(s, cache, tenant, replay, now, (n - 1) as nat) + match candidate_divergence(
            p,
            cache,
            tenant,
            replay,
            now,
        ) {
            Some(d) => if p.systemic_floor_pct.at_most(d) {
                1nat
            } else {
                0nat
            },
            None => 0nat,
        }
    }
}

/// The context of a market: systemic where contagion is looked for and at least two of the
/// tenant's markets deviate.
pub open spec fn context_of(
    d: DpegPattern,
    p: DpegPolicy,
    tenant: Seq<char>,
    replay: Seq<char>,
    now: Timestamp,
) -> ContextClassification {
    if p.toggles.contagion_detection && deviating(
        d.policies@,
        markets(d.quote_cache@),
        tenant,
        replay,
        now,
        d.policies@.len(),
    ) >= 2 {
        ContextClassification::Systemic
    } else {
        ContextClassification::Isolated
    }
}

proof fn lemma_deviating_grows(
    s: Seq<DpegPolicy>,
    cache: Markets,
    tenant: Seq<char>,
    replay: Seq<char>,
    now: Timestamp,
    n: nat,
    m: nat,
)
    requires
        n <= m,
    ensures
        deviating(s, cache, tenant, replay, now, n) <= deviating(
            s,
            cache,
            tenant,
            replay,
            now,
            m,
        ),
    decreases m,
{
    if n < m {
        lemma_deviating_grows(s, cache, tenant, replay, now, n, (m - 1) as nat);
    }
}

// ---------------------------------------------------------------------------
// Events
// ---------------------------------------------------------------------------

/// An event that is to be judged: its market. The key of the market's state is the market's
/// own, whatever run the event belongs to.
#[derive(Debug)]
pub struct Admission {
    pub scope: MarketScope,
}

/// Whether an event counts: its source is let in, it has a market and a price that makes
/// sense, and the market has a policy.
pub open spec fn admitted(d: DpegPattern, event: UnifiedEvent) -> bool {
    &&& let_in(d.source_bindings@, event.tenant_id@, event.source_id@)
    &&& event.market_key is Some
    &&& event.price matches Some(x) && x.positive()
    &&& policy_for(d.policies@, event.tenant_id@, event.market_key->0@) is Some
}

/// Whether `after` is the cache `before` once an event has come in: quotes of other runs of
/// its market are forgotten where it belongs to a run, and its quote is added.
pub open spec fn cache_after(
    before: Seq<CachedMarket>,
    after: Seq<CachedMarket>,
    scope: ScopeView,
    run: Option<Seq<char>>,
    q: QuoteInput,
) -> bool {
    let own = if run is Some {
        kept(before, run_flags(markets(before), scope))
    } else {
        before
    };
    markets(after) == markets_with(
        markets(own),
        scope,
        q,
        MAX_QUOTE_HISTORY_PER_SOURCE as nat,
    )
}

/// What an event that was judged leads to: a snapshot to keep, a state to keep, and a
/// detection to report, if there is one.
#[derive(Debug)]
pub struct Judgement {
    pub snapshot: Json,
    pub score: Double,
    pub severity: Option<String>,
    pub next_state: DpegAlertState,
    pub detection: Option<DetectionResult>,
    pub reason: Option<&'static str>,
}

pub struct JudgementView {
    pub snapshot: JsonView,
    pub score: Double,
    pub severity: Option<Seq<char>>,
    pub next_state: AlertView,
    pub detection: Option<DetectionView>,
    pub reason: Option<Seq<char>>,
}

impl View for Judgement {
    type V = JudgementView;

    open spec fn view(&self) -> JudgementView {
        JudgementView {
            snapshot: self.snapshot@,
            score: self.score,
            severity: text_option(self.severity),
            next_state: self.next_state@,
            detection: match self.detection {
                Some(d) => Some(d@),
                None => None,
            },
            reason: str_option(self.reason),
        }
    }
}

/// What an outcome leads to.
#[verifier::opaque]
pub open spec fn judged(
    p: DpegPolicy,
    event: UnifiedEvent,
    o: OutcomeView,
    st: AlertView,
    now: Timestamp,
    id: Seq<char>,
    nonce: Seq<char>,
) -> JudgementView {
    JudgementView {
        snapshot: snapshot_with_meta(event.payload@, event.timestamp, snapshot_json(p, o)),
        score: o.snapshot.divergence_pct,
        severity: match o.snapshot.severity {
            Some(s) => Some(severity_name(s)),
            None => None,
        },
        next_state: o.next_state,
        detection: match o.emitted_severity {
            Some(severity) => if o.should_emit_alert {
                Some(
                    detection_of(
                        event.payload@,
                        p,
                        o.snapshot,
                        severity,
                        o.transition,
                        now,
                        id,
                        nonce,
                    ),
                )
            } else {
                None
            },
            None => None,
        },
        reason: if simulated(event.payload@) {
            Some(reason(p, st, o, now, total_of(o.snapshot.confidence_breakdown)))
        } else {
            None
        },
    }
}

/// Whether `r` is what the judgement of an event may come to: nothing where its market has no
/// policy, a failure where its quotes have no median, and otherwise what the policy makes of
/// the quotes that held, in the context of the tenant's other markets.
pub open spec fn may_judge(
    d: DpegPattern,
    event: UnifiedEvent,
    scope: ScopeView,
    st: AlertView,
    r: Result<Option<Judgement>, EvaluationError>,
) -> bool {
    let now = event.timestamp;
    match policy_for(d.policies@, scope.tenant_id, scope.market_key) {
        Some(p) => match evaluation(
            p,
            held_quotes(markets(d.quote_cache@), scope, now),
            st,
            now,
            context_of(d, p, scope.tenant_id, scope.replay_scope, now),
        ) {
            Some(o) => exists|id: Seq<char>, nonce: Seq<char>|
                r matches Ok(j) && j is Some && is_id(id) && is_id(nonce)
                    && j->0@ == #[trigger] judged(p, event, o, st, now, id, nonce),
            None => r is Err,
        },
        None => r matches Ok(j) && j is None,
    }
}

fn conclude(
    event: &UnifiedEvent,
    policy: &DpegPolicy,
    outcome: EvaluationOutcome,
    current_state: &DpegAlertState,
    now: Timestamp,
) -> (j: Judgement)
    requires
        event.timestamp.calendar(),
    ensures
        exists|id: Seq<char>, nonce: Seq<char>|
            is_id(id) && is_id(nonce) && j@ == #[trigger] judged(
                *policy,
                *event,
                outcome@,
                current_state@,
                now,
                id,
                nonce,
            ),
{
    reveal(judged);
    let reason: Option<&'static str> = if simulation_metadata_from_event(event).is_simulated {
        let total: Double = match &outcome.snapshot.confidence_breakdown {
            Some(c) => c.total,
            None => Double { bits: 0 },
        };
        Some(dpeg_test_mode_reason(policy, current_state, &outcome, now, total))
    } else {
        None
    };
    let snapshot: Json = append_snapshot_meta(event, &snapshot_document(policy, &outcome));
    let severity: Option<String> = match outcome.snapshot.severity {
        Some(s) => Some(severity_text(s).to_owned()),
        None => None,
    };
    let ghost o = outcome@;
    let ghost mut id: Seq<char> = some_id();
    let ghost mut nonce: Seq<char> = some_id();
    let mut detection: Option<DetectionResult> = None;
    if outcome.should_emit_alert {
        match outcome.emitted_severity {
            Some(severity) => {
                let built: DetectionResult = build_detection(
                    event,
                    policy,
                    &outcome.snapshot,
                    severity,
                    outcome.transition,
                    now,
                );
                proof {
                    let (a, b) = choose|a: Seq<char>, b: Seq<char>|
                        is_id(a) && is_id(b) && built@ == #[trigger] detection_of(
                            event.payload@,
                            *policy,
                            o.snapshot,
                            severity,
                            o.transition,
                            now,
                            a,
                            b,
                        );
                    id = a;
                    nonce = b;
                }
                detection = Some(built);
            },
            None => {},
        }
    }
    let score: Double = outcome.snapshot.divergence_pct;
    let j = Judgement {
        snapshot,
        score,
        severity,
        next_state: outcome.next_state,
        detection,
        reason,
    };
    assert(j@ == judged(*policy, *event, outcome@, current_state@, now, id, nonce));
    j
}

impl DpegPattern {
    pub fn pattern_id(&self) -> (r: &'static str)
        ensures
            r@ == "dpeg"@,
    {
        "dpeg"
    }

    /// Puts a policy in the place of the one for the same market.
    pub fn install_policy(&mut self, policy: DpegPolicy)
        ensures
            final(self).policies@ == installed(old(self).policies@, policy),
            final(self).quote_cache == old(self).quote_cache,
            final(self).source_bindings == old(self).source_bindings,
    {
        install(&mut self.policies, policy);
    }

    /// The policy of a tenant's market.
    pub fn effective_policy(&self, tenant_id: &str, market_key: &str) -> (r: Option<&DpegPolicy>)
        ensures
            match r {
                Some(p) => policy_for(self.policies@, tenant_id@, market_key@) == Some(*p),
                None => policy_for(self.policies@, tenant_id@, market_key@) is None,
            },
    {
        let i: usize = find_policy(&self.policies, tenant_id, market_key);
        if i < self.policies.len() {
            Some(&self.policies[i])
        } else {
            None
        }
    }

    /// Takes over the configuration of the tenants: their policies and the sources that they
    /// bind are replaced.
    pub fn reload_config(&mut self, rows: Vec<ConfigRow>)
        ensures
            exists|lists: Seq<Seq<DpegPolicy>>|
                lists.len() == rows@.len() && (forall|i: int|
                    0 <= i < rows@.len() ==> accepted_from(rows@[i], #[trigger] lists[i]))
                    && final(self).policies@ == #[trigger] policies_after(
                    rows@,
                    lists,
                    rows@.len(),
                ),
            bindings_view(final(self).source_bindings@) == bindings_after(rows@, rows@.len()),
            final(self).quote_cache == old(self).quote_cache,
    {
        let ghost all = rows@;
        let mut policies: Vec<DpegPolicy> = Vec::new();
        let mut bindings: Vec<TenantBindings> = Vec::new();
        let mut rest: Vec<ConfigRow> = rows;
        let ghost mut done: int = 0;
        let ghost mut lists: Seq<Seq<DpegPolicy>> = Seq::empty();
        assert(bindings_view(bindings@) =~= Seq::<(Seq<char>, Seq<Seq<char>>)>::empty());
        assert(all.skip(0) =~= all);
        while rest.len() > 0
            invariant
                0 <= done <= all.len(),
                rest@ == all.skip(done),
                lists.len() == done,
                forall|k: int| 0 <= k < done ==> accepted_from(all[k], #[trigger] lists[k]),
                policies@ == policies_after(all, lists, done as nat),
                bindings_view(bindings@) == bindings_after(all, done as nat),
            decreases rest.len(),
        {
            let row: ConfigRow = rest.remove(0);
            let ghost the_row = row;
            proof {
                assert(all.skip(done)[0] == all[done]);
                assert(row == all[done]);
                assert(rest@ =~= all.skip(done + 1));
            }
            let ghost before = policies@;
            let ghost mut list: Seq<DpegPolicy> = Seq::empty();
            if same(row.pattern_id.as_str(), "dpeg") {
                match extract_bound_source_ids(&row.config) {
                    Some(sources) => {
                        bind_sources(&mut bindings, row.tenant_id.as_str(), sources);
                    },
                    None => {},
                }
                let ConfigRow { tenant_id, pattern_id: _, config: _, entries } = row;
                let accepted: Vec<DpegPolicy> = parse_policies(tenant_id.as_str(), entries);
                proof {
                    list = accepted@;
                }
                install_list(&mut policies, accepted);
            }
            proof {
                let grown = lists.push(list);
                assert(accepted_from(the_row, list));
                lemma_policies_after(all, lists, list, done as nat);
                assert forall|k: int| 0 <= k < done + 1 implies accepted_from(
                    all[k],
                    #[trigger] grown[k],
                ) by {
                    if k < done {
                        assert(lists[k] == grown[k]);
                    }
                }
                assert(grown[done] == list);
                if !concerns(the_row) {
                    assert(installed_all(before, list) == before);
                }
                lists = grown;
                done = done + 1;
            }
        }
        self.policies = policies;
        self.source_bindings = bindings;
        assert(done == all.len());
    }

    /// Takes an event in: where it counts, its quote is remembered and the market is named
    /// that is to be judged.
    pub fn take_in(&mut self, event: &UnifiedEvent) -> (r: Option<Admission>)
        ensures
            admitted(*old(self), *event) <==> r is Some,
            r is None ==> *final(self) == *old(self),
            r matches Some(a) ==> ({
                let run = simulation_run(event.payload@);
                let scope = scope_of(event.tenant_id@, event.market_key->0@, run);
                &&& a.scope@ == scope
                &&& exists|q: QuoteInput|
                    {
                        &&& q.source_id@ == event.source_id@
                        &&& q.source_kind@ == source_kind_of(source_type_name(event.source_type))
                        &&& q.price == event.price->0
                        &&& q.observed_at == event.timestamp
                        &&& #[trigger] cache_after(
                            old(self).quote_cache@,
                            final(self).quote_cache@,
                            scope,
                            run,
                            q,
                        )
                    }
                &&& final(self).policies == old(self).policies
                &&& final(self).source_bindings == old(self).source_bindings
            }),
    {
        if !source_is_let_in(
            &self.source_bindings,
            event.tenant_id.as_str(),
            event.source_id.as_str(),
        ) {
            return None;
        }
        let market: &String = match &event.market_key {
            Some(market) => market,
            None => {
                return None;
            },
        };
        let price: Double = match event.price {
            Some(price) => price,
            None => {
                return None;
            },
        };
        if !price.is_positive() {
            return None;
        }
        if self.effective_policy(event.tenant_id.as_str(), market.as_str()).is_none() {
            return None;
        }
        let simulation: SimulationMetadata = simulation_metadata_from_event(event);
        let replay_scope: String = match &simulation.run_id {
            Some(id) => id.clone(),
            None => "__live__".to_owned(),
        };
        let scope = MarketScope {
            tenant_id: event.tenant_id.clone(),
            market_key: market.clone(),
            replay_scope,
        };
        let mut cache: Vec<CachedMarket> = Vec::new();
        std::mem::swap(&mut cache, &mut self.quote_cache);
        if simulation.run_id.is_some() {
            cache = forget_other_runs(cache, &scope);
        }
        let quote = QuoteInput {
            source_id: event.source_id.clone(),
            source_kind: infer_source_kind(source_type_text(event.source_type)),
            price,
            observed_at: event.timestamp,
        };
        let ghost q = quote;
        let grown: Vec<CachedMarket> = remember_in_market(
            cache,
            &scope,
            quote,
            MAX_QUOTE_HISTORY_PER_SOURCE,
        );
        self.quote_cache = grown;
        assert(scope@ == scope_of(
            event.tenant_id@,
            event.market_key->0@,
            simulation_run(event.payload@),
        ));
        assert(cache_after(
            old(self).quote_cache@,
            self.quote_cache@,
            scope@,
            simulation_run(event.payload@),
            q,
        ));
        Some(Admission { scope })
    }

    /// The context of a market: whether it deviates alone or with others.
    pub fn classify_context(
        &self,
        policy: &DpegPolicy,
        tenant_id: &str,
        replay_scope: &str,
        now: Timestamp,
    ) -> (r: ContextClassification)
        ensures
            r == context_of(*self, *policy, tenant_id@, replay_scope@, now),
    {
        if !policy.toggles.contagion_detection {
            return ContextClassification::Isolated;
        }
        let ghost cache = markets(self.quote_cache@);
        let mut count: usize = 0;
        let mut i: usize = 0;
        while i < self.policies.len()
            invariant
                i <= self.policies.len(),
                count < 2,
                policy.toggles.contagion_detection,
                cache == markets(self.quote_cache@),
                count == deviating(
                    self.policies@,
                    cache,
                    tenant_id@,
                    replay_scope@,
                    now,
                    i as nat,
                ),
            decreases self.policies.len() - i,
        {
            let candidate: &DpegPolicy = &self.policies[i];
            let mut found: Option<Double> = None;
            if same(candidate.tenant_id.as_str(), tenant_id) && ends_with(
                uppercase(candidate.market_key.as_str()).as_str(),
                "/USD",
            ) {
                let scope = MarketScope {
                    tenant_id: tenant_id.to_owned(),
                    market_key: candidate.market_key.clone(),
                    replay_scope: replay_scope.to_owned(),
                };
                let k: usize = find_market(&self.quote_cache, &scope);
                if k < self.quote_cache.len() {
                    let quotes: Vec<QuoteInput> = latest_quotes_for_time(
                        &self.quote_cache[k].quotes,
                        now,
                    );
                    found = market_divergence_pct(candidate, quotes.as_slice(), now);
                }
            }
            assert(found == candidate_divergence(
                *candidate,
                cache,
                tenant_id@,
                replay_scope@,
                now,
            ));
            match found {
                Some(d) => {
                    if candidate.systemic_floor_pct.le(d) {
                        count = count + 1;
                    }
                },
                None => {},
            }
            i = i + 1;
            if count >= 2 {
                proof {
                    lemma_deviating_grows(
                        self.policies@,
                        cache,
                        tenant_id@,
                        replay_scope@,
                        now,
                        i as nat,
                        self.policies@.len(),
                    );
                }
                return ContextClassification::Systemic;
            }
        }
        ContextClassification::Isolated
    }

    /// Judges an event that was taken in, with the state of its market.
    pub fn judge(
        &self,
        event: &UnifiedEvent,
        admission: &Admission,
        current_state: &DpegAlertState,
    ) -> (r: Result<Option<Judgement>, EvaluationError>)
        requires
            event.timestamp.calendar(),
            current_state.countable(),
        ensures
            may_judge(*self, *event, admission.scope@, current_state@, r),
    {
        let scope: &MarketScope = &admission.scope;
        let now: Timestamp = event.timestamp;
        let policy: &DpegPolicy = match self.effective_policy(
            scope.tenant_id.as_str(),
            scope.market_key.as_str(),
        ) {
            Some(policy) => policy,
            None => {
                return Ok(None);
            },
        };
        let k: usize = find_market(&self.quote_cache, scope);
        let quotes: Vec<QuoteInput> = if k < self.quote_cache.len() {
            latest_quotes_for_time(&self.quote_cache[k].quotes, now)
        } else {
            Vec::new()
        };
        assert(quotes@ == held_quotes(markets(self.quote_cache@), scope@, now));
        let classification: ContextClassification = self.classify_context(
            policy,
            scope.tenant_id.as_str(),
            scope.replay_scope.as_str(),
            now,
        );
        match evaluate_policy(policy, quotes.as_slice(), current_state, now, classification) {
            Ok(outcome) => Ok(Some(conclude(event, policy, outcome, current_state, now))),
            Err(e) => Err(e),
        }
    }
}

fn install_list(v: &mut Vec<DpegPolicy>, list: Vec<DpegPolicy>)
    ensures
        final(v)@ == installed_all(old(v)@, list@),
{
    let ghost start = v@;
    let ghost all = list@;
    let mut rest: Vec<DpegPolicy> = list;
    let ghost mut done: int = 0;
    assert(all.take(0) =~= Seq::<DpegPolicy>::empty());
    assert(all.skip(0) =~= all);
    while rest.len() > 0
        invariant
            0 <= done <= all.len(),
            rest@ == all.skip(done),
            v@ == installed_all(start, all.take(done)),
        decreases rest.len(),
    {
        let p: DpegPolicy = rest.remove(0);
        proof {
            assert(all.skip(done)[0] == all[done]);
            assert(rest@ =~= all.skip(done + 1));
            assert(all.take(done + 1).drop_last() =~= all.take(done));
        }
        install(v, p);
        proof {
            done = done + 1;
        }
    }
    assert(all.take(done) =~= all);
}

proof fn lemma_policies_after(
    rows: Seq<ConfigRow>,
    lists: Seq<Seq<DpegPolicy>>,
    list: Seq<DpegPolicy>,
    n: nat,
)
    requires
        n <= lists.len(),
    ensures
        policies_after(rows, lists.push(list), n) == policies_after(rows, lists, n),
    decreases n,
{
    if n > 0 {
        lemma_policies_after(rows, lists, list, (n - 1) as nat);
    }
}

// ---------------------------------------------------------------------------
// Laws
// ---------------------------------------------------------------------------

/// The policy of a tenant's market belongs to that tenant and that market.
pub proof fn law_policies_are_scoped(s: Seq<DpegPolicy>, tenant: Seq<char>, market: Seq<char>)
    ensures
        policy_for(s, tenant, market) matches Some(p) ==> p.tenant_id@ == tenant && p.market_key@
            == market,
        0 <= policy_place(s, tenant, market) <= s.len(),
    decreases s.len(),
{
    if s.len() > 0 && !is_for(s[0], tenant, market) {
        law_policies_are_scoped(s.skip(1), tenant, market);
    }
}

/// An installed policy is the one of its market, and the other markets keep theirs.
pub proof fn law_installed_policy_is_found(
    s: Seq<DpegPolicy>,
    p: DpegPolicy,
    tenant: Seq<char>,
    market: Seq<char>,
)
    ensures
        policy_for(installed(s, p), tenant, market) == (if is_for(p, tenant, market) {
            Some(p)
        } else {
            policy_for(s, tenant, market)
        }),
    decreases s.len(),
{
    let i = policy_place(s, p.tenant_id@, p.market_key@);
    law_policies_are_scoped(s, p.tenant_id@, p.market_key@);
    let r = installed(s, p);
    if s.len() == 0 {
        assert(r.skip(1) =~= Seq::<DpegPolicy>::empty());
        assert(policy_place(r.skip(1), tenant, market) == 0);
    } else if is_for(s[0], p.tenant_id@, p.market_key@) {
        assert(r.skip(1) =~= s.skip(1));
        law_policies_are_scoped(s.skip(1), tenant, market);
    } else {
        law_installed_policy_is_found(s.skip(1), p, tenant, market);
        assert(r.skip(1) =~= installed(s.skip(1), p));
        law_policies_are_scoped(s.skip(1), tenant, market);
        law_policies_are_scoped(r.skip(1), tenant, market);
    }
}

/// The kind of a source follows from its type, whatever the case of that.
pub proof fn law_source_kinds_follow_from_types(t: Seq<char>)
    ensures
        lowered(t) == "cexwebsocket"@ ==> source_kind_of(t) == "cex"@,
        lowered(t) == "dexapi"@ ==> source_kind_of(t) == "dex"@,
        lowered(t) == "oracleapi"@ ==> source_kind_of(t) == "oracle"@,
        lowered(t) != "cexwebsocket"@ && lowered(t) != "dexapi"@ && lowered(t) != "oracleapi"@
            ==> source_kind_of(t) == "unknown"@,
{
    reveal_strlit("cexwebsocket");
    reveal_strlit("dexapi");
    reveal_strlit("oracleapi");
    assert("cexwebsocket"@[0] == 'c' && "dexapi"@[0] == 'd' && "oracleapi"@[0] == 'o');
}

/// One more policy means one more market that deviates exactly where it is one of the tenant's,
/// is quoted in dollars and is off by its systemic floor or more.
pub proof fn law_deviating_markets_are_counted(
    s: Seq<DpegPolicy>,
    p: DpegPolicy,
    cache: Markets,
    tenant: Seq<char>,
    replay: Seq<char>,
    now: Timestamp,
)
    ensures
        ({
            let scope = ScopeView {
                tenant_id: tenant,
                market_key: p.market_key@,
                replay_scope: replay,
            };
            let quoted = market_quotes(cache, scope);
            let d = market_divergence(p, quotes_at(quoted->0, now), now);
            let before = deviating(s, cache, tenant, replay, now, s.len());
            deviating(s.push(p), cache, tenant, replay, now, s.len() + 1) == if p.tenant_id@
                == tenant && in_dollars(p.market_key@) && quoted is Some && d is Some
                && p.systemic_floor_pct.at_most(d->0) {
                before + 1
            } else {
                before
            }
        }),
{
    lemma_deviating_before(s, p, cache, tenant, replay, now, s.len());
    assert(s.push(p)[s.len() as int] == p);
}

proof fn lemma_deviating_before(
    s: Seq<DpegPolicy>,
    p: DpegPolicy,
    cache: Markets,
    tenant: Seq<char>,
    replay: Seq<char>,
    now: Timestamp,
    n: nat,
)
    requires
        n <= s.len(),
    ensures
        deviating(s.push(p), cache, tenant, replay, now, n) == deviating(
            s,
            cache,
            tenant,
            replay,
            now,
            n,
        ),
    decreases n,
{
    if n > 0 {
        lemma_deviating_before(s, p, cache, tenant, replay, now, (n - 1) as nat);
        assert(s.push(p)[n - 1] == s[n - 1]);
    }
}

/// The context of a market is systemic exactly where contagion is looked for and at least two
/// markets of the tenant deviate; otherwise it is isolated.
pub proof fn law_two_deviating_markets_are_systemic(
    d: DpegPattern,
    p: DpegPolicy,
    tenant: Seq<char>,
    replay: Seq<char>,
    now: Timestamp,
)
    ensures
        context_of(d, p, tenant, replay, now) == ContextClassification::Systemic
            <==> p.toggles.contagion_detection && deviating(
            d.policies@,
            markets(d.quote_cache@),
            tenant,
            replay,
            now,
            d.policies@.len(),
        ) >= 2,
        context_of(d, p, tenant, replay, now) == ContextClassification::Systemic || context_of(
            d,
            p,
            tenant,
            replay,
            now,
        ) == ContextClassification::Isolated,
{
}

/// An event is taken in exactly where its source is let in, it has a market with a policy of
/// its tenant, and a price above zero.
pub proof fn law_events_are_taken_in_with_market_and_price(
    d: DpegPattern,
    event: UnifiedEvent,
    market: String,
    price: Double,
)
    requires
        event.market_key == Some(market),
        event.price == Some(price),
        price.finite(),
    ensures
        admitted(d, event) <==> {
            &&& let_in(d.source_bindings@, event.tenant_id@, event.source_id@)
            &&& price.value() > 0
            &&& policy_for(d.policies@, event.tenant_id@, market@) is Some
        },
        event.market_key is None ==> !admitted(d, event),
        event.price is None ==> !admitted(d, event),
{
    crate::aggregation::lemma_zero_value();
    crate::double::law_order_is_by_value(crate::aggregation::double(0), price);
}

/// The quote of an event goes to its own market. Where the event belongs to a run, what the
/// market had in other runs is forgotten; what it has live, and every other market, stays.
pub proof fn law_quotes_are_remembered_in_their_market(
    before: Seq<CachedMarket>,
    after: Seq<CachedMarket>,
    scope: ScopeView,
    run: Option<Seq<char>>,
    q: QuoteInput,
    other: ScopeView,
)
    requires
        cache_after(before, after, scope, run, q),
    ensures
        market_quotes(markets(after), scope) == Some(
            remembered(
                match market_quotes(markets(before), scope) {
                    Some(h) => h,
                    None => Seq::<(Seq<char>, Seq<QuoteInput>)>::empty(),
                },
                q,
                MAX_QUOTE_HISTORY_PER_SOURCE as nat,
            ),
        ),
        other != scope && (run is None || stays_for_run(other, scope)) ==> market_quotes(
            markets(after),
            other,
        ) == market_quotes(markets(before), other),
        other != scope && run is Some && !stays_for_run(other, scope) ==> market_quotes(
            markets(after),
            other,
        ) is None,
{
    let own = if run is Some {
        kept(before, run_flags(markets(before), scope))
    } else {
        before
    };
    let limit = MAX_QUOTE_HISTORY_PER_SOURCE as nat;
    law_quotes_go_to_their_market(markets(own), scope, q, limit, scope);
    law_quotes_go_to_their_market(markets(own), scope, q, limit, other);
    law_a_run_forgets_the_others(before, scope, scope);
    law_a_run_forgets_the_others(before, scope, other);
}

/// Of the policies of a list the last one for a market is that of the market; a market that the
/// list has none for keeps its own.
pub proof fn law_the_last_policy_of_a_market_counts(
    s: Seq<DpegPolicy>,
    list: Seq<DpegPolicy>,
    tenant: Seq<char>,
    market: Seq<char>,
    i: int,
)
    requires
        -1 <= i < list.len(),
        i >= 0 ==> is_for(list[i], tenant, market),
        forall|k: int| i < k < list.len() ==> !is_for(#[trigger] list[k], tenant, market),
    ensures
        i >= 0 ==> policy_for(installed_all(s, list), tenant, market) == Some(list[i]),
        i == -1 ==> policy_for(installed_all(s, list), tenant, market) == policy_for(
            s,
            tenant,
            market,
        ),
    decreases list.len(),
{
    if list.len() > 0 {
        let front = list.drop_last();
        law_installed_policy_is_found(installed_all(s, front), list.last(), tenant, market);
        if i < list.len() - 1 {
            assert(!is_for(list[list.len() - 1], tenant, market));
            assert forall|k: int| i < k < front.len() implies !is_for(
                #[trigger] front[k],
                tenant,
                market,
            ) by {
                assert(!is_for(list[k], tenant, market));
            }
            law_the_last_policy_of_a_market_counts(s, front, tenant, market, i);
        }
    }
}

/// Of the rows of a configuration the last one with a policy for a market gives the market its
/// policy; a market that no row has a policy for has none.
pub proof fn law_the_last_row_of_a_market_counts(
    rows: Seq<ConfigRow>,
    lists: Seq<Seq<DpegPolicy>>,
    n: nat,
    tenant: Seq<char>,
    market: Seq<char>,
    j: int,
    i: int,
)
    requires
        n <= lists.len(),
        -1 <= j < n,
        j >= 0 ==> 0 <= i < lists[j].len() && is_for(lists[j][i], tenant, market) && forall|k: int|
            i < k < lists[j].len() ==> !is_for(#[trigger] lists[j][k], tenant, market),
        forall|m: int, k: int|
            j < m < n && 0 <= k < lists[m].len() ==> !is_for(
                #[trigger] lists[m][k],
                tenant,
                market,
            ),
    ensures
        j >= 0 ==> policy_for(policies_after(rows, lists, n), tenant, market) == Some(lists[j][i]),
        j == -1 ==> policy_for(policies_after(rows, lists, n), tenant, market) is None,
    decreases n,
{
    if n > 0 {
        let before = policies_after(rows, lists, (n - 1) as nat);
        let list = lists[n - 1];
        if j == n - 1 {
            law_the_last_policy_of_a_market_counts(before, list, tenant, market, i);
        } else {
            assert forall|k: int| -1 < k < list.len() implies !is_for(
                #[trigger] list[k],
                tenant,
                market,
            ) by {
                assert(!is_for(lists[n - 1][k], tenant, market));
            }
            law_the_last_policy_of_a_market_counts(before, list, tenant, market, -1);
            law_the_last_row_of_a_market_counts(rows, lists, (n - 1) as nat, tenant, market, j, i);
        }
    }
}

/// A tenant binds the sources of the last of its rows that has bindings.
pub proof fn law_the_last_bindings_of_a_tenant_count(
    rows: Seq<ConfigRow>,
    n: nat,
    tenant: Seq<char>,
    j: int,
)
    requires
        n <= rows.len(),
        -1 <= j < n,
        j >= 0 ==> concerns(rows[j]) && rows[j].tenant_id@ == tenant && bindings_in(
            rows[j].config@,
        ) is Some,
        forall|k: int|
            j < k < n ==> !(concerns(#[trigger] rows[k]) && rows[k].tenant_id@ == tenant
                && bindings_in(rows[k].config@) is Some),
    ensures
        j >= 0 ==> lookup(bindings_after(rows, n), tenant) == Some(
            bound_sources(bindings_in(rows[j].config@)->0),
        ),
        j == -1 ==> lookup(bindings_after(rows, n), tenant) is None,
    decreases n,
{
    if n > 0 {
        let before = bindings_after(rows, (n - 1) as nat);
        let r = rows[n - 1];
        if bindings_in(r.config@) is Some {
            law_lookup_after_put(
                before,
                r.tenant_id@,
                bound_sources(bindings_in(r.config@)->0),
                tenant,
            );
        }
        if j < n - 1 {
            law_the_last_bindings_of_a_tenant_count(rows, (n - 1) as nat, tenant, j);
        }
    }
}

/// What is judged is kept and scored as it was seen; a detection comes of it exactly where the
/// outcome is to be reported, and a reason is given for simulated events alone.
pub proof fn law_judgements_follow_the_outcome(
    p: DpegPolicy,
    event: UnifiedEvent,
    o: OutcomeView,
    st: AlertView,
    now: Timestamp,
    id: Seq<char>,
    nonce: Seq<char>,
)
    ensures
        ({
            let j = judged(p, event, o, st, now, id, nonce);
            &&& j.score == o.snapshot.divergence_pct
            &&& j.next_state == o.next_state
            &&& o.snapshot.severity is None ==> j.severity is None
            &&& o.snapshot.severity is Some ==> j.severity == Some(
                severity_name(o.snapshot.severity->0),
            )
            &&& j.detection is Some <==> o.should_emit_alert && o.emitted_severity is Some
            &&& j.detection is Some ==> j.detection->0.severity == o.emitted_severity->0
                && j.detection->0.incident_transition == o.transition
                && j.detection->0.tenant_id == Some(p.tenant_id@) && j.detection->0.created_at
                == now
            &&& j.reason is Some <==> simulated(event.payload@)
            &&& j.snapshot == snapshot_with_meta(
                event.payload@,
                event.timestamp,
                snapshot_json(p, o),
            )
        }),
{
    reveal(judged);
}

/// An event is judged by the policy of its market, on the quotes that held at its time, with the
/// state as it was and in the context of the tenant's other markets.
pub proof fn law_events_are_judged_on_the_quotes_that_held(
    d: DpegPattern,
    event: UnifiedEvent,
    scope: ScopeView,
    st: AlertView,
    r: Result<Option<Judgement>, EvaluationError>,
    p: DpegPolicy,
)
    requires
        may_judge(d, event, scope, st, r),
    ensures
        policy_for(d.policies@, scope.tenant_id, scope.market_key) is None ==> r is Ok && r->Ok_0
            is None,
        policy_for(d.policies@, scope.tenant_id, scope.market_key) == Some(p) ==> ({
            let now = event.timestamp;
            let held = match market_quotes(markets(d.quote_cache@), scope) {
                Some(h) => quotes_at(h, now),
                None => Seq::<QuoteInput>::empty(),
            };
            let o = evaluation(
                p,
                held,
                st,
                now,
                context_of(d, p, scope.tenant_id, scope.replay_scope, now),
            );
            &&& r is Err <==> o is None
            &&& r is Ok ==> r->Ok_0 is Some && r->Ok_0->0@.next_state == o->0.next_state
                && r->Ok_0->0@.score == o->0.snapshot.divergence_pct && (r->Ok_0->0@.detection
                is Some <==> o->0.should_emit_alert && o->0.emitted_severity is Some)
        }),
{
    reveal(judged);
}

} // verus!
