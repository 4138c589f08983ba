//! The depeg pattern: what it remembers, how it takes events in, and how it judges them.

use vstd::prelude::*;

use crate::aggregation::double;
use crate::assoc::law_lookup_after_put;
use crate::assoc::lookup;
use crate::assoc::put;
use crate::cache::kept;
use crate::cache::prune;
use crate::cache::pruned;
use crate::depeg_v2::detection::build_detection;
use crate::depeg_v2::detection::depeg_test_mode_reason;
use crate::depeg_v2::detection::detection_of;
use crate::depeg_v2::detection::reason;
use crate::depeg_v2::detection::snapshot_document;
use crate::depeg_v2::detection::snapshot_json;
use crate::depeg_v2::detection::total_of;
use crate::depeg_v2::evaluation::consult;
use crate::depeg_v2::evaluation::evaluate_policy;
use crate::depeg_v2::evaluation::evaluation;
use crate::depeg_v2::evaluation::heard;
use crate::depeg_v2::evaluation::market_divergence;
use crate::depeg_v2::evaluation::market_divergence_pct;
use crate::depeg_v2::evaluation::replies_fit;
use crate::depeg_v2::evaluation::reply_option;
use crate::depeg_v2::evaluation::AlertView;
use crate::depeg_v2::evaluation::DepegAlertState;
use crate::depeg_v2::evaluation::EvaluationError;
use crate::depeg_v2::evaluation::EvaluationOutcome;
use crate::depeg_v2::evaluation::OutcomeView;
use crate::depeg_v2::evaluation::RepliesView;
use crate::depeg_v2::evaluation::SnapshotView;
use crate::depeg_v2::evaluation::SystemicMarketContext;
use crate::depeg_v2::mapping::note_overrides;
use crate::depeg_v2::mapping::overrides_in;
use crate::depeg_v2::mapping::parse_source_mapping_overrides;
use crate::depeg_v2::mapping::tenants_view;
use crate::depeg_v2::mapping::EffectiveFields;
use crate::depeg_v2::mapping::FieldsView;
use crate::depeg_v2::mapping::OverrideView;
use crate::depeg_v2::mapping::SourceBindingRuntimeOverride;
use crate::depeg_v2::mapping::SourceOverrides;
use crate::depeg_v2::mapping::TenantOverrides;
use crate::depeg_v2::policy::accepted_all;
use crate::depeg_v2::policy::parse_policies;
use crate::depeg_v2::policy::DepegPolicy;
use crate::double::Double;
use crate::event::append_snapshot_meta;
use crate::event::filled;
use crate::event::filled_text;
use crate::event::severity_name;
use crate::event::severity_text;
use crate::event::simulated;
use crate::event::simulation_metadata_from_event;
use crate::event::simulation_run;
use crate::event::snapshot_with_meta;
use crate::event::source_type_name;
use crate::event::source_type_text;
use crate::event::str_option;
use crate::event::ContextClassification;
use crate::event::DetectionResult;
use crate::event::DetectionView;
use crate::event::SimulationMetadata;
use crate::event::UnifiedEvent;
use crate::expression::input;
use crate::expression::inputs_view;
use crate::expression::Answer;
use crate::expression::Datum;
use crate::expression::Input;
use crate::expression::Reply;
use crate::expression::ReplyView;
use crate::json::either;
use crate::json::either_of;
use crate::json::integer_in;
use crate::json::member_i64;
use crate::json::Json;
use crate::json::JsonView;
use crate::order::arrange;
use crate::order::arranged;
use crate::outside::is_id;
use crate::outside::some_id;
use crate::quotes::find_market;
use crate::quotes::forget_other_runs;
use crate::quotes::latest_quotes_for_time;
use crate::quotes::lemma_market_stands;
use crate::quotes::live_scope;
use crate::quotes::market_place;
use crate::quotes::market_quotes;
use crate::quotes::markets;
use crate::quotes::markets_with;
use crate::quotes::place_in;
use crate::quotes::quotes_at;
use crate::quotes::remember_in_market;
use crate::quotes::remembered;
use crate::quotes::run_flags;
use crate::quotes::CachedMarket;
use crate::quotes::MarketScope;
use crate::quotes::Markets;
use crate::quotes::QuoteInput;
use crate::quotes::ScopeView;
use crate::settings::bind_sources;
use crate::settings::bindings_in;
use crate::settings::bindings_view;
use crate::settings::bound_sources;
use crate::settings::extract_bound_source_ids;
use crate::settings::let_in;
use crate::settings::source_is_let_in;
use crate::settings::TenantBindings;
use crate::text::ends_with;
use crate::text::join3;
use crate::text::lowercase;
use crate::text::lowered;
use crate::text::same;
use crate::text::stands_at;
use crate::text::text_option;
use crate::text::uppercase;
use crate::text::uppered;
use crate::time::Timestamp;

verus! {

/// The minutes after which a market's quotes are forgotten, the number of markets kept, and
/// the number of quotes kept for a source, where a tenant does not say.
pub const DEPEG_QUOTE_CACHE_TTL_MINUTES: i64 = 120;

pub const DEPEG_QUOTE_CACHE_MAX_KEYS: usize = 2048;

pub const DEPEG_QUOTE_HISTORY: usize = 16;

/// The depeg pattern.
#[derive(Debug)]
pub struct DepegPatternV2 {
    /// Policies, at most one for a tenant's market.
    pub policies: Vec<DepegPolicy>,
    /// Recent quotes, by tenant, market and replay.
    pub quote_cache: Vec<CachedMarket>,
    /// The sources that tenants bind.
    pub source_bindings: Vec<TenantBindings>,
    /// What tenants say of the fields of their sources.
    pub source_mapping_overrides: Vec<TenantOverrides>,
    pub quote_cache_ttl_minutes: i64,
    pub quote_cache_max_keys: usize,
    pub max_quote_history_per_source: usize,
}

impl Default for DepegPatternV2 {
    fn default() -> (r: Self)
        ensures
            r.policies@.len() == 0,
            r.quote_cache@.len() == 0,
            r.source_bindings@.len() == 0,
            r.source_mapping_overrides@.len() == 0,
            r.quote_cache_ttl_minutes == DEPEG_QUOTE_CACHE_TTL_MINUTES,
            r.quote_cache_max_keys == DEPEG_QUOTE_CACHE_MAX_KEYS,
            r.max_quote_history_per_source == DEPEG_QUOTE_HISTORY,
    {
        DepegPatternV2 {
            policies: Vec::new(),
            quote_cache: Vec::new(),
            source_bindings: Vec::new(),
            source_mapping_overrides: Vec::new(),
            quote_cache_ttl_minutes: DEPEG_QUOTE_CACHE_TTL_MINUTES,
            quote_cache_max_keys: DEPEG_QUOTE_CACHE_MAX_KEYS,
            max_quote_history_per_source: DEPEG_QUOTE_HISTORY,
        }
    }
}

/// The kind of the sources of a type.
pub open spec fn source_kind_of(source_type: Seq<char>) -> Seq<char> {
    let t = lowered(source_type);
    if t == "cexwebsocket"@ || t == "cexapi"@ {
        "cex"@
    } else if t == "dexapi"@ {
        "dex"@
    } else if t == "oracleapi"@ {
        "oracle"@
    } else if t == "customapi"@ {
        "custom"@
    } else if t == "evmchain"@ {
        "chain"@
    } else {
        "unknown"@
    }
}

pub fn infer_source_kind(source_type: &str) -> (r: String)
    ensures
        r@ == source_kind_of(source_type@),
{
    let t: String = lowercase(source_type);
    let t: &str = t.as_str();
    let kind: &str = if same(t, "cexwebsocket") || same(t, "cexapi") {
        "cex"
    } else if same(t, "dexapi") {
        "dex"
    } else if same(t, "oracleapi") {
        "oracle"
    } else if same(t, "customapi") {
        "custom"
    } else if same(t, "evmchain") {
        "chain"
    } else {
        "unknown"
    };
    kind.to_owned()
}

// ---------------------------------------------------------------------------
// Policies
// ---------------------------------------------------------------------------

/// Whether a policy is that of a tenant's market.
pub open spec fn is_for(p: DepegPolicy, tenant: Seq<char>, market: Seq<char>) -> bool {
    p.tenant_id@ == tenant && p.market_key@ == market
}

/// The place of the policy of a tenant's market, the number of policies where it has none.
pub open spec fn policy_place(s: Seq<DepegPolicy>, tenant: Seq<char>, market: Seq<char>) -> int
    decreases s.len(),
{
    if s.len() == 0 || is_for(s[0], tenant, market) {
        0
    } else {
        1 + policy_place(s.skip(1), tenant, market)
    }
}

/// The policy of a tenant's market.
pub open spec fn policy_for(s: Seq<DepegPolicy>, tenant: Seq<char>, market: Seq<char>) -> Option<
    DepegPolicy,
> {
    let i = policy_place(s, tenant, market);
    if i < s.len() {
        Some(s[i])
    } else {
        None
    }
}

/// Policies with one more, in the place of the one for the same market.
pub open spec fn installed(s: Seq<DepegPolicy>, p: DepegPolicy) -> Seq<DepegPolicy> {
    let i = policy_place(s, p.tenant_id@, p.market_key@);
    if i < s.len() {
        s.update(i, p)
    } else {
        s.push(p)
    }
}

/// Policies with those of a list, one after the other.
pub open spec fn installed_all(s: Seq<DepegPolicy>, list: Seq<DepegPolicy>) -> Seq<DepegPolicy>
    decreases list.len(),
{
    if list.len() == 0 {
        s
    } else {
        installed(installed_all(s, list.drop_last()), list.last())
    }
}

fn find_policy(v: &Vec<DepegPolicy>, tenant: &str, market: &str) -> (i: usize)
    ensures
        i <= v.len(),
        i == policy_place(v@, tenant@, market@),
{
    let mut i: usize = 0;
    assert(v@.skip(0) =~= v@);
    while i < v.len()
        invariant
            i <= v.len(),
            policy_place(v@, tenant@, market@) == i + policy_place(
                v@.skip(i as int),
                tenant@,
                market@,
            ),
        decreases v.len() - i,
    {
        if same(v[i].tenant_id.as_str(), tenant) && same(v[i].market_key.as_str(), market) {
            return i;
        }
        assert(v@.skip(i as int).skip(1) =~= v@.skip(i + 1));
        i = i + 1;
    }
    i
}

fn install(v: &mut Vec<DepegPolicy>, p: DepegPolicy)
    ensures
        final(v)@ == installed(old(v)@, p),
{
    let i: usize = find_policy(v, p.tenant_id.as_str(), p.market_key.as_str());
    if i < v.len() {
        v.set(i, p);
    } else {
        v.push(p);
    }
}

// ---------------------------------------------------------------------------
// Configuration
// ---------------------------------------------------------------------------

/// The configuration of a tenant for a pattern, with the policies that were read from it
/// and the field mappings in it that were not understood.
#[derive(Debug)]
pub struct ConfigRow {
    pub tenant_id: String,
    pub pattern_id: String,
    pub config: Json,
    pub entries: Option<Vec<DepegPolicy>>,
    pub rejected: Vec<(usize, usize)>,
}

/// Whether a row is for this pattern: under its own name, or under that of the first
/// generation, whose configuration it shares.
pub open spec fn concerns(r: ConfigRow) -> bool {
    r.pattern_id@ == "depeg"@ || r.pattern_id@ == "depeg_v2"@
}

fn row_concerns(r: &ConfigRow) -> (b: bool)
    ensures
        b == concerns(*r),
{
    same(r.pattern_id.as_str(), "depeg") || same(r.pattern_id.as_str(), "depeg_v2")
}

/// The policies accepted from a row.
pub open spec fn accepted_from(r: ConfigRow, list: Seq<DepegPolicy>) -> bool {
    if concerns(r) {
        match r.entries {
            Some(s) => accepted_all(r.tenant_id@, s@, list),
            None => list.len() == 0,
        }
    } else {
        list.len() == 0
    }
}

/// Whether `r` holds the policies of the first `n` rows, accepted one by one as in `lists`.
pub open spec fn policies_after(
    rows: Seq<ConfigRow>,
    lists: Seq<Seq<DepegPolicy>>,
    n: nat,
) -> Seq<DepegPolicy>
    decreases n,
{
    if n == 0 {
        Seq::<DepegPolicy>::empty()
    } else {
        installed_all(policies_after(rows, lists, (n - 1) as nat), lists[n - 1])
    }
}

/// The sources that the tenants of the first `n` rows bind.
pub open spec fn bindings_after(rows: Seq<ConfigRow>, n: nat) -> Seq<(Seq<char>, Seq<Seq<char>>)>
    decreases n,
{
    if n == 0 {
        Seq::<(Seq<char>, Seq<Seq<char>>)>::empty()
    } else {
        let before = bindings_after(rows, (n - 1) as nat);
        let r = rows[n - 1];
        match bindings_in(r.config@) {
            Some(s) => if concerns(r) {
                put(before, r.tenant_id@, bound_sources(s))
            } else {
                before
            },
            None => before,
        }
    }
}

/// What the tenants of the first `n` rows say of their sources.
pub open spec fn overrides_after(rows: Seq<ConfigRow>, n: nat) -> Seq<(Seq<char>, SourceOverrides)>
    decreases n,
{
    if n == 0 {
        Seq::<(Seq<char>, SourceOverrides)>::empty()
    } else {
        let before = overrides_after(rows, (n - 1) as nat);
        let r = rows[n - 1];
        let found = match bindings_in(r.config@) {
            Some(s) => overrides_in(s, r.rejected@, s.len()),
            None => Seq::<(Seq<char>, OverrideView)>::empty(),
        };
        if concerns(r) && found.len() > 0 {
            put(before, r.tenant_id@, found)
        } else {
            before
        }
    }
}

/// The settings of the pattern in a configuration.
pub open spec fn settings_in(config: JsonView) -> Option<JsonView> {
    either(
        config.get("pattern_config"@),
        match config.get("detection_config"@) {
            Some(d) => d.get("pattern_config"@),
            None => None,
        },
    )
}

/// The settings of the pattern in the first row that has some.
pub open spec fn first_settings(rows: Seq<ConfigRow>) -> Option<JsonView>
    decreases rows.len(),
{
    if rows.len() == 0 {
        None
    } else if concerns(rows[0]) && settings_in(rows[0].config@) is Some {
        settings_in(rows[0].config@)
    } else {
        first_settings(rows.skip(1))
    }
}

/// The settings of the pattern: how many minutes quotes are kept, for how many markets, and
/// how many of one source. Each is as configured, and not below its least value, or the
/// default where it is not configured.
pub open spec fn tuned(s: Option<JsonView>) -> (i64, usize, usize) {
    match s {
        Some(s) => (
            match integer_in(s.get("quote_cache_ttl_minutes"@)) {
                Some(v) => if v < 1 {
                    1i64
                } else {
                    v
                },
                None => DEPEG_QUOTE_CACHE_TTL_MINUTES,
            },
            match natural_in(s.get("quote_cache_max_keys"@)) {
                Some(v) => if (v as usize) < 16 {
                    16usize
                } else {
                    v as usize
                },
                None => DEPEG_QUOTE_CACHE_MAX_KEYS,
            },
            match natural_in(s.get("max_quote_history_per_source"@)) {
                Some(v) => if (v as usize) < 2 {
                    2usize
                } else {
                    v as usize
                },
                None => DEPEG_QUOTE_HISTORY,
            },
        ),
        None => (DEPEG_QUOTE_CACHE_TTL_MINUTES, DEPEG_QUOTE_CACHE_MAX_KEYS, DEPEG_QUOTE_HISTORY),
    }
}

/// The unsigned integer of an optional document.
pub open spec fn natural_in(v: Option<JsonView>) -> Option<u64> {
    match v {
        Some(v) => v.unsigned_integer(),
        None => None,
    }
}

fn member_u64(v: Option<&Json>) -> (r: Option<u64>)
    ensures
        r == natural_in(crate::json::found(v)),
{
    match v {
        Some(j) => j.as_u64(),
        None => None,
    }
}

fn read_settings(config: &Json) -> (r: Option<&Json>)
    ensures
        crate::json::found(r) == settings_in(config@),
{
    let nested: Option<&Json> = match config.get("detection_config") {
        Some(d) => d.get("pattern_config"),
        None => None,
    };
    either_of(config.get("pattern_config"), nested)
}

fn tune(s: &Json) -> (r: (i64, usize, usize))
    ensures
        r == tuned(Some(s@)),
{
    let t: i64 = match member_i64(s.get("quote_cache_ttl_minutes")) {
        Some(v) => if v < 1 {
            1
        } else {
            v
        },
        None => DEPEG_QUOTE_CACHE_TTL_MINUTES,
    };
    let k: usize = match member_u64(s.get("quote_cache_max_keys")) {
        Some(v) => {
            let n: usize = v as usize;
            if n < 16 {
                16
            } else {
                n
            }
        },
        None => DEPEG_QUOTE_CACHE_MAX_KEYS,
    };
    let h: usize = match member_u64(s.get("max_quote_history_per_source")) {
        Some(v) => {
            let n: usize = v as usize;
            if n < 2 {
                2
            } else {
                n
            }
        },
        None => DEPEG_QUOTE_HISTORY,
    };
    (t, k, h)
}

// ---------------------------------------------------------------------------
// Context
// ---------------------------------------------------------------------------

/// Whether the deviation of a market is systemic, and the markets that deviate.
#[derive(Debug)]
pub struct ContextAssessment {
    pub classification: ContextClassification,
    pub systemic_markets: Vec<SystemicMarketContext>,
}

/// Whether a market is quoted in dollars.
pub open spec fn in_dollars(market: Seq<char>) -> bool {
    let m = uppered(market);
    stands_at(m, "/USD"@, m.len() - "/USD"@.len())
}

/// How far the market of a policy is from its peg, if it is one of the tenant's that are
/// quoted in dollars and has quotes in the scope.
pub open spec fn candidate_divergence(
    p: DepegPolicy,
    cache: Markets,
    tenant: Seq<char>,
    replay: Seq<char>,
    now: Timestamp,
) -> Option<Double> {
    if p.tenant_id@ != tenant || !in_dollars(p.market_key@) {
        None
    } else {
        match market_quotes(
            cache,
            ScopeView { tenant_id: tenant, market_key: p.market_key@, replay_scope: replay },
        ) {
            Some(h) => market_divergence(p, quotes_at(h, now), now),
            None => None,
        }
    }
}

/// Those of the first `n` policies' markets that deviate by their systemic floor or more.
pub open spec fn deviating(
    s: Seq<DepegPolicy>,
    cache: Markets,
    tenant: Seq<char>,
    replay: Seq<char>,
    now: Timestamp,
    n: nat,
) -> Seq<SystemicMarketContext>
    decreases n,
{
    if n == 0 {
        Seq::<SystemicMarketContext>::empty()
    } else {
        let before = deviating(s, cache, tenant, replay, now, (n - 1) as nat);
        let p = s[n - 1];
        match candidate_divergence(p, cache, tenant, replay, now) {
            Some(d) => if p.systemic_floor_pct.at_most(d) {
                before.push(
                    SystemicMarketContext {
                        market_key: p.market_key,
                        divergence_pct: d,
                        trigger_floor_pct: p.systemic_floor_pct,
                    },
                )
            } else {
                before
            },
            None => before,
        }
    }
}

/// The classification that a reply names.
pub open spec fn contagion_reply(r: Option<ReplyView>) -> Option<ContextClassification> {
    match r {
        Some(ReplyView::Text(s)) => if lowered(s) == "isolated"@ {
            Some(ContextClassification::Isolated)
        } else if lowered(s) == "systemic"@ {
            Some(ContextClassification::Systemic)
        } else {
            None
        },
        _ => None,
    }
}

fn read_contagion(r: &Option<Reply>) -> (v: Option<ContextClassification>)
    ensures
        v == contagion_reply(reply_option(*r)),
{
    match r {
        Some(Reply::Value { answer: Answer::Text(s), shown: _ }) => {
            let t: String = lowercase(s.as_str());
            if same(t.as_str(), "isolated") {
                Some(ContextClassification::Isolated)
            } else if same(t.as_str(), "systemic") {
                Some(ContextClassification::Systemic)
            } else {
                None
            }
        },
        _ => None,
    }
}

/// What an expression for the contagion is given: how many markets deviate. Nothing is
/// known of the market itself by then.
pub open spec fn contagion_variables(count: usize) -> Seq<(Seq<char>, Datum)> {
    seq![
        ("systemic_market_count"@, Datum::Int(count as i64)),
        ("deviation_pct"@, Datum::Number(double(0))),
        ("source_count"@, Datum::Int(0)),
    ]
}

fn contagion_inputs(count: usize) -> (r: Vec<Input>)
    ensures
        inputs_view(r@) == contagion_variables(count),
{
    let mut r: Vec<Input> = Vec::new();
    r.push(input("systemic_market_count", Datum::Int(count as i64)));
    r.push(input("deviation_pct", Datum::Number(Double { bits: 0 })));
    r.push(input("source_count", Datum::Int(0)));
    assert(inputs_view(r@) =~= contagion_variables(count));
    r
}

/// Whether the reply is one that the policy's expression may give; it is asked only where
/// contagion is looked for.
pub open spec fn contagion_fits(
    p: DepegPolicy,
    found: Seq<SystemicMarketContext>,
    reply: Option<ReplyView>,
) -> bool {
    if p.toggles.contagion_detection {
        heard(p.compiled_contagion, contagion_variables(found.len() as usize), reply)
    } else {
        reply is None
    }
}

/// The context of a market: systemic where the expression says so, or where at least two
/// markets deviate and it does not say otherwise. The markets are named where at least two
/// deviate, the widest deviation first.
pub open spec fn context_of(
    p: DepegPolicy,
    found: Seq<SystemicMarketContext>,
    reply: Option<ReplyView>,
) -> (ContextClassification, Seq<SystemicMarketContext>) {
    if !p.toggles.contagion_detection {
        (ContextClassification::Isolated, Seq::<SystemicMarketContext>::empty())
    } else {
        let class = if found.len() >= 2 {
            ContextClassification::Systemic
        } else {
            ContextClassification::Isolated
        };
        (
            match contagion_reply(reply) {
                Some(c) => c,
                None => class,
            },
            if found.len() >= 2 {
                arranged(found)
            } else {
                Seq::<SystemicMarketContext>::empty()
            },
        )
    }
}

/// Whether the context of a market may be assessed so, with the given reply.
pub open spec fn may_assess(
    d: DepegPatternV2,
    p: DepegPolicy,
    tenant: Seq<char>,
    replay: Seq<char>,
    now: Timestamp,
    reply: Option<ReplyView>,
    classification: ContextClassification,
    named: Seq<SystemicMarketContext>,
) -> bool {
    let found = deviating(
        d.policies@,
        markets(d.quote_cache@),
        tenant,
        replay,
        now,
        d.policies@.len(),
    );
    contagion_fits(p, found, reply) && (classification, named) == context_of(p, found, reply)
}

/// The context of a market whose expression has replied.
pub fn context_with_reply(
    policy: &DepegPolicy,
    found: Vec<SystemicMarketContext>,
    reply: &Option<Reply>,
) -> (r: ContextAssessment)
    ensures
        (r.classification, r.systemic_markets@) == context_of(
            *policy,
            found@,
            reply_option(*reply),
        ),
{
    if !policy.toggles.contagion_detection {
        return ContextAssessment {
            classification: ContextClassification::Isolated,
            systemic_markets: Vec::new(),
        };
    }
    let many: bool = found.len() >= 2;
    let classification: ContextClassification = match read_contagion(reply) {
        Some(c) => c,
        None => if many {
            ContextClassification::Systemic
        } else {
            ContextClassification::Isolated
        },
    };
    let systemic_markets: Vec<SystemicMarketContext> = if many {
        arrange(found)
    } else {
        Vec::new()
    };
    ContextAssessment { classification, systemic_markets }
}

// ---------------------------------------------------------------------------
// Events
// ---------------------------------------------------------------------------

/// The key of a market's state: with the run of a simulation, that run's own.
pub open spec fn state_key_of(market: Seq<char>, run: Option<Seq<char>>) -> Seq<char> {
    match filled(run) {
        Some(id) => market + "::"@ + id,
        None => market,
    }
}

/// An event that is to be judged: its market, the key of the market's state, and the time.
#[derive(Debug)]
pub struct Admission {
    pub scope: MarketScope,
    pub state_key: String,
    pub at: Timestamp,
}

/// The scope of an event in a market.
pub open spec fn scope_of(tenant: Seq<char>, market: Seq<char>, run: Option<Seq<char>>) -> ScopeView {
    ScopeView {
        tenant_id: tenant,
        market_key: market,
        replay_scope: match run {
            Some(id) => id,
            None => live_scope(),
        },
    }
}

/// Whether an event counts: its source is let in, it has a market and a price that makes
/// sense, and the market has a policy.
pub open spec fn admitted(d: DepegPatternV2, event: UnifiedEvent, f: FieldsView) -> bool {
    &&& let_in(d.source_bindings@, event.tenant_id@, event.source_id@)
    &&& f.market_key is Some
    &&& f.price matches Some(x) && x.positive()
    &&& policy_for(d.policies@, event.tenant_id@, f.market_key->0) is Some
}

/// Whether `after` is the cache `before` once an event has come in: quotes of other runs of
/// its market are forgotten where it belongs to a run, its quote is added, and the cache is
/// pruned.
pub open spec fn cache_after(
    before: Seq<CachedMarket>,
    after: Seq<CachedMarket>,
    scope: ScopeView,
    run: Option<Seq<char>>,
    q: QuoteInput,
    now: Timestamp,
    ttl: i64,
    keys: usize,
    history: usize,
) -> bool {
    let own = if run is Some {
        kept(before, run_flags(markets(before), scope))
    } else {
        before
    };
    exists|mid: Seq<CachedMarket>|
        #[trigger] markets(mid) == markets_with(markets(own), scope, q, history as nat) && after
            == pruned(
            mid,
            Some(market_place(markets(own), scope)),
            now.before_minutes(ttl as int),
            keys as nat,
        )
}

/// What an event that was judged leads to: a snapshot to keep, a state to keep, and a
/// detection to report, if there is one.
#[derive(Debug)]
pub struct Judgement {
    pub snapshot: Json,
    pub score: Double,
    pub severity: Option<String>,
    pub next_state: DepegAlertState,
    pub detection: Option<DetectionResult>,
    pub reason: Option<&'static str>,
}

pub struct JudgementView {
    pub snapshot: JsonView,
    pub score: Double,
    pub severity: Option<Seq<char>>,
    pub next_state: AlertView,
    pub detection: Option<DetectionView>,
    pub reason: Option<Seq<char>>,
}

impl View for Judgement {
    type V = JudgementView;

    open spec fn view(&self) -> JudgementView {
        JudgementView {
            snapshot: self.snapshot@,
            score: self.score,
            severity: text_option(self.severity),
            next_state: self.next_state@,
            detection: match self.detection {
                Some(d) => Some(d@),
                None => None,
            },
            reason: str_option(self.reason),
        }
    }
}

/// Whether an event comes late: after one that was later.
pub open spec fn late(st: AlertView, now: Timestamp) -> bool {
    match st.high_water_mark {
        Some(mark) => now.before(mark),
        None => false,
    }
}

/// The later of the mark and the time.
pub open spec fn raised_mark(st: AlertView, now: Timestamp) -> Timestamp {
    match st.high_water_mark {
        Some(mark) => if now.before(mark) {
            mark
        } else {
            now
        },
        None => now,
    }
}

/// An outcome with the markets that deviate and with the mark raised.
pub open spec fn completed(
    o: OutcomeView,
    markets: Seq<SystemicMarketContext>,
    st: AlertView,
    now: Timestamp,
) -> OutcomeView {
    OutcomeView {
        snapshot: SnapshotView { systemic_markets: markets, ..o.snapshot },
        next_state: AlertView {
            high_water_mark: Some(raised_mark(st, now)),
            ..o.next_state
        },
        ..o
    }
}

/// What a completed outcome leads to.
#[verifier::opaque]
pub open spec fn judged(
    p: DepegPolicy,
    event: UnifiedEvent,
    o: OutcomeView,
    st: AlertView,
    now: Timestamp,
    id: Seq<char>,
    nonce: Seq<char>,
) -> JudgementView {
    JudgementView {
        snapshot: snapshot_with_meta(event.payload@, event.timestamp, snapshot_json(p, o)),
        score: o.snapshot.divergence_pct,
        severity: match o.snapshot.severity {
            Some(s) => Some(severity_name(s)),
            None => None,
        },
        next_state: o.next_state,
        detection: match o.emitted_severity {
            Some(severity) => if o.should_emit_alert {
                Some(
                    detection_of(
                        event.payload@,
                        p,
                        o.snapshot,
                        severity,
                        o.transition,
                        now,
                        id,
                        nonce,
                    ),
                )
            } else {
                None
            },
            None => None,
        },
        reason: if simulated(event.payload@) {
            Some(reason(p, st.incident, o, now, total_of(o.snapshot.confidence_breakdown)))
        } else {
            None
        },
    }
}

/// The quotes of a market that held at a time.
pub open spec fn held_quotes(cache: Markets, scope: ScopeView, now: Timestamp) -> Seq<QuoteInput> {
    match market_quotes(cache, scope) {
        Some(h) => quotes_at(h, now),
        None => Seq::<QuoteInput>::empty(),
    }
}

/// Whether `r` is what the judgement of an event may come to: nothing where it has no
/// policy or comes late, a failure where its quotes give no price, and otherwise what the
/// policy makes of the quotes that held, in the context of the tenant's other markets.
pub open spec fn may_judge(
    d: DepegPatternV2,
    event: UnifiedEvent,
    scope: ScopeView,
    now: Timestamp,
    st: AlertView,
    r: Result<Option<Judgement>, EvaluationError>,
) -> bool {
    match policy_for(d.policies@, scope.tenant_id, scope.market_key) {
        Some(p) => exists|c: Option<ReplyView>, v: RepliesView, id: Seq<char>, nonce: Seq<char>| #[trigger]
            judgement_fits(d, p, event, scope, now, st, r, c, v, id, nonce),
        None => r matches Ok(j) && j is None,
    }
}

pub open spec fn judgement_fits(
    d: DepegPatternV2,
    p: DepegPolicy,
    event: UnifiedEvent,
    scope: ScopeView,
    now: Timestamp,
    st: AlertView,
    r: Result<Option<Judgement>, EvaluationError>,
    c: Option<ReplyView>,
    v: RepliesView,
    id: Seq<char>,
    nonce: Seq<char>,
) -> bool {
    let cache = markets(d.quote_cache@);
    let found = deviating(
        d.policies@,
        cache,
        scope.tenant_id,
        scope.replay_scope,
        now,
        d.policies@.len(),
    );
    let context = context_of(p, found, c);
    let quotes = held_quotes(cache, scope, now);
    &&& is_id(id)
    &&& is_id(nonce)
    &&& contagion_fits(p, found, c)
    &&& replies_fit(p, quotes, now, context.0, v)
    &&& match evaluation(p, quotes, st, now, context.0, v) {
        Some(o) => if late(st, now) {
            r matches Ok(j) && j is None
        } else {
            r matches Ok(j) && j is Some && j->0@ == judged(
                p,
                event,
                completed(o, context.1, st, now),
                st,
                now,
                id,
                nonce,
            )
        },
        None => r is Err,
    }
}

impl DepegPatternV2 {
    pub fn pattern_id(&self) -> (r: &'static str)
        ensures
            r@ == "depeg_v2"@,
    {
        "depeg_v2"
    }

    /// The key of a market's state.
    pub fn state_key(market_key: &str, simulation_run_id: Option<&str>) -> (r: String)
        ensures
            r@ == state_key_of(market_key@, str_option(simulation_run_id)),
    {
        match filled_text(simulation_run_id) {
            Some(id) => join3(market_key, "::", id.as_str()),
            None => market_key.to_owned(),
        }
    }

    /// Puts a policy in the place of the one for the same market.
    pub fn install_policy(&mut self, policy: DepegPolicy)
        ensures
            final(self).policies@ == installed(old(self).policies@, policy),
            final(self).quote_cache == old(self).quote_cache,
            final(self).source_bindings == old(self).source_bindings,
            final(self).source_mapping_overrides == old(self).source_mapping_overrides,
            final(self).quote_cache_ttl_minutes == old(self).quote_cache_ttl_minutes,
            final(self).quote_cache_max_keys == old(self).quote_cache_max_keys,
            final(self).max_quote_history_per_source == old(self).max_quote_history_per_source,
    {
        install(&mut self.policies, policy);
    }

    /// The policy of a tenant's market.
    pub fn effective_policy(&self, tenant_id: &str, market_key: &str) -> (r: Option<&DepegPolicy>)
        ensures
            match r {
                Some(p) => policy_for(self.policies@, tenant_id@, market_key@) == Some(*p),
                None => policy_for(self.policies@, tenant_id@, market_key@) is None,
            },
    {
        let i: usize = find_policy(&self.policies, tenant_id, market_key);
        if i < self.policies.len() {
            Some(&self.policies[i])
        } else {
            None
        }
    }

    /// Takes over the configuration of the tenants: their policies and what they say of
    /// their sources are replaced, and the settings of the pattern are those of the first row
    /// that has some, or the defaults.
    pub fn reload_config(&mut self, rows: Vec<ConfigRow>)
        ensures
            exists|lists: Seq<Seq<DepegPolicy>>|
                lists.len() == rows@.len() && (forall|i: int|
                    0 <= i < rows@.len() ==> accepted_from(rows@[i], #[trigger] lists[i]))
                    && final(self).policies@ == #[trigger] policies_after(
                    rows@,
                    lists,
                    rows@.len(),
                ),
            bindings_view(final(self).source_bindings@) == bindings_after(rows@, rows@.len()),
            tenants_view(final(self).source_mapping_overrides@) == overrides_after(
                rows@,
                rows@.len(),
            ),
            (
                final(self).quote_cache_ttl_minutes,
                final(self).quote_cache_max_keys,
                final(self).max_quote_history_per_source,
            ) == tuned(first_settings(rows@)),
            final(self).quote_cache == old(self).quote_cache,
    {
        let ghost all = rows@;
        let mut i: usize = 0;
        let mut found: bool = false;
        let mut settings: (i64, usize, usize) = (
            DEPEG_QUOTE_CACHE_TTL_MINUTES,
            DEPEG_QUOTE_CACHE_MAX_KEYS,
            DEPEG_QUOTE_HISTORY,
        );
        assert(all.skip(0) =~= all);
        while i < rows.len() && !found
            invariant
                i <= rows.len(),
                rows@ == all,
                !found ==> settings == tuned(None) && first_settings(all) == first_settings(
                    all.skip(i as int),
                ),
                found ==> settings == tuned(first_settings(all)),
            decreases rows.len() - i,
        {
            assert(all.skip(i as int).skip(1) =~= all.skip(i + 1));
            if row_concerns(&rows[i]) {
                match read_settings(&rows[i].config) {
                    Some(s) => {
                        settings = tune(s);
                        found = true;
                    },
                    None => {},
                }
            }
            i = i + 1;
        }
        let mut policies: Vec<DepegPolicy> = Vec::new();
        let mut bindings: Vec<TenantBindings> = Vec::new();
        let mut overrides: Vec<TenantOverrides> = Vec::new();
        let mut rest: Vec<ConfigRow> = rows;
        let ghost mut done: int = 0;
        let ghost mut lists: Seq<Seq<DepegPolicy>> = Seq::empty();
        assert(bindings_view(bindings@) =~= Seq::<(Seq<char>, Seq<Seq<char>>)>::empty());
        assert(tenants_view(overrides@) =~= Seq::<(Seq<char>, SourceOverrides)>::empty());
        assert(all.skip(0) =~= all);
        while rest.len() > 0
            invariant
                0 <= done <= all.len(),
                rest@ == all.skip(done),
                lists.len() == done,
                forall|k: int| 0 <= k < done ==> accepted_from(all[k], #[trigger] lists[k]),
                policies@ == policies_after(all, lists, done as nat),
                bindings_view(bindings@) == bindings_after(all, done as nat),
                tenants_view(overrides@) == overrides_after(all, done as nat),
            decreases rest.len(),
        {
            let row: ConfigRow = rest.remove(0);
            let ghost the_row = row;
            proof {
                assert(all.skip(done)[0] == all[done]);
                assert(row == all[done]);
                assert(rest@ =~= all.skip(done + 1));
            }
            let ghost before = policies@;
            let ghost mut list: Seq<DepegPolicy> = Seq::empty();
            if row_concerns(&row) {
                match extract_bound_source_ids(&row.config) {
                    Some(sources) => {
                        bind_sources(&mut bindings, row.tenant_id.as_str(), sources);
                    },
                    None => {},
                }
                let found: Vec<(String, SourceBindingRuntimeOverride)> =
                    parse_source_mapping_overrides(&row.config, &row.rejected);
                if found.len() > 0 {
                    note_overrides(&mut overrides, row.tenant_id.as_str(), found);
                }
                let ConfigRow { tenant_id, pattern_id: _, config: _, entries, rejected: _ } = row;
                let accepted: Vec<DepegPolicy> = parse_policies(tenant_id.as_str(), entries);
                proof {
                    list = accepted@;
                }
                install_list(&mut policies, accepted);
            }
            proof {
                let grown = lists.push(list);
                assert(accepted_from(the_row, list));
                lemma_policies_after(all, lists, list, done as nat);
                assert forall|k: int| 0 <= k < done + 1 implies accepted_from(
                    all[k],
                    #[trigger] grown[k],
                ) by {
                    if k < done {
                        assert(lists[k] == grown[k]);
                    }
                }
                assert(grown[done] == list);
                if !concerns(the_row) {
                    assert(installed_all(before, list) == before);
                }
                lists = grown;
                done = done + 1;
            }
        }
        self.policies = policies;
        self.source_bindings = bindings;
        self.source_mapping_overrides = overrides;
        self.quote_cache_ttl_minutes = settings.0;
        self.quote_cache_max_keys = settings.1;
        self.max_quote_history_per_source = settings.2;
        assert(done == all.len());
    }

    /// Prunes the quotes of markets, but for the current one, if it is there.
    pub fn prune_quote_cache(&mut self, now: Timestamp, current: &MarketScope)
        ensures
            final(self).quote_cache@ == pruned(
                old(self).quote_cache@,
                place_in(markets(old(self).quote_cache@), current@),
                now.before_minutes(old(self).quote_cache_ttl_minutes as int),
                old(self).quote_cache_max_keys as nat,
            ),
            final(self).policies == old(self).policies,
            final(self).source_bindings == old(self).source_bindings,
            final(self).source_mapping_overrides == old(self).source_mapping_overrides,
            final(self).quote_cache_ttl_minutes == old(self).quote_cache_ttl_minutes,
            final(self).quote_cache_max_keys == old(self).quote_cache_max_keys,
            final(self).max_quote_history_per_source == old(self).max_quote_history_per_source,
    {
        let mut cache: Vec<CachedMarket> = Vec::new();
        std::mem::swap(&mut cache, &mut self.quote_cache);
        let cutoff: Timestamp = now.minus_minutes(self.quote_cache_ttl_minutes);
        let i: usize = find_market(&cache, current);
        let place: Option<usize> = if i < cache.len() {
            Some(i)
        } else {
            None
        };
        self.quote_cache = prune(cache, place, cutoff, self.quote_cache_max_keys);
    }

    /// Takes an event in: where it counts, its quote is remembered and the market is named
    /// that is to be judged.
    pub fn take_in(&mut self, event: &UnifiedEvent, fields: &EffectiveFields) -> (r: Option<
        Admission,
    >)
        ensures
            admitted(*old(self), *event, fields@) <==> r is Some,
            r is None ==> *final(self) == *old(self),
            r matches Some(a) ==> ({
                let run = simulation_run(event.payload@);
                let market = fields@.market_key->0;
                let scope = scope_of(event.tenant_id@, market, run);
                &&& a.scope@ == scope
                &&& a.state_key@ == state_key_of(market, run)
                &&& a.at == fields.timestamp
                &&& exists|q: QuoteInput|
                    {
                        &&& q.source_id@ == event.source_id@
                        &&& q.source_kind@ == source_kind_of(source_type_name(event.source_type))
                        &&& q.price == fields@.price->0
                        &&& q.observed_at == fields.timestamp
                        &&& #[trigger] cache_after(
                            old(self).quote_cache@,
                            final(self).quote_cache@,
                            scope,
                            run,
                            q,
                            fields.timestamp,
                            old(self).quote_cache_ttl_minutes,
                            old(self).quote_cache_max_keys,
                            old(self).max_quote_history_per_source,
                        )
                    }
                &&& final(self).policies == old(self).policies
                &&& final(self).source_bindings == old(self).source_bindings
                &&& final(self).source_mapping_overrides == old(self).source_mapping_overrides
                &&& final(self).quote_cache_ttl_minutes == old(self).quote_cache_ttl_minutes
                &&& final(self).quote_cache_max_keys == old(self).quote_cache_max_keys
                &&& final(self).max_quote_history_per_source
                    == old(self).max_quote_history_per_source
            }),
    {
        if !source_is_let_in(
            &self.source_bindings,
            event.tenant_id.as_str(),
            event.source_id.as_str(),
        ) {
            return None;
        }
        let market: &String = match &fields.market_key {
            Some(market) => market,
            None => {
                return None;
            },
        };
        let price: Double = match fields.price {
            Some(price) => price,
            None => {
                return None;
            },
        };
        if !price.is_positive() {
            return None;
        }
        if self.effective_policy(event.tenant_id.as_str(), market.as_str()).is_none() {
            return None;
        }
        let simulation: SimulationMetadata = simulation_metadata_from_event(event);
        let (state_key, replay_scope): (String, String) = match &simulation.run_id {
            Some(id) => (
                DepegPatternV2::state_key(market.as_str(), Some(id.as_str())),
                id.clone(),
            ),
            None => (DepegPatternV2::state_key(market.as_str(), None), "__live__".to_owned()),
        };
        let scope = MarketScope {
            tenant_id: event.tenant_id.clone(),
            market_key: market.clone(),
            replay_scope,
        };
        let mut cache: Vec<CachedMarket> = Vec::new();
        std::mem::swap(&mut cache, &mut self.quote_cache);
        if simulation.run_id.is_some() {
            cache = forget_other_runs(cache, &scope);
        }
        let quote = QuoteInput {
            source_id: event.source_id.clone(),
            source_kind: infer_source_kind(source_type_text(event.source_type)),
            price,
            observed_at: fields.timestamp,
        };
        let ghost q = quote;
        let grown: Vec<CachedMarket> = remember_in_market(
            cache,
            &scope,
            quote,
            self.max_quote_history_per_source,
        );
        let ghost mid = grown@;
        self.quote_cache = grown;
        self.prune_quote_cache(fields.timestamp, &scope);
        proof {
            lemma_market_stands(
                markets(cache@),
                scope@,
                q,
                self.max_quote_history_per_source as nat,
            );
            let run = simulation_run(event.payload@);
            assert(scope@ == scope_of(event.tenant_id@, fields@.market_key->0, run));
            assert(markets(mid) == markets_with(
                markets(cache@),
                scope@,
                q,
                self.max_quote_history_per_source as nat,
            ));
            assert(cache_after(
                old(self).quote_cache@,
                self.quote_cache@,
                scope@,
                run,
                q,
                fields.timestamp,
                old(self).quote_cache_ttl_minutes,
                old(self).quote_cache_max_keys,
                old(self).max_quote_history_per_source,
            ));
        }
        Some(Admission { scope, state_key, at: fields.timestamp })
    }

    /// The markets of a tenant that deviate by their systemic floor or more.
    fn deviating_markets(&self, tenant_id: &str, replay_scope: &str, now: Timestamp) -> (r: Vec<
        SystemicMarketContext,
    >)
        ensures
            r@ == deviating(
                self.policies@,
                markets(self.quote_cache@),
                tenant_id@,
                replay_scope@,
                now,
                self.policies@.len(),
            ),
    {
        let ghost cache = markets(self.quote_cache@);
        let mut r: Vec<SystemicMarketContext> = Vec::new();
        let mut i: usize = 0;
        while i < self.policies.len()
            invariant
                i <= self.policies.len(),
                cache == markets(self.quote_cache@),
                r@ == deviating(
                    self.policies@,
                    cache,
                    tenant_id@,
                    replay_scope@,
                    now,
                    i as nat,
                ),
            decreases self.policies.len() - i,
        {
            let policy: &DepegPolicy = &self.policies[i];
            let mut found: Option<Double> = None;
            if same(policy.tenant_id.as_str(), tenant_id) && ends_with(
                uppercase(policy.market_key.as_str()).as_str(),
                "/USD",
            ) {
                let scope = MarketScope {
                    tenant_id: tenant_id.to_owned(),
                    market_key: policy.market_key.clone(),
                    replay_scope: replay_scope.to_owned(),
                };
                let k: usize = find_market(&self.quote_cache, &scope);
                if k < self.quote_cache.len() {
                    let quotes: Vec<QuoteInput> = latest_quotes_for_time(
                        &self.quote_cache[k].quotes,
                        now,
                    );
                    found = market_divergence_pct(policy, quotes.as_slice(), now);
                }
            }
            assert(found == candidate_divergence(*policy, cache, tenant_id@, replay_scope@, now));
            match found {
                Some(d) => {
                    if policy.systemic_floor_pct.le(d) {
                        r.push(
                            SystemicMarketContext {
                                market_key: policy.market_key.clone(),
                                divergence_pct: d,
                                trigger_floor_pct: policy.systemic_floor_pct,
                            },
                        );
                    }
                },
                None => {},
            }
            i = i + 1;
        }
        r
    }

    /// The context of a market: whether it deviates alone or with others.
    pub fn assess_context(
        &self,
        policy: &DepegPolicy,
        tenant_id: &str,
        replay_scope: &str,
        now: Timestamp,
    ) -> (r: ContextAssessment)
        ensures
            exists|reply: Option<ReplyView>| #[trigger]
                may_assess(
                    *self,
                    *policy,
                    tenant_id@,
                    replay_scope@,
                    now,
                    reply,
                    r.classification,
                    r.systemic_markets@,
                ),
    {
        let found: Vec<SystemicMarketContext> = self.deviating_markets(
            tenant_id,
            replay_scope,
            now,
        );
        let reply: Option<Reply> = if policy.toggles.contagion_detection {
            consult(&policy.compiled_contagion, &contagion_inputs(found.len()))
        } else {
            None
        };
        let r: ContextAssessment = context_with_reply(policy, found, &reply);
        assert(may_assess(
            *self,
            *policy,
            tenant_id@,
            replay_scope@,
            now,
            reply_option(reply),
            r.classification,
            r.systemic_markets@,
        ));
        r
    }

    /// The classification of the context of a market.
    pub fn classify_context(
        &self,
        policy: &DepegPolicy,
        tenant_id: &str,
        replay_scope: &str,
        now: Timestamp,
    ) -> (r: ContextClassification)
        ensures
            exists|reply: Option<ReplyView>, named: Seq<SystemicMarketContext>| #[trigger]
                may_assess(
                    *self,
                    *policy,
                    tenant_id@,
                    replay_scope@,
                    now,
                    reply,
                    r,
                    named,
                ),
    {
        self.assess_context(policy, tenant_id, replay_scope, now).classification
    }

    /// Judges an event that was taken in, with the state of its market.
    pub fn judge(
        &self,
        event: &UnifiedEvent,
        admission: &Admission,
        current_state: &DepegAlertState,
    ) -> (r: Result<Option<Judgement>, EvaluationError>)
        requires
            event.timestamp.calendar(),
            current_state.countable(),
        ensures
            may_judge(*self, *event, admission.scope@, admission.at, current_state@, r),
    {
        let scope: &MarketScope = &admission.scope;
        let now: Timestamp = admission.at;
        let policy: &DepegPolicy = match self.effective_policy(
            scope.tenant_id.as_str(),
            scope.market_key.as_str(),
        ) {
            Some(policy) => policy,
            None => {
                return Ok(None);
            },
        };
        let ghost cache = markets(self.quote_cache@);
        let ghost found = deviating(
            self.policies@,
            cache,
            scope@.tenant_id,
            scope@.replay_scope,
            now,
            self.policies@.len(),
        );
        let k: usize = find_market(&self.quote_cache, scope);
        let quotes: Vec<QuoteInput> = if k < self.quote_cache.len() {
            latest_quotes_for_time(&self.quote_cache[k].quotes, now)
        } else {
            Vec::new()
        };
        assert(quotes@ == held_quotes(cache, scope@, now));
        let context: ContextAssessment = self.assess_context(
            policy,
            scope.tenant_id.as_str(),
            scope.replay_scope.as_str(),
            now,
        );
        let ghost c: Option<ReplyView> = choose|reply: Option<ReplyView>| #[trigger]
            may_assess(
                *self,
                *policy,
                scope@.tenant_id,
                scope@.replay_scope,
                now,
                reply,
                context.classification,
                context.systemic_markets@,
            );
        let result: Result<EvaluationOutcome, EvaluationError> = evaluate_policy(
            policy,
            quotes.as_slice(),
            current_state,
            now,
            context.classification,
        );
        let ghost v: RepliesView = choose|v: RepliesView|
            replies_fit(*policy, quotes@, now, context.classification, v) && match result {
                Ok(o) => #[trigger] evaluation(
                    *policy,
                    quotes@,
                    current_state@,
                    now,
                    context.classification,
                    v,
                ) == Some(o@),
                Err(_) => evaluation(
                    *policy,
                    quotes@,
                    current_state@,
                    now,
                    context.classification,
                    v,
                ) is None,
            };
        let ghost nothing: Seq<char> = some_id();
        let outcome: EvaluationOutcome = match result {
            Ok(outcome) => outcome,
            Err(e) => {
                let r: Result<Option<Judgement>, EvaluationError> = Err(e);
                assert(judgement_fits(
                    *self,
                    *policy,
                    *event,
                    scope@,
                    now,
                    current_state@,
                    r,
                    c,
                    v,
                    nothing,
                    nothing,
                ));
                return r;
            },
        };
        let ghost o0 = outcome@;
        let mut outcome: EvaluationOutcome = outcome;
        let mark: Timestamp = match current_state.high_water_mark {
            Some(mark) => {
                if now.is_before(mark) {
                    let r: Result<Option<Judgement>, EvaluationError> = Ok(None);
                    assert(judgement_fits(
                        *self,
                        *policy,
                        *event,
                        scope@,
                        now,
                        current_state@,
                        r,
                        c,
                        v,
                        nothing,
                        nothing,
                    ));
                    return r;
                }
                now
            },
            None => now,
        };
        outcome.snapshot.systemic_markets = context.systemic_markets;
        outcome.next_state.high_water_mark = Some(mark);
        let ghost o = completed(o0, context.systemic_markets@, current_state@, now);
        assert(outcome@ == o);
        let j: Judgement = conclude(event, policy, outcome, current_state, now);
        let ghost (id, nonce): (Seq<char>, Seq<char>) = choose|id: Seq<char>, nonce: Seq<char>|
            is_id(id) && is_id(nonce) && j@ == #[trigger] judged(
                *policy,
                *event,
                o,
                current_state@,
                now,
                id,
                nonce,
            );
        let r: Result<Option<Judgement>, EvaluationError> = Ok(Some(j));
        assert(judgement_fits(
            *self,
            *policy,
            *event,
            scope@,
            now,
            current_state@,
            r,
            c,
            v,
            id,
            nonce,
        ));
        r
    }
}

/// What an evaluation leads to.
fn conclude(
    event: &UnifiedEvent,
    policy: &DepegPolicy,
    outcome: EvaluationOutcome,
    current_state: &DepegAlertState,
    now: Timestamp,
) -> (j: Judgement)
    requires
        event.timestamp.calendar(),
    ensures
        exists|id: Seq<char>, nonce: Seq<char>|
            is_id(id) && is_id(nonce) && j@ == #[trigger] judged(
                *policy,
                *event,
                outcome@,
                current_state@,
                now,
                id,
                nonce,
            ),
{
    reveal(judged);
    let reason: Option<&'static str> = if simulation_metadata_from_event(event).is_simulated {
        let total: Double = match &outcome.snapshot.confidence_breakdown {
            Some(c) => c.total,
            None => Double { bits: 0 },
        };
        Some(depeg_test_mode_reason(policy, current_state, &outcome, now, total))
    } else {
        None
    };
    let snapshot: Json = append_snapshot_meta(event, &snapshot_document(policy, &outcome));
    let severity: Option<String> = match outcome.snapshot.severity {
        Some(s) => Some(severity_text(s).to_owned()),
        None => None,
    };
    let ghost o = outcome@;
    let ghost mut id: Seq<char> = some_id();
    let ghost mut nonce: Seq<char> = some_id();
    let mut detection: Option<DetectionResult> = None;
    if outcome.should_emit_alert {
        match outcome.emitted_severity {
            Some(severity) => {
                let built: DetectionResult = build_detection(
                    event,
                    policy,
                    &outcome.snapshot,
                    severity,
                    outcome.transition,
                    now,
                );
                proof {
                    let (a, b) = choose|a: Seq<char>, b: Seq<char>|
                        is_id(a) && is_id(b) && built@ == #[trigger] detection_of(
                            event.payload@,
                            *policy,
                            o.snapshot,
                            severity,
                            o.transition,
                            now,
                            a,
                            b,
                        );
                    id = a;
                    nonce = b;
                }
                detection = Some(built);
            },
            None => {},
        }
    }
    let score: Double = outcome.snapshot.divergence_pct;
    let j = Judgement {
        snapshot,
        score,
        severity,
        next_state: outcome.next_state,
        detection,
        reason,
    };
    assert(j@ == judged(*policy, *event, outcome@, current_state@, now, id, nonce));
    j
}

fn install_list(v: &mut Vec<DepegPolicy>, list: Vec<DepegPolicy>)
    ensures
        final(v)@ == installed_all(old(v)@, list@),
{
    let ghost start = v@;
    let ghost all = list@;
    let mut rest: Vec<DepegPolicy> = list;
    let ghost mut done: int = 0;
    assert(all.take(0) =~= Seq::<DepegPolicy>::empty());
    assert(all.skip(0) =~= all);
    while rest.len() > 0
        invariant
            0 <= done <= all.len(),
            rest@ == all.skip(done),
            v@ == installed_all(start, all.take(done)),
        decreases rest.len(),
    {
        let p: DepegPolicy = rest.remove(0);
        proof {
            assert(all.skip(done)[0] == all[done]);
            assert(rest@ =~= all.skip(done + 1));
            assert(all.take(done + 1).drop_last() =~= all.take(done));
        }
        install(v, p);
        proof {
            done = done + 1;
        }
    }
    assert(all.take(done) =~= all);
}

proof fn lemma_policies_after(
    rows: Seq<ConfigRow>,
    lists: Seq<Seq<DepegPolicy>>,
    list: Seq<DepegPolicy>,
    n: nat,
)
    requires
        n <= lists.len(),
    ensures
        policies_after(rows, lists.push(list), n) == policies_after(rows, lists, n),
    decreases n,
{
    if n > 0 {
        lemma_policies_after(rows, lists, list, (n - 1) as nat);
    }
}

// ---------------------------------------------------------------------------
// Laws
// ---------------------------------------------------------------------------

/// The policy of a tenant's market belongs to that tenant and that market.
pub proof fn law_policies_are_scoped(s: Seq<DepegPolicy>, tenant: Seq<char>, market: Seq<char>)
    ensures
        policy_for(s, tenant, market) matches Some(p) ==> p.tenant_id@ == tenant && p.market_key@
            == market,
        0 <= policy_place(s, tenant, market) <= s.len(),
    decreases s.len(),
{
    if s.len() > 0 && !is_for(s[0], tenant, market) {
        law_policies_are_scoped(s.skip(1), tenant, market);
    }
}

/// An installed policy is the one of its market, and the other markets keep theirs.
pub proof fn law_installed_policy_is_found(
    s: Seq<DepegPolicy>,
    p: DepegPolicy,
    tenant: Seq<char>,
    market: Seq<char>,
)
    ensures
        policy_for(installed(s, p), tenant, market) == (if is_for(p, tenant, market) {
            Some(p)
        } else {
            policy_for(s, tenant, market)
        }),
    decreases s.len(),
{
    let i = policy_place(s, p.tenant_id@, p.market_key@);
    law_policies_are_scoped(s, p.tenant_id@, p.market_key@);
    let r = installed(s, p);
    if s.len() == 0 {
        assert(r.skip(1) =~= Seq::<DepegPolicy>::empty());
        assert(policy_place(r.skip(1), tenant, market) == 0);
    } else if is_for(s[0], p.tenant_id@, p.market_key@) {
        assert(r.skip(1) =~= s.skip(1));
        law_policies_are_scoped(s.skip(1), tenant, market);
    } else {
        law_installed_policy_is_found(s.skip(1), p, tenant, market);
        assert(r.skip(1) =~= installed(s.skip(1), p));
        law_policies_are_scoped(s.skip(1), tenant, market);
        law_policies_are_scoped(r.skip(1), tenant, market);
    }
}

/// An event that comes late leads to nothing; and the mark never falls.
pub proof fn law_late_events_change_nothing(
    d: DepegPatternV2,
    event: UnifiedEvent,
    scope: ScopeView,
    now: Timestamp,
    st: AlertView,
    r: Result<Option<Judgement>, EvaluationError>,
)
    requires
        may_judge(d, event, scope, now, st, r),
    ensures
        late(st, now) && r is Ok ==> r->Ok_0 is None,
        r matches Ok(Some(j)) ==> ({
            let next = j@.next_state.high_water_mark;
            &&& next is Some
            &&& !next->0.before(now)
            &&& st.high_water_mark matches Some(m) ==> !next->0.before(m)
        }),
{
    reveal(judged);
}

/// The context of a market is isolated where contagion is not looked for; and without an
/// expression, it is systemic if and only if at least two markets deviate.
pub proof fn law_context_without_expression(
    p: DepegPolicy,
    found: Seq<SystemicMarketContext>,
    reply: Option<ReplyView>,
)
    requires
        contagion_fits(p, found, reply),
    ensures
        !p.toggles.contagion_detection ==> context_of(p, found, reply).0
            == ContextClassification::Isolated,
        p.toggles.contagion_detection && p.compiled_contagion is None ==> (context_of(
            p,
            found,
            reply,
        ).0 == ContextClassification::Systemic <==> found.len() >= 2),
{
}

/// The kind of a source follows from its type, whatever the case of that.
pub proof fn law_source_kinds_follow_from_types(t: Seq<char>)
    ensures
        lowered(t) == "cexwebsocket"@ || lowered(t) == "cexapi"@ ==> source_kind_of(t) == "cex"@,
        lowered(t) == "dexapi"@ ==> source_kind_of(t) == "dex"@,
        lowered(t) == "oracleapi"@ ==> source_kind_of(t) == "oracle"@,
        lowered(t) == "customapi"@ ==> source_kind_of(t) == "custom"@,
        lowered(t) == "evmchain"@ ==> source_kind_of(t) == "chain"@,
        lowered(t) != "cexwebsocket"@ && lowered(t) != "cexapi"@ && lowered(t) != "dexapi"@
            && lowered(t) != "oracleapi"@ && lowered(t) != "customapi"@ && lowered(t)
            != "evmchain"@ ==> source_kind_of(t) == "unknown"@,
{
    reveal_strlit("cexwebsocket");
    reveal_strlit("cexapi");
    reveal_strlit("dexapi");
    reveal_strlit("oracleapi");
    reveal_strlit("customapi");
    reveal_strlit("evmchain");
    assert("cexwebsocket"@[1] == 'e' && "cexapi"@[1] == 'e' && "customapi"@[1] == 'u');
    assert("cexwebsocket"@[0] == 'c' && "cexapi"@[0] == 'c' && "customapi"@[0] == 'c');
    assert("dexapi"@[0] == 'd' && "oracleapi"@[0] == 'o' && "evmchain"@[0] == 'e');
}

/// A market is quoted in dollars exactly where its key ends with the mark of the dollar behind a
/// slash, in any case of letters.
pub proof fn law_dollar_markets_end_with_the_dollar(base: Seq<char>, quote: Seq<char>)
    requires
        quote.len() == 4,
    ensures
        in_dollars(base + quote) <==> uppered(quote) == "/USD"@,
{
    reveal_strlit("/USD");
    let m = uppered(base + quote);
    let i: int = m.len() - 4;
    assert("/USD"@.len() == 4);
    assert(m.subrange(i, i + 4) =~= uppered(quote));
}

/// One more policy means one more market that deviates exactly where it is one of the tenant's,
/// is quoted in dollars and is off by its systemic floor or more; it is told with how far it is
/// off and with that floor.
pub proof fn law_deviating_markets_are_told(
    s: Seq<DepegPolicy>,
    p: DepegPolicy,
    cache: Markets,
    tenant: Seq<char>,
    replay: Seq<char>,
    now: Timestamp,
)
    ensures
        ({
            let scope = ScopeView {
                tenant_id: tenant,
                market_key: p.market_key@,
                replay_scope: replay,
            };
            let quoted = market_quotes(cache, scope);
            let d = market_divergence(p, quotes_at(quoted->0, now), now);
            let before = deviating(s, cache, tenant, replay, now, s.len());
            deviating(s.push(p), cache, tenant, replay, now, s.len() + 1) == if p.tenant_id@
                == tenant && in_dollars(p.market_key@) && quoted is Some && d is Some
                && p.systemic_floor_pct.at_most(d->0) {
                before.push(
                    SystemicMarketContext {
                        market_key: p.market_key,
                        divergence_pct: d->0,
                        trigger_floor_pct: p.systemic_floor_pct,
                    },
                )
            } else {
                before
            }
        }),
{
    lemma_deviating_before(s, p, cache, tenant, replay, now, s.len());
    assert(s.push(p)[s.len() as int] == p);
}

proof fn lemma_deviating_before(
    s: Seq<DepegPolicy>,
    p: DepegPolicy,
    cache: Markets,
    tenant: Seq<char>,
    replay: Seq<char>,
    now: Timestamp,
    n: nat,
)
    requires
        n <= s.len(),
    ensures
        deviating(s.push(p), cache, tenant, replay, now, n) == deviating(
            s,
            cache,
            tenant,
            replay,
            now,
            n,
        ),
    decreases n,
{
    if n > 0 {
        lemma_deviating_before(s, p, cache, tenant, replay, now, (n - 1) as nat);
        assert(s.push(p)[n - 1] == s[n - 1]);
    }
}

/// An expression may name the context of a market, in any case of letters, and is then followed;
/// another reply leaves the rule that two deviating markets are systemic. The markets that
/// deviate are told where there are two or more, all of them.
pub proof fn law_contexts_are_named_or_counted(
    p: DepegPolicy,
    found: Seq<SystemicMarketContext>,
    reply: Option<ReplyView>,
    s: Seq<char>,
)
    requires
        p.toggles.contagion_detection,
    ensures
        reply == Some(ReplyView::Text(s)) && lowered(s) == "isolated"@ ==> context_of(
            p,
            found,
            reply,
        ).0 == ContextClassification::Isolated,
        reply == Some(ReplyView::Text(s)) && lowered(s) == "systemic"@ ==> context_of(
            p,
            found,
            reply,
        ).0 == ContextClassification::Systemic,
        contagion_reply(reply) is None ==> (context_of(p, found, reply).0
            == ContextClassification::Systemic <==> found.len() >= 2),
        contagion_reply(reply) is None && found.len() < 2 ==> context_of(p, found, reply).0
            == ContextClassification::Isolated,
        found.len() >= 2 ==> context_of(p, found, reply).1.len() == found.len() && forall|
            m: SystemicMarketContext,
        | #[trigger]
            context_of(p, found, reply).1.contains(m) <==> found.contains(m),
        found.len() < 2 ==> context_of(p, found, reply).1.len() == 0,
{
    reveal_strlit("isolated");
    reveal_strlit("systemic");
    assert("isolated"@[0] != "systemic"@[0]);
    crate::order::lemma_arranged_items(found);
}

/// An expression for the contagion is told how many markets deviate, and nothing of the market.
pub proof fn law_contagion_is_asked_by_count(count: usize)
    requires
        count <= i64::MAX,
    ensures
        lookup(contagion_variables(count), "systemic_market_count"@) == Some(
            Datum::Int(count as i64),
        ),
        contagion_variables(count).len() == 3,
{
}

/// An event is taken in exactly where its source is let in, it has a market with a policy of
/// its tenant, and a price above zero.
pub proof fn law_events_are_taken_in_with_market_and_price(
    d: DepegPatternV2,
    event: UnifiedEvent,
    f: FieldsView,
    market: Seq<char>,
    price: Double,
)
    requires
        f.market_key == Some(market),
        f.price == Some(price),
        price.finite(),
    ensures
        admitted(d, event, f) <==> {
            &&& let_in(d.source_bindings@, event.tenant_id@, event.source_id@)
            &&& price.value() > 0
            &&& policy_for(d.policies@, event.tenant_id@, market) is Some
        },
{
    crate::aggregation::lemma_zero_value();
    crate::double::law_order_is_by_value(double(0), price);
}

/// An event without a market or a price is not taken in.
pub proof fn law_events_need_market_and_price(d: DepegPatternV2, event: UnifiedEvent, f: FieldsView)
    requires
        f.market_key is None || f.price is None,
    ensures
        !admitted(d, event, f),
{
}

/// The state of a market in a run is kept apart from its live state, and the quotes of a run
/// from those of live operation.
pub proof fn law_runs_are_kept_apart(tenant: Seq<char>, market: Seq<char>, run: Seq<char>)
    ensures
        crate::text::trimmed(run).len() > 0 ==> state_key_of(market, Some(run)) == market + "::"@
            + crate::text::trimmed(run),
        state_key_of(market, None) == market,
        crate::text::trimmed(run).len() == 0 ==> state_key_of(market, Some(run)) == market,
        scope_of(tenant, market, Some(run)).replay_scope == run,
        scope_of(tenant, market, None).replay_scope == live_scope(),
        scope_of(tenant, market, Some(run)).tenant_id == tenant,
        scope_of(tenant, market, Some(run)).market_key == market,
{
}

/// The settings of the pattern are as configured, but never below their least values; what is
/// not configured is as usual.
pub proof fn law_settings_have_least_values(s: JsonView, minutes: i64, keys: u32, history: u32)
    ensures
        s.get("quote_cache_ttl_minutes"@) == Some(JsonView::Whole(minutes as int)) && minutes >= 1
            ==> tuned(Some(s)).0 == minutes,
        s.get("quote_cache_ttl_minutes"@) == Some(JsonView::Whole(minutes as int)) && minutes < 1
            ==> tuned(Some(s)).0 == 1,
        s.get("quote_cache_max_keys"@) == Some(JsonView::Whole(keys as int)) && keys >= 16
            ==> tuned(Some(s)).1 == keys,
        s.get("quote_cache_max_keys"@) == Some(JsonView::Whole(keys as int)) && keys < 16 ==> tuned(
            Some(s),
        ).1 == 16,
        s.get("max_quote_history_per_source"@) == Some(JsonView::Whole(history as int)) && history
            >= 2 ==> tuned(Some(s)).2 == history,
        s.get("max_quote_history_per_source"@) == Some(JsonView::Whole(history as int)) && history
            < 2 ==> tuned(Some(s)).2 == 2,
        s.get("quote_cache_ttl_minutes"@) is None ==> tuned(Some(s)).0 == tuned(None).0,
        s.get("quote_cache_max_keys"@) is None ==> tuned(Some(s)).1 == tuned(None).1,
        s.get("max_quote_history_per_source"@) is None ==> tuned(Some(s)).2 == tuned(None).2,
{
}

/// The settings of the pattern are those of the first row that has some, under the name of the
/// pattern's settings or within what is said of detection.
pub proof fn law_the_first_settings_count(rows: Seq<ConfigRow>, i: int, x: JsonView, y: JsonView)
    requires
        0 <= i < rows.len(),
        concerns(rows[i]),
        settings_in(rows[i].config@) is Some,
        forall|k: int|
            0 <= k < i ==> !concerns(#[trigger] rows[k]) || settings_in(rows[k].config@) is None,
    ensures
        first_settings(rows) == settings_in(rows[i].config@),
        rows[i].config@.get("pattern_config"@) == Some(x) ==> first_settings(rows) == Some(x),
        rows[i].config@.get("pattern_config"@) is None && rows[i].config@.get("detection_config"@)
            == Some(y) && y.get("pattern_config"@) == Some(x) ==> first_settings(rows) == Some(x),
    decreases rows.len(),
{
    if i > 0 {
        assert(!concerns(rows[0]) || settings_in(rows[0].config@) is None);
        let rest = rows.skip(1);
        assert forall|k: int| 0 <= k < i - 1 implies !concerns(#[trigger] rest[k]) || settings_in(
            rest[k].config@,
        ) is None by {
            assert(rest[k] == rows[k + 1]);
        }
        law_the_first_settings_count(rest, i - 1, x, y);
    }
}

/// What a tenant says of the fields of its sources is what the last of its rows says that says
/// something.
pub proof fn law_the_last_mappings_of_a_tenant_count(
    rows: Seq<ConfigRow>,
    n: nat,
    tenant: Seq<char>,
    j: int,
)
    requires
        n <= rows.len(),
        -1 <= j < n,
        j >= 0 ==> said_of_sources(rows[j], tenant).len() > 0,
        forall|k: int| j < k < n ==> said_of_sources(#[trigger] rows[k], tenant).len() == 0,
    ensures
        j >= 0 ==> lookup(overrides_after(rows, n), tenant) == Some(
            said_of_sources(rows[j], tenant),
        ),
        j == -1 ==> lookup(overrides_after(rows, n), tenant) is None,
    decreases n,
{
    if n > 0 {
        let before = overrides_after(rows, (n - 1) as nat);
        let r = rows[n - 1];
        let found = match bindings_in(r.config@) {
            Some(s) => overrides_in(s, r.rejected@, s.len()),
            None => Seq::<(Seq<char>, OverrideView)>::empty(),
        };
        law_lookup_after_put(before, r.tenant_id@, found, tenant);
        if j < n - 1 {
            law_the_last_mappings_of_a_tenant_count(rows, (n - 1) as nat, tenant, j);
        }
    }
}

/// What a row says of the fields of a tenant's sources; nothing where it is not for the pattern
/// or for another tenant.
pub open spec fn said_of_sources(r: ConfigRow, tenant: Seq<char>) -> SourceOverrides {
    if concerns(r) && r.tenant_id@ == tenant && bindings_in(r.config@) is Some {
        let s = bindings_in(r.config@)->0;
        overrides_in(s, r.rejected@, s.len())
    } else {
        Seq::<(Seq<char>, OverrideView)>::empty()
    }
}

/// A row is for the pattern under either of its two names.
pub proof fn law_rows_may_be_of_the_first_generation(r: ConfigRow)
    ensures
        concerns(r) <==> r.pattern_id@ == "depeg"@ || r.pattern_id@ == "depeg_v2"@,
{
}

/// An event comes late exactly where a later one was seen before; the mark is the later of the
/// two times.
pub proof fn law_the_mark_is_the_latest_time(st: AlertView, mark: Timestamp, now: Timestamp)
    ensures
        st.high_water_mark == Some(mark) ==> (late(st, now) <==> now.nanos < mark.nanos),
        st.high_water_mark is None ==> !late(st, now) && raised_mark(st, now) == now,
        st.high_water_mark == Some(mark) && now.nanos < mark.nanos ==> raised_mark(st, now) == mark,
        st.high_water_mark == Some(mark) && now.nanos >= mark.nanos ==> raised_mark(st, now) == now,
{
}

/// Completing an outcome adds the markets and the mark and changes nothing else.
pub proof fn law_completing_adds_markets_and_mark(
    o: OutcomeView,
    named: Seq<SystemicMarketContext>,
    st: AlertView,
    now: Timestamp,
)
    ensures
        ({
            let c = completed(o, named, st, now);
            &&& c.snapshot.systemic_markets == named
            &&& c.next_state.high_water_mark == Some(raised_mark(st, now))
            &&& c.next_state.incident == o.next_state.incident
            &&& c.should_emit_alert == o.should_emit_alert
            &&& c.transition == o.transition
            &&& c.emitted_severity == o.emitted_severity
            &&& c.snapshot.breach_active == o.snapshot.breach_active
            &&& c.snapshot.divergence_pct == o.snapshot.divergence_pct
            &&& c.snapshot.severity == o.snapshot.severity
        }),
{
}

/// The quote of an event goes to its own market, which stays whatever else is pruned: what the
/// market has is what it had with the quote. Nothing else is in the cache that was not.
pub proof fn law_quotes_are_remembered_in_their_market(
    before: Seq<CachedMarket>,
    after: Seq<CachedMarket>,
    scope: ScopeView,
    run: Option<Seq<char>>,
    q: QuoteInput,
    now: Timestamp,
    ttl: i64,
    keys: usize,
    history: usize,
)
    requires
        cache_after(before, after, scope, run, q, now, ttl, keys, history),
        before.len() < usize::MAX,
    ensures
        exists|i: int|
            0 <= i < after.len() && (#[trigger] markets(after)[i]) == (
                scope,
                remembered(
                    match market_quotes(markets(before), scope) {
                        Some(h) => h,
                        None => Seq::<(Seq<char>, Seq<QuoteInput>)>::empty(),
                    },
                    q,
                    history as nat,
                ),
            ),
        after.len() <= (if keys == 0 {
            1
        } else {
            keys as nat
        }),
{
    let own = if run is Some {
        kept(before, run_flags(markets(before), scope))
    } else {
        before
    };
    crate::cache::lemma_kept_items(before, run_flags(markets(before), scope));
    let place = market_place(markets(own), scope);
    let mid = choose|mid: Seq<CachedMarket>|
        #[trigger] markets(mid) == markets_with(markets(own), scope, q, history as nat) && after
            == pruned(mid, Some(place), now.before_minutes(ttl as int), keys as nat);
    crate::quotes::lemma_market_stands(markets(own), scope, q, history as nat);
    crate::quotes::law_quotes_go_to_their_market(markets(own), scope, q, history as nat, scope);
    crate::quotes::law_a_run_forgets_the_others(before, scope, scope);
    assert(markets(mid).len() == mid.len());
    assert(markets(own).len() == own.len());
    lemma_place_of_market(markets(mid), scope);
    crate::cache::law_current_entry_survives(
        mid,
        place,
        now.before_minutes(ttl as int),
        keys as nat,
    );
    crate::cache::law_pruned_cache_is_bounded(
        mid,
        Some(place),
        now.before_minutes(ttl as int),
        keys as nat,
    );
    let i = choose|i: int| 0 <= i < after.len() && after[i] == mid[place];
    assert(markets(after)[i] == markets(mid)[place]);
}

proof fn lemma_place_of_market(m: Markets, scope: ScopeView)
    ensures
        0 <= market_place(m, scope) <= m.len(),
        market_place(m, scope) < m.len() ==> m[market_place(m, scope)].0 == scope,
    decreases m.len(),
{
    if m.len() > 0 && m[0].0 != scope {
        lemma_place_of_market(m.skip(1), scope);
    }
}

/// Of the policies of a list the last one for a market is that of the market; a market that the
/// list has none for keeps its own.
pub proof fn law_the_last_policy_of_a_market_counts(
    s: Seq<DepegPolicy>,
    list: Seq<DepegPolicy>,
    tenant: Seq<char>,
    market: Seq<char>,
    i: int,
)
    requires
        -1 <= i < list.len(),
        i >= 0 ==> is_for(list[i], tenant, market),
        forall|k: int| i < k < list.len() ==> !is_for(#[trigger] list[k], tenant, market),
    ensures
        i >= 0 ==> policy_for(installed_all(s, list), tenant, market) == Some(list[i]),
        i == -1 ==> policy_for(installed_all(s, list), tenant, market) == policy_for(
            s,
            tenant,
            market,
        ),
    decreases list.len(),
{
    if list.len() > 0 {
        let front = list.drop_last();
        law_installed_policy_is_found(installed_all(s, front), list.last(), tenant, market);
        if i < list.len() - 1 {
            assert(!is_for(list[list.len() - 1], tenant, market));
            assert forall|k: int| i < k < front.len() implies !is_for(
                #[trigger] front[k],
                tenant,
                market,
            ) by {
                assert(!is_for(list[k], tenant, market));
            }
            law_the_last_policy_of_a_market_counts(s, front, tenant, market, i);
        }
    }
}

/// Of the rows of a configuration the last one with a policy for a market gives the market its
/// policy; a market that no row has a policy for has none.
pub proof fn law_the_last_row_of_a_market_counts(
    rows: Seq<ConfigRow>,
    lists: Seq<Seq<DepegPolicy>>,
    n: nat,
    tenant: Seq<char>,
    market: Seq<char>,
    j: int,
    i: int,
)
    requires
        n <= lists.len(),
        -1 <= j < n,
        j >= 0 ==> 0 <= i < lists[j].len() && is_for(lists[j][i], tenant, market) && forall|k: int|
            i < k < lists[j].len() ==> !is_for(#[trigger] lists[j][k], tenant, market),
        forall|m: int, k: int|
            j < m < n && 0 <= k < lists[m].len() ==> !is_for(
                #[trigger] lists[m][k],
                tenant,
                market,
            ),
    ensures
        j >= 0 ==> policy_for(policies_after(rows, lists, n), tenant, market) == Some(lists[j][i]),
        j == -1 ==> policy_for(policies_after(rows, lists, n), tenant, market) is None,
    decreases n,
{
    if n > 0 {
        let before = policies_after(rows, lists, (n - 1) as nat);
        let list = lists[n - 1];
        if j == n - 1 {
            law_the_last_policy_of_a_market_counts(before, list, tenant, market, i);
        } else {
            assert forall|k: int| -1 < k < list.len() implies !is_for(
                #[trigger] list[k],
                tenant,
                market,
            ) by {
                assert(!is_for(lists[n - 1][k], tenant, market));
            }
            law_the_last_policy_of_a_market_counts(before, list, tenant, market, -1);
            law_the_last_row_of_a_market_counts(rows, lists, (n - 1) as nat, tenant, market, j, i);
        }
    }
}

/// A tenant binds the sources of the last of its rows that has bindings.
pub proof fn law_the_last_bindings_of_a_tenant_count(
    rows: Seq<ConfigRow>,
    n: nat,
    tenant: Seq<char>,
    j: int,
)
    requires
        n <= rows.len(),
        -1 <= j < n,
        j >= 0 ==> concerns(rows[j]) && rows[j].tenant_id@ == tenant && bindings_in(
            rows[j].config@,
        ) is Some,
        forall|k: int|
            j < k < n ==> !(concerns(#[trigger] rows[k]) && rows[k].tenant_id@ == tenant
                && bindings_in(rows[k].config@) is Some),
    ensures
        j >= 0 ==> lookup(bindings_after(rows, n), tenant) == Some(
            bound_sources(bindings_in(rows[j].config@)->0),
        ),
        j == -1 ==> lookup(bindings_after(rows, n), tenant) is None,
    decreases n,
{
    if n > 0 {
        let before = bindings_after(rows, (n - 1) as nat);
        let r = rows[n - 1];
        if bindings_in(r.config@) is Some {
            law_lookup_after_put(
                before,
                r.tenant_id@,
                bound_sources(bindings_in(r.config@)->0),
                tenant,
            );
        }
        if j < n - 1 {
            law_the_last_bindings_of_a_tenant_count(rows, (n - 1) as nat, tenant, j);
        }
    }
}

/// What is judged is kept and scored as it was seen; a detection comes of it exactly where the
/// outcome is to be reported, and a reason is given for simulated events alone.
pub proof fn law_judgements_follow_the_outcome(
    p: DepegPolicy,
    event: UnifiedEvent,
    o: OutcomeView,
    st: AlertView,
    now: Timestamp,
    id: Seq<char>,
    nonce: Seq<char>,
)
    ensures
        ({
            let j = judged(p, event, o, st, now, id, nonce);
            &&& j.score == o.snapshot.divergence_pct
            &&& j.next_state == o.next_state
            &&& o.snapshot.severity is None ==> j.severity is None
            &&& o.snapshot.severity is Some ==> j.severity == Some(
                severity_name(o.snapshot.severity->0),
            )
            &&& j.detection is Some <==> o.should_emit_alert && o.emitted_severity is Some
            &&& j.detection is Some ==> j.detection->0.severity == o.emitted_severity->0
                && j.detection->0.incident_transition == o.transition
                && j.detection->0.tenant_id == Some(p.tenant_id@) && j.detection->0.created_at
                == now
            &&& j.reason is Some <==> simulated(event.payload@)
            &&& j.snapshot == snapshot_with_meta(
                event.payload@,
                event.timestamp,
                snapshot_json(p, o),
            )
        }),
{
    reveal(judged);
}

/// An event is judged by the policy of its market, on the quotes that held at its time, with the
/// state as it was and in the context of the tenant's other markets, as the expressions of the
/// policy reply.
pub proof fn law_events_are_judged_on_the_quotes_that_held(
    d: DepegPatternV2,
    event: UnifiedEvent,
    scope: ScopeView,
    now: Timestamp,
    st: AlertView,
    r: Result<Option<Judgement>, EvaluationError>,
    p: DepegPolicy,
    held: Seq<QuoteInput>,
    found: Seq<SystemicMarketContext>,
)
    requires
        may_judge(d, event, scope, now, st, r),
        held == match market_quotes(markets(d.quote_cache@), scope) {
            Some(h) => quotes_at(h, now),
            None => Seq::<QuoteInput>::empty(),
        },
        found == deviating(
            d.policies@,
            markets(d.quote_cache@),
            scope.tenant_id,
            scope.replay_scope,
            now,
            d.policies@.len(),
        ),
    ensures
        policy_for(d.policies@, scope.tenant_id, scope.market_key) is None ==> r is Ok && r->Ok_0
            is None,
        policy_for(d.policies@, scope.tenant_id, scope.market_key) == Some(p) && !late(st, now)
            ==> exists|c: Option<ReplyView>, v: RepliesView| #[trigger]
            judged_with(p, st, now, r, held, found, c, v),
{
    if policy_for(d.policies@, scope.tenant_id, scope.market_key) == Some(p) && !late(st, now) {
        reveal(judged);
        let (c, v, id, nonce) = choose|
            c: Option<ReplyView>,
            v: RepliesView,
            id: Seq<char>,
            nonce: Seq<char>,
        | #[trigger]
            judgement_fits(d, p, event, scope, now, st, r, c, v, id, nonce);
        assert(judged_with(p, st, now, r, held, found, c, v));
    }
}

/// Whether a judgement is what the policy makes of quotes and deviating markets where its
/// expressions reply `c` on the contagion and `v` on the market.
pub open spec fn judged_with(
    p: DepegPolicy,
    st: AlertView,
    now: Timestamp,
    r: Result<Option<Judgement>, EvaluationError>,
    held: Seq<QuoteInput>,
    found: Seq<SystemicMarketContext>,
    c: Option<ReplyView>,
    v: RepliesView,
) -> bool {
    let context = context_of(p, found, c);
    let o = evaluation(p, held, st, now, context.0, v);
    &&& contagion_fits(p, found, c)
    &&& replies_fit(p, held, now, context.0, v)
    &&& r is Err <==> o is None
    &&& r is Ok ==> {
        &&& r->Ok_0 is Some
        &&& r->Ok_0->0@.next_state.incident == o->0.next_state.incident
        &&& r->Ok_0->0@.next_state.high_water_mark == Some(raised_mark(st, now))
        &&& r->Ok_0->0@.score == o->0.snapshot.divergence_pct
        &&& r->Ok_0->0@.detection is Some <==> o->0.should_emit_alert && o->0.emitted_severity
            is Some
    }
}

/// The quotes of a market that held at a time are those of the market, and none where it has
/// none.
pub proof fn law_held_quotes_are_those_of_the_market(cache: Markets, scope: ScopeView, now: Timestamp)
    ensures
        market_quotes(cache, scope) is Some ==> held_quotes(cache, scope, now) == quotes_at(
            market_quotes(cache, scope)->0,
            now,
        ),
        market_quotes(cache, scope) is None ==> held_quotes(cache, scope, now).len() == 0,
{
}

/// Where nothing is configured, quotes are kept for two hours, for two thousand and forty-eight
/// markets, sixteen of a source.
pub proof fn law_the_usual_settings()
    ensures
        tuned(None) == (120i64, 2048usize, 16usize),
{
}

} // verus!
