//! What is reported of a depeg.

use vstd::prelude::*;
use vstd::string::StringExecFns;

use crate::aggregation::double;
use crate::aggregation::ONE_BITS;
use crate::depeg_v2::evaluation::ConsensusSnapshot;
use crate::depeg_v2::evaluation::DepegAlertState;
use crate::depeg_v2::evaluation::EvaluationOutcome;
use crate::depeg_v2::evaluation::EvidenceContributor;
use crate::depeg_v2::evaluation::OutcomeView;
use crate::depeg_v2::evaluation::SnapshotView;
use crate::depeg_v2::evaluation::SystemicMarketContext;
use crate::depeg_v2::policy::DepegPolicy;
use crate::digits::fixed;
use crate::digits::fixed_text;
use crate::double::clamped;
use crate::double::quotient;
use crate::double::smaller;
use crate::double::Double;
use crate::event::classification_name;
use crate::event::context_classification_str;
use crate::event::incident_transition_str;
use crate::event::rank;
use crate::event::severity_rank;
use crate::event::simulated;
use crate::event::simulation_metadata_from_event;
use crate::event::simulation_run;
use crate::event::signals_view;
use crate::event::transition_name;
use crate::event::AttackFamily;
use crate::event::Chain;
use crate::event::DetectionResult;
use crate::event::DetectionSignal;
use crate::event::DetectionView;
use crate::event::IncidentTransition;
use crate::event::LifecycleState;
use crate::event::RiskScore;
use crate::event::RiskView;
use crate::event::Severity;
use crate::event::SignalType;
use crate::event::SignalView;
use crate::event::SimulationMetadata;
use crate::event::UnifiedEvent;
use crate::incident::active_severity;
use crate::incident::cooling;
use crate::incident::depeg_actions;
use crate::incident::recommended_actions_for_severity;
use crate::incident::ConfidenceBreakdown;
use crate::incident::IncidentState;
use crate::json::add_member;
use crate::json::list_view;
use crate::json::members_view;
use crate::json::number_json;
use crate::json::optional_number_json;
use crate::json::Json;
use crate::json::JsonView;
use crate::json::Members;
use crate::outside::fresh_id;
use crate::outside::is_id;
use crate::outside::timestamp_json;
use crate::outside::timestamp_to_json;
use crate::quotes::HUNDRED_BITS;
use crate::text::contains;
use crate::text::decimal;
use crate::text::decimal_text;
use crate::text::holds;
use crate::text::join3;
use crate::text::lowercase;
use crate::text::lowered;
use crate::text::one_text;
use crate::text::same;
use crate::text::texts;
use crate::text::truth;
use crate::text::truth_text;
use crate::time::Timestamp;

verus! {

/// The name of the pattern.
pub open spec fn pattern_name() -> Seq<char> {
    "depeg_v2"@
}

/// Whether a quote is that of the oracle with `hint` in its name.
pub open spec fn hinted(c: EvidenceContributor, hint: Seq<char>) -> bool {
    c.source_kind@ == "oracle"@ && holds(lowered(c.source_id@), hint)
}

/// The price and the divergence of the first oracle with `hint` in its name.
pub open spec fn oracle_fields(s: Seq<EvidenceContributor>, hint: Seq<char>) -> (
    Option<Double>,
    Option<Double>,
)
    decreases s.len(),
{
    if s.len() == 0 {
        (None, None)
    } else if hinted(s[0], hint) {
        (Some(s[0].price), Some(s[0].divergence_pct))
    } else {
        oracle_fields(s.skip(1), hint)
    }
}

pub fn oracle_price_fields(contributors: &Vec<EvidenceContributor>, source_hint: &str) -> (r: (
    Option<Double>,
    Option<Double>,
))
    ensures
        r == oracle_fields(contributors@, source_hint@),
{
    let mut i: usize = 0;
    assert(contributors@.skip(0) =~= contributors@);
    while i < contributors.len()
        invariant
            i <= contributors.len(),
            oracle_fields(contributors@, source_hint@) == oracle_fields(
                contributors@.skip(i as int),
                source_hint@,
            ),
        decreases contributors.len() - i,
    {
        let c: &EvidenceContributor = &contributors[i];
        if same(c.source_kind.as_str(), "oracle") && contains(
            lowercase(c.source_id.as_str()).as_str(),
            source_hint,
        ) {
            return (Some(c.price), Some(c.divergence_pct));
        }
        assert(contributors@.skip(i as int).skip(1) =~= contributors@.skip(i + 1));
        i = i + 1;
    }
    (None, None)
}

// ---------------------------------------------------------------------------
// Documents
// ---------------------------------------------------------------------------

/// A contributor as a document.
pub open spec fn contributor_json(c: EvidenceContributor) -> JsonView {
    JsonView::Object(
        seq![
            ("source_id"@, JsonView::Text(c.source_id@)),
            ("source_kind"@, JsonView::Text(c.source_kind@)),
            ("price"@, number_json(c.price)),
            ("observed_at"@, timestamp_json(c.observed_at)),
            ("age_ms"@, JsonView::Whole(c.age_ms as int)),
            ("weight"@, number_json(c.weight)),
            ("divergence_pct"@, number_json(c.divergence_pct)),
            ("supports_alert_direction"@, JsonView::Bool(c.supports_alert_direction)),
            ("contributes_to_quorum"@, JsonView::Bool(c.contributes_to_quorum)),
            ("confirms_oracle"@, JsonView::Bool(c.confirms_oracle)),
            ("contributes_to_breach"@, JsonView::Bool(c.contributes_to_breach)),
        ],
    )
}

/// Contributors as a document.
pub open spec fn contributors_json(s: Seq<EvidenceContributor>) -> JsonView {
    JsonView::List(s.map_values(|c: EvidenceContributor| contributor_json(c)))
}

/// A market as a document.
pub open spec fn systemic_json(m: SystemicMarketContext) -> JsonView {
    JsonView::Object(
        seq![
            ("market_key"@, JsonView::Text(m.market_key@)),
            ("divergence_pct"@, number_json(m.divergence_pct)),
            ("trigger_floor_pct"@, number_json(m.trigger_floor_pct)),
        ],
    )
}

/// Markets as a document.
pub open spec fn systemics_json(s: Seq<SystemicMarketContext>) -> JsonView {
    JsonView::List(s.map_values(|m: SystemicMarketContext| systemic_json(m)))
}

fn contributor_to_json(c: &EvidenceContributor) -> (r: Json)
    ensures
        r@ == contributor_json(*c),
{
    let mut v: Vec<(String, Json)> = Vec::new();
    add_member(&mut v, "source_id", Json::Text(c.source_id.clone()));
    add_member(&mut v, "source_kind", Json::Text(c.source_kind.clone()));
    add_member(&mut v, "price", Json::number(c.price));
    add_member(&mut v, "observed_at", timestamp_to_json(c.observed_at));
    add_member(&mut v, "age_ms", Json::Int(c.age_ms));
    add_member(&mut v, "weight", Json::number(c.weight));
    add_member(&mut v, "divergence_pct", Json::number(c.divergence_pct));
    add_member(&mut v, "supports_alert_direction", Json::Bool(c.supports_alert_direction));
    add_member(&mut v, "contributes_to_quorum", Json::Bool(c.contributes_to_quorum));
    add_member(&mut v, "confirms_oracle", Json::Bool(c.confirms_oracle));
    add_member(&mut v, "contributes_to_breach", Json::Bool(c.contributes_to_breach));
    assert(members_view(v@) =~= contributor_json(*c)->Object_0);
    Json::object(v)
}

fn contributors_to_json(s: &Vec<EvidenceContributor>) -> (r: Json)
    ensures
        r@ == contributors_json(s@),
{
    let ghost all = contributors_json(s@)->List_0;
    let mut v: Vec<Json> = Vec::new();
    let mut i: usize = 0;
    while i < s.len()
        invariant
            i <= s.len(),
            all == contributors_json(s@)->List_0,
            list_view(v@) == all.take(i as int),
        decreases s.len() - i,
    {
        let ghost before = v@;
        v.push(contributor_to_json(&s[i]));
        assert(list_view(v@) =~= list_view(before).push(all[i as int]));
        assert(all.take(i + 1) =~= all.take(i as int).push(all[i as int]));
        i = i + 1;
    }
    assert(all.take(all.len() as int) =~= all);
    Json::list(v)
}

fn systemics_to_json(s: &Vec<SystemicMarketContext>) -> (r: Json)
    ensures
        r@ == systemics_json(s@),
{
    let ghost all = systemics_json(s@)->List_0;
    let mut v: Vec<Json> = Vec::new();
    let mut i: usize = 0;
    while i < s.len()
        invariant
            i <= s.len(),
            all == systemics_json(s@)->List_0,
            list_view(v@) == all.take(i as int),
        decreases s.len() - i,
    {
        let ghost before = v@;
        let mut m: Vec<(String, Json)> = Vec::new();
        add_member(&mut m, "market_key", Json::Text(s[i].market_key.clone()));
        add_member(&mut m, "divergence_pct", Json::number(s[i].divergence_pct));
        add_member(&mut m, "trigger_floor_pct", Json::number(s[i].trigger_floor_pct));
        assert(members_view(m@) =~= systemic_json(s@[i as int])->Object_0);
        v.push(Json::object(m));
        assert(list_view(v@) =~= list_view(before).push(all[i as int]));
        assert(all.take(i + 1) =~= all.take(i as int).push(all[i as int]));
        i = i + 1;
    }
    assert(all.take(all.len() as int) =~= all);
    Json::list(v)
}

/// The parts of a confidence as named numbers.
pub open spec fn named_confidence(c: Option<ConfidenceBreakdown>) -> Seq<(Seq<char>, Double)> {
    match c {
        Some(c) => seq![
            ("source_agreement"@, c.source_agreement),
            ("oracle_confirmation"@, c.oracle_confirmation),
            ("volume_confirmation"@, c.volume_confirmation),
            ("total"@, c.total),
        ],
        None => Seq::<(Seq<char>, Double)>::empty(),
    }
}

pub fn confidence_entries(c: &Option<ConfidenceBreakdown>) -> (r: Vec<(String, Double)>)
    ensures
        crate::event::numbers_view(r@) == named_confidence(*c),
{
    let mut r: Vec<(String, Double)> = Vec::new();
    match c {
        Some(c) => {
            r.push(("source_agreement".to_owned(), c.source_agreement));
            r.push(("oracle_confirmation".to_owned(), c.oracle_confirmation));
            r.push(("volume_confirmation".to_owned(), c.volume_confirmation));
            r.push(("total".to_owned(), c.total));
        },
        None => {},
    }
    assert(crate::event::numbers_view(r@) =~= named_confidence(*c));
    r
}

/// Named numbers as a document.
pub open spec fn numbers_json(s: Seq<(Seq<char>, Double)>) -> JsonView {
    JsonView::Object(s.map_values(|e: (Seq<char>, Double)| (e.0, number_json(e.1))))
}

pub fn numbers_to_json(s: &Vec<(String, Double)>) -> (r: Json)
    ensures
        r@ == numbers_json(crate::event::numbers_view(s@)),
{
    let ghost all = numbers_json(crate::event::numbers_view(s@))->Object_0;
    let mut v: Vec<(String, Json)> = Vec::new();
    let mut i: usize = 0;
    assert(members_view(v@) =~= all.take(0));
    while i < s.len()
        invariant
            i <= s.len(),
            all == numbers_json(crate::event::numbers_view(s@))->Object_0,
            members_view(v@) == all.take(i as int),
        decreases s.len() - i,
    {
        add_member(&mut v, s[i].0.as_str(), Json::number(s[i].1));
        assert(all.take(i + 1) =~= all.take(i as int).push(all[i as int]));
        i = i + 1;
    }
    assert(all.take(all.len() as int) =~= all);
    Json::object(v)
}

/// The total confidence; zero where there is none.
pub open spec fn total_of(c: Option<ConfidenceBreakdown>) -> Double {
    match c {
        Some(c) => c.total,
        None => double(0),
    }
}

fn total_confidence(c: &Option<ConfidenceBreakdown>) -> (r: Double)
    ensures
        r == total_of(*c),
{
    match c {
        Some(c) => c.total,
        None => Double { bits: 0 },
    }
}

/// The snapshot of an evaluation, as it is kept.
pub open spec fn snapshot_json(p: DepegPolicy, o: OutcomeView) -> JsonView {
    let s = o.snapshot;
    JsonView::Object(
        seq![
            ("weighted_median_price"@, number_json(s.weighted_median_price)),
            ("divergence_pct"@, number_json(s.divergence_pct)),
            ("source_count"@, JsonView::Whole(s.source_count as int)),
            ("eligible_source_count"@, JsonView::Whole(s.eligible_source_count as int)),
            ("quorum_met"@, JsonView::Bool(s.quorum_met)),
            ("breach_active"@, JsonView::Bool(s.breach_active)),
            ("oracle_confirmed"@, JsonView::Bool(s.oracle_confirmed)),
            ("context_classification"@, JsonView::Text(classification_name(s.classification))),
            ("trigger_floor_pct"@, number_json(s.trigger_floor_pct)),
            ("confidence_breakdown"@, numbers_json(named_confidence(s.confidence_breakdown))),
            (
                "incident_transition"@,
                match o.transition {
                    Some(t) => JsonView::Text(transition_name(t)),
                    None => JsonView::Null,
                },
            ),
            ("peg_target"@, number_json(p.peg_target)),
            ("contributing_sources"@, contributors_json(s.contributors)),
            ("systemic_markets"@, systemics_json(s.systemic_markets)),
        ],
    )
}

pub fn snapshot_document(policy: &DepegPolicy, outcome: &EvaluationOutcome) -> (r: Json)
    ensures
        r@ == snapshot_json(*policy, outcome@),
{
    let s: &ConsensusSnapshot = &outcome.snapshot;
    let mut v: Vec<(String, Json)> = Vec::new();
    add_member(&mut v, "weighted_median_price", Json::number(s.weighted_median_price));
    add_member(&mut v, "divergence_pct", Json::number(s.divergence_pct));
    add_member(&mut v, "source_count", Json::UInt(s.source_count as u64));
    add_member(&mut v, "eligible_source_count", Json::UInt(s.eligible_source_count as u64));
    add_member(&mut v, "quorum_met", Json::Bool(s.quorum_met));
    add_member(&mut v, "breach_active", Json::Bool(s.breach_active));
    add_member(&mut v, "oracle_confirmed", Json::Bool(s.oracle_confirmed));
    add_member(
        &mut v,
        "context_classification",
        Json::text(context_classification_str(&s.classification)),
    );
    add_member(&mut v, "trigger_floor_pct", Json::number(s.trigger_floor_pct));
    add_member(
        &mut v,
        "confidence_breakdown",
        numbers_to_json(&confidence_entries(&s.confidence_breakdown)),
    );
    let transition: Json = match &outcome.transition {
        Some(t) => Json::text(incident_transition_str(t)),
        None => Json::Null,
    };
    add_member(&mut v, "incident_transition", transition);
    add_member(&mut v, "peg_target", Json::number(policy.peg_target));
    add_member(&mut v, "contributing_sources", contributors_to_json(&s.contributors));
    add_member(&mut v, "systemic_markets", systemics_to_json(&s.systemic_markets));
    assert(members_view(v@) =~= snapshot_json(*policy, outcome@)->Object_0);
    Json::object(v)
}

// ---------------------------------------------------------------------------
// Detections
// ---------------------------------------------------------------------------

/// What is said of a depeg.
pub open spec fn description_of(p: DepegPolicy, s: SnapshotView) -> Seq<char> {
    "Market "@ + p.market_key@ + " deviated "@ + fixed(s.divergence_pct, 6)
        + "% from peg target "@ + fixed(p.peg_target, 6) + " (median: "@ + fixed(
        s.weighted_median_price,
        6,
    ) + "). "@ + decimal(s.source_count) + " source(s), quorum: "@ + (if s.quorum_met {
        "met"@
    } else {
        "not met"@
    }) + "."@
}

fn describe(policy: &DepegPolicy, s: &ConsensusSnapshot) -> (r: String)
    ensures
        r@ == description_of(*policy, s@),
{
    let mut r = "Market ".to_owned();
    r.append(policy.market_key.as_str());
    r.append(" deviated ");
    r.append(fixed_text(s.divergence_pct, 6).as_str());
    r.append("% from peg target ");
    r.append(fixed_text(policy.peg_target, 6).as_str());
    r.append(" (median: ");
    r.append(fixed_text(s.weighted_median_price, 6).as_str());
    r.append("). ");
    r.append(decimal_text(s.source_count as u64).as_str());
    r.append(" source(s), quorum: ");
    r.append(
        if s.quorum_met {
            "met"
        } else {
            "not met"
        },
    );
    r.append(".");
    r
}

/// Why a depeg has its score.
pub open spec fn rationale_of(p: DepegPolicy, s: SnapshotView) -> Seq<Seq<char>> {
    seq![
        "context="@ + classification_name(s.classification) + " oracle_confirmed="@ + truth(
            s.oracle_confirmed,
        ) + " quorum_met="@ + truth(s.quorum_met),
        "weighted_median="@ + fixed(s.weighted_median_price, 6) + " peg_target="@ + fixed(
            p.peg_target,
            6,
        ),
    ]
}

fn rationale(policy: &DepegPolicy, s: &ConsensusSnapshot) -> (r: Vec<String>)
    ensures
        texts(r@) == rationale_of(*policy, s@),
{
    let mut a = "context=".to_owned();
    a.append(context_classification_str(&s.classification));
    a.append(" oracle_confirmed=");
    a.append(truth_text(s.oracle_confirmed));
    a.append(" quorum_met=");
    a.append(truth_text(s.quorum_met));
    let mut b = "weighted_median=".to_owned();
    b.append(fixed_text(s.weighted_median_price, 6).as_str());
    b.append(" peg_target=");
    b.append(fixed_text(policy.peg_target, 6).as_str());
    let mut r: Vec<String> = Vec::new();
    r.push(a);
    r.push(b);
    assert(texts(r@) =~= rationale_of(*policy, s@));
    r
}

/// What a detection tells of the oracles and the evaluation.
pub open spec fn oracle_context_of(p: DepegPolicy, s: SnapshotView) -> Members {
    let chainlink = oracle_fields(s.contributors, "chainlink"@);
    let pyth = oracle_fields(s.contributors, "pyth"@);
    let context = JsonView::Text(classification_name(s.classification));
    seq![
        ("oracle_confirmed"@, JsonView::Bool(s.oracle_confirmed)),
        ("weighted_median_price"@, number_json(s.weighted_median_price)),
        ("trigger_floor_pct"@, number_json(s.trigger_floor_pct)),
        ("context_classification"@, context),
        ("contagion_status"@, context),
        ("source_count"@, JsonView::Whole(s.source_count as int)),
        ("eligible_source_count"@, JsonView::Whole(s.eligible_source_count as int)),
        ("healthy_source_count"@, JsonView::Whole(s.source_count as int)),
        ("total_source_count"@, JsonView::Whole(s.eligible_source_count as int)),
        ("divergence_pct"@, number_json(s.divergence_pct)),
        ("peg_target"@, number_json(p.peg_target)),
        ("chainlink_price"@, optional_number_json(chainlink.0)),
        ("chainlink_deviation_pct"@, optional_number_json(chainlink.1)),
        ("pyth_price"@, optional_number_json(pyth.0)),
        ("pyth_deviation_pct"@, optional_number_json(pyth.1)),
        ("contributing_sources"@, contributors_json(s.contributors)),
        ("systemic_markets"@, systemics_json(s.systemic_markets)),
    ]
}

fn oracle_context(policy: &DepegPolicy, s: &ConsensusSnapshot) -> (v: Vec<(String, Json)>)
    ensures
        members_view(v@) == oracle_context_of(*policy, s@),
{
    let (chainlink_price, chainlink_deviation): (Option<Double>, Option<Double>) =
        oracle_price_fields(&s.contributors, "chainlink");
    let (pyth_price, pyth_deviation): (Option<Double>, Option<Double>) = oracle_price_fields(
        &s.contributors,
        "pyth",
    );
    let context: &'static str = context_classification_str(&s.classification);
    let mut v: Vec<(String, Json)> = Vec::new();
    add_member(&mut v, "oracle_confirmed", Json::Bool(s.oracle_confirmed));
    add_member(&mut v, "weighted_median_price", Json::number(s.weighted_median_price));
    add_member(&mut v, "trigger_floor_pct", Json::number(s.trigger_floor_pct));
    add_member(&mut v, "context_classification", Json::text(context));
    add_member(&mut v, "contagion_status", Json::text(context));
    add_member(&mut v, "source_count", Json::UInt(s.source_count as u64));
    add_member(&mut v, "eligible_source_count", Json::UInt(s.eligible_source_count as u64));
    add_member(&mut v, "healthy_source_count", Json::UInt(s.source_count as u64));
    add_member(&mut v, "total_source_count", Json::UInt(s.eligible_source_count as u64));
    add_member(&mut v, "divergence_pct", Json::number(s.divergence_pct));
    add_member(&mut v, "peg_target", Json::number(policy.peg_target));
    add_member(&mut v, "chainlink_price", Json::optional_number(chainlink_price));
    add_member(&mut v, "chainlink_deviation_pct", Json::optional_number(chainlink_deviation));
    add_member(&mut v, "pyth_price", Json::optional_number(pyth_price));
    add_member(&mut v, "pyth_deviation_pct", Json::optional_number(pyth_deviation));
    add_member(&mut v, "contributing_sources", contributors_to_json(&s.contributors));
    add_member(&mut v, "systemic_markets", systemics_to_json(&s.systemic_markets));
    assert(members_view(v@) =~= oracle_context_of(*policy, s@));
    v
}

/// The detection of a depeg, with its identifier and the nonce of its transaction.
pub open spec fn detection_of(
    payload: JsonView,
    p: DepegPolicy,
    s: SnapshotView,
    severity: Severity,
    transition: Option<IncidentTransition>,
    now: Timestamp,
    id: Seq<char>,
    nonce: Seq<char>,
) -> DetectionView {
    DetectionView {
        detection_id: id,
        pattern_id: pattern_name(),
        event_key: Some("depeg:"@ + p.tenant_id@ + ":"@ + p.market_key@),
        subject_type: Some("market"@),
        subject_key: Some(p.tenant_id@ + ":"@ + p.market_key@),
        tenant_id: Some(p.tenant_id@),
        chain: Chain::Offchain,
        chain_slug: "offchain"@,
        protocol: "Stablecoin"@,
        lifecycle_state: LifecycleState::Confirmed,
        requires_confirmation: p.toggles.oracle_confirmation,
        attack_family: AttackFamily::PegDeviation,
        severity,
        tx_hash: "depeg-"@ + nonce,
        block_number: 0,
        triggered_rule_ids: seq!["depeg.sustained_breach"@],
        description: Some(description_of(p, s)),
        signals: seq![
            SignalView {
                signal_type: SignalType::PriceDeviation,
                value: s.divergence_pct,
                label: Some(fixed(s.divergence_pct, 6) + "%"@),
                source_id: None,
            },
        ],
        risk_score: RiskView {
            score: smaller(s.divergence_pct, double(HUNDRED_BITS)),
            confidence: clamped(
                quotient(total_of(s.confidence_breakdown), double(HUNDRED_BITS)),
                double(0),
                double(ONE_BITS),
            ),
            rationale: rationale_of(p, s),
            attribution: Seq::<Seq<char>>::empty(),
        },
        incident_transition: transition,
        context_classification: Some(s.classification),
        confidence_breakdown: named_confidence(s.confidence_breakdown),
        oracle_context: oracle_context_of(p, s),
        actions_recommended: depeg_actions(severity),
        is_simulated: simulated(payload),
        simulation_run_id: simulation_run(payload),
        detected_at: Some(now),
        created_at: now,
    }
}

/// Reports a depeg under the given identifier and nonce.
pub fn detection_with_ids(
    event: &UnifiedEvent,
    policy: &DepegPolicy,
    snapshot: &ConsensusSnapshot,
    severity: Severity,
    transition: Option<IncidentTransition>,
    now: Timestamp,
    id: String,
    nonce: &str,
) -> (r: DetectionResult)
    ensures
        r@ == detection_of(
            event.payload@,
            *policy,
            snapshot@,
            severity,
            transition,
            now,
            id@,
            nonce@,
        ),
{
    let hundred = Double { bits: HUNDRED_BITS };
    let simulation: SimulationMetadata = simulation_metadata_from_event(event);
    let mut event_key = "depeg:".to_owned();
    event_key.append(policy.tenant_id.as_str());
    event_key.append(":");
    event_key.append(policy.market_key.as_str());
    let mut tx_hash = "depeg-".to_owned();
    tx_hash.append(nonce);
    let mut label: String = fixed_text(snapshot.divergence_pct, 6);
    label.append("%");
    let mut signals: Vec<DetectionSignal> = Vec::new();
    signals.push(
        DetectionSignal {
            signal_type: SignalType::PriceDeviation,
            value: snapshot.divergence_pct,
            label: Some(label),
            source_id: None,
        },
    );
    let risk_score = RiskScore {
        score: snapshot.divergence_pct.min(hundred),
        confidence: total_confidence(&snapshot.confidence_breakdown).over(hundred).clamp(
            Double { bits: 0 },
            Double { bits: ONE_BITS },
        ),
        rationale: rationale(policy, snapshot),
        attribution: Vec::new(),
    };
    let r = DetectionResult {
        detection_id: id,
        pattern_id: "depeg_v2".to_owned(),
        event_key: Some(event_key),
        subject_type: Some("market".to_owned()),
        subject_key: Some(join3(policy.tenant_id.as_str(), ":", policy.market_key.as_str())),
        tenant_id: Some(policy.tenant_id.clone()),
        chain: Chain::Offchain,
        chain_slug: "offchain".to_owned(),
        protocol: "Stablecoin".to_owned(),
        lifecycle_state: LifecycleState::Confirmed,
        requires_confirmation: policy.toggles.oracle_confirmation,
        attack_family: AttackFamily::PegDeviation,
        severity,
        tx_hash,
        block_number: 0,
        triggered_rule_ids: one_text("depeg.sustained_breach".to_owned()),
        description: Some(describe(policy, snapshot)),
        signals,
        risk_score,
        incident_transition: transition,
        context_classification: Some(snapshot.classification),
        confidence_breakdown: confidence_entries(&snapshot.confidence_breakdown),
        oracle_context: oracle_context(policy, snapshot),
        actions_recommended: recommended_actions_for_severity(&severity),
        is_simulated: simulation.is_simulated,
        simulation_run_id: simulation.run_id,
        detected_at: Some(now),
        created_at: now,
    };
    proof {
        let d = detection_of(
            event.payload@,
            *policy,
            snapshot@,
            severity,
            transition,
            now,
            id@,
            nonce@,
        );
        assert(signals_view(r.signals@) =~= d.signals);
        assert(texts(r.risk_score.attribution@) =~= Seq::<Seq<char>>::empty());
    }
    r
}

/// Reports a depeg.
pub fn build_detection(
    event: &UnifiedEvent,
    policy: &DepegPolicy,
    snapshot: &ConsensusSnapshot,
    severity: Severity,
    transition: Option<IncidentTransition>,
    now: Timestamp,
) -> (r: DetectionResult)
    ensures
        exists|id: Seq<char>, nonce: Seq<char>|
            is_id(id) && is_id(nonce) && r@ == #[trigger] detection_of(
                event.payload@,
                *policy,
                snapshot@,
                severity,
                transition,
                now,
                id,
                nonce,
            ),
{
    let id: String = fresh_id();
    let nonce: String = fresh_id();
    detection_with_ids(
        event,
        policy,
        snapshot,
        severity,
        transition,
        now,
        id,
        nonce.as_str(),
    )
}

// ---------------------------------------------------------------------------
// Why nothing is reported
// ---------------------------------------------------------------------------

/// What is said of a reported change.
pub open spec fn emitted_reason(t: Option<IncidentTransition>) -> Seq<char> {
    match t {
        Some(IncidentTransition::Trigger) => "emitted_trigger"@,
        Some(IncidentTransition::Escalate) => "emitted_escalate"@,
        Some(IncidentTransition::Deescalate) => "emitted_deescalate"@,
        Some(IncidentTransition::Resolve) => "emitted_resolve"@,
        Some(IncidentTransition::Retract) => "emitted_retract"@,
        Some(IncidentTransition::Update) => "emitted_update"@,
        None => "emitted_detection"@,
    }
}

pub fn emitted_reason_text(t: Option<IncidentTransition>) -> (r: &'static str)
    ensures
        r@ == emitted_reason(t),
{
    match t {
        Some(IncidentTransition::Trigger) => "emitted_trigger",
        Some(IncidentTransition::Escalate) => "emitted_escalate",
        Some(IncidentTransition::Deescalate) => "emitted_deescalate",
        Some(IncidentTransition::Resolve) => "emitted_resolve",
        Some(IncidentTransition::Retract) => "emitted_retract",
        Some(IncidentTransition::Update) => "emitted_update",
        None => "emitted_detection",
    }
}

/// Why an evaluation reports what it does, or nothing.
pub open spec fn reason(
    p: DepegPolicy,
    st: crate::incident::IncidentView,
    o: OutcomeView,
    now: Timestamp,
    total: Double,
) -> Seq<char> {
    let previous = active_severity(st);
    let current = o.snapshot.severity;
    if o.should_emit_alert {
        emitted_reason(o.transition)
    } else if o.snapshot.breach_active {
        if previous is None {
            if cooling(st, now) {
                "cooldown_active_for_trigger"@
            } else {
                "trigger_suppressed"@
            }
        } else if rank(current) > rank(previous) {
            if cooling(st, now) {
                "cooldown_active_for_escalation"@
            } else {
                "escalation_suppressed"@
            }
        } else if rank(current) < rank(previous) {
            if o.next_state.incident.below_severity_blocks < p.deescalation_blocks {
                "deescalation_window_not_met"@
            } else if cooling(st, now) {
                "cooldown_active_for_deescalation"@
            } else {
                "deescalation_suppressed"@
            }
        } else {
            "already_active_same_severity"@
        }
    } else if !o.snapshot.quorum_met {
        "quorum_not_met"@
    } else if p.toggles.oracle_confirmation && !o.snapshot.oracle_confirmed {
        "oracle_confirmation_not_met"@
    } else if total.below(p.min_confidence_to_fire) {
        "confidence_below_threshold"@
    } else if current is None {
        "trigger_floor_not_met"@
    } else if previous is Some {
        if 0 < o.next_state.incident.below_trigger_blocks < p.resolution_blocks {
            "resolution_window_not_met"@
        } else if cooling(st, now) {
            "cooldown_active_for_resolution"@
        } else {
            "resolution_gates_not_met"@
        }
    } else {
        "breach_inactive"@
    }
}

pub fn depeg_test_mode_reason(
    policy: &DepegPolicy,
    current_state: &DepegAlertState,
    outcome: &EvaluationOutcome,
    now: Timestamp,
    confidence_total: Double,
) -> (r: &'static str)
    ensures
        r@ == reason(*policy, current_state@.incident, outcome@, now, confidence_total),
{
    if outcome.should_emit_alert {
        return emitted_reason_text(outcome.transition);
    }
    let incident: IncidentState = current_state.incident();
    let previous: Option<Severity> = incident.active();
    let previous_rank: u8 = severity_rank(previous.as_ref());
    let current_rank: u8 = severity_rank(outcome.snapshot.severity.as_ref());
    let cooldown_active: bool = incident.is_cooling(now);
    if outcome.snapshot.breach_active {
        if previous.is_none() {
            if cooldown_active {
                return "cooldown_active_for_trigger";
            }
            return "trigger_suppressed";
        }
        if current_rank > previous_rank {
            if cooldown_active {
                return "cooldown_active_for_escalation";
            }
            return "escalation_suppressed";
        }
        if current_rank < previous_rank {
            if outcome.next_state.below_severity_blocks < policy.deescalation_blocks {
                return "deescalation_window_not_met";
            }
            if cooldown_active {
                return "cooldown_active_for_deescalation";
            }
            return "deescalation_suppressed";
        }
        return "already_active_same_severity";
    }
    if !outcome.snapshot.quorum_met {
        return "quorum_not_met";
    }
    if policy.toggles.oracle_confirmation && !outcome.snapshot.oracle_confirmed {
        return "oracle_confirmation_not_met";
    }
    if confidence_total.lt(policy.min_confidence_to_fire) {
        return "confidence_below_threshold";
    }
    if outcome.snapshot.severity.is_none() {
        return "trigger_floor_not_met";
    }
    if previous.is_some() {
        if outcome.next_state.below_trigger_blocks > 0 && outcome.next_state.below_trigger_blocks
            < policy.resolution_blocks {
            return "resolution_window_not_met";
        }
        if cooldown_active {
            return "cooldown_active_for_resolution";
        }
        return "resolution_gates_not_met";
    }
    "breach_inactive"
}

// ---------------------------------------------------------------------------
// Laws
// ---------------------------------------------------------------------------

/// A detection tells of the tenant's market, how far it is off and how severe that is, what
/// became of the incident, and whether it is simulated.
pub proof fn law_detections_tell_what_was_seen(
    payload: JsonView,
    p: DepegPolicy,
    s: SnapshotView,
    severity: Severity,
    transition: Option<IncidentTransition>,
    now: Timestamp,
    id: Seq<char>,
    nonce: Seq<char>,
)
    ensures
        ({
            let d = detection_of(payload, p, s, severity, transition, now, id, nonce);
            &&& d.detection_id == id
            &&& d.tenant_id == Some(p.tenant_id@)
            &&& d.event_key == Some("depeg:"@ + p.tenant_id@ + ":"@ + p.market_key@)
            &&& d.subject_key == Some(p.tenant_id@ + ":"@ + p.market_key@)
            &&& d.severity == severity
            &&& d.incident_transition == transition
            &&& d.context_classification == Some(s.classification)
            &&& d.signals.len() == 1 && d.signals[0].value == s.divergence_pct
            &&& d.actions_recommended == depeg_actions(severity)
            &&& d.is_simulated == simulated(payload)
            &&& d.simulation_run_id == simulation_run(payload)
            &&& d.created_at == now
            &&& d.tx_hash == "depeg-"@ + nonce
            &&& d.lifecycle_state == LifecycleState::Confirmed
            &&& d.confidence_breakdown == named_confidence(s.confidence_breakdown)
            &&& d.pattern_id == "depeg_v2"@
            &&& d.oracle_context == oracle_context_of(p, s)
            &&& d.requires_confirmation == p.toggles.oracle_confirmation
            &&& d.detected_at == Some(now)
        }),
{
}

/// The score of a detection is how far the market is off, at most a hundred, and its confidence
/// lies between nothing and one.
pub proof fn law_scores_are_bounded(
    payload: JsonView,
    p: DepegPolicy,
    s: SnapshotView,
    severity: Severity,
    transition: Option<IncidentTransition>,
    now: Timestamp,
    id: Seq<char>,
    nonce: Seq<char>,
)
    requires
        !s.divergence_pct.nan(),
    ensures
        ({
            let r = detection_of(payload, p, s, severity, transition, now, id, nonce).risk_score;
            let sure = quotient(total_of(s.confidence_breakdown), double(HUNDRED_BITS));
            &&& r.score.at_most(double(HUNDRED_BITS))
            &&& s.divergence_pct.at_most(double(HUNDRED_BITS)) ==> r.score == s.divergence_pct
            &&& !sure.nan() ==> double(0).at_most(r.confidence) && r.confidence.at_most(
                double(ONE_BITS),
            )
            &&& double(0).at_most(sure) && sure.at_most(double(ONE_BITS)) ==> r.confidence == sure
        }),
{
}

/// The reason that is given is that of the first gate that was not passed: for a market that is
/// not in breach the quorum, the oracles, the confidence, the floor, in this order.
pub proof fn law_reasons_name_the_first_gate(
    p: DepegPolicy,
    st: crate::incident::IncidentView,
    o: OutcomeView,
    now: Timestamp,
    total: Double,
)
    requires
        !o.should_emit_alert,
    ensures
        ({
            let r = reason(p, st, o, now, total);
            let s = o.snapshot;
            let asked = p.toggles.oracle_confirmation && !s.oracle_confirmed;
            let unsure = total.below(p.min_confidence_to_fire);
            let previous = active_severity(st);
            &&& !s.breach_active && !s.quorum_met ==> r == "quorum_not_met"@
            &&& !s.breach_active && s.quorum_met && asked ==> r == "oracle_confirmation_not_met"@
            &&& !s.breach_active && s.quorum_met && !asked && unsure ==> r
                == "confidence_below_threshold"@
            &&& !s.breach_active && s.quorum_met && !asked && !unsure && s.severity is None ==> r
                == "trigger_floor_not_met"@
            &&& !s.breach_active && s.quorum_met && !asked && !unsure && s.severity is Some
                && previous is None ==> r == "breach_inactive"@
            &&& s.breach_active && previous is Some && s.severity == previous ==> r
                == "already_active_same_severity"@
            &&& s.breach_active && previous is Some && rank(s.severity) > rank(previous)
                && cooling(st, now) ==> r == "cooldown_active_for_escalation"@
            &&& s.breach_active && previous is Some && rank(s.severity) < rank(previous)
                && o.next_state.incident.below_severity_blocks < p.deescalation_blocks ==> r
                == "deescalation_window_not_met"@
            &&& s.breach_active && previous is None && cooling(st, now) ==> r
                == "cooldown_active_for_trigger"@
        }),
{
}

/// What a detection tells of an oracle is what the first of its quotes among the contributors
/// says; where there is none, nothing.
pub proof fn law_oracles_are_known_by_name(s: Seq<EvidenceContributor>, hint: Seq<char>, i: int)
    requires
        0 <= i <= s.len(),
        forall|k: int|
            0 <= k < i ==> !((#[trigger] s[k]).source_kind@ == "oracle"@ && holds(
                lowered(s[k].source_id@),
                hint,
            )),
        i < s.len() ==> s[i].source_kind@ == "oracle"@ && holds(lowered(s[i].source_id@), hint),
    ensures
        i < s.len() ==> oracle_fields(s, hint) == (Some(s[i].price), Some(s[i].divergence_pct)),
        i == s.len() ==> oracle_fields(s, hint) == (None::<Double>, None::<Double>),
    decreases s.len(),
{
    if i > 0 {
        assert(!(s[0].source_kind@ == "oracle"@ && holds(lowered(s[0].source_id@), hint)));
        assert forall|k: int| 0 <= k < i - 1 implies !((#[trigger] s.skip(1)[k]).source_kind@
            == "oracle"@ && holds(lowered(s.skip(1)[k].source_id@), hint)) by {
            assert(s.skip(1)[k] == s[k + 1]);
        }
        law_oracles_are_known_by_name(s.skip(1), hint, i - 1);
    }
}

/// A snapshot tells what the evaluation saw, with those who contributed and the markets that
/// deviate.
pub proof fn law_snapshots_tell_what_was_seen(
    p: DepegPolicy,
    o: OutcomeView,
)
    ensures
        ({
            let told = snapshot_json(p, o)->Object_0;
            &&& told.contains(("weighted_median_price"@, number_json(o.snapshot.weighted_median_price)))
            &&& told.contains(("divergence_pct"@, number_json(o.snapshot.divergence_pct)))
            &&& told.contains(("source_count"@, JsonView::Whole(o.snapshot.source_count as int)))
            &&& told.contains(("eligible_source_count"@, JsonView::Whole(o.snapshot.eligible_source_count as int)))
            &&& told.contains(("quorum_met"@, JsonView::Bool(o.snapshot.quorum_met)))
            &&& told.contains(("breach_active"@, JsonView::Bool(o.snapshot.breach_active)))
            &&& told.contains(("oracle_confirmed"@, JsonView::Bool(o.snapshot.oracle_confirmed)))
            &&& told.contains(("context_classification"@, JsonView::Text(classification_name(o.snapshot.classification))))
            &&& told.contains(("trigger_floor_pct"@, number_json(o.snapshot.trigger_floor_pct)))
            &&& told.contains(("confidence_breakdown"@, numbers_json(named_confidence(o.snapshot.confidence_breakdown))))
        }),
{
    let told = snapshot_json(p, o)->Object_0;
    assert(told[0].0 == "weighted_median_price"@);
    assert(told[1].0 == "divergence_pct"@);
    assert(told[2].0 == "source_count"@);
    assert(told[3].0 == "eligible_source_count"@);
    assert(told[4].0 == "quorum_met"@);
    assert(told[5].0 == "breach_active"@);
    assert(told[6].0 == "oracle_confirmed"@);
    assert(told[7].0 == "context_classification"@);
    assert(told[8].0 == "trigger_floor_pct"@);
    assert(told[9].0 == "confidence_breakdown"@);
}

/// A detection tells what is known of the oracles and of the sources.
pub proof fn law_oracles_are_told(
    p: DepegPolicy,
    s: SnapshotView,
)
    ensures
        ({
            let told = oracle_context_of(p, s);
            &&& told.contains(("oracle_confirmed"@, JsonView::Bool(s.oracle_confirmed)))
            &&& told.contains(("weighted_median_price"@, number_json(s.weighted_median_price)))
            &&& told.contains(("trigger_floor_pct"@, number_json(s.trigger_floor_pct)))
            &&& told.contains(("context_classification"@, JsonView::Text(classification_name(s.classification))))
            &&& told.contains(("contagion_status"@, JsonView::Text(classification_name(s.classification))))
            &&& told.contains(("source_count"@, JsonView::Whole(s.source_count as int)))
            &&& told.contains(("eligible_source_count"@, JsonView::Whole(s.eligible_source_count as int)))
            &&& told.contains(("healthy_source_count"@, JsonView::Whole(s.source_count as int)))
            &&& told.contains(("total_source_count"@, JsonView::Whole(s.eligible_source_count as int)))
            &&& told.contains(("divergence_pct"@, number_json(s.divergence_pct)))
            &&& told.contains(("peg_target"@, number_json(p.peg_target)))
            &&& told.contains(("chainlink_price"@, optional_number_json(oracle_fields(s.contributors, "chainlink"@).0)))
            &&& told.contains(("chainlink_deviation_pct"@, optional_number_json(oracle_fields(s.contributors, "chainlink"@).1)))
            &&& told.contains(("pyth_price"@, optional_number_json(oracle_fields(s.contributors, "pyth"@).0)))
            &&& told.contains(("pyth_deviation_pct"@, optional_number_json(oracle_fields(s.contributors, "pyth"@).1)))
            &&& told.contains(("contributing_sources"@, contributors_json(s.contributors)))
            &&& told.contains(("systemic_markets"@, systemics_json(s.systemic_markets)))
        }),
{
    let told = oracle_context_of(p, s);
    assert(told[0].0 == "oracle_confirmed"@);
    assert(told[1].0 == "weighted_median_price"@);
    assert(told[2].0 == "trigger_floor_pct"@);
    assert(told[3].0 == "context_classification"@);
    assert(told[4].0 == "contagion_status"@);
    assert(told[5].0 == "source_count"@);
    assert(told[6].0 == "eligible_source_count"@);
    assert(told[7].0 == "healthy_source_count"@);
    assert(told[8].0 == "total_source_count"@);
    assert(told[9].0 == "divergence_pct"@);
    assert(told[10].0 == "peg_target"@);
    assert(told[11].0 == "chainlink_price"@);
    assert(told[12].0 == "chainlink_deviation_pct"@);
    assert(told[13].0 == "pyth_price"@);
    assert(told[14].0 == "pyth_deviation_pct"@);
    assert(told[15].0 == "contributing_sources"@);
    assert(told[16].0 == "systemic_markets"@);
}

/// The parts of a confidence are told by name, and the total is that of the parts; without a
/// confidence the total is nothing.
pub proof fn law_confidence_is_told_in_parts(c: ConfidenceBreakdown)
    ensures
        named_confidence(Some(c)).contains(("source_agreement"@, c.source_agreement)),
        named_confidence(Some(c)).contains(("oracle_confirmation"@, c.oracle_confirmation)),
        named_confidence(Some(c)).contains(("volume_confirmation"@, c.volume_confirmation)),
        named_confidence(Some(c)).contains(("total"@, c.total)),
        total_of(Some(c)) == c.total,
        total_of(None) == double(0),
        named_confidence(None).len() == 0,
{
    let told = named_confidence(Some(c));
    assert(told[0].0 == "source_agreement"@);
    assert(told[1].0 == "oracle_confirmation"@);
    assert(told[2].0 == "volume_confirmation"@);
    assert(told[3].0 == "total"@);
}

/// Every reported change has a reason of its own.
pub proof fn law_reported_changes_have_reasons_of_their_own(t: IncidentTransition)
    ensures
        emitted_reason(Some(t)) == "emitted_"@ + transition_name(t),
{
    reveal_strlit("emitted_");
    reveal_strlit("trigger");
    reveal_strlit("escalate");
    reveal_strlit("deescalate");
    reveal_strlit("resolve");
    reveal_strlit("retract");
    reveal_strlit("update");
    reveal_strlit("emitted_trigger");
    reveal_strlit("emitted_escalate");
    reveal_strlit("emitted_deescalate");
    reveal_strlit("emitted_resolve");
    reveal_strlit("emitted_retract");
    reveal_strlit("emitted_update");
    assert(emitted_reason(Some(t)) =~= "emitted_"@ + transition_name(t));
}

} // verus!
