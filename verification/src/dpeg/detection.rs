//! What is reported of a depeg.

use vstd::prelude::*;
use vstd::string::StringExecFns;

use crate::aggregation::double;
use crate::aggregation::ONE_BITS;
use crate::depeg_v2::detection::confidence_entries;
use crate::depeg_v2::detection::emitted_reason;
use crate::depeg_v2::detection::emitted_reason_text;
use crate::depeg_v2::detection::named_confidence;
use crate::depeg_v2::detection::numbers_json;
use crate::depeg_v2::detection::numbers_to_json;
use crate::depeg_v2::detection::total_of;
use crate::digits::fixed;
use crate::digits::fixed_text;
use crate::double::clamped;
use crate::double::quotient;
use crate::double::smaller;
use crate::double::Double;
use crate::dpeg::evaluation::AlertView;
use crate::dpeg::evaluation::ConsensusSnapshot;
use crate::dpeg::evaluation::DpegAlertState;
use crate::dpeg::evaluation::EvaluationOutcome;
use crate::dpeg::evaluation::OutcomeView;
use crate::dpeg::policy::DpegPolicy;
use crate::event::classification_name;
use crate::event::context_classification_str;
use crate::event::incident_transition_str;
use crate::event::rank;
use crate::event::severity_rank;
use crate::event::signals_view;
use crate::event::simulated;
use crate::event::simulation_metadata_from_event;
use crate::event::simulation_run;
use crate::event::transition_name;
use crate::event::AttackFamily;
use crate::event::Chain;
use crate::event::DetectionResult;
use crate::event::DetectionSignal;
use crate::event::DetectionView;
use crate::event::IncidentTransition;
use crate::event::LifecycleState;
use crate::event::RiskScore;
use crate::event::RiskView;
use crate::event::Severity;
use crate::event::SignalType;
use crate::event::SignalView;
use crate::event::SimulationMetadata;
use crate::event::UnifiedEvent;
use crate::incident::active_severity;
use crate::incident::cooling;
use crate::incident::depeg_actions;
use crate::incident::recommended_actions_for_severity;
use crate::incident::IncidentState;
use crate::json::add_member;
use crate::json::members_view;
use crate::json::number_json;
use crate::json::Json;
use crate::json::JsonView;
use crate::json::Members;
use crate::outside::fresh_id;
use crate::outside::is_id;
use crate::quotes::HUNDRED_BITS;
use crate::text::decimal;
use crate::text::decimal_text;
use crate::text::join;
use crate::text::join3;
use crate::text::one_text;
use crate::text::texts;
use crate::text::truth;
use crate::text::truth_text;
use crate::time::Timestamp;

verus! {

/// The snapshot of an evaluation, as it is kept.
pub open spec fn snapshot_json(p: DpegPolicy, o: OutcomeView) -> JsonView {
    let s = o.snapshot;
    JsonView::Object(
        seq![
            ("weighted_median_price"@, number_json(s.weighted_median_price)),
            ("divergence_pct"@, number_json(s.divergence_pct)),
            ("source_count"@, JsonView::Whole(s.source_count as int)),
            ("eligible_source_count"@, JsonView::Whole(s.eligible_source_count as int)),
            ("quorum_met"@, JsonView::Bool(s.quorum_met)),
            ("breach_active"@, JsonView::Bool(s.breach_active)),
            ("oracle_confirmed"@, JsonView::Bool(s.oracle_confirmed)),
            ("context_classification"@, JsonView::Text(classification_name(s.classification))),
            ("trigger_floor_pct"@, number_json(s.trigger_floor_pct)),
            ("confidence_breakdown"@, numbers_json(named_confidence(s.confidence_breakdown))),
            (
                "incident_transition"@,
                match o.transition {
                    Some(t) => JsonView::Text(transition_name(t)),
                    None => JsonView::Null,
                },
            ),
            ("peg_target"@, number_json(p.peg_target)),
        ],
    )
}

pub fn snapshot_document(policy: &DpegPolicy, outcome: &EvaluationOutcome) -> (r: Json)
    ensures
        r@ == snapshot_json(*policy, outcome@),
{
    let s: &ConsensusSnapshot = &outcome.snapshot;
    let mut v: Vec<(String, Json)> = Vec::new();
    add_member(&mut v, "weighted_median_price", Json::number(s.weighted_median_price));
    add_member(&mut v, "divergence_pct", Json::number(s.divergence_pct));
    add_member(&mut v, "source_count", Json::UInt(s.source_count as u64));
    add_member(&mut v, "eligible_source_count", Json::UInt(s.eligible_source_count as u64));
    add_member(&mut v, "quorum_met", Json::Bool(s.quorum_met));
    add_member(&mut v, "breach_active", Json::Bool(s.breach_active));
    add_member(&mut v, "oracle_confirmed", Json::Bool(s.oracle_confirmed));
    add_member(
        &mut v,
        "context_classification",
        Json::text(context_classification_str(&s.classification)),
    );
    add_member(&mut v, "trigger_floor_pct", Json::number(s.trigger_floor_pct));
    add_member(
        &mut v,
        "confidence_breakdown",
        numbers_to_json(&confidence_entries(&s.confidence_breakdown)),
    );
    let transition: Json = match &outcome.transition {
        Some(t) => Json::text(incident_transition_str(t)),
        None => Json::Null,
    };
    add_member(&mut v, "incident_transition", transition);
    add_member(&mut v, "peg_target", Json::number(policy.peg_target));
    assert(members_view(v@) =~= snapshot_json(*policy, outcome@)->Object_0);
    Json::object(v)
}

/// What is said of a depeg.
pub open spec fn description_of(p: DpegPolicy, s: ConsensusSnapshot) -> Seq<char> {
    "Market "@ + p.market_key@ + " deviated "@ + fixed(s.divergence_pct, 3)
        + "% from peg target "@ + fixed(p.peg_target, 4) + " (weighted median: "@ + fixed(
        s.weighted_median_price,
        4,
    ) + "). "@ + decimal(s.source_count as nat) + " source(s), quorum: "@ + (if s.quorum_met {
        "met"@
    } else {
        "not met"@
    }) + "."@
}

fn describe(policy: &DpegPolicy, s: &ConsensusSnapshot) -> (r: String)
    ensures
        r@ == description_of(*policy, *s),
{
    let mut r = "Market ".to_owned();
    r.append(policy.market_key.as_str());
    r.append(" deviated ");
    r.append(fixed_text(s.divergence_pct, 3).as_str());
    r.append("% from peg target ");
    r.append(fixed_text(policy.peg_target, 4).as_str());
    r.append(" (weighted median: ");
    r.append(fixed_text(s.weighted_median_price, 4).as_str());
    r.append("). ");
    r.append(decimal_text(s.source_count as u64).as_str());
    r.append(" source(s), quorum: ");
    r.append(
        if s.quorum_met {
            "met"
        } else {
            "not met"
        },
    );
    r.append(".");
    r
}

/// Why a depeg has its score.
pub open spec fn rationale_of(p: DpegPolicy, s: ConsensusSnapshot) -> Seq<Seq<char>> {
    seq![
        "context="@ + classification_name(s.classification) + " oracle_confirmed="@ + truth(
            s.oracle_confirmed,
        ) + " quorum_met="@ + truth(s.quorum_met),
        "weighted_median="@ + fixed(s.weighted_median_price, 6) + " peg_target="@ + fixed(
            p.peg_target,
            6,
        ),
    ]
}

fn rationale(policy: &DpegPolicy, s: &ConsensusSnapshot) -> (r: Vec<String>)
    ensures
        texts(r@) == rationale_of(*policy, *s),
{
    let mut a = "context=".to_owned();
    a.append(context_classification_str(&s.classification));
    a.append(" oracle_confirmed=");
    a.append(truth_text(s.oracle_confirmed));
    a.append(" quorum_met=");
    a.append(truth_text(s.quorum_met));
    let mut b = "weighted_median=".to_owned();
    b.append(fixed_text(s.weighted_median_price, 6).as_str());
    b.append(" peg_target=");
    b.append(fixed_text(policy.peg_target, 6).as_str());
    let mut r: Vec<String> = Vec::new();
    r.push(a);
    r.push(b);
    assert(texts(r@) =~= rationale_of(*policy, *s));
    r
}

/// What a detection tells of the oracles and the evaluation.
pub open spec fn oracle_context_of(s: ConsensusSnapshot) -> Members {
    seq![
        ("oracle_confirmed"@, JsonView::Bool(s.oracle_confirmed)),
        ("weighted_median_price"@, number_json(s.weighted_median_price)),
        ("trigger_floor_pct"@, number_json(s.trigger_floor_pct)),
        ("context_classification"@, JsonView::Text(classification_name(s.classification))),
    ]
}

fn oracle_context(s: &ConsensusSnapshot) -> (v: Vec<(String, Json)>)
    ensures
        members_view(v@) == oracle_context_of(*s),
{
    let mut v: Vec<(String, Json)> = Vec::new();
    add_member(&mut v, "oracle_confirmed", Json::Bool(s.oracle_confirmed));
    add_member(&mut v, "weighted_median_price", Json::number(s.weighted_median_price));
    add_member(&mut v, "trigger_floor_pct", Json::number(s.trigger_floor_pct));
    add_member(
        &mut v,
        "context_classification",
        Json::text(context_classification_str(&s.classification)),
    );
    assert(members_view(v@) =~= oracle_context_of(*s));
    v
}

/// The detection of a depeg, with its identifier and the nonce of its transaction.
pub open spec fn detection_of(
    payload: JsonView,
    p: DpegPolicy,
    s: ConsensusSnapshot,
    severity: Severity,
    transition: Option<IncidentTransition>,
    now: Timestamp,
    id: Seq<char>,
    nonce: Seq<char>,
) -> DetectionView {
    DetectionView {
        detection_id: id,
        pattern_id: "dpeg"@,
        event_key: Some("dpeg:"@ + p.tenant_id@ + ":"@ + p.market_key@),
        subject_type: Some("market"@),
        subject_key: Some(p.tenant_id@ + ":"@ + p.market_key@),
        tenant_id: Some(p.tenant_id@),
        chain: Chain::Offchain,
        chain_slug: "offchain"@,
        protocol: "market:"@ + p.market_key@,
        lifecycle_state: LifecycleState::Confirmed,
        requires_confirmation: false,
        attack_family: AttackFamily::PegDeviation,
        severity,
        tx_hash: "dpeg-"@ + nonce,
        block_number: 0,
        triggered_rule_ids: seq!["dpeg.sustained_breach"@],
        description: Some(description_of(p, s)),
        signals: seq![
            SignalView {
                signal_type: SignalType::PriceDeviation,
                value: s.divergence_pct,
                label: Some(fixed(s.divergence_pct, 3) + "%"@),
                source_id: None,
            },
        ],
        risk_score: RiskView {
            score: smaller(s.divergence_pct, double(HUNDRED_BITS)),
            confidence: clamped(
                quotient(total_of(s.confidence_breakdown), double(HUNDRED_BITS)),
                double(0),
                double(ONE_BITS),
            ),
            rationale: rationale_of(p, s),
            attribution: Seq::<Seq<char>>::empty(),
        },
        incident_transition: transition,
        context_classification: Some(s.classification),
        confidence_breakdown: named_confidence(s.confidence_breakdown),
        oracle_context: oracle_context_of(s),
        actions_recommended: depeg_actions(severity),
        is_simulated: simulated(payload),
        simulation_run_id: simulation_run(payload),
        detected_at: None,
        created_at: now,
    }
}

/// Reports a depeg under the given identifier and nonce.
pub fn detection_with_ids(
    event: &UnifiedEvent,
    policy: &DpegPolicy,
    snapshot: &ConsensusSnapshot,
    severity: Severity,
    transition: Option<IncidentTransition>,
    now: Timestamp,
    id: String,
    nonce: &str,
) -> (r: DetectionResult)
    ensures
        r@ == detection_of(
            event.payload@,
            *policy,
            *snapshot,
            severity,
            transition,
            now,
            id@,
            nonce@,
        ),
{
    let hundred = Double { bits: HUNDRED_BITS };
    let simulation: SimulationMetadata = simulation_metadata_from_event(event);
    let mut event_key = "dpeg:".to_owned();
    event_key.append(policy.tenant_id.as_str());
    event_key.append(":");
    event_key.append(policy.market_key.as_str());
    let mut label: String = fixed_text(snapshot.divergence_pct, 3);
    label.append("%");
    let mut signals: Vec<DetectionSignal> = Vec::new();
    signals.push(
        DetectionSignal {
            signal_type: SignalType::PriceDeviation,
            value: snapshot.divergence_pct,
            label: Some(label),
            source_id: None,
        },
    );
    let total: Double = match &snapshot.confidence_breakdown {
        Some(c) => c.total,
        None => Double { bits: 0 },
    };
    let risk_score = RiskScore {
        score: snapshot.divergence_pct.min(hundred),
        confidence: total.over(hundred).clamp(Double { bits: 0 }, Double { bits: ONE_BITS }),
        rationale: rationale(policy, snapshot),
        attribution: Vec::new(),
    };
    let r = DetectionResult {
        detection_id: id,
        pattern_id: "dpeg".to_owned(),
        event_key: Some(event_key),
        subject_type: Some("market".to_owned()),
        subject_key: Some(join3(policy.tenant_id.as_str(), ":", policy.market_key.as_str())),
        tenant_id: Some(policy.tenant_id.clone()),
        chain: Chain::Offchain,
        chain_slug: "offchain".to_owned(),
        protocol: join("market:", policy.market_key.as_str()),
        lifecycle_state: LifecycleState::Confirmed,
        requires_confirmation: false,
        attack_family: AttackFamily::PegDeviation,
        severity,
        tx_hash: join("dpeg-", nonce),
        block_number: 0,
        triggered_rule_ids: one_text("dpeg.sustained_breach".to_owned()),
        description: Some(describe(policy, snapshot)),
        signals,
        risk_score,
        incident_transition: transition,
        context_classification: Some(snapshot.classification),
        confidence_breakdown: confidence_entries(&snapshot.confidence_breakdown),
        oracle_context: oracle_context(snapshot),
        actions_recommended: recommended_actions_for_severity(&severity),
        is_simulated: simulation.is_simulated,
        simulation_run_id: simulation.run_id,
        detected_at: None,
        created_at: now,
    };
    proof {
        let d = detection_of(
            event.payload@,
            *policy,
            *snapshot,
            severity,
            transition,
            now,
            id@,
            nonce@,
        );
        assert(signals_view(r.signals@) =~= d.signals);
        assert(texts(r.risk_score.attribution@) =~= Seq::<Seq<char>>::empty());
    }
    r
}

/// Reports a depeg.
pub fn build_detection(
    event: &UnifiedEvent,
    policy: &DpegPolicy,
    snapshot: &ConsensusSnapshot,
    severity: Severity,
    transition: Option<IncidentTransition>,
    now: Timestamp,
) -> (r: DetectionResult)
    ensures
        exists|id: Seq<char>, nonce: Seq<char>|
            is_id(id) && is_id(nonce) && r@ == #[trigger] detection_of(
                event.payload@,
                *policy,
                *snapshot,
                severity,
                transition,
                now,
                id,
                nonce,
            ),
{
    let id: String = fresh_id();
    let nonce: String = fresh_id();
    detection_with_ids(
        event,
        policy,
        snapshot,
        severity,
        transition,
        now,
        id,
        nonce.as_str(),
    )
}

/// How long the active breach has lasted; zero where none is.
pub open spec fn breach_age(start: Option<Timestamp>, now: Timestamp) -> i64 {
    match start {
        Some(t) => now.ms_since(t),
        None => 0,
    }
}

/// Why an evaluation reports what it does, or nothing.
pub open spec fn reason(
    p: DpegPolicy,
    st: AlertView,
    o: OutcomeView,
    now: Timestamp,
    total: Double,
) -> Seq<char> {
    let previous = active_severity(st.incident);
    let current = o.snapshot.severity;
    let cools = cooling(st.incident, now);
    if o.should_emit_alert {
        emitted_reason(o.transition)
    } else if o.snapshot.breach_active {
        if previous is None {
            if breach_age(o.next_state.breach_started_at, now) < p.sustained_window_ms {
                "sustained_window_not_met"@
            } else if cools {
                "cooldown_active_for_trigger"@
            } else {
                "trigger_suppressed"@
            }
        } else if rank(current) > rank(previous) {
            if cools {
                "cooldown_active_for_escalation"@
            } else {
                "escalation_suppressed"@
            }
        } else if rank(current) < rank(previous) {
            if o.next_state.incident.below_severity_blocks < p.deescalation_blocks {
                "deescalation_window_not_met"@
            } else if cools {
                "cooldown_active_for_deescalation"@
            } else {
                "deescalation_suppressed"@
            }
        } else {
            "already_active_same_severity"@
        }
    } else if !o.snapshot.quorum_met {
        "quorum_not_met"@
    } else if p.toggles.oracle_confirmation && !o.snapshot.oracle_confirmed {
        "oracle_confirmation_not_met"@
    } else if total.below(p.min_confidence_to_fire) {
        "confidence_below_threshold"@
    } else if current is None {
        "trigger_floor_not_met"@
    } else if previous is Some {
        if 0 < o.next_state.incident.below_trigger_blocks < p.resolution_blocks {
            "resolution_window_not_met"@
        } else if cools {
            "cooldown_active_for_resolution"@
        } else {
            "resolution_gates_not_met"@
        }
    } else {
        "breach_inactive"@
    }
}

pub fn dpeg_test_mode_reason(
    policy: &DpegPolicy,
    current_state: &DpegAlertState,
    outcome: &EvaluationOutcome,
    now: Timestamp,
    confidence_total: Double,
) -> (r: &'static str)
    ensures
        r@ == reason(*policy, current_state@, outcome@, now, confidence_total),
{
    if outcome.should_emit_alert {
        return emitted_reason_text(outcome.transition);
    }
    let incident: IncidentState = current_state.incident();
    let previous: Option<Severity> = incident.active();
    let previous_rank: u8 = severity_rank(previous.as_ref());
    let current_rank: u8 = severity_rank(outcome.snapshot.severity.as_ref());
    let cooldown_active: bool = incident.is_cooling(now);
    let breach_age_ms: i64 = match outcome.next_state.breach_started_at {
        Some(t) => now.millis_since(t),
        None => 0,
    };
    if outcome.snapshot.breach_active {
        if previous.is_none() {
            if breach_age_ms < policy.sustained_window_ms {
                return "sustained_window_not_met";
            }
            if cooldown_active {
                return "cooldown_active_for_trigger";
            }
            return "trigger_suppressed";
        }
        if current_rank > previous_rank {
            if cooldown_active {
                return "cooldown_active_for_escalation";
            }
            return "escalation_suppressed";
        }
        if current_rank < previous_rank {
            if outcome.next_state.below_severity_blocks < policy.deescalation_blocks {
                return "deescalation_window_not_met";
            }
            if cooldown_active {
                return "cooldown_active_for_deescalation";
            }
            return "deescalation_suppressed";
        }
        return "already_active_same_severity";
    }
    if !outcome.snapshot.quorum_met {
        return "quorum_not_met";
    }
    if policy.toggles.oracle_confirmation && !outcome.snapshot.oracle_confirmed {
        return "oracle_confirmation_not_met";
    }
    if confidence_total.lt(policy.min_confidence_to_fire) {
        return "confidence_below_threshold";
    }
    if outcome.snapshot.severity.is_none() {
        return "trigger_floor_not_met";
    }
    if previous.is_some() {
        if outcome.next_state.below_trigger_blocks > 0 && outcome.next_state.below_trigger_blocks
            < policy.resolution_blocks {
            return "resolution_window_not_met";
        }
        if cooldown_active {
            return "cooldown_active_for_resolution";
        }
        return "resolution_gates_not_met";
    }
    "breach_inactive"
}

// ---------------------------------------------------------------------------
// Laws
// ---------------------------------------------------------------------------

/// A detection tells of the tenant's market, how far it is off and how severe that is, what
/// became of the incident, and whether it is simulated.
pub proof fn law_detections_tell_what_was_seen(
    payload: JsonView,
    p: DpegPolicy,
    s: ConsensusSnapshot,
    severity: Severity,
    transition: Option<IncidentTransition>,
    now: Timestamp,
    id: Seq<char>,
    nonce: Seq<char>,
)
    ensures
        ({
            let d = detection_of(payload, p, s, severity, transition, now, id, nonce);
            &&& d.detection_id == id
            &&& d.tenant_id == Some(p.tenant_id@)
            &&& d.event_key == Some("dpeg:"@ + p.tenant_id@ + ":"@ + p.market_key@)
            &&& d.subject_key == Some(p.tenant_id@ + ":"@ + p.market_key@)
            &&& d.severity == severity
            &&& d.incident_transition == transition
            &&& d.context_classification == Some(s.classification)
            &&& d.signals.len() == 1 && d.signals[0].value == s.divergence_pct
            &&& d.actions_recommended == depeg_actions(severity)
            &&& d.is_simulated == simulated(payload)
            &&& d.simulation_run_id == simulation_run(payload)
            &&& d.created_at == now
            &&& d.tx_hash == "dpeg-"@ + nonce
            &&& d.lifecycle_state == LifecycleState::Confirmed
            &&& d.confidence_breakdown == named_confidence(s.confidence_breakdown)
            &&& d.pattern_id == "dpeg"@
            &&& d.oracle_context == oracle_context_of(s)
            &&& !d.requires_confirmation
            &&& d.detected_at is None
        }),
{
}

/// The score of a detection is how far the market is off, at most a hundred, and its confidence
/// lies between nothing and one.
pub proof fn law_scores_are_bounded(
    payload: JsonView,
    p: DpegPolicy,
    s: ConsensusSnapshot,
    severity: Severity,
    transition: Option<IncidentTransition>,
    now: Timestamp,
    id: Seq<char>,
    nonce: Seq<char>,
)
    requires
        !s.divergence_pct.nan(),
    ensures
        ({
            let r = detection_of(payload, p, s, severity, transition, now, id, nonce).risk_score;
            let sure = quotient(total_of(s.confidence_breakdown), double(HUNDRED_BITS));
            &&& r.score.at_most(double(HUNDRED_BITS))
            &&& s.divergence_pct.at_most(double(HUNDRED_BITS)) ==> r.score == s.divergence_pct
            &&& !sure.nan() ==> double(0).at_most(r.confidence) && r.confidence.at_most(
                double(ONE_BITS),
            )
            &&& double(0).at_most(sure) && sure.at_most(double(ONE_BITS)) ==> r.confidence == sure
        }),
{
}

/// The reason that is given is that of the first gate that was not passed: for a market that is
/// not in breach the quorum, the oracles, the confidence, the floor, in this order.
pub proof fn law_reasons_name_the_first_gate(
    p: DpegPolicy,
    st: AlertView,
    o: OutcomeView,
    now: Timestamp,
    total: Double,
)
    requires
        !o.should_emit_alert,
    ensures
        ({
            let r = reason(p, st, o, now, total);
            let s = o.snapshot;
            let asked = p.toggles.oracle_confirmation && !s.oracle_confirmed;
            let unsure = total.below(p.min_confidence_to_fire);
            let previous = active_severity(st.incident);
            &&& !s.breach_active && !s.quorum_met ==> r == "quorum_not_met"@
            &&& !s.breach_active && s.quorum_met && asked ==> r == "oracle_confirmation_not_met"@
            &&& !s.breach_active && s.quorum_met && !asked && unsure ==> r
                == "confidence_below_threshold"@
            &&& !s.breach_active && s.quorum_met && !asked && !unsure && s.severity is None ==> r
                == "trigger_floor_not_met"@
            &&& !s.breach_active && s.quorum_met && !asked && !unsure && s.severity is Some
                && previous is None ==> r == "breach_inactive"@
            &&& s.breach_active && previous is Some && s.severity == previous ==> r
                == "already_active_same_severity"@
            &&& s.breach_active && previous is Some && rank(s.severity) > rank(previous)
                && cooling(st.incident, now) ==> r == "cooldown_active_for_escalation"@
            &&& s.breach_active && previous is Some && rank(s.severity) < rank(previous)
                && o.next_state.incident.below_severity_blocks < p.deescalation_blocks ==> r
                == "deescalation_window_not_met"@
            &&& s.breach_active && previous is None && breach_age(
                o.next_state.breach_started_at,
                now,
            ) < p.sustained_window_ms ==> r == "sustained_window_not_met"@
            &&& s.breach_active && previous is None && breach_age(
                o.next_state.breach_started_at,
                now,
            ) >= p.sustained_window_ms && cooling(st.incident, now) ==> r
                == "cooldown_active_for_trigger"@
        }),
{
}

/// A snapshot tells what the evaluation saw.
pub proof fn law_snapshots_tell_what_was_seen(
    p: DpegPolicy,
    o: OutcomeView,
)
    ensures
        ({
            let told = snapshot_json(p, o)->Object_0;
            &&& told.contains(("weighted_median_price"@, number_json(o.snapshot.weighted_median_price)))
            &&& told.contains(("divergence_pct"@, number_json(o.snapshot.divergence_pct)))
            &&& told.contains(("source_count"@, JsonView::Whole(o.snapshot.source_count as int)))
            &&& told.contains(("eligible_source_count"@, JsonView::Whole(o.snapshot.eligible_source_count as int)))
            &&& told.contains(("quorum_met"@, JsonView::Bool(o.snapshot.quorum_met)))
            &&& told.contains(("breach_active"@, JsonView::Bool(o.snapshot.breach_active)))
            &&& told.contains(("oracle_confirmed"@, JsonView::Bool(o.snapshot.oracle_confirmed)))
            &&& told.contains(("context_classification"@, JsonView::Text(classification_name(o.snapshot.classification))))
            &&& told.contains(("trigger_floor_pct"@, number_json(o.snapshot.trigger_floor_pct)))
            &&& told.contains(("confidence_breakdown"@, numbers_json(named_confidence(o.snapshot.confidence_breakdown))))
        }),
{
    let told = snapshot_json(p, o)->Object_0;
    assert(told[0].0 == "weighted_median_price"@);
    assert(told[1].0 == "divergence_pct"@);
    assert(told[2].0 == "source_count"@);
    assert(told[3].0 == "eligible_source_count"@);
    assert(told[4].0 == "quorum_met"@);
    assert(told[5].0 == "breach_active"@);
    assert(told[6].0 == "oracle_confirmed"@);
    assert(told[7].0 == "context_classification"@);
    assert(told[8].0 == "trigger_floor_pct"@);
    assert(told[9].0 == "confidence_breakdown"@);
}

/// A detection tells what is known of the oracles.
pub proof fn law_oracles_are_told(
    s: ConsensusSnapshot,
)
    ensures
        ({
            let told = oracle_context_of(s);
            &&& told.contains(("oracle_confirmed"@, JsonView::Bool(s.oracle_confirmed)))
            &&& told.contains(("weighted_median_price"@, number_json(s.weighted_median_price)))
            &&& told.contains(("trigger_floor_pct"@, number_json(s.trigger_floor_pct)))
            &&& told.contains(("context_classification"@, JsonView::Text(classification_name(s.classification))))
        }),
{
    let told = oracle_context_of(s);
    assert(told[0].0 == "oracle_confirmed"@);
    assert(told[1].0 == "weighted_median_price"@);
    assert(told[2].0 == "trigger_floor_pct"@);
    assert(told[3].0 == "context_classification"@);
}

} // verus!
