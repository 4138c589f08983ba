//! What is reported of a fall of the value locked in a protocol, and of pauses.

use vstd::prelude::*;
use vstd::string::StringExecFns;

use crate::aggregation::double;
use crate::aggregation::ONE_BITS;
use crate::digits::fixed;
use crate::digits::fixed_text;
use crate::double::Double;
use crate::event::chain_from_slug;
use crate::event::chain_of_slug;
use crate::event::classification_name;
use crate::event::context_classification_str;
use crate::event::incident_transition_str;
use crate::event::numbers_view;
use crate::event::severity_name;
use crate::event::severity_text;
use crate::event::signals_view;
use crate::event::simulated;
use crate::event::simulation_metadata_from_event;
use crate::event::simulation_run;
use crate::event::transition_name;
use crate::event::AttackFamily;
use crate::event::ContextClassification;
use crate::event::DetectionResult;
use crate::event::DetectionSignal;
use crate::event::DetectionView;
use crate::event::IncidentTransition;
use crate::event::LifecycleState;
use crate::event::RiskScore;
use crate::event::RiskView;
use crate::event::Severity;
use crate::event::SignalType;
use crate::event::SignalView;
use crate::event::SimulationMetadata;
use crate::event::UnifiedEvent;
use crate::json::add_member;
use crate::json::either;
use crate::json::members_view;
use crate::json::number_json;
use crate::json::optional_number_json;
use crate::json::optional_text_json;
use crate::json::texts_json;
use crate::json::texts_to_json;
use crate::json::Json;
use crate::json::JsonView;
use crate::json::Members;
use crate::outside::fresh_id;
use crate::outside::is_id;
use crate::text::join;
use crate::text::one_text;
use crate::text::text_option;
use crate::text::texts;
use crate::time::Timestamp;
use crate::tvl_drop::reading::PauseView;
use crate::tvl_drop::reading::SampleView;
use crate::tvl_drop::reading::TvlPauseEvent;
use crate::tvl_drop::reading::TvlStateEvent;
use crate::tvl_drop::rule::RuleView;
use crate::tvl_drop::rule::TvlDropRule;
use crate::tvl_drop::state::branch_name;
use crate::tvl_drop::state::branch_text;
use crate::tvl_drop::state::Branch;
use crate::tvl_drop::state::EvaluationView;
use crate::tvl_drop::state::TvlEvaluation;
use crate::tvl_drop::state::Verdict;

verus! {

/// The bits of the scores 95.0, 80.0, 60.0, 30.0 and 10.0.
pub const CRITICAL_SCORE_BITS: u64 = 0x4057_c000_0000_0000;

pub const HIGH_SCORE_BITS: u64 = 0x4054_0000_0000_0000;

pub const MEDIUM_SCORE_BITS: u64 = 0x404e_0000_0000_0000;

pub const LOW_SCORE_BITS: u64 = 0x403e_0000_0000_0000;

pub const INFO_SCORE_BITS: u64 = 0x4024_0000_0000_0000;

/// The bits of 0.78.
pub const FALL_CONFIDENCE_BITS: u64 = 0x3fe8_f5c2_8f5c_28f6;

/// The bits of 70.0 and 0.7.
pub const PAUSE_SCORE_BITS: u64 = 0x4051_8000_0000_0000;

pub const PAUSE_CONFIDENCE_BITS: u64 = 0x3fe6_6666_6666_6666;

/// The subject of a detection.
#[derive(Debug)]
pub struct DetectionSubject {
    pub subject_type: String,
    pub subject_key: String,
}

/// The score of a severity.
pub open spec fn score_of(s: Severity) -> Double {
    double(
        match s {
            Severity::Critical => CRITICAL_SCORE_BITS,
            Severity::High => HIGH_SCORE_BITS,
            Severity::Medium => MEDIUM_SCORE_BITS,
            Severity::Low => LOW_SCORE_BITS,
            Severity::Info => INFO_SCORE_BITS,
        },
    )
}

fn score(s: Severity) -> (r: Double)
    ensures
        r == score_of(s),
{
    Double {
        bits: match s {
            Severity::Critical => CRITICAL_SCORE_BITS,
            Severity::High => HIGH_SCORE_BITS,
            Severity::Medium => MEDIUM_SCORE_BITS,
            Severity::Low => LOW_SCORE_BITS,
            Severity::Info => INFO_SCORE_BITS,
        },
    }
}

/// What is recommended at a severity.
pub open spec fn actions_for(s: Severity) -> Seq<Seq<char>> {
    match s {
        Severity::Critical => seq![
            "Activate incident playbook and halt high-risk protocol interactions."@,
            "Escalate to on-call and communicate exposure impact immediately."@,
            "Verify protocol pause controls and liquidity withdrawal options."@,
        ],
        Severity::High => seq![
            "Increase monitoring cadence and review wallet/protocol exposure."@,
            "Prepare partial de-risk actions for affected markets."@,
        ],
        _ => seq!["Monitor trend and keep incident timeline updated."@],
    }
}

pub fn recommended_actions_for_severity(severity: &Severity) -> (r: Vec<String>)
    ensures
        texts(r@) == actions_for(*severity),
{
    let mut r: Vec<String> = Vec::new();
    match severity {
        Severity::Critical => {
            r.push(
                "Activate incident playbook and halt high-risk protocol interactions.".to_owned(),
            );
            r.push("Escalate to on-call and communicate exposure impact immediately.".to_owned());
            r.push("Verify protocol pause controls and liquidity withdrawal options.".to_owned());
        },
        Severity::High => {
            r.push("Increase monitoring cadence and review wallet/protocol exposure.".to_owned());
            r.push("Prepare partial de-risk actions for affected markets.".to_owned());
        },
        _ => {
            r.push("Monitor trend and keep incident timeline updated.".to_owned());
        },
    }
    assert(texts(r@) =~= actions_for(*severity));
    r
}

/// The names of the limits that were passed.
pub open spec fn branch_list(b: Option<Branch>) -> JsonView {
    texts_json(
        match b {
            Some(b) => seq![branch_name(b)],
            None => Seq::<Seq<char>>::empty(),
        },
    )
}

fn branches(b: Option<Branch>) -> (r: Json)
    ensures
        r@ == branch_list(b),
{
    let mut v: Vec<String> = Vec::new();
    match b {
        Some(b) => {
            v.push(branch_text(b).to_owned());
            assert(texts(v@) =~= seq![branch_name(b)]);
        },
        None => {
            assert(texts(v@) =~= Seq::<Seq<char>>::empty());
        },
    }
    texts_to_json(&v)
}

/// The limit that is named as the one passed.
pub open spec fn named_branch(b: Option<Branch>) -> Branch {
    match b {
        Some(b) => b,
        None => Branch::Fast,
    }
}

/// The percentage of a limit.
pub open spec fn limit_of(r: RuleView, b: Branch) -> Double {
    match b {
        Branch::Velocity => r.velocity_critical_pct,
        Branch::Slow => r.slow_drop_pct,
        Branch::Fast => r.fast_drop_pct,
    }
}

/// What is said of other protocols.
pub open spec fn contagion_status(c: ContextClassification) -> Seq<char> {
    match c {
        ContextClassification::Systemic => "CONCURRENT_DROPS"@,
        _ => "NONE"@,
    }
}

/// What a detection tells of a sample, apart from the markets at risk.
pub open spec fn sample_context(
    r: RuleView,
    e: EvaluationView,
    p: SampleView,
    v: Verdict,
    transition: IncidentTransition,
) -> Members {
    let told = seq![
        ("protocol_id"@, JsonView::Text(p.protocol_id)),
        ("chain_slug"@, JsonView::Text(p.chain_slug)),
        ("market_id"@, optional_text_json(p.market_id)),
        ("tvl_usd"@, number_json(p.tvl_usd)),
        ("current_tvl_usd"@, number_json(p.tvl_usd)),
        (
            "fast_window_reference_tvl_usd"@,
            optional_number_json(e.fast_window_reference_tvl_usd),
        ),
        ("window_start_tvl_usd"@, optional_number_json(e.fast_window_reference_tvl_usd)),
        ("drop_pct"@, number_json(e.selected_drop_pct)),
        (
            "time_to_reach_current_drop_minutes"@,
            optional_number_json(e.time_to_reach_current_drop_minutes),
        ),
        ("drain_rate_usd_per_min"@, optional_number_json(e.drain_rate_usd_per_min)),
        (
            "estimated_time_to_empty_minutes"@,
            optional_number_json(e.estimated_time_to_empty_minutes),
        ),
        ("velocity_pattern"@, optional_text_json(e.velocity_pattern)),
        ("velocity_classification"@, optional_text_json(e.velocity_pattern)),
        ("breached_branches"@, branch_list(e.breached_branch)),
        (
            "breached_threshold_branch"@,
            JsonView::Text(branch_name(named_branch(e.breached_branch))),
        ),
        (
            "breached_threshold_pct"@,
            number_json(limit_of(r, named_branch(e.breached_branch))),
        ),
        ("transition"@, JsonView::Text(transition_name(transition))),
        ("contagion_status"@, JsonView::Text(contagion_status(v.classification))),
    ];
    if e.position_data_stale {
        told.push(("position_data_stale"@, JsonView::Bool(true)))
    } else {
        told
    }
}

/// What a detection tells, with the markets at risk where there are any.
pub open spec fn with_markets(m: Members, at_risk: Seq<Seq<char>>) -> Members {
    if at_risk.len() == 0 {
        m
    } else {
        m.push(("at_risk_markets"@, texts_json(at_risk)))
    }
}

fn optional_str(s: Option<&'static str>) -> (r: Json)
    ensures
        r@ == optional_text_json(crate::event::str_option(s)),
{
    match s {
        Some(s) => Json::text(s),
        None => Json::Null,
    }
}

fn tell_sample(
    rule: &TvlDropRule,
    e: &TvlEvaluation,
    p: &TvlStateEvent,
    v: &Verdict,
    transition: IncidentTransition,
    at_risk: &Vec<String>,
) -> (m: Vec<(String, Json)>)
    ensures
        members_view(m@) == with_markets(
            sample_context(rule@, e@, p@, *v, transition),
            texts(at_risk@),
        ),
{
    let mut m: Vec<(String, Json)> = Vec::new();
    add_member(&mut m, "protocol_id", Json::text(p.protocol_id.as_str()));
    add_member(&mut m, "chain_slug", Json::text(p.chain_slug.as_str()));
    add_member(&mut m, "market_id", Json::optional_text(&p.market_id));
    add_member(&mut m, "tvl_usd", Json::number(p.tvl_usd));
    add_member(&mut m, "current_tvl_usd", Json::number(p.tvl_usd));
    add_member(
        &mut m,
        "fast_window_reference_tvl_usd",
        Json::optional_number(e.fast_window_reference_tvl_usd),
    );
    add_member(
        &mut m,
        "window_start_tvl_usd",
        Json::optional_number(e.fast_window_reference_tvl_usd),
    );
    add_member(&mut m, "drop_pct", Json::number(e.selected_drop_pct));
    add_member(
        &mut m,
        "time_to_reach_current_drop_minutes",
        Json::optional_number(e.time_to_reach_current_drop_minutes),
    );
    add_member(
        &mut m,
        "drain_rate_usd_per_min",
        Json::optional_number(e.drain_rate_usd_per_min),
    );
    add_member(
        &mut m,
        "estimated_time_to_empty_minutes",
        Json::optional_number(e.estimated_time_to_empty_minutes),
    );
    add_member(&mut m, "velocity_pattern", optional_str(e.velocity_pattern));
    add_member(&mut m, "velocity_classification", optional_str(e.velocity_pattern));
    add_member(&mut m, "breached_branches", branches(e.breached_branch));
    let branch: Branch = match e.breached_branch {
        Some(b) => b,
        None => Branch::Fast,
    };
    let limit: Double = match branch {
        Branch::Velocity => rule.velocity_critical_pct,
        Branch::Slow => rule.slow_drop_pct,
        Branch::Fast => rule.fast_drop_pct,
    };
    add_member(&mut m, "breached_threshold_branch", Json::text(branch_text(branch)));
    add_member(&mut m, "breached_threshold_pct", Json::number(limit));
    add_member(&mut m, "transition", Json::text(incident_transition_str(&transition)));
    let status: &str = match v.classification {
        ContextClassification::Systemic => "CONCURRENT_DROPS",
        _ => "NONE",
    };
    add_member(&mut m, "contagion_status", Json::text(status));
    if e.position_data_stale {
        add_member(&mut m, "position_data_stale", Json::Bool(true));
    }
    assert(members_view(m@) =~= sample_context(rule@, e@, p@, *v, transition));
    if at_risk.len() > 0 {
        add_member(&mut m, "at_risk_markets", texts_to_json(at_risk));
    }
    m
}

/// What is said of a fall.
pub open spec fn fall_text(r: RuleView, e: EvaluationView, p: SampleView) -> Seq<char> {
    "TVL drop rule '"@ + r.rule_id + "' triggered (fast="@ + fixed(e.fast_drop_pct, 2)
        + "%, slow="@ + fixed(e.slow_drop_pct, 2) + "%, velocity="@ + fixed(
        e.velocity_drop_pct,
        2,
    ) + "%, current_tvl=$"@ + fixed(p.tvl_usd, 2) + ")."@
}

fn describe_fall(rule: &TvlDropRule, e: &TvlEvaluation, p: &TvlStateEvent) -> (r: String)
    ensures
        r@ == fall_text(rule@, e@, p@),
{
    let mut r = "TVL drop rule '".to_owned();
    r.append(rule.rule_id.as_str());
    r.append("' triggered (fast=");
    r.append(fixed_text(e.fast_drop_pct, 2).as_str());
    r.append("%, slow=");
    r.append(fixed_text(e.slow_drop_pct, 2).as_str());
    r.append("%, velocity=");
    r.append(fixed_text(e.velocity_drop_pct, 2).as_str());
    r.append("%, current_tvl=$");
    r.append(fixed_text(p.tvl_usd, 2).as_str());
    r.append(").");
    r
}

/// Why a fall has its score.
pub open spec fn fall_rationale(e: EvaluationView, c: ContextClassification) -> Seq<Seq<char>> {
    seq![
        "fast="@ + fixed(e.fast_drop_pct, 2) + ", slow="@ + fixed(e.slow_drop_pct, 2)
            + ", velocity="@ + fixed(e.velocity_drop_pct, 2),
        "classification="@ + classification_name(c),
    ]
}

fn explain_fall(e: &TvlEvaluation, c: ContextClassification) -> (r: Vec<String>)
    ensures
        texts(r@) == fall_rationale(e@, c),
{
    let mut a = "fast=".to_owned();
    a.append(fixed_text(e.fast_drop_pct, 2).as_str());
    a.append(", slow=");
    a.append(fixed_text(e.slow_drop_pct, 2).as_str());
    a.append(", velocity=");
    a.append(fixed_text(e.velocity_drop_pct, 2).as_str());
    let mut r: Vec<String> = Vec::new();
    r.push(a);
    r.push(join("classification=", context_classification_str(&c)));
    assert(texts(r@) =~= fall_rationale(e@, c));
    r
}

/// The key of the detections of a rule's subject.
pub open spec fn event_key_of(tenant: Seq<char>, rule: Seq<char>, subject: Seq<char>) -> Seq<char> {
    "tvl_drop:"@ + tenant + ":"@ + rule + ":"@ + subject
}

fn event_key(tenant: &str, rule: &str, subject: &str) -> (r: String)
    ensures
        r@ == event_key_of(tenant@, rule@, subject@),
{
    let mut r = "tvl_drop:".to_owned();
    r.append(tenant);
    r.append(":");
    r.append(rule);
    r.append(":");
    r.append(subject);
    r
}

/// The transaction that a detection names: that of the sample, or of the event, or one made
/// of a nonce.
pub open spec fn named_transaction(
    own: Option<Seq<char>>,
    event: Option<Seq<char>>,
    made: Seq<char>,
) -> Seq<char> {
    match either(own, event) {
        Some(s) => s,
        None => made,
    }
}

fn name_transaction(own: &Option<String>, event: &Option<String>, made: String) -> (r: String)
    ensures
        r@ == named_transaction(text_option(*own), text_option(*event), made@),
{
    match own {
        Some(s) => s.clone(),
        None => match event {
            Some(s) => s.clone(),
            None => made,
        },
    }
}

/// The block that a detection names: that of the sample where it has one, or of the event.
pub open spec fn named_block(own: i64, event: Option<i64>) -> i64 {
    if own > 0 {
        own
    } else {
        match event {
            Some(n) => n,
            None => 0,
        }
    }
}

fn name_block(own: i64, event: Option<i64>) -> (r: i64)
    ensures
        r == named_block(own, event),
{
    if own > 0 {
        own
    } else {
        event.unwrap_or(0)
    }
}

/// The detection of a fall, with its identifier and the nonce of its transaction.
#[verifier::opaque]
pub open spec fn fall_detection(
    event: UnifiedEvent,
    r: RuleView,
    subject: (Seq<char>, Seq<char>),
    v: Verdict,
    transition: IncidentTransition,
    e: EvaluationView,
    p: SampleView,
    at_risk: Seq<Seq<char>>,
    now: Timestamp,
    id: Seq<char>,
    nonce: Seq<char>,
) -> DetectionView {
    DetectionView {
        detection_id: id,
        pattern_id: "tvl_drop"@,
        event_key: Some(event_key_of(event.tenant_id@, r.rule_id, subject.1)),
        subject_type: Some(subject.0),
        subject_key: Some(subject.1),
        tenant_id: Some(event.tenant_id@),
        chain: chain_of_slug(p.chain_slug),
        chain_slug: p.chain_slug,
        protocol: p.protocol_id,
        lifecycle_state: LifecycleState::Confirmed,
        requires_confirmation: false,
        attack_family: AttackFamily::LiquidationCascade,
        severity: v.severity,
        tx_hash: named_transaction(p.tx_hash, text_option(event.tx_hash), "tvl-drop-"@ + nonce),
        block_number: named_block(p.block_number, event.block_number),
        triggered_rule_ids: seq!["tvl_drop."@ + r.rule_id],
        description: Some(fall_text(r, e, p)),
        signals: seq![
            SignalView {
                signal_type: if e.breached_branch == Some(Branch::Velocity) {
                    SignalType::TvlVelocityDrop
                } else {
                    SignalType::TvlDropDetected
                },
                value: e.selected_drop_pct,
                label: Some(fixed(e.selected_drop_pct, 2) + "% drop"@),
                source_id: Some(event.source_id@),
            },
        ],
        risk_score: RiskView {
            score: score_of(v.severity),
            confidence: double(FALL_CONFIDENCE_BITS),
            rationale: fall_rationale(e, v.classification),
            attribution: Seq::<Seq<char>>::empty(),
        },
        incident_transition: Some(transition),
        context_classification: Some(v.classification),
        confidence_breakdown: seq![
            ("fast_drop_pct"@, e.fast_drop_pct),
            ("slow_drop_pct"@, e.slow_drop_pct),
            ("velocity_drop_pct"@, e.velocity_drop_pct),
        ],
        oracle_context: with_markets(sample_context(r, e, p, v, transition), at_risk),
        actions_recommended: actions_for(v.severity),
        is_simulated: simulated(event.payload@),
        simulation_run_id: simulation_run(event.payload@),
        detected_at: Some(now),
        created_at: now,
    }
}

/// Reports a fall under the given identifier and nonce.
pub fn tvl_detection_with_ids(
    event: &UnifiedEvent,
    rule: &TvlDropRule,
    subject: &DetectionSubject,
    verdict: &Verdict,
    transition: IncidentTransition,
    evaluation: &TvlEvaluation,
    sample: &TvlStateEvent,
    at_risk: &Vec<String>,
    now: Timestamp,
    id: String,
    nonce: &str,
) -> (r: DetectionResult)
    ensures
        r@ == fall_detection(
            *event,
            rule@,
            (subject.subject_type@, subject.subject_key@),
            *verdict,
            transition,
            evaluation@,
            sample@,
            texts(at_risk@),
            now,
            id@,
            nonce@,
        ),
{
    reveal(fall_detection);
    let simulation: SimulationMetadata = simulation_metadata_from_event(event);
    let mut label: String = fixed_text(evaluation.selected_drop_pct, 2);
    label.append("% drop");
    let signal_type: SignalType = match evaluation.breached_branch {
        Some(Branch::Velocity) => SignalType::TvlVelocityDrop,
        _ => SignalType::TvlDropDetected,
    };
    let mut signals: Vec<DetectionSignal> = Vec::new();
    signals.push(
        DetectionSignal {
            signal_type,
            value: evaluation.selected_drop_pct,
            label: Some(label),
            source_id: Some(event.source_id.clone()),
        },
    );
    let mut breakdown: Vec<(String, Double)> = Vec::new();
    breakdown.push(("fast_drop_pct".to_owned(), evaluation.fast_drop_pct));
    breakdown.push(("slow_drop_pct".to_owned(), evaluation.slow_drop_pct));
    breakdown.push(("velocity_drop_pct".to_owned(), evaluation.velocity_drop_pct));
    let r = DetectionResult {
        detection_id: id,
        pattern_id: "tvl_drop".to_owned(),
        event_key: Some(
            event_key(
                event.tenant_id.as_str(),
                rule.rule_id.as_str(),
                subject.subject_key.as_str(),
            ),
        ),
        subject_type: Some(subject.subject_type.clone()),
        subject_key: Some(subject.subject_key.clone()),
        tenant_id: Some(event.tenant_id.clone()),
        chain: chain_from_slug(sample.chain_slug.as_str()),
        chain_slug: sample.chain_slug.clone(),
        protocol: sample.protocol_id.clone(),
        lifecycle_state: LifecycleState::Confirmed,
        requires_confirmation: false,
        attack_family: AttackFamily::LiquidationCascade,
        severity: verdict.severity,
        tx_hash: name_transaction(&sample.tx_hash, &event.tx_hash, join("tvl-drop-", nonce)),
        block_number: name_block(sample.block_number, event.block_number),
        triggered_rule_ids: one_text(join("tvl_drop.", rule.rule_id.as_str())),
        description: Some(describe_fall(rule, evaluation, sample)),
        signals,
        risk_score: RiskScore {
            score: score(verdict.severity),
            confidence: Double { bits: FALL_CONFIDENCE_BITS },
            rationale: explain_fall(evaluation, verdict.classification),
            attribution: Vec::new(),
        },
        incident_transition: Some(transition),
        context_classification: Some(verdict.classification),
        confidence_breakdown: breakdown,
        oracle_context: tell_sample(rule, evaluation, sample, verdict, transition, at_risk),
        actions_recommended: recommended_actions_for_severity(&verdict.severity),
        is_simulated: simulation.is_simulated,
        simulation_run_id: simulation.run_id,
        detected_at: Some(now),
        created_at: now,
    };
    proof {
        let d = fall_detection(
            *event,
            rule@,
            (subject.subject_type@, subject.subject_key@),
            *verdict,
            transition,
            evaluation@,
            sample@,
            texts(at_risk@),
            now,
            id@,
            nonce@,
        );
        assert(signals_view(r.signals@) =~= d.signals);
        assert(numbers_view(r.confidence_breakdown@) =~= d.confidence_breakdown);
        assert(texts(r.risk_score.attribution@) =~= Seq::<Seq<char>>::empty());
    }
    r
}

/// Reports a fall.
pub fn build_tvl_detection(
    event: &UnifiedEvent,
    rule: &TvlDropRule,
    subject: &DetectionSubject,
    verdict: &Verdict,
    transition: IncidentTransition,
    evaluation: &TvlEvaluation,
    sample: &TvlStateEvent,
    at_risk: &Vec<String>,
    now: Timestamp,
) -> (r: DetectionResult)
    ensures
        exists|id: Seq<char>, nonce: Seq<char>|
            is_id(id) && is_id(nonce) && r@ == #[trigger] fall_detection(
                *event,
                rule@,
                (subject.subject_type@, subject.subject_key@),
                *verdict,
                transition,
                evaluation@,
                sample@,
                texts(at_risk@),
                now,
                id,
                nonce,
            ),
{
    let id: String = fresh_id();
    let nonce: String = fresh_id();
    tvl_detection_with_ids(
        event,
        rule,
        subject,
        verdict,
        transition,
        evaluation,
        sample,
        at_risk,
        now,
        id,
        nonce.as_str(),
    )
}

// ---------------------------------------------------------------------------
// Pauses
// ---------------------------------------------------------------------------

/// The word for whether there is a pause.
pub open spec fn pause_word(paused: bool) -> Seq<char> {
    if paused {
        "paused"@
    } else {
        "unpaused"@
    }
}

pub fn pause_label(paused: bool) -> (r: &'static str)
    ensures
        r@ == pause_word(paused),
{
    if paused {
        "paused"
    } else {
        "unpaused"
    }
}

/// What is said of a pause.
pub open spec fn pause_text(p: PauseView, transition: IncidentTransition) -> Seq<char> {
    if transition == IncidentTransition::Trigger {
        "Protocol "@ + p.protocol_id + " has been "@ + pause_word(p.paused)
            + " — PROTOCOL_PAUSED alert initiated."@
    } else {
        "Protocol "@ + p.protocol_id + " is "@ + pause_word(p.paused)
            + " while a TVL-drop incident remains active."@
    }
}

fn describe_pause(p: &TvlPauseEvent, transition: IncidentTransition) -> (r: String)
    ensures
        r@ == pause_text(p@, transition),
{
    let mut r = "Protocol ".to_owned();
    r.append(p.protocol_id.as_str());
    if transition == IncidentTransition::Trigger {
        r.append(" has been ");
        r.append(pause_label(p.paused));
        r.append(" — PROTOCOL_PAUSED alert initiated.");
    } else {
        r.append(" is ");
        r.append(pause_label(p.paused));
        r.append(" while a TVL-drop incident remains active.");
    }
    r
}

/// What is recommended on a pause.
pub open spec fn pause_actions(transition: IncidentTransition) -> Seq<Seq<char>> {
    if transition == IncidentTransition::Trigger {
        seq![
            "Monitor protocol for unpause event."@,
            "Review protocol status with protocol operators."@,
        ]
    } else {
        seq![
            "Confirm protocol control-plane status with protocol operators."@,
            "Keep incident open until manual resolution criteria are met."@,
        ]
    }
}

fn advise_on_pause(transition: IncidentTransition) -> (r: Vec<String>)
    ensures
        texts(r@) == pause_actions(transition),
{
    let mut r: Vec<String> = Vec::new();
    if transition == IncidentTransition::Trigger {
        r.push("Monitor protocol for unpause event.".to_owned());
        r.push("Review protocol status with protocol operators.".to_owned());
    } else {
        r.push("Confirm protocol control-plane status with protocol operators.".to_owned());
        r.push("Keep incident open until manual resolution criteria are met.".to_owned());
    }
    assert(texts(r@) =~= pause_actions(transition));
    r
}

/// What a detection tells of a pause.
pub open spec fn pause_context(p: PauseView) -> Members {
    seq![
        ("protocol_id"@, JsonView::Text(p.protocol_id)),
        ("chain_slug"@, JsonView::Text(p.chain_slug)),
        ("market_id"@, optional_text_json(p.market_id)),
        ("pause_state"@, JsonView::Text(pause_word(p.paused))),
    ]
}

/// The detection of a pause, with its identifier and the nonce of its transaction.
#[verifier::opaque]
pub open spec fn pause_detection(
    event: UnifiedEvent,
    rule: Seq<char>,
    subject: (Seq<char>, Seq<char>),
    v: Verdict,
    transition: IncidentTransition,
    p: PauseView,
    now: Timestamp,
    id: Seq<char>,
    nonce: Seq<char>,
) -> DetectionView {
    DetectionView {
        detection_id: id,
        pattern_id: "tvl_drop"@,
        event_key: Some(event_key_of(event.tenant_id@, rule, subject.1) + ":pause"@),
        subject_type: Some(subject.0),
        subject_key: Some(subject.1),
        tenant_id: Some(event.tenant_id@),
        chain: chain_of_slug(p.chain_slug),
        chain_slug: p.chain_slug,
        protocol: p.protocol_id,
        lifecycle_state: LifecycleState::Confirmed,
        requires_confirmation: false,
        attack_family: AttackFamily::LiquidationCascade,
        severity: v.severity,
        tx_hash: named_transaction(
            p.tx_hash,
            text_option(event.tx_hash),
            "tvl-drop-pause-"@ + nonce,
        ),
        block_number: named_block(p.block_number, event.block_number),
        triggered_rule_ids: seq!["tvl_drop."@ + rule],
        description: Some(pause_text(p, transition)),
        signals: seq![
            SignalView {
                signal_type: SignalType::ProtocolPauseState,
                value: if p.paused {
                    double(ONE_BITS)
                } else {
                    double(0)
                },
                label: Some("protocol_"@ + pause_word(p.paused)),
                source_id: Some(event.source_id@),
            },
        ],
        risk_score: RiskView {
            score: double(PAUSE_SCORE_BITS),
            confidence: double(PAUSE_CONFIDENCE_BITS),
            rationale: seq![
                "protocol marked "@ + pause_word(p.paused) + " during active incident"@,
            ],
            attribution: Seq::<Seq<char>>::empty(),
        },
        incident_transition: Some(transition),
        context_classification: Some(v.classification),
        confidence_breakdown: Seq::<(Seq<char>, Double)>::empty(),
        oracle_context: pause_context(p),
        actions_recommended: pause_actions(transition),
        is_simulated: simulated(event.payload@),
        simulation_run_id: simulation_run(event.payload@),
        detected_at: Some(now),
        created_at: now,
    }
}

/// Reports a pause under the given identifier and nonce.
pub fn pause_detection_with_ids(
    event: &UnifiedEvent,
    rule_id: &str,
    subject: &DetectionSubject,
    verdict: &Verdict,
    transition: IncidentTransition,
    pause: &TvlPauseEvent,
    now: Timestamp,
    id: String,
    nonce: &str,
) -> (r: DetectionResult)
    ensures
        r@ == pause_detection(
            *event,
            rule_id@,
            (subject.subject_type@, subject.subject_key@),
            *verdict,
            transition,
            pause@,
            now,
            id@,
            nonce@,
        ),
{
    reveal(pause_detection);
    let simulation: SimulationMetadata = simulation_metadata_from_event(event);
    let word: &'static str = pause_label(pause.paused);
    let mut key: String = event_key(
        event.tenant_id.as_str(),
        rule_id,
        subject.subject_key.as_str(),
    );
    key.append(":pause");
    let mut context: Vec<(String, Json)> = Vec::new();
    add_member(&mut context, "protocol_id", Json::text(pause.protocol_id.as_str()));
    add_member(&mut context, "chain_slug", Json::text(pause.chain_slug.as_str()));
    add_member(&mut context, "market_id", Json::optional_text(&pause.market_id));
    add_member(&mut context, "pause_state", Json::text(word));
    assert(members_view(context@) =~= pause_context(pause@));
    let mut signals: Vec<DetectionSignal> = Vec::new();
    signals.push(
        DetectionSignal {
            signal_type: SignalType::ProtocolPauseState,
            value: if pause.paused {
                Double { bits: ONE_BITS }
            } else {
                Double { bits: 0 }
            },
            label: Some(join("protocol_", word)),
            source_id: Some(event.source_id.clone()),
        },
    );
    let mut why = "protocol marked ".to_owned();
    why.append(word);
    why.append(" during active incident");
    let r = DetectionResult {
        detection_id: id,
        pattern_id: "tvl_drop".to_owned(),
        event_key: Some(key),
        subject_type: Some(subject.subject_type.clone()),
        subject_key: Some(subject.subject_key.clone()),
        tenant_id: Some(event.tenant_id.clone()),
        chain: chain_from_slug(pause.chain_slug.as_str()),
        chain_slug: pause.chain_slug.clone(),
        protocol: pause.protocol_id.clone(),
        lifecycle_state: LifecycleState::Confirmed,
        requires_confirmation: false,
        attack_family: AttackFamily::LiquidationCascade,
        severity: verdict.severity,
        tx_hash: name_transaction(
            &pause.tx_hash,
            &event.tx_hash,
            join("tvl-drop-pause-", nonce),
        ),
        block_number: name_block(pause.block_number, event.block_number),
        triggered_rule_ids: one_text(join("tvl_drop.", rule_id)),
        description: Some(describe_pause(pause, transition)),
        signals,
        risk_score: RiskScore {
            score: Double { bits: PAUSE_SCORE_BITS },
            confidence: Double { bits: PAUSE_CONFIDENCE_BITS },
            rationale: one_text(why),
            attribution: Vec::new(),
        },
        incident_transition: Some(transition),
        context_classification: Some(verdict.classification),
        confidence_breakdown: Vec::new(),
        oracle_context: context,
        actions_recommended: advise_on_pause(transition),
        is_simulated: simulation.is_simulated,
        simulation_run_id: simulation.run_id,
        detected_at: Some(now),
        created_at: now,
    };
    proof {
        let d = pause_detection(
            *event,
            rule_id@,
            (subject.subject_type@, subject.subject_key@),
            *verdict,
            transition,
            pause@,
            now,
            id@,
            nonce@,
        );
        assert(signals_view(r.signals@) =~= d.signals);
        assert(numbers_view(r.confidence_breakdown@) =~= d.confidence_breakdown);
        assert(texts(r.risk_score.attribution@) =~= Seq::<Seq<char>>::empty());
    }
    r
}

/// Reports a pause.
pub fn build_pause_detection(
    event: &UnifiedEvent,
    rule_id: &str,
    subject: &DetectionSubject,
    verdict: &Verdict,
    transition: IncidentTransition,
    pause: &TvlPauseEvent,
    now: Timestamp,
) -> (r: DetectionResult)
    ensures
        exists|id: Seq<char>, nonce: Seq<char>|
            is_id(id) && is_id(nonce) && r@ == #[trigger] pause_detection(
                *event,
                rule_id@,
                (subject.subject_type@, subject.subject_key@),
                *verdict,
                transition,
                pause@,
                now,
                id,
                nonce,
            ),
{
    let id: String = fresh_id();
    let nonce: String = fresh_id();
    pause_detection_with_ids(
        event,
        rule_id,
        subject,
        verdict,
        transition,
        pause,
        now,
        id,
        nonce.as_str(),
    )
}

// ---------------------------------------------------------------------------
// Snapshots
// ---------------------------------------------------------------------------

/// A severity as it is kept in snapshots.
pub open spec fn severity_json(s: Option<Severity>) -> JsonView {
    optional_text_json(severity_label(s))
}

/// The name of a severity, where there is one.
pub open spec fn severity_label(s: Option<Severity>) -> Option<Seq<char>> {
    match s {
        Some(s) => Some(severity_name(s)),
        None => None,
    }
}

fn keep_severity(s: Option<Severity>) -> (r: Json)
    ensures
        r@ == severity_json(s),
{
    match s {
        Some(s) => Json::text(severity_text(s)),
        None => Json::Null,
    }
}

/// The severity that a sample is given in the end.
pub open spec fn final_severity(e: EvaluationView, v: Verdict) -> Option<Severity> {
    if e.base_severity is Some {
        Some(v.severity)
    } else {
        None
    }
}

/// The snapshot of a sample.
pub open spec fn sample_snapshot(
    r: RuleView,
    subject_key: Seq<char>,
    tvl: Double,
    e: EvaluationView,
    v: Verdict,
) -> JsonView {
    JsonView::Object(
        seq![
            ("rule_id"@, JsonView::Text(r.rule_id)),
            ("subject_key"@, JsonView::Text(subject_key)),
            ("tvl_usd"@, number_json(tvl)),
            ("fast_drop_pct"@, number_json(e.fast_drop_pct)),
            ("slow_drop_pct"@, number_json(e.slow_drop_pct)),
            ("velocity_drop_pct"@, number_json(e.velocity_drop_pct)),
            ("selected_drop_pct"@, number_json(e.selected_drop_pct)),
            ("breached_branches"@, branch_list(e.breached_branch)),
            ("base_severity"@, severity_json(e.base_severity)),
            ("final_severity"@, severity_json(final_severity(e, v))),
            (
                "incident_transition"@,
                match v.transition {
                    Some(t) => JsonView::Text(transition_name(t)),
                    None => JsonView::Null,
                },
            ),
            ("context_classification"@, JsonView::Text(classification_name(v.classification))),
            ("deposit_gate_skipped"@, JsonView::Bool(e.deposit_gate_skipped)),
            ("min_tvl_floor_usd"@, number_json(r.min_tvl_floor_usd)),
        ],
    )
}

pub fn snapshot_of_sample(
    rule: &TvlDropRule,
    subject_key: &str,
    tvl_usd: Double,
    e: &TvlEvaluation,
    v: &Verdict,
) -> (r: Json)
    ensures
        r@ == sample_snapshot(rule@, subject_key@, tvl_usd, e@, *v),
{
    let mut m: Vec<(String, Json)> = Vec::new();
    add_member(&mut m, "rule_id", Json::text(rule.rule_id.as_str()));
    add_member(&mut m, "subject_key", Json::text(subject_key));
    add_member(&mut m, "tvl_usd", Json::number(tvl_usd));
    add_member(&mut m, "fast_drop_pct", Json::number(e.fast_drop_pct));
    add_member(&mut m, "slow_drop_pct", Json::number(e.slow_drop_pct));
    add_member(&mut m, "velocity_drop_pct", Json::number(e.velocity_drop_pct));
    add_member(&mut m, "selected_drop_pct", Json::number(e.selected_drop_pct));
    add_member(&mut m, "breached_branches", branches(e.breached_branch));
    add_member(&mut m, "base_severity", keep_severity(e.base_severity));
    let last: Option<Severity> = if e.base_severity.is_some() {
        Some(v.severity)
    } else {
        None
    };
    add_member(&mut m, "final_severity", keep_severity(last));
    let transition: Json = match &v.transition {
        Some(t) => Json::text(incident_transition_str(t)),
        None => Json::Null,
    };
    add_member(&mut m, "incident_transition", transition);
    add_member(
        &mut m,
        "context_classification",
        Json::text(context_classification_str(&v.classification)),
    );
    add_member(&mut m, "deposit_gate_skipped", Json::Bool(e.deposit_gate_skipped));
    add_member(&mut m, "min_tvl_floor_usd", Json::number(rule.min_tvl_floor_usd));
    assert(members_view(m@) =~= sample_snapshot(
        rule@,
        subject_key@,
        tvl_usd,
        e@,
        *v,
    )->Object_0);
    Json::object(m)
}

/// The snapshot of a pause.
pub open spec fn pause_snapshot(
    rule: Seq<char>,
    subject_key: Seq<char>,
    paused: bool,
    transition: IncidentTransition,
    c: ContextClassification,
) -> JsonView {
    JsonView::Object(
        seq![
            ("rule_id"@, JsonView::Text(rule)),
            ("subject_key"@, JsonView::Text(subject_key)),
            ("pause_state"@, JsonView::Text(pause_word(paused))),
            ("incident_transition"@, JsonView::Text(transition_name(transition))),
            ("context_classification"@, JsonView::Text(classification_name(c))),
        ],
    )
}

pub fn snapshot_of_pause(
    rule_id: &str,
    subject_key: &str,
    paused: bool,
    transition: IncidentTransition,
    classification: ContextClassification,
) -> (r: Json)
    ensures
        r@ == pause_snapshot(rule_id@, subject_key@, paused, transition, classification),
{
    let mut m: Vec<(String, Json)> = Vec::new();
    add_member(&mut m, "rule_id", Json::text(rule_id));
    add_member(&mut m, "subject_key", Json::text(subject_key));
    add_member(&mut m, "pause_state", Json::text(pause_label(paused)));
    add_member(&mut m, "incident_transition", Json::text(incident_transition_str(&transition)));
    add_member(
        &mut m,
        "context_classification",
        Json::text(context_classification_str(&classification)),
    );
    assert(members_view(m@) =~= pause_snapshot(
        rule_id@,
        subject_key@,
        paused,
        transition,
        classification,
    )->Object_0);
    Json::object(m)
}

// ---------------------------------------------------------------------------
// Laws
// ---------------------------------------------------------------------------

/// A detection of a fall tells of the protocol, of its value now and before, of the fall and how
/// fast it was, and of the limit that was passed.
pub proof fn law_falls_are_told_with_their_numbers(
    r: RuleView,
    e: EvaluationView,
    p: SampleView,
    v: Verdict,
    transition: IncidentTransition,
)
    ensures
        ({
            let told = sample_context(r, e, p, v, transition);
            &&& told.contains(("protocol_id"@, JsonView::Text(p.protocol_id)))
            &&& told.contains(("chain_slug"@, JsonView::Text(p.chain_slug)))
            &&& told.contains(("market_id"@, optional_text_json(p.market_id)))
            &&& told.contains(("tvl_usd"@, number_json(p.tvl_usd)))
            &&& told.contains(("current_tvl_usd"@, number_json(p.tvl_usd)))
            &&& told.contains(("fast_window_reference_tvl_usd"@, optional_number_json(e.fast_window_reference_tvl_usd)))
            &&& told.contains(("window_start_tvl_usd"@, optional_number_json(e.fast_window_reference_tvl_usd)))
            &&& told.contains(("drop_pct"@, number_json(e.selected_drop_pct)))
            &&& told.contains(("time_to_reach_current_drop_minutes"@, optional_number_json(e.time_to_reach_current_drop_minutes)))
            &&& told.contains(("drain_rate_usd_per_min"@, optional_number_json(e.drain_rate_usd_per_min)))
            &&& told.contains(("estimated_time_to_empty_minutes"@, optional_number_json(e.estimated_time_to_empty_minutes)))
            &&& told.contains(("velocity_pattern"@, optional_text_json(e.velocity_pattern)))
            &&& told.contains(("velocity_classification"@, optional_text_json(e.velocity_pattern)))
            &&& told.contains(("breached_branches"@, branch_list(e.breached_branch)))
        }),
{
    let told = sample_context(r, e, p, v, transition);
    assert(told[0].0 == "protocol_id"@);
    assert(told[1].0 == "chain_slug"@);
    assert(told[2].0 == "market_id"@);
    assert(told[3].0 == "tvl_usd"@);
    assert(told[4].0 == "current_tvl_usd"@);
    assert(told[5].0 == "fast_window_reference_tvl_usd"@);
    assert(told[6].0 == "window_start_tvl_usd"@);
    assert(told[7].0 == "drop_pct"@);
    assert(told[8].0 == "time_to_reach_current_drop_minutes"@);
    assert(told[9].0 == "drain_rate_usd_per_min"@);
    assert(told[10].0 == "estimated_time_to_empty_minutes"@);
    assert(told[11].0 == "velocity_pattern"@);
    assert(told[12].0 == "velocity_classification"@);
    assert(told[13].0 == "breached_branches"@);
}

/// The limit that a detection names is the one that was passed, with the percentage of the rule
/// for it; where none is named, the fast one is.
pub proof fn law_the_passed_limit_is_named(r: RuleView, b: Branch)
    ensures
        named_branch(Some(b)) == b,
        named_branch(None) == Branch::Fast,
        limit_of(r, Branch::Velocity) == r.velocity_critical_pct,
        limit_of(r, Branch::Slow) == r.slow_drop_pct,
        limit_of(r, Branch::Fast) == r.fast_drop_pct,
        branch_list(Some(b)) == texts_json(seq![branch_name(b)]),
        branch_list(None) == texts_json(Seq::<Seq<char>>::empty()),
{
}

/// Other protocols are said to fall too exactly where the fall is systemic.
pub proof fn law_contagion_is_told_of_systemic_falls(c: ContextClassification)
    ensures
        contagion_status(c) == "CONCURRENT_DROPS"@ <==> c == ContextClassification::Systemic,
        contagion_status(c) == "NONE"@ <==> c != ContextClassification::Systemic,
{
    reveal_strlit("CONCURRENT_DROPS");
    reveal_strlit("NONE");
    assert("CONCURRENT_DROPS"@[0] != "NONE"@[0]);
}

/// The markets at risk are told where there are any, and nothing else is changed by that.
pub proof fn law_markets_at_risk_are_told(m: Members, at_risk: Seq<Seq<char>>)
    ensures
        at_risk.len() == 0 ==> with_markets(m, at_risk) == m,
        at_risk.len() > 0 ==> with_markets(m, at_risk).drop_last() == m && with_markets(
            m,
            at_risk,
        ).last() == ("at_risk_markets"@, texts_json(at_risk)),
{
    assert(m.push(("at_risk_markets"@, texts_json(at_risk))).drop_last() =~= m);
}

/// A graver severity has a higher score, and more is recommended for it.
pub proof fn law_graver_falls_score_higher()
    ensures
        score_of(Severity::Info).below(score_of(Severity::Low)),
        score_of(Severity::Low).below(score_of(Severity::Medium)),
        score_of(Severity::Medium).below(score_of(Severity::High)),
        score_of(Severity::High).below(score_of(Severity::Critical)),
        actions_for(Severity::Medium).len() < actions_for(Severity::High).len(),
        actions_for(Severity::High).len() < actions_for(Severity::Critical).len(),
{
}

/// A detection names the transaction and the block of its sample, or else those of the event.
pub proof fn law_transactions_and_blocks_are_named(
    own: Seq<char>,
    other: Option<Seq<char>>,
    made: Seq<char>,
    n: i64,
    block: Option<i64>,
)
    ensures
        named_transaction(Some(own), other, made) == own,
        other is Some ==> named_transaction(None, other, made) == other->0,
        named_transaction(None, None, made) == made,
        n > 0 ==> named_block(n, block) == n,
        n <= 0 && block is Some ==> named_block(n, block) == block->0,
        n <= 0 && block is None ==> named_block(n, block) == 0,
{
}

/// A detection of a fall tells of the tenant's subject, how severe the fall is and how large,
/// what became of the incident and in what context, and whether it is simulated.
pub proof fn law_fall_detections_tell_what_was_seen(
    event: UnifiedEvent,
    r: RuleView,
    subject: (Seq<char>, Seq<char>),
    v: Verdict,
    transition: IncidentTransition,
    e: EvaluationView,
    p: SampleView,
    at_risk: Seq<Seq<char>>,
    now: Timestamp,
    id: Seq<char>,
    nonce: Seq<char>,
)
    ensures
        ({
            let d = fall_detection(
                event,
                r,
                subject,
                v,
                transition,
                e,
                p,
                at_risk,
                now,
                id,
                nonce,
            );
            &&& d.detection_id == id
            &&& d.pattern_id == "tvl_drop"@
            &&& d.tenant_id == Some(event.tenant_id@)
            &&& d.event_key == Some(
                "tvl_drop:"@ + event.tenant_id@ + ":"@ + r.rule_id + ":"@ + subject.1,
            )
            &&& d.subject_type == Some(subject.0)
            &&& d.subject_key == Some(subject.1)
            &&& d.chain == chain_of_slug(p.chain_slug)
            &&& d.chain_slug == p.chain_slug
            &&& d.protocol == p.protocol_id
            &&& d.severity == v.severity
            &&& d.risk_score.score == score_of(v.severity)
            &&& d.actions_recommended == actions_for(v.severity)
            &&& d.incident_transition == Some(transition)
            &&& d.context_classification == Some(v.classification)
            &&& d.triggered_rule_ids == seq!["tvl_drop."@ + r.rule_id]
            &&& d.signals.len() == 1
            &&& d.signals[0].value == e.selected_drop_pct
            &&& d.signals[0].signal_type == SignalType::TvlVelocityDrop <==> e.breached_branch
                == Some(Branch::Velocity)
            &&& d.signals[0].source_id == Some(event.source_id@)
            &&& d.confidence_breakdown.contains(("fast_drop_pct"@, e.fast_drop_pct))
            &&& d.confidence_breakdown.contains(("slow_drop_pct"@, e.slow_drop_pct))
            &&& d.confidence_breakdown.contains(("velocity_drop_pct"@, e.velocity_drop_pct))
            &&& d.oracle_context == with_markets(
                sample_context(r, e, p, v, transition),
                at_risk,
            )
            &&& d.is_simulated == simulated(event.payload@)
            &&& d.simulation_run_id == simulation_run(event.payload@)
            &&& d.detected_at == Some(now)
            &&& d.created_at == now
        }),
{
    reveal(fall_detection);
    let d = fall_detection(event, r, subject, v, transition, e, p, at_risk, now, id, nonce);
    assert(d.confidence_breakdown[0] == ("fast_drop_pct"@, e.fast_drop_pct));
    assert(d.confidence_breakdown[1] == ("slow_drop_pct"@, e.slow_drop_pct));
    assert(d.confidence_breakdown[2] == ("velocity_drop_pct"@, e.velocity_drop_pct));
}

/// A detection of a pause tells of the tenant's subject and its state, under a key of its own.
pub proof fn law_pause_detections_tell_what_was_seen(
    event: UnifiedEvent,
    rule: Seq<char>,
    subject: (Seq<char>, Seq<char>),
    v: Verdict,
    transition: IncidentTransition,
    p: PauseView,
    now: Timestamp,
    id: Seq<char>,
    nonce: Seq<char>,
)
    ensures
        ({
            let d = pause_detection(event, rule, subject, v, transition, p, now, id, nonce);
            &&& d.detection_id == id
            &&& d.pattern_id == "tvl_drop"@
            &&& d.tenant_id == Some(event.tenant_id@)
            &&& d.event_key == Some(
                "tvl_drop:"@ + event.tenant_id@ + ":"@ + rule + ":"@ + subject.1 + ":pause"@,
            )
            &&& d.subject_type == Some(subject.0)
            &&& d.subject_key == Some(subject.1)
            &&& d.chain == chain_of_slug(p.chain_slug)
            &&& d.chain_slug == p.chain_slug
            &&& d.protocol == p.protocol_id
            &&& d.severity == v.severity
            &&& d.incident_transition == Some(transition)
            &&& d.context_classification == Some(v.classification)
            &&& d.signals.len() == 1
            &&& d.signals[0].signal_type == SignalType::ProtocolPauseState
            &&& p.paused ==> d.signals[0].value == double(ONE_BITS)
            &&& !p.paused ==> d.signals[0].value == double(0)
            &&& d.oracle_context == pause_context(p)
            &&& d.actions_recommended == pause_actions(transition)
            &&& d.is_simulated == simulated(event.payload@)
            &&& d.simulation_run_id == simulation_run(event.payload@)
            &&& d.created_at == now
        }),
{
    reveal(pause_detection);
}

/// The words for a pause and for its end are told apart.
pub proof fn law_pauses_have_their_words(paused: bool)
    ensures
        pause_word(paused) == "paused"@ <==> paused,
        pause_word(paused) == "unpaused"@ <==> !paused,
{
    reveal_strlit("paused");
    reveal_strlit("unpaused");
    assert("paused"@[0] != "unpaused"@[0]);
}

/// A snapshot of a sample tells of the rule and its subject, of the value and its falls, and of
/// what was made of them.
pub proof fn law_sample_snapshots_tell_what_was_seen(
    r: RuleView,
    key: Seq<char>,
    tvl: Double,
    e: EvaluationView,
    v: Verdict,
)
    ensures
        ({
            let told = sample_snapshot(r, key, tvl, e, v)->Object_0;
            &&& told.contains(("rule_id"@, JsonView::Text(r.rule_id)))
            &&& told.contains(("subject_key"@, JsonView::Text(key)))
            &&& told.contains(("tvl_usd"@, number_json(tvl)))
            &&& told.contains(("fast_drop_pct"@, number_json(e.fast_drop_pct)))
            &&& told.contains(("slow_drop_pct"@, number_json(e.slow_drop_pct)))
            &&& told.contains(("velocity_drop_pct"@, number_json(e.velocity_drop_pct)))
            &&& told.contains(("selected_drop_pct"@, number_json(e.selected_drop_pct)))
            &&& told.contains(("breached_branches"@, branch_list(e.breached_branch)))
            &&& told.contains(("base_severity"@, severity_json(e.base_severity)))
            &&& told.contains(("final_severity"@, severity_json(final_severity(e, v))))
        }),
{
    let told = sample_snapshot(r, key, tvl, e, v)->Object_0;
    assert(told[0].0 == "rule_id"@);
    assert(told[1].0 == "subject_key"@);
    assert(told[2].0 == "tvl_usd"@);
    assert(told[3].0 == "fast_drop_pct"@);
    assert(told[4].0 == "slow_drop_pct"@);
    assert(told[5].0 == "velocity_drop_pct"@);
    assert(told[6].0 == "selected_drop_pct"@);
    assert(told[7].0 == "breached_branches"@);
    assert(told[8].0 == "base_severity"@);
    assert(told[9].0 == "final_severity"@);
}

/// A sample has a severity in the end exactly where a limit was passed: that of the verdict.
pub proof fn law_final_severity_is_that_of_the_verdict(e: EvaluationView, v: Verdict)
    ensures
        e.base_severity is Some ==> final_severity(e, v) == Some(v.severity),
        e.base_severity is None ==> final_severity(e, v) is None,
{
}

} // verus!
