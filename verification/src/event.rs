//! Events that come in, detections that go out, and what both are made of.

use vstd::prelude::*;

use crate::assoc::law_lookup_after_put;
use crate::double::Double;
use crate::json::boolean_in;
use crate::json::copy_members;
use crate::json::either;
use crate::json::either_of;
use crate::json::member;
use crate::json::member_bool;
use crate::json::member_of;
use crate::json::member_text;
use crate::json::members_view;
use crate::json::members_without;
use crate::json::put_member;
use crate::json::text_in;
use crate::json::with_member;
use crate::json::without_member;
use crate::json::Json;
use crate::json::JsonView;
use crate::json::Members;
use crate::outside::rfc3339;
use crate::outside::timestamp_text;
use crate::text::alike;
use crate::text::same_ignoring_case;
use crate::text::text_option;
use crate::text::texts;
use crate::text::trim;
use crate::text::trimmed;
use crate::time::Timestamp;

verus! {

#[derive(Clone, Copy, Debug, PartialEq, Eq, Structural)]
pub enum Severity {
    Critical,
    High,
    Medium,
    Low,
    Info,
}

#[derive(Clone, Copy, Debug, PartialEq, Eq, Structural)]
pub enum IncidentTransition {
    Trigger,
    Escalate,
    Deescalate,
    Resolve,
    Retract,
    Update,
}

#[derive(Clone, Copy, Debug, PartialEq, Eq, Structural)]
pub enum ContextClassification {
    Isolated,
    Systemic,
    Unclassified,
}

#[derive(Clone, Copy, Debug, PartialEq, Eq, Structural)]
pub enum Chain {
    Ethereum,
    Arbitrum,
    Optimism,
    Base,
    Polygon,
    Avalanche,
    BSC,
    Offchain,
    Unknown,
}

#[derive(Clone, Copy, Debug, PartialEq, Eq, Structural)]
pub enum LifecycleState {
    Provisional,
    Confirmed,
}

#[derive(Clone, Copy, Debug, PartialEq, Eq, Structural)]
pub enum AttackFamily {
    PegDeviation,
    LiquidationCascade,
    FlashLoan,
    Unknown,
}

#[derive(Clone, Copy, Debug, PartialEq, Eq, Structural)]
pub enum SignalType {
    PriceDeviation,
    PegDeviation,
    TvlVelocityDrop,
    TvlDropDetected,
    ProtocolPauseState,
    LoanVolumeSpike,
    ProfitExtracted,
    NearMissPattern,
}

/// Where an event comes from.
#[derive(Clone, Copy, Debug, PartialEq, Eq, Structural)]
pub enum SourceType {
    CexWebsocket,
    CexApi,
    DexApi,
    OracleApi,
    CustomApi,
    EvmChain,
    Other,
}

/// An event from one of a tenant's sources.
#[derive(Debug)]
pub struct UnifiedEvent {
    pub event_id: String,
    pub tenant_id: String,
    pub source_id: String,
    pub source_type: SourceType,
    pub event_type: String,
    pub timestamp: Timestamp,
    pub payload: Json,
    pub chain_id: Option<i64>,
    pub block_number: Option<i64>,
    pub tx_hash: Option<String>,
    pub market_key: Option<String>,
    pub price: Option<Double>,
}

#[derive(Debug)]
pub struct DetectionSignal {
    pub signal_type: SignalType,
    pub value: Double,
    pub label: Option<String>,
    pub source_id: Option<String>,
}

pub struct SignalView {
    pub signal_type: SignalType,
    pub value: Double,
    pub label: Option<Seq<char>>,
    pub source_id: Option<Seq<char>>,
}

impl View for DetectionSignal {
    type V = SignalView;

    open spec fn view(&self) -> SignalView {
        SignalView {
            signal_type: self.signal_type,
            value: self.value,
            label: text_option(self.label),
            source_id: text_option(self.source_id),
        }
    }
}

#[derive(Debug)]
pub struct RiskScore {
    pub score: Double,
    pub confidence: Double,
    pub rationale: Vec<String>,
    pub attribution: Vec<String>,
}

#[verifier::ext_equal]
pub struct RiskView {
    pub score: Double,
    pub confidence: Double,
    pub rationale: Seq<Seq<char>>,
    pub attribution: Seq<Seq<char>>,
}

impl View for RiskScore {
    type V = RiskView;

    open spec fn view(&self) -> RiskView {
        RiskView {
            score: self.score,
            confidence: self.confidence,
            rationale: texts(self.rationale@),
            attribution: texts(self.attribution@),
        }
    }
}

/// What a pattern reports.
#[derive(Debug)]
pub struct DetectionResult {
    pub detection_id: String,
    pub pattern_id: String,
    pub event_key: Option<String>,
    pub subject_type: Option<String>,
    pub subject_key: Option<String>,
    pub tenant_id: Option<String>,
    pub chain: Chain,
    pub chain_slug: String,
    pub protocol: String,
    pub lifecycle_state: LifecycleState,
    pub requires_confirmation: bool,
    pub attack_family: AttackFamily,
    pub severity: Severity,
    pub tx_hash: String,
    pub block_number: i64,
    pub triggered_rule_ids: Vec<String>,
    pub description: Option<String>,
    pub signals: Vec<DetectionSignal>,
    pub risk_score: RiskScore,
    pub incident_transition: Option<IncidentTransition>,
    pub context_classification: Option<ContextClassification>,
    pub confidence_breakdown: Vec<(String, Double)>,
    pub oracle_context: Vec<(String, Json)>,
    pub actions_recommended: Vec<String>,
    pub is_simulated: bool,
    pub simulation_run_id: Option<String>,
    pub detected_at: Option<Timestamp>,
    pub created_at: Timestamp,
}

#[verifier::ext_equal]
pub struct DetectionView {
    pub detection_id: Seq<char>,
    pub pattern_id: Seq<char>,
    pub event_key: Option<Seq<char>>,
    pub subject_type: Option<Seq<char>>,
    pub subject_key: Option<Seq<char>>,
    pub tenant_id: Option<Seq<char>>,
    pub chain: Chain,
    pub chain_slug: Seq<char>,
    pub protocol: Seq<char>,
    pub lifecycle_state: LifecycleState,
    pub requires_confirmation: bool,
    pub attack_family: AttackFamily,
    pub severity: Severity,
    pub tx_hash: Seq<char>,
    pub block_number: i64,
    pub triggered_rule_ids: Seq<Seq<char>>,
    pub description: Option<Seq<char>>,
    pub signals: Seq<SignalView>,
    pub risk_score: RiskView,
    pub incident_transition: Option<IncidentTransition>,
    pub context_classification: Option<ContextClassification>,
    pub confidence_breakdown: Seq<(Seq<char>, Double)>,
    pub oracle_context: Members,
    pub actions_recommended: Seq<Seq<char>>,
    pub is_simulated: bool,
    pub simulation_run_id: Option<Seq<char>>,
    pub detected_at: Option<Timestamp>,
    pub created_at: Timestamp,
}

/// The contents of a list of signals.
pub open spec fn signals_view(v: Seq<DetectionSignal>) -> Seq<SignalView> {
    v.map_values(|s: DetectionSignal| s@)
}

/// The contents of a list of named numbers.
pub open spec fn numbers_view(v: Seq<(String, Double)>) -> Seq<(Seq<char>, Double)> {
    v.map_values(|e: (String, Double)| (e.0@, e.1))
}

impl View for DetectionResult {
    type V = DetectionView;

    open spec fn view(&self) -> DetectionView {
        DetectionView {
            detection_id: self.detection_id@,
            pattern_id: self.pattern_id@,
            event_key: text_option(self.event_key),
            subject_type: text_option(self.subject_type),
            subject_key: text_option(self.subject_key),
            tenant_id: text_option(self.tenant_id),
            chain: self.chain,
            chain_slug: self.chain_slug@,
            protocol: self.protocol@,
            lifecycle_state: self.lifecycle_state,
            requires_confirmation: self.requires_confirmation,
            attack_family: self.attack_family,
            severity: self.severity,
            tx_hash: self.tx_hash@,
            block_number: self.block_number,
            triggered_rule_ids: texts(self.triggered_rule_ids@),
            description: text_option(self.description),
            signals: signals_view(self.signals@),
            risk_score: self.risk_score@,
            incident_transition: self.incident_transition,
            context_classification: self.context_classification,
            confidence_breakdown: numbers_view(self.confidence_breakdown@),
            oracle_context: members_view(self.oracle_context@),
            actions_recommended: texts(self.actions_recommended@),
            is_simulated: self.is_simulated,
            simulation_run_id: text_option(self.simulation_run_id),
            detected_at: self.detected_at,
            created_at: self.created_at,
        }
    }
}

// ---------------------------------------------------------------------------
// Names
// ---------------------------------------------------------------------------

/// The name of a severity.
pub open spec fn severity_name(s: Severity) -> Seq<char> {
    match s {
        Severity::Critical => "critical"@,
        Severity::High => "high"@,
        Severity::Medium => "medium"@,
        Severity::Low => "low"@,
        Severity::Info => "info"@,
    }
}

pub fn severity_text(s: Severity) -> (r: &'static str)
    ensures
        r@ == severity_name(s),
{
    match s {
        Severity::Critical => "critical",
        Severity::High => "high",
        Severity::Medium => "medium",
        Severity::Low => "low",
        Severity::Info => "info",
    }
}

/// The severity with a name, whatever the case of its letters.
pub open spec fn severity_named(s: Option<Seq<char>>) -> Option<Severity> {
    match s {
        Some(s) => if alike(s, "critical"@) {
            Some(Severity::Critical)
        } else if alike(s, "high"@) {
            Some(Severity::High)
        } else if alike(s, "medium"@) {
            Some(Severity::Medium)
        } else if alike(s, "low"@) {
            Some(Severity::Low)
        } else if alike(s, "info"@) {
            Some(Severity::Info)
        } else {
            None
        },
        None => None,
    }
}

/// The text of an optional reference.
pub open spec fn str_option(s: Option<&str>) -> Option<Seq<char>> {
    match s {
        Some(s) => Some(s@),
        None => None,
    }
}

pub fn severity_from_str(s: Option<&str>) -> (r: Option<Severity>)
    ensures
        r == severity_named(str_option(s)),
{
    match s {
        Some(value) => {
            if same_ignoring_case(value, "critical") {
                Some(Severity::Critical)
            } else if same_ignoring_case(value, "high") {
                Some(Severity::High)
            } else if same_ignoring_case(value, "medium") {
                Some(Severity::Medium)
            } else if same_ignoring_case(value, "low") {
                Some(Severity::Low)
            } else if same_ignoring_case(value, "info") {
                Some(Severity::Info)
            } else {
                None
            }
        },
        None => None,
    }
}

/// The place of a severity in the order of severities; zero where there is none.
pub open spec fn rank(s: Option<Severity>) -> u8 {
    match s {
        Some(Severity::Critical) => 5,
        Some(Severity::High) => 4,
        Some(Severity::Medium) => 3,
        Some(Severity::Low) => 2,
        Some(Severity::Info) => 1,
        None => 0,
    }
}

pub fn severity_rank(s: Option<&Severity>) -> (r: u8)
    ensures
        r == rank(match s {
            Some(s) => Some(*s),
            None => None,
        }),
{
    match s {
        Some(Severity::Critical) => 5,
        Some(Severity::High) => 4,
        Some(Severity::Medium) => 3,
        Some(Severity::Low) => 2,
        Some(Severity::Info) => 1,
        None => 0,
    }
}

/// The name of a classification.
pub open spec fn classification_name(c: ContextClassification) -> Seq<char> {
    match c {
        ContextClassification::Isolated => "isolated"@,
        ContextClassification::Systemic => "systemic"@,
        ContextClassification::Unclassified => "none"@,
    }
}

pub fn context_classification_str(value: &ContextClassification) -> (r: &'static str)
    ensures
        r@ == classification_name(*value),
{
    match value {
        ContextClassification::Isolated => "isolated",
        ContextClassification::Systemic => "systemic",
        ContextClassification::Unclassified => "none",
    }
}

/// The name of a transition.
pub open spec fn transition_name(t: IncidentTransition) -> Seq<char> {
    match t {
        IncidentTransition::Trigger => "trigger"@,
        IncidentTransition::Escalate => "escalate"@,
        IncidentTransition::Deescalate => "deescalate"@,
        IncidentTransition::Resolve => "resolve"@,
        IncidentTransition::Retract => "retract"@,
        IncidentTransition::Update => "update"@,
    }
}

pub fn incident_transition_str(value: &IncidentTransition) -> (r: &'static str)
    ensures
        r@ == transition_name(*value),
{
    match value {
        IncidentTransition::Trigger => "trigger",
        IncidentTransition::Escalate => "escalate",
        IncidentTransition::Deescalate => "deescalate",
        IncidentTransition::Resolve => "resolve",
        IncidentTransition::Retract => "retract",
        IncidentTransition::Update => "update",
    }
}

/// The name of a kind of source.
pub open spec fn source_type_name(t: SourceType) -> Seq<char> {
    match t {
        SourceType::CexWebsocket => "CexWebsocket"@,
        SourceType::CexApi => "CexApi"@,
        SourceType::DexApi => "DexApi"@,
        SourceType::OracleApi => "OracleApi"@,
        SourceType::CustomApi => "CustomApi"@,
        SourceType::EvmChain => "EvmChain"@,
        SourceType::Other => "Other"@,
    }
}

pub fn source_type_text(t: SourceType) -> (r: &'static str)
    ensures
        r@ == source_type_name(t),
{
    match t {
        SourceType::CexWebsocket => "CexWebsocket",
        SourceType::CexApi => "CexApi",
        SourceType::DexApi => "DexApi",
        SourceType::OracleApi => "OracleApi",
        SourceType::CustomApi => "CustomApi",
        SourceType::EvmChain => "EvmChain",
        SourceType::Other => "Other",
    }
}

/// The chain with a slug.
pub open spec fn chain_of_slug(s: Seq<char>) -> Chain {
    if s == "ethereum"@ || s == "mainnet"@ {
        Chain::Ethereum
    } else if s == "arbitrum"@ {
        Chain::Arbitrum
    } else if s == "optimism"@ {
        Chain::Optimism
    } else if s == "base"@ {
        Chain::Base
    } else if s == "polygon"@ {
        Chain::Polygon
    } else if s == "avalanche"@ {
        Chain::Avalanche
    } else if s == "bsc"@ || s == "bnb"@ {
        Chain::BSC
    } else {
        Chain::Unknown
    }
}

pub fn chain_from_slug(slug: &str) -> (r: Chain)
    ensures
        r == chain_of_slug(slug@),
{
    if crate::text::same(slug, "ethereum") || crate::text::same(slug, "mainnet") {
        Chain::Ethereum
    } else if crate::text::same(slug, "arbitrum") {
        Chain::Arbitrum
    } else if crate::text::same(slug, "optimism") {
        Chain::Optimism
    } else if crate::text::same(slug, "base") {
        Chain::Base
    } else if crate::text::same(slug, "polygon") {
        Chain::Polygon
    } else if crate::text::same(slug, "avalanche") {
        Chain::Avalanche
    } else if crate::text::same(slug, "bsc") || crate::text::same(slug, "bnb") {
        Chain::BSC
    } else {
        Chain::Unknown
    }
}

// ---------------------------------------------------------------------------
// Simulation
// ---------------------------------------------------------------------------

/// What an event says of the simulation that it belongs to.
#[derive(Debug)]
pub struct SimulationMetadata {
    pub is_simulated: bool,
    pub run_id: Option<String>,
    pub operating_mode: Option<String>,
}

/// A text without white space at its ends, unless nothing is left of it.
pub open spec fn filled(s: Option<Seq<char>>) -> Option<Seq<char>> {
    match s {
        Some(s) => if trimmed(s).len() > 0 {
            Some(trimmed(s))
        } else {
            None
        },
        None => None,
    }
}

pub fn filled_text(s: Option<&str>) -> (r: Option<String>)
    ensures
        text_option(r) == filled(str_option(s)),
{
    match s {
        Some(s) => {
            let t: String = trim(s);
            if t.as_str().is_empty() {
                None
            } else {
                Some(t)
            }
        },
        None => None,
    }
}

/// The members of the payload's `simulation` object; none where it has no such object.
pub open spec fn simulation_members(payload: JsonView) -> Members {
    match payload.get("simulation"@) {
        Some(JsonView::Object(m)) => m,
        _ => Seq::<(Seq<char>, JsonView)>::empty(),
    }
}

/// The run that an event belongs to.
pub open spec fn simulation_run(payload: JsonView) -> Option<Seq<char>> {
    let m = simulation_members(payload);
    filled(text_in(either(member(m, "run_id"@), member(m, "simulation_run_id"@))))
}

/// The operating mode of an event's simulation.
pub open spec fn simulation_mode(payload: JsonView) -> Option<Seq<char>> {
    filled(
        text_in(
            either(
                member(simulation_members(payload), "operating_mode"@),
                payload.get("simulation_operating_mode"@),
            ),
        ),
    )
}

/// Whether an event is simulated: it says so, or it belongs to a run.
pub open spec fn simulated(payload: JsonView) -> bool {
    ||| boolean_in(member(simulation_members(payload), "is_simulated"@)) == Some(true)
    ||| boolean_in(payload.get("is_simulated"@)) == Some(true)
    ||| simulation_run(payload) is Some
}

pub fn simulation_metadata_from_event(event: &UnifiedEvent) -> (r: SimulationMetadata)
    ensures
        r.is_simulated == simulated(event.payload@),
        text_option(r.run_id) == simulation_run(event.payload@),
        text_option(r.operating_mode) == simulation_mode(event.payload@),
{
    let none: Vec<(String, Json)> = Vec::new();
    assert(members_view(none@) =~= Seq::<(Seq<char>, JsonView)>::empty());
    let simulation: &Vec<(String, Json)> = match event.payload.get("simulation") {
        Some(value) => match value.as_object() {
            Some(members) => members,
            None => &none,
        },
        None => &none,
    };
    let run_id: Option<String> = filled_text(
        member_text(
            either_of(member_of(simulation, "run_id"), member_of(simulation, "simulation_run_id")),
        ),
    );
    let operating_mode: Option<String> = filled_text(
        member_text(
            either_of(
                member_of(simulation, "operating_mode"),
                event.payload.get("simulation_operating_mode"),
            ),
        ),
    );
    let said: bool = member_bool(member_of(simulation, "is_simulated")).unwrap_or(false);
    let marked: bool = member_bool(event.payload.get("is_simulated")).unwrap_or(false);
    SimulationMetadata { is_simulated: said || marked || run_id.is_some(), run_id, operating_mode }
}

/// A snapshot with the time of its event, and its simulation, under `_meta`.
pub open spec fn snapshot_with_meta(payload: JsonView, at: Timestamp, data: JsonView) -> JsonView {
    let m = match data {
        JsonView::Object(m) => m,
        _ => seq![("value"@, data)],
    };
    let noted = match member(m, "_meta"@) {
        Some(JsonView::Object(meta)) => meta,
        _ => Seq::<(Seq<char>, JsonView)>::empty(),
    };
    let timed = with_member(noted, "event_timestamp"@, JsonView::Text(timestamp_text(at)));
    let meta = match payload.get("simulation"@) {
        Some(simulation) => with_member(timed, "simulation"@, simulation),
        None => timed,
    };
    JsonView::Object(with_member(without_member(m, "_meta"@), "_meta"@, JsonView::Object(meta)))
}

pub fn append_snapshot_meta(event: &UnifiedEvent, data: &Json) -> (r: Json)
    requires
        event.timestamp.calendar(),
    ensures
        r@ == snapshot_with_meta(event.payload@, event.timestamp, data@),
{
    let wrapped: Vec<(String, Json)> = match data.as_object() {
        Some(members) => copy_members(members),
        None => {
            let mut v: Vec<(String, Json)> = Vec::new();
            v.push(("value".to_owned(), data.copy()));
            assert(members_view(v@) =~= seq![("value"@, data@)]);
            v
        },
    };
    let mut meta: Vec<(String, Json)> = match member_of(&wrapped, "_meta") {
        Some(value) => match value.as_object() {
            Some(members) => copy_members(members),
            None => Vec::new(),
        },
        None => Vec::new(),
    };
    assert(members_view(Seq::<(String, Json)>::empty()) =~= Seq::<(Seq<char>, JsonView)>::empty());
    put_member(&mut meta, "event_timestamp", Json::Text(rfc3339(event.timestamp)));
    match event.payload.get("simulation") {
        Some(simulation) => {
            put_member(&mut meta, "simulation", simulation.copy());
        },
        None => {},
    }
    let mut snapshot: Vec<(String, Json)> = members_without(&wrapped, "_meta");
    put_member(&mut snapshot, "_meta", Json::object(meta));
    Json::object(snapshot)
}

/// Whether an event still has to be stored as it came.
pub fn needs_raw_insert(event: &UnifiedEvent) -> (r: bool)
    ensures
        r == !(boolean_in(event.payload@.get("raw_persisted"@)) == Some(true)),
{
    !member_bool(event.payload.get("raw_persisted")).unwrap_or(false)
}

// ---------------------------------------------------------------------------
// Laws
// ---------------------------------------------------------------------------

/// Reading the name of a severity gives the severity back.
pub proof fn law_severity_name_round_trips(s: Severity)
    ensures
        severity_named(Some(severity_name(s))) == Some(s),
{
    reveal_strlit("critical");
    reveal_strlit("high");
    reveal_strlit("medium");
    reveal_strlit("low");
    reveal_strlit("info");
    let n = severity_name(s);
    assert(crate::text::lowered(n).len() == n.len());
    assert(crate::text::lowered("critical"@).len() == 8);
    assert(crate::text::lowered("high"@).len() == 4);
    assert(crate::text::lowered("medium"@).len() == 6);
    assert(crate::text::lowered("low"@).len() == 3);
    assert(crate::text::lowered("info"@).len() == 4);
    assert(crate::text::lowered("high"@)[0] == 'h');
    assert(crate::text::lowered("info"@)[0] == 'i');
}

/// Two severities of one rank are the same.
pub proof fn law_rank_tells_severities_apart(a: Option<Severity>, b: Option<Severity>)
    requires
        rank(a) == rank(b),
    ensures
        a == b,
{
}

/// Severities are ranked from critical down, and any of them above none.
pub proof fn law_severities_are_ranked()
    ensures
        rank(Some(Severity::Critical)) > rank(Some(Severity::High)),
        rank(Some(Severity::High)) > rank(Some(Severity::Medium)),
        rank(Some(Severity::Medium)) > rank(Some(Severity::Low)),
        rank(Some(Severity::Low)) > rank(Some(Severity::Info)),
        rank(Some(Severity::Info)) > rank(None),
{
}

/// A severity is known by its name in any case of letters, and by no other text.
pub proof fn law_severities_are_known_by_name(text: Seq<char>, s: Severity)
    ensures
        severity_named(Some(text)) == Some(s) <==> crate::text::lowered(text)
            == crate::text::lowered(severity_name(s)),
        severity_named(None) is None,
{
    law_severity_name_round_trips(s);
    if severity_named(Some(text)) is Some {
        law_severity_name_round_trips(severity_named(Some(text))->0);
    }
}

/// The contexts of an incident have names of their own.
pub proof fn law_contexts_are_told_apart(a: ContextClassification, b: ContextClassification)
    ensures
        classification_name(a) == classification_name(b) <==> a == b,
{
    reveal_strlit("isolated");
    reveal_strlit("systemic");
    reveal_strlit("none");
    assert("isolated"@[0] == 'i' && "systemic"@[0] == 's' && "none"@[0] == 'n');
}

/// The transitions of an incident have names of their own.
pub proof fn law_transitions_are_told_apart(a: IncidentTransition, b: IncidentTransition)
    ensures
        transition_name(a) == transition_name(b) <==> a == b,
{
    reveal_strlit("trigger");
    reveal_strlit("escalate");
    reveal_strlit("deescalate");
    reveal_strlit("resolve");
    reveal_strlit("retract");
    reveal_strlit("update");
    assert("trigger"@[0] == 't' && "escalate"@[0] == 'e' && "deescalate"@[0] == 'd');
    assert("resolve"@[0] == 'r' && "retract"@[0] == 'r' && "update"@[0] == 'u');
    assert("resolve"@[2] == 's' && "retract"@[2] == 't');
}

/// A text counts without its margins, and where nothing is left of it, not at all.
pub proof fn law_blank_texts_do_not_count(s: Seq<char>)
    ensures
        filled(Some(s)) is Some <==> crate::text::trimmed(s).len() > 0,
        filled(Some(s)) is Some ==> filled(Some(s)) == Some(crate::text::trimmed(s)),
        filled(None) is None,
{
}

/// An event belongs to the run that its simulation names, under either of two names, and the
/// mode of its simulation may stand outside of it.
pub proof fn law_simulations_name_their_run(payload: JsonView, m: Members, run: Seq<char>)
    requires
        crate::text::trimmed(run).len() > 0,
    ensures
        payload.get("simulation"@) == Some(JsonView::Object(m)) && member(m, "run_id"@) == Some(
            JsonView::Text(run),
        ) ==> simulation_run(payload) == Some(crate::text::trimmed(run)),
        payload.get("simulation"@) == Some(JsonView::Object(m)) && member(m, "run_id"@) is None
            && member(m, "simulation_run_id"@) == Some(JsonView::Text(run)) ==> simulation_run(
            payload,
        ) == Some(crate::text::trimmed(run)),
        payload.get("simulation"@) is None ==> simulation_run(payload) is None,
        payload.get("simulation"@) == Some(JsonView::Object(m)) && member(m, "operating_mode"@)
            == Some(JsonView::Text(run)) ==> simulation_mode(payload) == Some(
            crate::text::trimmed(run),
        ),
        payload.get("simulation"@) is None && payload.get("simulation_operating_mode"@) == Some(
            JsonView::Text(run),
        ) ==> simulation_mode(payload) == Some(crate::text::trimmed(run)),
{
}

/// An event is simulated where it or its simulation says so, or where it belongs to a run; an
/// event that says nothing of a simulation is not.
pub proof fn law_simulated_events_say_so(payload: JsonView, m: Members)
    ensures
        payload.get("is_simulated"@) == Some(JsonView::Bool(true)) ==> simulated(payload),
        payload.get("simulation"@) == Some(JsonView::Object(m)) && member(m, "is_simulated"@)
            == Some(JsonView::Bool(true)) ==> simulated(payload),
        simulation_run(payload) is Some ==> simulated(payload),
        payload.get("simulation"@) is None && payload.get("is_simulated"@) != Some(
            JsonView::Bool(true),
        ) ==> !simulated(payload),
{
}

/// A snapshot keeps what it tells, and notes the time of its event and the simulation that the
/// event belongs to.
pub proof fn law_snapshots_note_their_event(
    payload: JsonView,
    at: Timestamp,
    m: Members,
    key: Seq<char>,
    simulation: JsonView,
)
    ensures
        ({
            let r = snapshot_with_meta(payload, at, JsonView::Object(m));
            let meta = r.get("_meta"@);
            &&& key != "_meta"@ ==> r.get(key) == member(m, key)
            &&& meta is Some
            &&& meta->0.get("event_timestamp"@) == Some(JsonView::Text(timestamp_text(at)))
            &&& payload.get("simulation"@) == Some(simulation) ==> meta->0.get("simulation"@)
                == Some(simulation)
            &&& payload.get("simulation"@) is None && member(m, "_meta"@) is None
                ==> meta->0.get("simulation"@) is None
        }),
{
    let noted = match member(m, "_meta"@) {
        Some(JsonView::Object(meta)) => meta,
        _ => Seq::<(Seq<char>, JsonView)>::empty(),
    };
    let timed = with_member(noted, "event_timestamp"@, JsonView::Text(timestamp_text(at)));
    reveal_strlit("event_timestamp");
    reveal_strlit("simulation");
    assert("event_timestamp"@[0] != "simulation"@[0]);
    law_lookup_after_put(
        noted,
        "event_timestamp"@,
        JsonView::Text(timestamp_text(at)),
        "simulation"@,
    );
    let meta = match payload.get("simulation"@) {
        Some(x) => {
            law_lookup_after_put(timed, "simulation"@, x, "event_timestamp"@);
            with_member(timed, "simulation"@, x)
        },
        None => timed,
    };
    let left = crate::json::without_member(m, "_meta"@);
    law_lookup_after_put(left, "_meta"@, JsonView::Object(meta), key);
    if key != "_meta"@ {
        crate::json::law_other_members_stay(m, "_meta"@, key);
    }
}

} // verus!
