//! The alerts that detections lead to.

use vstd::prelude::*;

use crate::double::Double;
use crate::event::Chain;
use crate::event::DetectionResult;
use crate::event::DetectionView;
use crate::event::LifecycleState;
use crate::event::Severity;
use crate::json::copy_members;
use crate::json::members_view;
use crate::json::Json;
use crate::json::Members;
use crate::outside::current_time;
use crate::outside::fresh_id;
use crate::outside::is_clock_time;
use crate::outside::is_id;
use crate::text::copy_option;
use crate::text::copy_texts;
use crate::text::text_option;
use crate::text::texts;
use crate::time::Timestamp;

verus! {

/// What is sent of a detection.
#[derive(Debug)]
pub struct AlertEvent {
    pub alert_id: String,
    pub incident_id: Option<String>,
    pub event_key: Option<String>,
    pub tenant_id: Option<String>,
    pub chain: Chain,
    pub chain_slug: String,
    pub protocol: String,
    pub lifecycle_state: LifecycleState,
    pub severity: Severity,
    pub risk_score: Double,
    pub confidence: Double,
    pub rule_ids: Vec<String>,
    pub channel_routes: Vec<String>,
    pub dedup_key: Option<String>,
    pub attribution: Vec<String>,
    pub blast_radius: Vec<String>,
    pub tx_hash: String,
    pub block_number: i64,
    pub oracle_context: Vec<(String, Json)>,
    pub actions_recommended: Vec<String>,
    pub created_at: Timestamp,
}

#[verifier::ext_equal]
pub struct AlertView {
    pub alert_id: Seq<char>,
    pub incident_id: Option<Seq<char>>,
    pub event_key: Option<Seq<char>>,
    pub tenant_id: Option<Seq<char>>,
    pub chain: Chain,
    pub chain_slug: Seq<char>,
    pub protocol: Seq<char>,
    pub lifecycle_state: LifecycleState,
    pub severity: Severity,
    pub risk_score: Double,
    pub confidence: Double,
    pub rule_ids: Seq<Seq<char>>,
    pub channel_routes: Seq<Seq<char>>,
    pub dedup_key: Option<Seq<char>>,
    pub attribution: Seq<Seq<char>>,
    pub blast_radius: Seq<Seq<char>>,
    pub tx_hash: Seq<char>,
    pub block_number: i64,
    pub oracle_context: Members,
    pub actions_recommended: Seq<Seq<char>>,
    pub created_at: Timestamp,
}

impl View for AlertEvent {
    type V = AlertView;

    open spec fn view(&self) -> AlertView {
        AlertView {
            alert_id: self.alert_id@,
            incident_id: text_option(self.incident_id),
            event_key: text_option(self.event_key),
            tenant_id: text_option(self.tenant_id),
            chain: self.chain,
            chain_slug: self.chain_slug@,
            protocol: self.protocol@,
            lifecycle_state: self.lifecycle_state,
            severity: self.severity,
            risk_score: self.risk_score,
            confidence: self.confidence,
            rule_ids: texts(self.rule_ids@),
            channel_routes: texts(self.channel_routes@),
            dedup_key: text_option(self.dedup_key),
            attribution: texts(self.attribution@),
            blast_radius: texts(self.blast_radius@),
            tx_hash: self.tx_hash@,
            block_number: self.block_number,
            oracle_context: members_view(self.oracle_context@),
            actions_recommended: texts(self.actions_recommended@),
            created_at: self.created_at,
        }
    }
}

/// The channels that alerts are sent to.
pub open spec fn channels() -> Seq<Seq<char>> {
    seq!["webhook"@, "slack"@, "telegram"@, "discord"@]
}

/// The alert of a detection, with its identifier and the time at which it is made.
pub open spec fn alert_of(d: DetectionView, id: Seq<char>, at: Timestamp) -> AlertView {
    AlertView {
        alert_id: id,
        incident_id: None,
        event_key: d.event_key,
        tenant_id: d.tenant_id,
        chain: d.chain,
        chain_slug: d.chain_slug,
        protocol: d.protocol,
        lifecycle_state: d.lifecycle_state,
        severity: d.severity,
        risk_score: d.risk_score.score,
        confidence: d.risk_score.confidence,
        rule_ids: d.triggered_rule_ids,
        channel_routes: channels(),
        dedup_key: d.event_key,
        attribution: d.risk_score.attribution,
        blast_radius: Seq::<Seq<char>>::empty(),
        tx_hash: d.tx_hash,
        block_number: d.block_number,
        oracle_context: d.oracle_context,
        actions_recommended: d.actions_recommended,
        created_at: at,
    }
}

/// The alert of a detection under the given identifier and time.
pub fn alert_with_id(detection: &DetectionResult, id: String, at: Timestamp) -> (r: AlertEvent)
    ensures
        r@ == alert_of(detection@, id@, at),
{
    let mut routes: Vec<String> = Vec::new();
    routes.push("webhook".to_owned());
    routes.push("slack".to_owned());
    routes.push("telegram".to_owned());
    routes.push("discord".to_owned());
    let blast_radius: Vec<String> = Vec::new();
    assert(texts(routes@) =~= channels());
    assert(texts(blast_radius@) =~= Seq::<Seq<char>>::empty());
    AlertEvent {
        alert_id: id,
        incident_id: None,
        event_key: copy_option(&detection.event_key),
        tenant_id: copy_option(&detection.tenant_id),
        chain: detection.chain,
        chain_slug: detection.chain_slug.clone(),
        protocol: detection.protocol.clone(),
        lifecycle_state: detection.lifecycle_state,
        severity: detection.severity,
        risk_score: detection.risk_score.score,
        confidence: detection.risk_score.confidence,
        rule_ids: copy_texts(&detection.triggered_rule_ids),
        channel_routes: routes,
        dedup_key: copy_option(&detection.event_key),
        attribution: copy_texts(&detection.risk_score.attribution),
        blast_radius,
        tx_hash: detection.tx_hash.clone(),
        block_number: detection.block_number,
        oracle_context: copy_members(&detection.oracle_context),
        actions_recommended: copy_texts(&detection.actions_recommended),
        created_at: at,
    }
}

/// The alert of a detection.
pub fn alert_from_detection(detection: &DetectionResult) -> (r: AlertEvent)
    ensures
        exists|id: Seq<char>, at: Timestamp|
            is_id(id) && is_clock_time(at) && r@ == #[trigger] alert_of(detection@, id, at),
{
    let id: String = fresh_id();
    let at: Timestamp = current_time();
    alert_with_id(detection, id, at)
}

/// The alert that is sent of a detection: none where no rule was triggered, or where alerts
/// are switched off.
pub fn alert_to_send(detection: &DetectionResult, emit_alerts: bool) -> (r: Option<AlertEvent>)
    ensures
        r is Some <==> detection.triggered_rule_ids@.len() > 0 && emit_alerts,
        r matches Some(a) ==> exists|id: Seq<char>, at: Timestamp|
            is_id(id) && is_clock_time(at) && a@ == #[trigger] alert_of(detection@, id, at),
{
    if detection.triggered_rule_ids.len() == 0 || !emit_alerts {
        return None;
    }
    Some(alert_from_detection(detection))
}

// ---------------------------------------------------------------------------
// Laws
// ---------------------------------------------------------------------------

/// Alerts of detections with one key have one key to tell them apart from others by, whatever
/// else they are made of.
pub proof fn law_alerts_are_matched_by_event(
    a: DetectionView,
    b: DetectionView,
    id: Seq<char>,
    other: Seq<char>,
    at: Timestamp,
    later: Timestamp,
)
    requires
        a.event_key == b.event_key,
    ensures
        alert_of(a, id, at).dedup_key == alert_of(b, other, later).dedup_key,
        alert_of(a, id, at).dedup_key == alert_of(a, id, at).event_key,
{
}

/// An alert tells what its detection does, goes to every channel, and is made when it is sent.
pub proof fn law_alerts_tell_their_detection(d: DetectionView, id: Seq<char>, at: Timestamp)
    ensures
        ({
            let a = alert_of(d, id, at);
            &&& a.alert_id == id
            &&& a.incident_id is None
            &&& a.tenant_id == d.tenant_id
            &&& a.event_key == d.event_key
            &&& a.chain == d.chain
            &&& a.chain_slug == d.chain_slug
            &&& a.protocol == d.protocol
            &&& a.lifecycle_state == d.lifecycle_state
            &&& a.severity == d.severity
            &&& a.risk_score == d.risk_score.score
            &&& a.confidence == d.risk_score.confidence
            &&& a.attribution == d.risk_score.attribution
            &&& a.rule_ids == d.triggered_rule_ids
            &&& a.tx_hash == d.tx_hash
            &&& a.block_number == d.block_number
            &&& a.oracle_context == d.oracle_context
            &&& a.actions_recommended == d.actions_recommended
            &&& a.created_at == at
            &&& a.channel_routes == channels()
            &&& a.blast_radius.len() == 0
        }),
{
}

} // verus!
