//! The life of an incident: how it starts, grows, shrinks and ends.

use vstd::arithmetic::power2::*;
use vstd::prelude::*;

use crate::aggregation::double;
use crate::double::difference;
use crate::double::larger;
use crate::double::of_int;
use crate::double::product;
use crate::double::quotient;
use crate::double::sign_of;
use crate::double::sum;
use crate::double::Double;
use crate::event::classification_name;
use crate::event::context_classification_str;
use crate::event::rank;
use crate::event::severity_from_str;
use crate::event::severity_name;
use crate::event::severity_named;
use crate::event::severity_rank;
use crate::event::severity_text;
use crate::event::ContextClassification;
use crate::event::IncidentTransition;
use crate::event::Severity;
use crate::quotes::deviation;
use crate::quotes::deviation_pct;
use crate::quotes::QuoteInput;
use crate::quotes::HUNDRED_BITS;
use crate::text::copy_option;
use crate::text::same;
use crate::text::text_option;
use crate::text::texts;
use crate::time::Timestamp;

verus! {

// ---------------------------------------------------------------------------
// Severity
// ---------------------------------------------------------------------------

/// The severity of a deviation: that of the first band whose limit it reaches.
pub open spec fn severity_in_bands(
    pct: Double,
    medium: Double,
    high: Double,
    critical: Double,
) -> Option<Severity> {
    if critical.at_most(pct) {
        Some(Severity::Critical)
    } else if high.at_most(pct) {
        Some(Severity::High)
    } else if medium.at_most(pct) {
        Some(Severity::Medium)
    } else {
        None
    }
}

pub fn severity_by_bands(pct: Double, medium: Double, high: Double, critical: Double) -> (r: Option<
    Severity,
>)
    ensures
        r == severity_in_bands(pct, medium, high, critical),
{
    if critical.le(pct) {
        return Some(Severity::Critical);
    }
    if high.le(pct) {
        return Some(Severity::High);
    }
    if medium.le(pct) {
        return Some(Severity::Medium);
    }
    None
}

/// What is recommended for a depeg of a severity.
pub open spec fn depeg_actions(severity: Severity) -> Seq<Seq<char>> {
    match severity {
        Severity::Critical => seq![
            "Immediate Rebalance: move all affected stablecoin positions to safe assets (ETH, BTC, or actively pegged stablecoins)"@,
            "Exit all positions in the affected stablecoin immediately to prevent further capital erosion"@,
            "Withdraw to Owner wallet: transfer funds to a secure wallet outside the affected protocol"@,
        ],
        Severity::High => seq![
            "Partial Exit: reduce stablecoin exposure by 50% to limit downside risk"@,
            "Rebalance to ETH or other correlated assets to maintain market exposure"@,
            "Hold and Monitor: set a recovery price alert at the peg target threshold"@,
        ],
        Severity::Medium => seq![
            "Hold and Monitor: depeg is within manageable range, no immediate action required"@,
            "Rebalance to maintain target stablecoin allocation if exposure exceeds risk tolerance"@,
        ],
        _ => Seq::<Seq<char>>::empty(),
    }
}

pub fn recommended_actions_for_severity(severity: &Severity) -> (r: Vec<String>)
    ensures
        texts(r@) == depeg_actions(*severity),
{
    let mut r: Vec<String> = Vec::new();
    match severity {
        Severity::Critical => {
            r.push(
                "Immediate Rebalance: move all affected stablecoin positions to safe assets (ETH, BTC, or actively pegged stablecoins)".to_owned(),
            );
            r.push(
                "Exit all positions in the affected stablecoin immediately to prevent further capital erosion".to_owned(),
            );
            r.push(
                "Withdraw to Owner wallet: transfer funds to a secure wallet outside the affected protocol".to_owned(),
            );
        },
        Severity::High => {
            r.push(
                "Partial Exit: reduce stablecoin exposure by 50% to limit downside risk".to_owned(),
            );
            r.push(
                "Rebalance to ETH or other correlated assets to maintain market exposure".to_owned(),
            );
            r.push(
                "Hold and Monitor: set a recovery price alert at the peg target threshold".to_owned(),
            );
        },
        Severity::Medium => {
            r.push(
                "Hold and Monitor: depeg is within manageable range, no immediate action required".to_owned(),
            );
            r.push(
                "Rebalance to maintain target stablecoin allocation if exposure exceeds risk tolerance".to_owned(),
            );
        },
        _ => {},
    }
    assert(texts(r@) =~= depeg_actions(*severity));
    r
}

// ---------------------------------------------------------------------------
// Oracles and confidence
// ---------------------------------------------------------------------------

/// Whether a quote is an oracle's.
pub open spec fn by_oracle(q: QuoteInput) -> bool {
    q.source_kind@ == "oracle"@
}

/// Whether every oracle's quote is closer to the target than the floor.
pub open spec fn oracles_calm(s: Seq<QuoteInput>, floor: Double, target: Double) -> bool {
    forall|i: int|
        0 <= i < s.len() && by_oracle(#[trigger] s[i]) ==> deviation(s[i].price, target).below(
            floor,
        )
}

pub fn available_oracles_within_resolution_floor(
    eligible_quotes: &[QuoteInput],
    resolution_floor_pct: Double,
    peg_target: Double,
) -> (r: bool)
    ensures
        r == oracles_calm(eligible_quotes@, resolution_floor_pct, peg_target),
{
    let mut i: usize = 0;
    while i < eligible_quotes.len()
        invariant
            i <= eligible_quotes.len(),
            forall|k: int|
                0 <= k < i && by_oracle(#[trigger] eligible_quotes@[k]) ==> deviation(
                    eligible_quotes@[k].price,
                    peg_target,
                ).below(resolution_floor_pct),
        decreases eligible_quotes.len() - i,
    {
        let quote: &QuoteInput = &eligible_quotes[i];
        if same(quote.source_kind.as_str(), "oracle") && !deviation_pct(quote.price, peg_target).lt(
            resolution_floor_pct,
        ) {
            assert(by_oracle(eligible_quotes@[i as int]));
            return false;
        }
        i = i + 1;
    }
    true
}

/// How sure a consensus is, in percent: how many sources agree on the direction, what
/// oracles and volume add, and all of it together.
#[derive(Clone, Copy, Debug, PartialEq, Eq, Structural)]
pub struct ConfidenceBreakdown {
    pub source_agreement: Double,
    pub oracle_confirmation: Double,
    pub volume_confirmation: Double,
    pub total: Double,
}

/// What the parts of a confidence count with.
#[derive(Clone, Copy, Debug, PartialEq, Eq, Structural)]
pub struct ConfidenceRules {
    pub source_weight: Double,
    pub oracle_weight: Double,
    pub volume_weight: Double,
    pub oracle_toggle: bool,
    pub volume_toggle: bool,
}

/// The bits of 50.0, and of the distance from 1.0 to the next double.
pub const FIFTY_BITS: u64 = 0x4049_0000_0000_0000;

pub const EPSILON_BITS: u64 = 0x3cb0_0000_0000_0000;

/// How many of the first `n` quotes lie on the side of the target that `direction` says.
pub open spec fn agreeing(s: Seq<QuoteInput>, target: Double, direction: Double, n: nat) -> nat
    decreases n,
{
    if n == 0 {
        0
    } else {
        let before = agreeing(s, target, direction, (n - 1) as nat);
        if sign_of(difference(s[n - 1].price, target)).same(direction) {
            before + 1
        } else {
            before
        }
    }
}

/// The weights that the parts of a confidence count with once the toggles are applied.
pub open spec fn part_weights(c: ConfidenceRules) -> (Double, Double, Double) {
    (
        larger(c.source_weight, double(0)),
        if c.oracle_toggle {
            larger(c.oracle_weight, double(0))
        } else {
            double(0)
        },
        if c.volume_toggle {
            larger(c.volume_weight, double(0))
        } else {
            double(0)
        },
    )
}

pub fn effective_weights(c: &ConfidenceRules) -> (r: (Double, Double, Double))
    ensures
        r == part_weights(*c),
{
    let zero = Double { bits: 0 };
    (
        c.source_weight.max(zero),
        if c.oracle_toggle {
            c.oracle_weight.max(zero)
        } else {
            zero
        },
        if c.volume_toggle {
            c.volume_weight.max(zero)
        } else {
            zero
        },
    )
}

/// The confidence in a consensus price.
pub open spec fn confidence(
    c: ConfidenceRules,
    s: Seq<QuoteInput>,
    price: Double,
    oracle_confirmed: bool,
    target: Double,
) -> ConfidenceBreakdown {
    if s.len() == 0 {
        ConfidenceBreakdown {
            source_agreement: double(0),
            oracle_confirmation: double(0),
            volume_confirmation: double(FIFTY_BITS),
            total: double(0),
        }
    } else {
        let direction = sign_of(difference(price, target));
        let agreement = product(
            quotient(
                of_int(agreeing(s, target, direction, s.len()) as int),
                of_int(s.len() as int),
            ),
            double(HUNDRED_BITS),
        );
        let oracle = if !c.oracle_toggle {
            double(FIFTY_BITS)
        } else if oracle_confirmed {
            double(HUNDRED_BITS)
        } else {
            double(0)
        };
        let volume = double(FIFTY_BITS);
        let (ws, wo, wv) = part_weights(c);
        let all = larger(sum(sum(ws, wo), wv), double(EPSILON_BITS));
        let parts = sum(sum(product(agreement, ws), product(oracle, wo)), product(volume, wv));
        ConfidenceBreakdown {
            source_agreement: agreement,
            oracle_confirmation: oracle,
            volume_confirmation: volume,
            total: quotient(parts, all),
        }
    }
}

pub fn confidence_breakdown(
    rules: &ConfidenceRules,
    eligible_quotes: &[QuoteInput],
    price: Double,
    oracle_confirmed: bool,
    peg_target: Double,
) -> (r: ConfidenceBreakdown)
    ensures
        r == confidence(*rules, eligible_quotes@, price, oracle_confirmed, peg_target),
{
    let zero = Double { bits: 0 };
    let fifty = Double { bits: FIFTY_BITS };
    let hundred = Double { bits: HUNDRED_BITS };
    if eligible_quotes.len() == 0 {
        return ConfidenceBreakdown {
            source_agreement: zero,
            oracle_confirmation: zero,
            volume_confirmation: fifty,
            total: zero,
        };
    }
    let direction: Double = price.minus(peg_target).signum();
    let mut count: usize = 0;
    let mut i: usize = 0;
    while i < eligible_quotes.len()
        invariant
            i <= eligible_quotes.len(),
            count <= i,
            count == agreeing(eligible_quotes@, peg_target, direction, i as nat),
        decreases eligible_quotes.len() - i,
    {
        if eligible_quotes[i].price.minus(peg_target).signum().equals(direction) {
            count = count + 1;
        }
        i = i + 1;
    }
    let agreement: Double = Double::from_usize(count).over(
        Double::from_usize(eligible_quotes.len()),
    ).times(hundred);
    let oracle: Double = if !rules.oracle_toggle {
        fifty
    } else if oracle_confirmed {
        hundred
    } else {
        zero
    };
    let (ws, wo, wv): (Double, Double, Double) = effective_weights(rules);
    let all: Double = ws.plus(wo).plus(wv).max(Double { bits: EPSILON_BITS });
    let parts: Double = agreement.times(ws).plus(oracle.times(wo)).plus(fifty.times(wv));
    ConfidenceBreakdown {
        source_agreement: agreement,
        oracle_confirmation: oracle,
        volume_confirmation: fifty,
        total: parts.over(all),
    }
}

/// Whether as many sources as are needed, and as large a share of the enabled ones, have
/// quoted.
pub open spec fn quorum(
    count: nat,
    enabled: nat,
    min_healthy: nat,
    min_sources: nat,
    share: Double,
) -> bool {
    &&& count >= min_healthy
    &&& count >= min_sources
    &&& count >= 1
    &&& share.at_most(
        quotient(
            of_int(count as int),
            of_int(
                if enabled == 0 {
                    1
                } else {
                    enabled as int
                },
            ),
        ),
    )
}

pub fn quorum_is_met(
    count: usize,
    enabled: usize,
    min_healthy: usize,
    min_sources: usize,
    share: Double,
) -> (r: bool)
    ensures
        r == quorum(count as nat, enabled as nat, min_healthy as nat, min_sources as nat, share),
{
    let ratio: Double = Double::from_usize(count).over(
        Double::from_usize(
            if enabled == 0 {
                1
            } else {
                enabled
            },
        ),
    );
    count >= min_healthy && count >= min_sources && count >= 1 && share.le(ratio)
}

// ---------------------------------------------------------------------------
// Incidents
// ---------------------------------------------------------------------------

/// What is remembered of a market between two evaluations.
#[derive(Debug)]
pub struct IncidentState {
    pub cooldown_until: Option<Timestamp>,
    pub last_alerted_at: Option<Timestamp>,
    pub last_divergence_pct: Option<Double>,
    pub last_severity: Option<String>,
    pub last_classification: Option<String>,
    pub trigger_floor_pct: Option<Double>,
    pub below_severity_blocks: i64,
    pub below_trigger_blocks: i64,
}

pub struct IncidentView {
    pub cooldown_until: Option<Timestamp>,
    pub last_alerted_at: Option<Timestamp>,
    pub last_divergence_pct: Option<Double>,
    pub last_severity: Option<Seq<char>>,
    pub last_classification: Option<Seq<char>>,
    pub trigger_floor_pct: Option<Double>,
    pub below_severity_blocks: int,
    pub below_trigger_blocks: int,
}

impl View for IncidentState {
    type V = IncidentView;

    open spec fn view(&self) -> IncidentView {
        IncidentView {
            cooldown_until: self.cooldown_until,
            last_alerted_at: self.last_alerted_at,
            last_divergence_pct: self.last_divergence_pct,
            last_severity: text_option(self.last_severity),
            last_classification: text_option(self.last_classification),
            trigger_floor_pct: self.trigger_floor_pct,
            below_severity_blocks: self.below_severity_blocks as int,
            below_trigger_blocks: self.below_trigger_blocks as int,
        }
    }
}

/// Nothing remembered.
pub open spec fn no_incident() -> IncidentView {
    IncidentView {
        cooldown_until: None,
        last_alerted_at: None,
        last_divergence_pct: None,
        last_severity: None,
        last_classification: None,
        trigger_floor_pct: None,
        below_severity_blocks: 0,
        below_trigger_blocks: 0,
    }
}

/// What an evaluation found: whether a breach is active, how severe the deviation is, how
/// large, in which context, above which floor it triggers, and whether no oracle is above
/// the floor at which the incident would end.
#[derive(Clone, Copy, Debug, PartialEq, Eq, Structural)]
pub struct Finding {
    pub breach: bool,
    pub severity: Option<Severity>,
    pub divergence: Double,
    pub classification: ContextClassification,
    pub floor: Double,
    pub calm: bool,
}

/// How long an incident rests after a change, and how many evaluations in a row a smaller
/// severity or no breach takes.
#[derive(Clone, Copy, Debug, PartialEq, Eq, Structural)]
pub struct Limits {
    pub cooldown_sec: i64,
    pub deescalation_blocks: i64,
    pub resolution_blocks: i64,
}

/// How changes come about: whether a breach lasts long enough for an incident to start, and
/// whether a shrinking or ending incident changes silently.
#[derive(Clone, Copy, Debug, PartialEq, Eq, Structural)]
pub struct Manner {
    pub ready: bool,
    pub silent: bool,
}

/// What becomes of an incident.
#[derive(Debug)]
pub struct Advance {
    pub next: IncidentState,
    pub emit: bool,
    pub transition: Option<IncidentTransition>,
    pub severity: Option<Severity>,
}

pub struct AdvanceView {
    pub next: IncidentView,
    pub emit: bool,
    pub transition: Option<IncidentTransition>,
    pub severity: Option<Severity>,
}

impl View for Advance {
    type V = AdvanceView;

    open spec fn view(&self) -> AdvanceView {
        AdvanceView {
            next: self.next@,
            emit: self.emit,
            transition: self.transition,
            severity: self.severity,
        }
    }
}

/// The severity of the incident that is active, if one is.
pub open spec fn active_severity(s: IncidentView) -> Option<Severity> {
    severity_named(s.last_severity)
}

/// Whether the incident still rests after its last change.
pub open spec fn cooling(s: IncidentView, now: Timestamp) -> bool {
    match s.cooldown_until {
        Some(until) => now.before(until),
        None => false,
    }
}

/// The floor below which the deviation has to come for the incident to end: the one that it
/// started above.
pub open spec fn resolution_floor(s: IncidentView, floor: Double) -> Double {
    match s.trigger_floor_pct {
        Some(x) => x,
        None => floor,
    }
}

/// Nothing but the remembered state changes.
pub open spec fn quietly(next: IncidentView) -> AdvanceView {
    AdvanceView { next, emit: false, transition: None, severity: None }
}

/// One step of an incident in which a breach is active.
pub open spec fn advance_breach(
    s: IncidentView,
    f: Finding,
    l: Limits,
    m: Manner,
    now: Timestamp,
) -> AdvanceView {
    let previous = active_severity(s);
    let until = Some(now.after_seconds(l.cooldown_sec as int));
    let noted = IncidentView {
        last_divergence_pct: Some(f.divergence),
        last_classification: Some(classification_name(f.classification)),
        below_severity_blocks: 0,
        below_trigger_blocks: 0,
        ..s
    };
    if previous is None {
        match f.severity {
            Some(severity) => if m.ready && !cooling(s, now) {
                AdvanceView {
                    next: IncidentView {
                        cooldown_until: until,
                        last_alerted_at: Some(now),
                        last_severity: Some(severity_name(severity)),
                        trigger_floor_pct: Some(f.floor),
                        ..noted
                    },
                    emit: true,
                    transition: Some(IncidentTransition::Trigger),
                    severity: Some(severity),
                }
            } else {
                quietly(IncidentView { below_trigger_blocks: 0, ..s })
            },
            None => quietly(IncidentView { below_trigger_blocks: 0, ..s }),
        }
    } else if rank(f.severity) > rank(previous) {
        match f.severity {
            Some(severity) => if !cooling(s, now) {
                AdvanceView {
                    next: IncidentView {
                        cooldown_until: until,
                        last_alerted_at: Some(now),
                        last_severity: Some(severity_name(severity)),
                        trigger_floor_pct: Some(resolution_floor(s, f.floor)),
                        ..noted
                    },
                    emit: true,
                    transition: Some(IncidentTransition::Escalate),
                    severity: Some(severity),
                }
            } else {
                quietly(noted)
            },
            None => quietly(noted),
        }
    } else if rank(f.severity) < rank(previous) {
        let blocks = s.below_severity_blocks + 1;
        let waiting = quietly(IncidentView { below_severity_blocks: blocks, ..noted });
        match f.severity {
            Some(severity) => if blocks >= l.deescalation_blocks && !cooling(s, now) {
                AdvanceView {
                    next: IncidentView {
                        cooldown_until: until,
                        last_alerted_at: Some(now),
                        last_severity: Some(severity_name(severity)),
                        ..noted
                    },
                    emit: !m.silent,
                    transition: Some(IncidentTransition::Deescalate),
                    severity: Some(severity),
                }
            } else {
                waiting
            },
            None => waiting,
        }
    } else {
        quietly(noted)
    }
}

/// One step of an incident in which no breach is active.
pub open spec fn advance_calm(
    s: IncidentView,
    f: Finding,
    l: Limits,
    m: Manner,
    now: Timestamp,
) -> AdvanceView {
    let noted = IncidentView {
        last_divergence_pct: Some(f.divergence),
        below_severity_blocks: 0,
        ..s
    };
    match active_severity(s) {
        Some(previous) => {
            let blocks = if f.divergence.below(resolution_floor(s, f.floor)) && f.calm {
                s.below_trigger_blocks + 1
            } else {
                0
            };
            if blocks >= l.resolution_blocks {
                AdvanceView {
                    next: IncidentView {
                        cooldown_until: Some(now.after_seconds(l.cooldown_sec as int)),
                        last_alerted_at: Some(now),
                        last_severity: None,
                        last_classification: None,
                        trigger_floor_pct: None,
                        below_trigger_blocks: 0,
                        ..noted
                    },
                    emit: !m.silent,
                    transition: Some(IncidentTransition::Resolve),
                    severity: Some(previous),
                }
            } else {
                quietly(IncidentView { below_trigger_blocks: blocks, ..noted })
            }
        },
        None => quietly(noted),
    }
}

/// One step of an incident.
pub open spec fn advanced(
    s: IncidentView,
    f: Finding,
    l: Limits,
    m: Manner,
    now: Timestamp,
) -> AdvanceView {
    if f.breach {
        advance_breach(s, f, l, m, now)
    } else {
        advance_calm(s, f, l, m, now)
    }
}

impl IncidentState {
    pub fn copy(&self) -> (r: IncidentState)
        ensures
            r == *self,
    {
        IncidentState {
            cooldown_until: self.cooldown_until,
            last_alerted_at: self.last_alerted_at,
            last_divergence_pct: self.last_divergence_pct,
            last_severity: copy_option(&self.last_severity),
            last_classification: copy_option(&self.last_classification),
            trigger_floor_pct: self.trigger_floor_pct,
            below_severity_blocks: self.below_severity_blocks,
            below_trigger_blocks: self.below_trigger_blocks,
        }
    }

    /// The severity of the incident that is active, if one is.
    pub fn active(&self) -> (r: Option<Severity>)
        ensures
            r == active_severity(self@),
    {
        match &self.last_severity {
            Some(s) => severity_from_str(Some(s.as_str())),
            None => None,
        }
    }

    /// Whether the incident still rests after its last change.
    pub fn is_cooling(&self, now: Timestamp) -> (r: bool)
        ensures
            r == cooling(self@, now),
    {
        match self.cooldown_until {
            Some(until) => now.is_before(until),
            None => false,
        }
    }

    /// The floor below which the deviation has to come for the incident to end.
    pub fn floor_to_resolve(&self, floor: Double) -> (r: Double)
        ensures
            r == resolution_floor(self@, floor),
    {
        match self.trigger_floor_pct {
            Some(x) => x,
            None => floor,
        }
    }

    /// One step of the incident.
    pub fn advance(&self, f: Finding, l: Limits, m: Manner, now: Timestamp) -> (r: Advance)
        requires
            self.below_severity_blocks < i64::MAX,
            self.below_trigger_blocks < i64::MAX,
        ensures
            r@ == advanced(self@, f, l, m, now),
    {
        if f.breach {
            self.advance_in_breach(f, l, m, now)
        } else {
            self.advance_in_calm(f, l, m, now)
        }
    }

    fn advance_in_breach(&self, f: Finding, l: Limits, m: Manner, now: Timestamp) -> (r: Advance)
        requires
            self.below_severity_blocks < i64::MAX,
        ensures
            r@ == advance_breach(self@, f, l, m, now),
    {
        let previous: Option<Severity> = self.active();
        let cooling: bool = self.is_cooling(now);
        let mut next: IncidentState = self.copy();
        let mut emit: bool = false;
        let mut transition: Option<IncidentTransition> = None;
        let mut emitted: Option<Severity> = None;
        next.below_trigger_blocks = 0;
        let current_rank: u8 = severity_rank(f.severity.as_ref());
        let previous_rank: u8 = severity_rank(previous.as_ref());
        if previous.is_none() {
            match f.severity {
                Some(severity) => {
                    if m.ready && !cooling {
                        emit = true;
                        transition = Some(IncidentTransition::Trigger);
                        emitted = Some(severity);
                        next.last_alerted_at = Some(now);
                        next.last_divergence_pct = Some(f.divergence);
                        next.last_severity = Some(severity_text(severity).to_owned());
                        next.last_classification = Some(
                            context_classification_str(&f.classification).to_owned(),
                        );
                        next.trigger_floor_pct = Some(f.floor);
                        next.below_severity_blocks = 0;
                        next.cooldown_until = Some(now.plus_seconds(l.cooldown_sec));
                    }
                },
                None => {},
            }
        } else {
            next.last_divergence_pct = Some(f.divergence);
            next.last_classification = Some(
                context_classification_str(&f.classification).to_owned(),
            );
            if current_rank > previous_rank {
                next.below_severity_blocks = 0;
                match f.severity {
                    Some(severity) => {
                        if !cooling {
                            emit = true;
                            transition = Some(IncidentTransition::Escalate);
                            emitted = Some(severity);
                            next.last_alerted_at = Some(now);
                            next.last_severity = Some(severity_text(severity).to_owned());
                            next.cooldown_until = Some(now.plus_seconds(l.cooldown_sec));
                            next.trigger_floor_pct = Some(self.floor_to_resolve(f.floor));
                        }
                    },
                    None => {},
                }
            } else if current_rank < previous_rank {
                next.below_severity_blocks = self.below_severity_blocks + 1;
                match f.severity {
                    Some(severity) => {
                        if next.below_severity_blocks >= l.deescalation_blocks && !cooling {
                            emit = !m.silent;
                            transition = Some(IncidentTransition::Deescalate);
                            emitted = Some(severity);
                            next.last_alerted_at = Some(now);
                            next.last_severity = Some(severity_text(severity).to_owned());
                            next.below_severity_blocks = 0;
                            next.cooldown_until = Some(now.plus_seconds(l.cooldown_sec));
                        }
                    },
                    None => {},
                }
            } else {
                next.below_severity_blocks = 0;
            }
        }
        Advance { next, emit, transition, severity: emitted }
    }

    fn advance_in_calm(&self, f: Finding, l: Limits, m: Manner, now: Timestamp) -> (r: Advance)
        requires
            self.below_trigger_blocks < i64::MAX,
        ensures
            r@ == advance_calm(self@, f, l, m, now),
    {
        let previous: Option<Severity> = self.active();
        let mut next: IncidentState = self.copy();
        next.last_divergence_pct = Some(f.divergence);
        next.below_severity_blocks = 0;
        if previous.is_none() {
            return Advance { next, emit: false, transition: None, severity: None };
        }
        if f.divergence.lt(self.floor_to_resolve(f.floor)) && f.calm {
            next.below_trigger_blocks = self.below_trigger_blocks + 1;
        } else {
            next.below_trigger_blocks = 0;
        }
        if next.below_trigger_blocks >= l.resolution_blocks {
            next.last_alerted_at = Some(now);
            next.last_severity = None;
            next.last_classification = None;
            next.trigger_floor_pct = None;
            next.below_trigger_blocks = 0;
            next.cooldown_until = Some(now.plus_seconds(l.cooldown_sec));
            return Advance {
                next,
                emit: !m.silent,
                transition: Some(IncidentTransition::Resolve),
                severity: previous,
            };
        }
        Advance { next, emit: false, transition: None, severity: None }
    }
}

// ---------------------------------------------------------------------------
// Laws
// ---------------------------------------------------------------------------

/// A larger deviation is never less severe.
pub proof fn law_severity_grows_with_deviation(
    small: Double,
    large: Double,
    medium: Double,
    high: Double,
    critical: Double,
)
    requires
        small.at_most(large),
    ensures
        rank(severity_in_bands(small, medium, high, critical)) <= rank(
            severity_in_bands(large, medium, high, critical),
        ),
{
}

/// While an incident rests, it neither starts, nor grows, nor shrinks.
pub proof fn law_cooldown_holds_changes_back(
    s: IncidentView,
    f: Finding,
    l: Limits,
    m: Manner,
    now: Timestamp,
)
    requires
        cooling(s, now),
    ensures
        advanced(s, f, l, m, now).transition is None || advanced(s, f, l, m, now).transition
            == Some(IncidentTransition::Resolve),
        f.breach ==> !advanced(s, f, l, m, now).emit && advanced(s, f, l, m, now).next.last_severity
            == s.last_severity,
{
}

/// An incident starts only where none is active, only on a breach of a severity, and only
/// once it is ready to; it then has that severity, and remembers the floor.
pub proof fn law_trigger_starts_an_incident(
    s: IncidentView,
    f: Finding,
    l: Limits,
    m: Manner,
    now: Timestamp,
)
    ensures
        advanced(s, f, l, m, now).transition == Some(IncidentTransition::Trigger) <==> f.breach
            && m.ready && active_severity(s) is None && f.severity is Some && !cooling(s, now),
        advanced(s, f, l, m, now).transition == Some(IncidentTransition::Trigger) ==> ({
            let a = advanced(s, f, l, m, now);
            &&& a.emit
            &&& a.severity == f.severity
            &&& active_severity(a.next) == f.severity
            &&& a.next.trigger_floor_pct == Some(f.floor)
            &&& a.next.cooldown_until == Some(now.after_seconds(l.cooldown_sec as int))
        }),
{
    if f.severity is Some {
        crate::event::law_severity_name_round_trips(f.severity->0);
    }
}

/// An incident grows only to a severity above the one it has, and keeps the floor that it
/// started above.
pub proof fn law_escalation_raises_the_severity(
    s: IncidentView,
    f: Finding,
    l: Limits,
    m: Manner,
    now: Timestamp,
)
    ensures
        advanced(s, f, l, m, now).transition == Some(IncidentTransition::Escalate) <==> f.breach
            && active_severity(s) is Some && rank(f.severity) > rank(active_severity(s))
            && !cooling(s, now),
        advanced(s, f, l, m, now).transition == Some(IncidentTransition::Escalate) ==> ({
            let a = advanced(s, f, l, m, now);
            &&& a.emit
            &&& a.severity == f.severity
            &&& rank(active_severity(a.next)) > rank(active_severity(s))
            &&& a.next.trigger_floor_pct == Some(resolution_floor(s, f.floor))
        }),
{
    if f.severity is Some {
        crate::event::law_severity_name_round_trips(f.severity->0);
    }
}

/// An incident shrinks only after as many evaluations in a row with a smaller severity as
/// the limits ask for, and starts to count anew then.
pub proof fn law_deescalation_takes_the_configured_blocks(
    s: IncidentView,
    f: Finding,
    l: Limits,
    m: Manner,
    now: Timestamp,
)
    requires
        f.breach,
        f.severity is Some,
        active_severity(s) is Some,
        rank(f.severity) < rank(active_severity(s)),
    ensures
        ({
            let a = advanced(s, f, l, m, now);
            if s.below_severity_blocks + 1 >= l.deescalation_blocks && !cooling(s, now) {
                &&& a.transition == Some(IncidentTransition::Deescalate)
                &&& active_severity(a.next) == f.severity
                &&& a.next.below_severity_blocks == 0
                &&& a.emit == !m.silent
            } else {
                &&& a.transition is None
                &&& a.next.last_severity == s.last_severity
                &&& a.next.below_severity_blocks == s.below_severity_blocks + 1
                &&& !a.emit
            }
        }),
{
    crate::event::law_severity_name_round_trips(f.severity->0);
}

/// An evaluation with the severity that the incident has, with a larger one, or without a
/// breach interrupts the count of smaller severities.
pub proof fn law_deescalation_count_is_interrupted(
    s: IncidentView,
    f: Finding,
    l: Limits,
    m: Manner,
    now: Timestamp,
)
    requires
        active_severity(s) is Some,
        !f.breach || rank(f.severity) >= rank(active_severity(s)),
    ensures
        advanced(s, f, l, m, now).next.below_severity_blocks == 0,
{
}

/// Whether an evaluation brings an incident closer to its end.
pub open spec fn calming(s: IncidentView, f: Finding) -> bool {
    !f.breach && f.divergence.below(resolution_floor(s, f.floor)) && f.calm
}

/// An evaluation that does not bring an active incident closer to its end starts the count
/// anew; with limits that ask for at least one, it does not end it.
pub proof fn law_resolution_count_is_interrupted(
    s: IncidentView,
    f: Finding,
    l: Limits,
    m: Manner,
    now: Timestamp,
)
    requires
        active_severity(s) is Some,
        !calming(s, f),
        l.resolution_blocks > 0,
    ensures
        advanced(s, f, l, m, now).next.below_trigger_blocks == 0,
        advanced(s, f, l, m, now).transition != Some(IncidentTransition::Resolve),
{
}

/// The state after a number of evaluations.
pub open spec fn run(
    s: IncidentView,
    fs: Seq<Finding>,
    l: Limits,
    m: Manner,
    times: Seq<Timestamp>,
    n: nat,
) -> IncidentView
    decreases n,
{
    if n == 0 {
        s
    } else {
        advanced(
            run(s, fs, l, m, times, (n - 1) as nat),
            fs[n - 1],
            l,
            m,
            times[n - 1],
        ).next
    }
}

/// An incident ends with exactly as many evaluations in a row that bring it closer to its
/// end as the limits ask for: not before, and at the last of them. It then is over and its
/// floor is forgotten.
pub proof fn law_resolution_takes_exactly_the_configured_blocks(
    s: IncidentView,
    fs: Seq<Finding>,
    l: Limits,
    m: Manner,
    times: Seq<Timestamp>,
    n: nat,
)
    requires
        active_severity(s) is Some,
        s.trigger_floor_pct is Some,
        s.below_trigger_blocks == 0,
        0 < l.resolution_blocks,
        n < l.resolution_blocks,
        fs.len() > n,
        times.len() > n,
        forall|i: int| 0 <= i <= n ==> calming(s, #[trigger] fs[i]),
    ensures
        ({
            let t = run(s, fs, l, m, times, n);
            let a = advanced(t, fs[n as int], l, m, times[n as int]);
            &&& t.last_severity == s.last_severity
            &&& t.trigger_floor_pct == s.trigger_floor_pct
            &&& t.below_trigger_blocks == n
            &&& a.transition == Some(IncidentTransition::Resolve) <==> n + 1 == l.resolution_blocks
            &&& a.transition == Some(IncidentTransition::Resolve) ==> active_severity(a.next)
                is None && a.next.trigger_floor_pct is None && a.severity == active_severity(s)
                && a.emit == !m.silent
        }),
    decreases n,
{
    if n > 0 {
        law_resolution_takes_exactly_the_configured_blocks(s, fs, l, m, times, (n - 1) as nat);
        assert(calming(s, fs[n - 1]));
    }
    assert(calming(s, fs[n as int]));
}

/// A silent incident is reported only when it starts or grows.
pub proof fn law_silent_incidents_report_starts_and_growth_only(
    s: IncidentView,
    f: Finding,
    l: Limits,
    m: Manner,
    now: Timestamp,
)
    requires
        m.silent,
    ensures
        advanced(s, f, l, m, now).emit <==> (advanced(s, f, l, m, now).transition == Some(
            IncidentTransition::Trigger,
        ) || advanced(s, f, l, m, now).transition == Some(IncidentTransition::Escalate)),
{
}

/// Whatever is reported has a severity and is a change; an incident that is not silent
/// reports every change.
pub proof fn law_reports_are_changes(
    s: IncidentView,
    f: Finding,
    l: Limits,
    m: Manner,
    now: Timestamp,
)
    ensures
        advanced(s, f, l, m, now).emit ==> advanced(s, f, l, m, now).transition is Some && advanced(
            s,
            f,
            l,
            m,
            now,
        ).severity is Some,
        !m.silent ==> (advanced(s, f, l, m, now).emit <==> advanced(
            s,
            f,
            l,
            m,
            now,
        ).transition is Some),
{
}

/// A deviation has the highest severity whose limit it reaches, and reaching a limit is enough.
pub proof fn law_reaching_a_band_is_enough(pct: Double, medium: Double, high: Double, critical: Double)
    requires
        pct.finite(),
        medium.finite(),
        high.finite(),
        critical.finite(),
    ensures
        ({
            let r = severity_in_bands(pct, medium, high, critical);
            &&& r == Some(Severity::Critical) <==> critical.value() <= pct.value()
            &&& r == Some(Severity::High) <==> high.value() <= pct.value() < critical.value()
            &&& r == Some(Severity::Medium) <==> medium.value() <= pct.value() && pct.value()
                < high.value() && pct.value() < critical.value()
            &&& r is None <==> pct.value() < medium.value() && pct.value() < high.value()
                && pct.value() < critical.value()
        }),
{
    crate::double::law_order_is_by_value(critical, pct);
    crate::double::law_order_is_by_value(high, pct);
    crate::double::law_order_is_by_value(medium, pct);
}

/// A quorum is met exactly where as many sources quoted as are needed, at least one, and the
/// share that the rule asks for is not above that of the sources that quoted.
pub proof fn law_quorum_is_a_share(
    count: nat,
    enabled: nat,
    min_healthy: nat,
    min_sources: nat,
    share: Double,
    part: Double,
)
    requires
        count < crate::double::PRECISION,
        0 < enabled < crate::double::PRECISION,
        share.finite(),
        part.finite(),
        0 <= part.key(),
        part.value() * enabled == count * pow2(1074),
    ensures
        quorum(count, enabled, min_healthy, min_sources, share) <==> count >= min_healthy && count
            >= min_sources && count >= 1 && share.value() <= part.value(),
        quorum(count, 0, min_healthy, min_sources, share) == quorum(
            count,
            1,
            min_healthy,
            min_sources,
            share,
        ),
{
    let a = of_int(count as int);
    let b = of_int(enabled as int);
    crate::double::law_small_integers_are_exact(count);
    crate::double::law_small_integers_are_exact(enabled);
    let one: nat = pow2(1074);
    assert(part.value() * b.value() == a.value() * one) by (nonlinear_arith)
        requires
            part.value() * enabled == count * one,
            b.value() == enabled * one,
            a.value() == count * one,
    ;
    crate::double::law_quotients_are_exact_where_they_can_be(a, b, part);
    crate::double::law_order_is_by_value(share, part);
}

/// More quotes never break a quorum, and fewer enabled sources do not either.
pub proof fn law_more_quotes_keep_a_quorum(
    count: nat,
    more: nat,
    enabled: nat,
    fewer: nat,
    min_healthy: nat,
    min_sources: nat,
    share: Double,
)
    requires
        count <= more < crate::double::PRECISION,
        0 < fewer <= enabled < crate::double::PRECISION,
        quorum(count, enabled, min_healthy, min_sources, share),
    ensures
        quorum(more, enabled, min_healthy, min_sources, share),
        quorum(count, fewer, min_healthy, min_sources, share),
{
    let (a, b) = (of_int(count as int), of_int(more as int));
    let (c, d) = (of_int(fewer as int), of_int(enabled as int));
    crate::double::law_small_integers_are_exact(count);
    crate::double::law_small_integers_are_exact(more);
    crate::double::law_small_integers_are_exact(fewer);
    crate::double::law_small_integers_are_exact(enabled);
    let one: nat = pow2(1074);
    assert(count * one <= more * one && fewer * one <= enabled * one) by (nonlinear_arith)
        requires
            count <= more,
            fewer <= enabled,
    ;
    crate::double::law_order_is_by_value(a, b);
    crate::double::law_order_is_by_value(c, d);
    crate::double::law_quotient_grows(a, b, d);
    crate::double::law_quotient_falls(a, c, d);
}

/// Whether a price lies on the same side of a target as another; the target itself lies above.
pub open spec fn same_side(a: Double, b: Double, target: Double) -> bool {
    a.value() < target.value() <==> b.value() < target.value()
}

/// The quotes that agree with a price are those on its side of the target: of a list with one
/// more quote one more agrees exactly where that one does.
pub proof fn law_quotes_agree_on_the_side(
    s: Seq<QuoteInput>,
    q: QuoteInput,
    price: Double,
    target: Double,
)
    requires
        q.price.finite(),
        price.finite(),
        target.positive(),
    ensures
        ({
            let direction = sign_of(difference(price, target));
            let before = agreeing(s, target, direction, s.len());
            agreeing(s.push(q), target, direction, s.len() + 1) == if same_side(
                q.price,
                price,
                target,
            ) {
                before + 1
            } else {
                before
            }
        }),
{
    let direction = sign_of(difference(price, target));
    crate::double::law_differences_have_a_side(price, target);
    crate::double::law_differences_have_a_side(q.price, target);
    crate::double::lemma_signed(true, crate::double::ONE as nat);
    crate::double::lemma_signed(false, crate::double::ONE as nat);
    lemma_agreeing_before(s, q, target, direction, s.len());
}

proof fn lemma_agreeing_before(
    s: Seq<QuoteInput>,
    q: QuoteInput,
    target: Double,
    direction: Double,
    n: nat,
)
    requires
        n <= s.len(),
    ensures
        agreeing(s.push(q), target, direction, n) == agreeing(s, target, direction, n),
    decreases n,
{
    if n > 0 {
        lemma_agreeing_before(s, q, target, direction, (n - 1) as nat);
        assert(s.push(q)[n - 1] == s[n - 1]);
    }
}

proof fn lemma_agreeing_bound(s: Seq<QuoteInput>, target: Double, direction: Double, n: nat)
    ensures
        agreeing(s, target, direction, n) <= n,
    decreases n,
{
    if n > 0 {
        lemma_agreeing_bound(s, target, direction, (n - 1) as nat);
    }
}

/// The agreement of the sources is the share of the quotes that agree, in percent.
pub proof fn law_agreement_is_a_percentage(
    c: ConfidenceRules,
    s: Seq<QuoteInput>,
    price: Double,
    confirmed: bool,
    target: Double,
    part: Double,
    percent: Double,
)
    requires
        0 < s.len() < crate::double::PRECISION,
        part.finite(),
        0 <= part.key(),
        percent.finite(),
        part.value() * s.len() == agreeing(
            s,
            target,
            sign_of(difference(price, target)),
            s.len(),
        ) * pow2(1074),
        percent.value() == part.value() * 100,
    ensures
        confidence(c, s, price, confirmed, target).source_agreement.same(percent),
{
    let n = agreeing(s, target, sign_of(difference(price, target)), s.len());
    lemma_agreeing_bound(s, target, sign_of(difference(price, target)), s.len());
    let a = of_int(n as int);
    let b = of_int(s.len() as int);
    crate::double::law_small_integers_are_exact(n);
    crate::double::law_small_integers_are_exact(s.len());
    let one: nat = pow2(1074);
    assert(part.value() * b.value() == a.value() * one) by (nonlinear_arith)
        requires
            part.value() * s.len() == n * one,
            b.value() == s.len() * one,
            a.value() == n * one,
    ;
    crate::double::law_quotients_are_exact_where_they_can_be(a, b, part);
    let q = quotient(a, b);
    crate::aggregation::lemma_same_value(q, part);
    crate::quotes::lemma_hundred();
    let hundred = double(HUNDRED_BITS);
    assert(percent.value() * one == q.value() * hundred.value()) by (nonlinear_arith)
        requires
            percent.value() == part.value() * 100,
            q.value() == part.value(),
            hundred.value() == 100 * one,
    ;
    crate::double::law_products_are_exact_where_they_can_be(q, hundred, percent);
}

/// Nothing is known of the volume, so that it counts half, and so does what the oracles say
/// where they are not asked; where they are, they confirm in full or not at all.
pub proof fn law_confidence_in_oracles_is_all_or_nothing(
    c: ConfidenceRules,
    s: Seq<QuoteInput>,
    price: Double,
    confirmed: bool,
    target: Double,
)
    requires
        s.len() > 0,
    ensures
        ({
            let r = confidence(c, s, price, confirmed, target);
            &&& r.volume_confirmation == double(FIFTY_BITS)
            &&& !c.oracle_toggle ==> r.oracle_confirmation == double(FIFTY_BITS)
            &&& c.oracle_toggle && confirmed ==> r.oracle_confirmation == double(HUNDRED_BITS)
            &&& c.oracle_toggle && !confirmed ==> r.oracle_confirmation == double(0)
        }),
{
}

/// What has no weight, or is switched off, does not matter to the confidence: neither what the
/// oracles say, nor the weight of a part that is switched off.
pub proof fn law_parts_without_weight_do_not_matter(
    c: ConfidenceRules,
    d: ConfidenceRules,
    s: Seq<QuoteInput>,
    price: Double,
    target: Double,
)
    requires
        c.source_weight == d.source_weight,
        c.oracle_toggle == d.oracle_toggle,
        c.volume_toggle == d.volume_toggle,
        c.oracle_toggle ==> c.oracle_weight == d.oracle_weight,
        c.volume_toggle ==> c.volume_weight == d.volume_weight,
    ensures
        confidence(c, s, price, true, target).total == confidence(d, s, price, true, target).total,
        confidence(c, s, price, false, target).total == confidence(
            d,
            s,
            price,
            false,
            target,
        ).total,
        !c.oracle_toggle ==> confidence(c, s, price, true, target).total == confidence(
            c,
            s,
            price,
            false,
            target,
        ).total,
        c.oracle_weight.at_most(double(0)) ==> confidence(c, s, price, true, target).total
            == confidence(c, s, price, false, target).total,
{
    crate::aggregation::lemma_zero_value();
    crate::quotes::lemma_hundred();
    let zero = double(0);
    let w = part_weights(c).1;
    if c.oracle_toggle && c.oracle_weight.at_most(zero) {
        assert(w.magnitude() == 0);
        assert(w == zero || w.key() == 0);
        lemma_nothing_times(double(HUNDRED_BITS), w);
        lemma_nothing_times(zero, w);
    }
}

proof fn lemma_nothing_times(x: Double, w: Double)
    requires
        x.finite(),
        !x.negative(),
        w.magnitude() == 0,
    ensures
        product(x, w) == crate::double::signed(w.negative(), 0),
{
    assert(w.units() == 0) by {
        assert(w.significand() * pow2(w.scale()) == 0) by (nonlinear_arith)
            requires
                w.significand() == 0,
        ;
    }
    assert(x.units() * w.units() == 0) by (nonlinear_arith)
        requires
            w.units() == 0,
    ;
    lemma_pow2_pos(1074);
    crate::double::lemma_zero_rounds_to_zero(pow2(1074));
}

/// Every change of an incident is noted with its time and starts the cooldown; without a
/// change neither is touched.
pub proof fn law_changes_start_the_cooldown(
    s: IncidentView,
    f: Finding,
    l: Limits,
    m: Manner,
    now: Timestamp,
)
    ensures
        ({
            let a = advanced(s, f, l, m, now);
            &&& a.transition is Some ==> a.next.cooldown_until == Some(
                now.after_seconds(l.cooldown_sec as int),
            ) && a.next.last_alerted_at == Some(now)
            &&& a.transition is None ==> a.next.cooldown_until == s.cooldown_until
                && a.next.last_alerted_at == s.last_alerted_at && a.next.last_severity
                == s.last_severity && a.next.trigger_floor_pct == s.trigger_floor_pct && !a.emit
                && a.severity is None
        }),
{
}

/// An incident remembers how far the price was off last, and in what context while it is
/// active; it keeps its floor until it ends.
pub proof fn law_incidents_remember_the_last_deviation(
    s: IncidentView,
    f: Finding,
    l: Limits,
    m: Manner,
    now: Timestamp,
)
    requires
        active_severity(s) is Some,
    ensures
        ({
            let a = advanced(s, f, l, m, now);
            &&& a.next.last_divergence_pct == Some(f.divergence)
            &&& f.breach ==> a.next.last_classification == Some(
                classification_name(f.classification),
            )
            &&& !f.breach && a.transition is None ==> a.next.last_classification
                == s.last_classification
            &&& a.transition == Some(IncidentTransition::Resolve) ==> a.next.last_classification
                is None
            &&& s.trigger_floor_pct is Some && a.transition != Some(IncidentTransition::Resolve)
                ==> a.next.trigger_floor_pct == s.trigger_floor_pct
            &&& f.breach ==> a.next.below_trigger_blocks == 0
        }),
{
}

/// An incident ends below the floor that it started above, whatever the floor is by then.
pub proof fn law_incidents_end_below_their_own_floor(s: IncidentView, floor: Double, other: Double)
    ensures
        s.trigger_floor_pct == Some(floor) ==> resolution_floor(s, other) == floor,
        s.trigger_floor_pct is None ==> resolution_floor(s, other) == other,
{
}

/// An incident rests until the end of its cooldown and no longer.
pub proof fn law_cooldown_ends(s: IncidentView, until: Timestamp, now: Timestamp)
    ensures
        s.cooldown_until == Some(until) ==> (cooling(s, now) <==> now.nanos < until.nanos),
        s.cooldown_until is None ==> !cooling(s, now),
{
}

/// One oracle that is off by the floor or more is enough for the oracles not to be calm.
pub proof fn law_one_oracle_is_enough_for_concern(
    s: Seq<QuoteInput>,
    floor: Double,
    target: Double,
    i: int,
)
    requires
        0 <= i < s.len(),
        s[i].source_kind@ == "oracle"@,
        floor.at_most(deviation(s[i].price, target)),
    ensures
        !oracles_calm(s, floor, target),
{
}

/// What quotes say that are no oracle's does not matter to whether the oracles are calm.
pub proof fn law_only_oracles_matter_to_calm(
    s: Seq<QuoteInput>,
    q: QuoteInput,
    floor: Double,
    target: Double,
)
    requires
        q.source_kind@ != "oracle"@,
    ensures
        oracles_calm(s.push(q), floor, target) == oracles_calm(s, floor, target),
{
    let t = s.push(q);
    if oracles_calm(t, floor, target) {
        assert forall|i: int| 0 <= i < s.len() && by_oracle(#[trigger] s[i]) implies deviation(
            s[i].price,
            target,
        ).below(floor) by {
            assert(t[i] == s[i]);
        }
    }
}

/// What the parts of a confidence come to with the weights that they count with.
pub open spec fn weighed_parts(c: ConfidenceRules, agreement: Double, oracle: Double, volume: Double) -> Double {
    let (ws, wo, wv) = part_weights(c);
    quotient(
        sum(sum(product(agreement, ws), product(oracle, wo)), product(volume, wv)),
        larger(sum(sum(ws, wo), wv), double(EPSILON_BITS)),
    )
}

proof fn lemma_weighed(a: Double, b: Double, w: Double)
    requires
        a.finite(),
        b.finite(),
        0 <= a.key(),
        a.at_most(b),
        w.finite(),
        0 <= w.key(),
    ensures
        product(a, w).at_most(product(b, w)),
        0 <= product(a, w).key(),
{
    if w.key() > 0 {
        crate::double::lemma_product_grows_up(a, b, w);
    } else {
        crate::double::lemma_signed(true, 0);
        crate::double::lemma_signed(false, 0);
        assert(w.units() == 0) by {
            assert(w.significand() * pow2(w.scale()) == 0) by (nonlinear_arith)
                requires
                    w.significand() == 0,
            ;
        }
        assert(a.units() * w.units() == 0 && b.units() * w.units() == 0) by (nonlinear_arith)
            requires
                w.units() == 0,
        ;
        lemma_pow2_pos(1074);
        crate::double::lemma_zero_rounds_to_zero(pow2(1074));
    }
}

/// A confidence does not fall when more sources agree or when the oracles confirm.
pub proof fn law_confidence_grows_with_its_parts(
    c: ConfidenceRules,
    agreement: Double,
    more: Double,
    oracle: Double,
    surer: Double,
    volume: Double,
)
    requires
        agreement.finite() && more.finite() && oracle.finite() && surer.finite() && volume.finite(),
        0 <= agreement.key() && 0 <= oracle.key() && 0 <= volume.key(),
        agreement.at_most(more),
        oracle.at_most(surer),
        part_weights(c).0.finite() && part_weights(c).1.finite() && part_weights(c).2.finite(),
        sum(sum(part_weights(c).0, part_weights(c).1), part_weights(c).2).finite(),
    ensures
        weighed_parts(c, agreement, oracle, volume).at_most(
            weighed_parts(c, more, surer, volume),
        ),
{
    let (ws, wo, wv) = part_weights(c);
    lemma_weighed(agreement, more, ws);
    lemma_weighed(oracle, surer, wo);
    lemma_weighed(volume, volume, wv);
    let (a1, a2) = (product(agreement, ws), product(more, ws));
    let (o1, o2) = (product(oracle, wo), product(surer, wo));
    let v = product(volume, wv);
    crate::double::lemma_sum_grows_up(a1, a2, o1, o2);
    crate::double::lemma_sum_grows_up(sum(a1, o1), sum(a2, o2), v, v);
    let all = larger(sum(sum(ws, wo), wv), double(EPSILON_BITS));
    assert(double(EPSILON_BITS).positive());
    assert(all.positive());
    crate::double::law_quotient_grows(sum(sum(a1, o1), v), sum(sum(a2, o2), v), all);
}

/// The total of a confidence is what its parts come to with their weights.
pub proof fn law_confidence_weighs_its_parts(
    c: ConfidenceRules,
    s: Seq<QuoteInput>,
    price: Double,
    confirmed: bool,
    target: Double,
)
    requires
        s.len() > 0,
    ensures
        ({
            let r = confidence(c, s, price, confirmed, target);
            r.total == weighed_parts(
                c,
                r.source_agreement,
                r.oracle_confirmation,
                r.volume_confirmation,
            )
        }),
{
}

proof fn lemma_alone(x: Double, y: Double, z: Double, i: int)
    requires
        x.finite() && y.finite() && z.finite(),
        !x.negative() && !y.negative() && !z.negative(),
        0 <= i <= 2,
    ensures
        ({
            let one = double(crate::aggregation::ONE_BITS);
            let zero = double(0);
            let (a, b, c) = (
                if i == 0 { one } else { zero },
                if i == 1 { one } else { zero },
                if i == 2 { one } else { zero },
            );
            let all = larger(sum(sum(a, b), c), double(EPSILON_BITS));
            let parts = sum(sum(product(x, a), product(y, b)), product(z, c));
            quotient(parts, all).same(
                if i == 0 {
                    x
                } else if i == 1 {
                    y
                } else {
                    z
                },
            )
        }),
{
    let one = double(crate::aggregation::ONE_BITS);
    let zero = double(0);
    crate::aggregation::lemma_zero_value();
    crate::aggregation::lemma_half();
    let (a, b, c) = (
        if i == 0 { one } else { zero },
        if i == 1 { one } else { zero },
        if i == 2 { one } else { zero },
    );
    let unit: nat = pow2(1074);
    assert(one.value() == unit);
    assert(zero.value() * unit == x.value() * 0 && zero.value() * unit == y.value() * 0
        && zero.value() * unit == z.value() * 0);
    let (u, v, w) = (
        if i == 0 { x } else { zero },
        if i == 1 { y } else { zero },
        if i == 2 { z } else { zero },
    );
    crate::double::law_products_are_exact_where_they_can_be(x, a, u);
    crate::double::law_products_are_exact_where_they_can_be(y, b, v);
    crate::double::law_products_are_exact_where_they_can_be(z, c, w);
    let (p, q, r) = (product(x, a), product(y, b), product(z, c));
    crate::aggregation::lemma_same_value(p, u);
    crate::aggregation::lemma_same_value(q, v);
    crate::aggregation::lemma_same_value(r, w);
    let first = if i == 0 {
        x
    } else if i == 1 {
        y
    } else {
        zero
    };
    let last = if i == 2 {
        z
    } else {
        first
    };
    crate::double::law_sums_are_exact_where_they_can_be(p, q, first);
    let s = sum(p, q);
    crate::aggregation::lemma_same_value(s, first);
    crate::double::law_sums_are_exact_where_they_can_be(s, r, last);
    crate::aggregation::lemma_same_value(sum(s, r), last);
    let half = if i == 2 {
        zero
    } else {
        one
    };
    crate::double::law_sums_are_exact_where_they_can_be(a, b, half);
    crate::aggregation::lemma_same_value(sum(a, b), half);
    crate::double::law_sums_are_exact_where_they_can_be(sum(a, b), c, one);
    let total = sum(sum(a, b), c);
    crate::aggregation::lemma_same_value(total, one);
    assert(double(EPSILON_BITS).at_most(one));
    assert(larger(total, double(EPSILON_BITS)) == total);
    crate::double::law_quotients_are_exact_where_they_can_be(sum(s, r), total, last);
}

/// A part that alone has a weight, of one, is the whole confidence: the agreement of the sources
/// with theirs, what the oracles say with theirs, and the volume with its own.
pub proof fn law_a_part_alone_is_the_confidence(
    c: ConfidenceRules,
    agreement: Double,
    oracle: Double,
    volume: Double,
)
    requires
        agreement.finite() && oracle.finite() && volume.finite(),
        !agreement.negative() && !oracle.negative() && !volume.negative(),
        c.oracle_toggle,
        c.volume_toggle,
    ensures
        ({
            let one = double(crate::aggregation::ONE_BITS);
            let zero = double(0);
            let r = weighed_parts(c, agreement, oracle, volume);
            &&& c.source_weight == one && c.oracle_weight == zero && c.volume_weight == zero
                ==> r.same(agreement)
            &&& c.source_weight == zero && c.oracle_weight == one && c.volume_weight == zero
                ==> r.same(oracle)
            &&& c.source_weight == zero && c.oracle_weight == zero && c.volume_weight == one
                ==> r.same(volume)
        }),
{
    lemma_alone(agreement, oracle, volume, 0);
    lemma_alone(agreement, oracle, volume, 1);
    lemma_alone(agreement, oracle, volume, 2);
}

} // verus!
