//! Evaluating a market: its weighted median, whether a breach is active and for how long, and
//! what becomes of its incident.

use vstd::prelude::*;

use crate::aggregation::double;
use crate::aggregation::half_weight_price;
use crate::aggregation::median_by_half;
use crate::aggregation::Point;
use crate::double::Double;
use crate::dpeg::policy::bands_in;
use crate::dpeg::policy::confidence_rules;
use crate::dpeg::policy::counts;
use crate::dpeg::policy::enabled_sources;
use crate::dpeg::policy::floor_in;
use crate::dpeg::policy::limits_of;
use crate::dpeg::policy::severity_for_divergence;
use crate::dpeg::policy::severity_in;
use crate::dpeg::policy::timeout_of;
use crate::dpeg::policy::weight_of;
use crate::dpeg::policy::DpegPolicy;
use crate::event::ContextClassification;
use crate::event::IncidentTransition;
use crate::event::Severity;
use crate::incident::advanced;
use crate::incident::available_oracles_within_resolution_floor;
use crate::incident::by_oracle;
use crate::incident::confidence;
use crate::incident::confidence_breakdown;
use crate::incident::no_incident;
use crate::incident::oracles_calm;
use crate::incident::quorum;
use crate::incident::quorum_is_met;
use crate::incident::resolution_floor;
use crate::incident::Advance;
use crate::incident::ConfidenceBreakdown;
use crate::incident::Finding;
use crate::incident::IncidentState;
use crate::incident::IncidentView;
use crate::incident::Manner;
use crate::quotes::deviation;
use crate::quotes::deviation_pct;
use crate::quotes::QuoteInput;
use crate::text::copy_option;
use crate::text::same;
use crate::text::text_option;
use crate::time::Timestamp;

verus! {

// ---------------------------------------------------------------------------
// What an evaluation is made of
// ---------------------------------------------------------------------------

/// What is remembered of a market between two evaluations.
#[derive(Debug)]
pub struct DpegAlertState {
    pub breach_started_at: Option<Timestamp>,
    pub cooldown_until: Option<Timestamp>,
    pub last_alerted_at: Option<Timestamp>,
    pub last_divergence_pct: Option<Double>,
    pub last_severity: Option<String>,
    pub last_classification: Option<String>,
    pub trigger_floor_pct: Option<Double>,
    pub below_severity_blocks: i64,
    pub below_trigger_blocks: i64,
}

pub struct AlertView {
    pub breach_started_at: Option<Timestamp>,
    pub incident: IncidentView,
}

impl View for DpegAlertState {
    type V = AlertView;

    open spec fn view(&self) -> AlertView {
        AlertView {
            breach_started_at: self.breach_started_at,
            incident: IncidentView {
                cooldown_until: self.cooldown_until,
                last_alerted_at: self.last_alerted_at,
                last_divergence_pct: self.last_divergence_pct,
                last_severity: text_option(self.last_severity),
                last_classification: text_option(self.last_classification),
                trigger_floor_pct: self.trigger_floor_pct,
                below_severity_blocks: self.below_severity_blocks as int,
                below_trigger_blocks: self.below_trigger_blocks as int,
            },
        }
    }
}

impl Default for DpegAlertState {
    fn default() -> (r: Self)
        ensures
            r@ == (AlertView { breach_started_at: None, incident: no_incident() }),
    {
        DpegAlertState {
            breach_started_at: None,
            cooldown_until: None,
            last_alerted_at: None,
            last_divergence_pct: None,
            last_severity: None,
            last_classification: None,
            trigger_floor_pct: None,
            below_severity_blocks: 0,
            below_trigger_blocks: 0,
        }
    }
}

impl DpegAlertState {
    /// Whether the counts of evaluations can still grow.
    pub open spec fn countable(self) -> bool {
        self.below_severity_blocks < i64::MAX && self.below_trigger_blocks < i64::MAX
    }

    /// What is remembered of the incident.
    pub fn incident(&self) -> (r: IncidentState)
        ensures
            r@ == self@.incident,
            r.below_severity_blocks == self.below_severity_blocks,
            r.below_trigger_blocks == self.below_trigger_blocks,
    {
        IncidentState {
            cooldown_until: self.cooldown_until,
            last_alerted_at: self.last_alerted_at,
            last_divergence_pct: self.last_divergence_pct,
            last_severity: copy_option(&self.last_severity),
            last_classification: copy_option(&self.last_classification),
            trigger_floor_pct: self.trigger_floor_pct,
            below_severity_blocks: self.below_severity_blocks,
            below_trigger_blocks: self.below_trigger_blocks,
        }
    }

    fn of_incident(s: IncidentState, breach_started_at: Option<Timestamp>) -> (r: DpegAlertState)
        ensures
            r@ == (AlertView { breach_started_at, incident: s@ }),
    {
        DpegAlertState {
            breach_started_at,
            cooldown_until: s.cooldown_until,
            last_alerted_at: s.last_alerted_at,
            last_divergence_pct: s.last_divergence_pct,
            last_severity: s.last_severity,
            last_classification: s.last_classification,
            trigger_floor_pct: s.trigger_floor_pct,
            below_severity_blocks: s.below_severity_blocks,
            below_trigger_blocks: s.below_trigger_blocks,
        }
    }
}

/// What an evaluation saw.
#[derive(Clone, Copy, Debug, PartialEq, Eq, Structural)]
pub struct ConsensusSnapshot {
    pub weighted_median_price: Double,
    pub divergence_pct: Double,
    pub source_count: usize,
    pub eligible_source_count: usize,
    pub quorum_met: bool,
    pub breach_active: bool,
    pub oracle_confirmed: bool,
    pub classification: ContextClassification,
    pub trigger_floor_pct: Double,
    pub confidence_breakdown: Option<ConfidenceBreakdown>,
    pub severity: Option<Severity>,
}

/// What an evaluation comes to.
#[derive(Debug)]
pub struct EvaluationOutcome {
    pub snapshot: ConsensusSnapshot,
    pub should_emit_alert: bool,
    pub next_state: DpegAlertState,
    pub transition: Option<IncidentTransition>,
    pub emitted_severity: Option<Severity>,
}

pub struct OutcomeView {
    pub snapshot: ConsensusSnapshot,
    pub should_emit_alert: bool,
    pub next_state: AlertView,
    pub transition: Option<IncidentTransition>,
    pub emitted_severity: Option<Severity>,
}

impl View for EvaluationOutcome {
    type V = OutcomeView;

    open spec fn view(&self) -> OutcomeView {
        OutcomeView {
            snapshot: self.snapshot,
            should_emit_alert: self.should_emit_alert,
            next_state: self.next_state@,
            transition: self.transition,
            emitted_severity: self.emitted_severity,
        }
    }
}

/// The quotes of a market give no median.
#[derive(Clone, Copy, Debug, PartialEq, Eq, Structural)]
pub enum EvaluationError {
    MedianFailed,
}

impl EvaluationError {
    pub fn message(&self) -> (r: &'static str)
        ensures
            r@ == "weighted median failed"@,
    {
        "weighted median failed"
    }
}

// ---------------------------------------------------------------------------
// Quotes
// ---------------------------------------------------------------------------

/// Whether a quote comes from a source that counts, with a price that makes sense.
pub open spec fn sensible(p: DpegPolicy, q: QuoteInput) -> bool {
    counts(p, q.source_id@, q.source_kind@) && q.price.positive()
}

/// Whether a quote enters the consensus: sensible, made by now and not too long ago, from a
/// source with a weight.
pub open spec fn eligible(p: DpegPolicy, q: QuoteInput, now: Timestamp) -> bool {
    &&& sensible(p, q)
    &&& 0 <= now.ms_since(q.observed_at) <= timeout_of(p, q.source_id@)
    &&& weight_of(p, q.source_id@).positive()
}

/// The quotes that enter the consensus.
pub open spec fn eligible_quotes(p: DpegPolicy, s: Seq<QuoteInput>, now: Timestamp) -> Seq<
    QuoteInput,
> {
    s.filter(|q: QuoteInput| eligible(p, q, now))
}

/// The prices of quotes, with the weights of their sources.
pub open spec fn points_of(p: DpegPolicy, s: Seq<QuoteInput>) -> Seq<Point> {
    s.map_values(|q: QuoteInput| Point { price: q.price, weight: weight_of(p, q.source_id@) })
}

fn points(policy: &DpegPolicy, quotes: &Vec<QuoteInput>) -> (r: Vec<Point>)
    ensures
        r@ == points_of(*policy, quotes@),
{
    let mut r: Vec<Point> = Vec::new();
    let mut i: usize = 0;
    while i < quotes.len()
        invariant
            i <= quotes.len(),
            r@ == points_of(*policy, quotes@).take(i as int),
        decreases quotes.len() - i,
    {
        r.push(
            Point {
                price: quotes[i].price,
                weight: policy.source_weight(quotes[i].source_id.as_str()),
            },
        );
        i = i + 1;
        assert(points_of(*policy, quotes@).take(i as int) =~= points_of(*policy, quotes@).take(
            i - 1,
        ).push(points_of(*policy, quotes@)[i - 1]));
    }
    assert(r@ =~= points_of(*policy, quotes@));
    r
}

/// The quotes that enter the consensus.
fn select_quotes(policy: &DpegPolicy, quotes: &[QuoteInput], now: Timestamp) -> (r: Vec<QuoteInput>)
    ensures
        r@ == eligible_quotes(*policy, quotes@, now),
{
    let ghost fits = |q: QuoteInput| eligible(*policy, q, now);
    let mut r: Vec<QuoteInput> = Vec::new();
    let mut i: usize = 0;
    proof {
        reveal(Seq::filter);
        assert(quotes@.take(0) =~= Seq::<QuoteInput>::empty());
    }
    while i < quotes.len()
        invariant
            i <= quotes.len(),
            fits == (|q: QuoteInput| eligible(*policy, q, now)),
            r@ == quotes@.take(i as int).filter(fits),
        decreases quotes.len() - i,
    {
        let quote: &QuoteInput = &quotes[i];
        proof {
            assert(quotes@.take(i + 1) =~= quotes@.take(i as int).push(quotes@[i as int]));
            quotes@.take(i as int).lemma_filter_push(quotes@[i as int], fits);
        }
        if policy.source_enabled(quote.source_id.as_str(), quote.source_kind.as_str())
            && quote.price.is_positive() {
            let age_ms: i64 = now.millis_since(quote.observed_at);
            if age_ms >= 0 && age_ms <= policy.source_stale_timeout_ms(quote.source_id.as_str())
                && policy.source_weight(quote.source_id.as_str()).is_positive() {
                r.push(quote.copy());
            }
        }
        i = i + 1;
    }
    assert(quotes@.take(quotes@.len() as int) =~= quotes@);
    r
}

/// Whether a quote enters the comparison of markets with each other: from a source that
/// counts and has a weight, and not made too long ago.
pub open spec fn comparable(p: DpegPolicy, q: QuoteInput, now: Timestamp) -> bool {
    &&& counts(p, q.source_id@, q.source_kind@)
    &&& now.ms_since(q.observed_at) <= timeout_of(p, q.source_id@)
    &&& weight_of(p, q.source_id@).positive()
}

/// How far a market is from its peg, for the comparison with other markets.
pub open spec fn market_divergence(p: DpegPolicy, s: Seq<QuoteInput>, now: Timestamp) -> Option<
    Double,
> {
    match half_weight_price(points_of(p, s.filter(|q: QuoteInput| comparable(p, q, now)))) {
        Some(price) => Some(deviation(price, p.peg_target)),
        None => None,
    }
}

pub fn market_divergence_pct(policy: &DpegPolicy, quotes: &[QuoteInput], now: Timestamp) -> (r:
    Option<Double>)
    ensures
        r == market_divergence(*policy, quotes@, now),
{
    let ghost fits = |q: QuoteInput| comparable(*policy, q, now);
    let mut kept: Vec<QuoteInput> = Vec::new();
    let mut i: usize = 0;
    proof {
        reveal(Seq::filter);
        assert(quotes@.take(0) =~= Seq::<QuoteInput>::empty());
    }
    while i < quotes.len()
        invariant
            i <= quotes.len(),
            fits == (|q: QuoteInput| comparable(*policy, q, now)),
            kept@ == quotes@.take(i as int).filter(fits),
        decreases quotes.len() - i,
    {
        let quote: &QuoteInput = &quotes[i];
        proof {
            assert(quotes@.take(i + 1) =~= quotes@.take(i as int).push(quotes@[i as int]));
            quotes@.take(i as int).lemma_filter_push(quotes@[i as int], fits);
        }
        if policy.source_enabled(quote.source_id.as_str(), quote.source_kind.as_str())
            && now.millis_since(quote.observed_at) <= policy.source_stale_timeout_ms(
            quote.source_id.as_str(),
        ) && policy.source_weight(quote.source_id.as_str()).is_positive() {
            kept.push(quote.copy());
        }
        i = i + 1;
    }
    assert(quotes@.take(quotes@.len() as int) =~= quotes@);
    match median_by_half(points(policy, &kept).as_slice()) {
        Some(price) => Some(deviation_pct(price, policy.peg_target)),
        None => None,
    }
}

// ---------------------------------------------------------------------------
// Oracles
// ---------------------------------------------------------------------------

/// Whether a quote is an oracle's and still holds.
pub open spec fn fresh_oracle(p: DpegPolicy, q: QuoteInput, now: Timestamp) -> bool {
    by_oracle(q) && now.ms_since(q.observed_at) <= timeout_of(p, q.source_id@)
}

/// Whether an oracle confirms the deviation: one whose quote is off by the floor or more.
pub open spec fn oracle_confirms(
    p: DpegPolicy,
    s: Seq<QuoteInput>,
    floor: Double,
    now: Timestamp,
    target: Double,
) -> bool {
    exists|i: int|
        0 <= i < s.len() && fresh_oracle(p, #[trigger] s[i], now) && floor.at_most(
            deviation(s[i].price, target),
        )
}

fn is_fresh_oracle(policy: &DpegPolicy, q: &QuoteInput, now: Timestamp) -> (r: bool)
    ensures
        r == fresh_oracle(*policy, *q, now),
{
    same(q.source_kind.as_str(), "oracle") && now.millis_since(q.observed_at)
        <= policy.source_stale_timeout_ms(q.source_id.as_str())
}

pub fn oracle_confirmation_met(
    policy: &DpegPolicy,
    eligible_quotes: &[QuoteInput],
    trigger_floor_pct: Double,
    now: Timestamp,
    peg_target: Double,
) -> (r: bool)
    ensures
        r == oracle_confirms(*policy, eligible_quotes@, trigger_floor_pct, now, peg_target),
{
    let mut i: usize = 0;
    while i < eligible_quotes.len()
        invariant
            i <= eligible_quotes.len(),
            forall|k: int|
                0 <= k < i ==> !(fresh_oracle(*policy, #[trigger] eligible_quotes@[k], now)
                    && trigger_floor_pct.at_most(deviation(eligible_quotes@[k].price, peg_target))),
        decreases eligible_quotes.len() - i,
    {
        if is_fresh_oracle(policy, &eligible_quotes[i], now) && trigger_floor_pct.le(
            deviation_pct(eligible_quotes[i].price, peg_target),
        ) {
            assert(fresh_oracle(*policy, eligible_quotes@[i as int], now));
            return true;
        }
        i = i + 1;
    }
    false
}

// ---------------------------------------------------------------------------
// Evaluation
// ---------------------------------------------------------------------------

/// The median of the quotes that enter the consensus.
pub open spec fn median_price(p: DpegPolicy, s: Seq<QuoteInput>, now: Timestamp) -> Option<Double> {
    half_weight_price(points_of(p, eligible_quotes(p, s, now)))
}

/// How many sources a market has, at least one.
pub open spec fn source_total(p: DpegPolicy) -> nat {
    if enabled_sources(p) == 0 {
        1
    } else {
        enabled_sources(p)
    }
}

/// What an evaluation without any quote that counts saw.
pub open spec fn unknown_snapshot(p: DpegPolicy, c: ContextClassification) -> ConsensusSnapshot {
    ConsensusSnapshot {
        weighted_median_price: p.peg_target,
        divergence_pct: double(0),
        source_count: 0,
        eligible_source_count: 0,
        quorum_met: false,
        breach_active: false,
        oracle_confirmed: false,
        classification: c,
        trigger_floor_pct: floor_in(p, c),
        confidence_breakdown: None,
        severity: None,
    }
}

/// What an evaluation saw whose eligible quotes have a median. A breach is active on a
/// quorum, with a deviation that reaches the floor and has a severity, with oracles that
/// confirm it where they have to, and with enough confidence.
pub open spec fn snapshot_of(
    p: DpegPolicy,
    e: Seq<QuoteInput>,
    price: Double,
    now: Timestamp,
    c: ContextClassification,
) -> ConsensusSnapshot {
    let d = deviation(price, p.peg_target);
    let floor = floor_in(p, c);
    let severity = severity_in(d, bands_in(p, c));
    let met = quorum(
        e.len(),
        enabled_sources(p),
        p.source_filter.min_healthy_sources as nat,
        p.min_sources as nat,
        p.quorum_pct,
    );
    let confirmed = oracle_confirms(p, e, floor, now, p.peg_target);
    let sure = confidence(confidence_rules(p), e, price, confirmed, p.peg_target);
    ConsensusSnapshot {
        weighted_median_price: price,
        divergence_pct: d,
        source_count: e.len() as usize,
        eligible_source_count: source_total(p) as usize,
        quorum_met: met,
        breach_active: met && floor.at_most(d) && severity is Some && (
        !p.toggles.oracle_confirmation || confirmed) && p.min_confidence_to_fire.at_most(
            sure.total,
        ),
        oracle_confirmed: confirmed,
        classification: c,
        trigger_floor_pct: floor,
        confidence_breakdown: Some(sure),
        severity,
    }
}

/// When the breach began that is active now.
pub open spec fn breach_start(st: AlertView, breach: bool, now: Timestamp) -> Option<Timestamp> {
    if !breach {
        None
    } else {
        match st.breach_started_at {
            Some(t) => Some(t),
            None => Some(now),
        }
    }
}

/// Whether a breach has lasted as long as it has to.
pub open spec fn sustained(p: DpegPolicy, start: Option<Timestamp>, now: Timestamp) -> bool {
    match start {
        Some(t) => now.ms_since(t) >= p.sustained_window_ms,
        None => false,
    }
}

/// What the incident of the market is told.
pub open spec fn finding(
    p: DpegPolicy,
    e: Seq<QuoteInput>,
    s: ConsensusSnapshot,
    st: AlertView,
) -> Finding {
    Finding {
        breach: s.breach_active,
        severity: s.severity,
        divergence: s.divergence_pct,
        classification: s.classification,
        floor: s.trigger_floor_pct,
        calm: oracles_calm(e, resolution_floor(st.incident, s.trigger_floor_pct), p.peg_target),
    }
}

/// What an evaluation comes to; `None` where the quotes that count have no median.
#[verifier::opaque]
pub open spec fn evaluation(
    p: DpegPolicy,
    s: Seq<QuoteInput>,
    st: AlertView,
    now: Timestamp,
    c: ContextClassification,
) -> Option<OutcomeView> {
    let e = eligible_quotes(p, s, now);
    if e.len() == 0 {
        Some(
            OutcomeView {
                snapshot: unknown_snapshot(p, c),
                should_emit_alert: false,
                next_state: AlertView { breach_started_at: None, incident: no_incident() },
                transition: None,
                emitted_severity: None,
            },
        )
    } else {
        match median_price(p, s, now) {
            Some(price) => {
                let saw = snapshot_of(p, e, price, now, c);
                let start = breach_start(st, saw.breach_active, now);
                let a = advanced(
                    st.incident,
                    finding(p, e, saw, st),
                    limits_of(p),
                    Manner { ready: sustained(p, start, now), silent: false },
                    now,
                );
                Some(
                    OutcomeView {
                        snapshot: saw,
                        should_emit_alert: a.emit,
                        next_state: AlertView { breach_started_at: start, incident: a.next },
                        transition: a.transition,
                        emitted_severity: a.severity,
                    },
                )
            },
            None => None,
        }
    }
}

/// Evaluates a market.
pub fn evaluate_policy(
    policy: &DpegPolicy,
    quotes: &[QuoteInput],
    current_state: &DpegAlertState,
    now: Timestamp,
    classification: ContextClassification,
) -> (r: Result<EvaluationOutcome, EvaluationError>)
    requires
        current_state.countable(),
    ensures
        match r {
            Ok(o) => evaluation(*policy, quotes@, current_state@, now, classification) == Some(o@),
            Err(_) => evaluation(*policy, quotes@, current_state@, now, classification) is None,
        },
{
    reveal(evaluation);
    let eligible: Vec<QuoteInput> = select_quotes(policy, quotes, now);
    let floor: Double = policy.floor_for(classification);
    if eligible.len() == 0 {
        return Ok(
            EvaluationOutcome {
                snapshot: ConsensusSnapshot {
                    weighted_median_price: policy.peg_target,
                    divergence_pct: Double { bits: 0 },
                    source_count: 0,
                    eligible_source_count: 0,
                    quorum_met: false,
                    breach_active: false,
                    oracle_confirmed: false,
                    classification,
                    trigger_floor_pct: floor,
                    confidence_breakdown: None,
                    severity: None,
                },
                should_emit_alert: false,
                next_state: DpegAlertState::default(),
                transition: None,
                emitted_severity: None,
            },
        );
    }
    let price: Double = match median_by_half(points(policy, &eligible).as_slice()) {
        Some(price) => price,
        None => {
            return Err(EvaluationError::MedianFailed);
        },
    };
    let divergence: Double = deviation_pct(price, policy.peg_target);
    let severity: Option<Severity> = severity_for_divergence(
        divergence,
        &policy.bands_for(classification),
    );
    let enabled: usize = policy.enabled_source_count();
    let quorum_met: bool = quorum_is_met(
        eligible.len(),
        enabled,
        policy.source_filter.min_healthy_sources,
        policy.min_sources,
        policy.quorum_pct,
    );
    let oracle_confirmed: bool = oracle_confirmation_met(
        policy,
        eligible.as_slice(),
        floor,
        now,
        policy.peg_target,
    );
    let breakdown: ConfidenceBreakdown = confidence_breakdown(
        &policy.confidence_settings(),
        eligible.as_slice(),
        price,
        oracle_confirmed,
        policy.peg_target,
    );
    let breach_active: bool = quorum_met && floor.le(divergence) && severity.is_some() && (
    !policy.toggles.oracle_confirmation || oracle_confirmed) && policy.min_confidence_to_fire.le(
        breakdown.total,
    );
    let snapshot = ConsensusSnapshot {
        weighted_median_price: price,
        divergence_pct: divergence,
        source_count: eligible.len(),
        eligible_source_count: if enabled == 0 {
            1
        } else {
            enabled
        },
        quorum_met,
        breach_active,
        oracle_confirmed,
        classification,
        trigger_floor_pct: floor,
        confidence_breakdown: Some(breakdown),
        severity,
    };
    assert(snapshot == snapshot_of(*policy, eligible@, price, now, classification));
    let start: Option<Timestamp> = if !breach_active {
        None
    } else {
        match current_state.breach_started_at {
            Some(t) => Some(t),
            None => Some(now),
        }
    };
    let ready: bool = match start {
        Some(t) => now.millis_since(t) >= policy.sustained_window_ms,
        None => false,
    };
    let incident: IncidentState = current_state.incident();
    let calm: bool = available_oracles_within_resolution_floor(
        eligible.as_slice(),
        incident.floor_to_resolve(floor),
        policy.peg_target,
    );
    let found = Finding {
        breach: breach_active,
        severity,
        divergence,
        classification,
        floor,
        calm,
    };
    assert(found == finding(*policy, eligible@, snapshot, current_state@));
    let a: Advance = incident.advance(
        found,
        policy.limits(),
        Manner { ready, silent: false },
        now,
    );
    Ok(
        EvaluationOutcome {
            snapshot,
            should_emit_alert: a.emit,
            next_state: DpegAlertState::of_incident(a.next, start),
            transition: a.transition,
            emitted_severity: a.severity,
        },
    )
}

// ---------------------------------------------------------------------------
// Laws
// ---------------------------------------------------------------------------

/// A quote that does not enter the consensus changes nothing of an evaluation.
pub proof fn law_other_quotes_change_nothing(
    p: DpegPolicy,
    s: Seq<QuoteInput>,
    q: QuoteInput,
    st: AlertView,
    now: Timestamp,
    c: ContextClassification,
)
    requires
        !eligible(p, q, now),
    ensures
        evaluation(p, s.push(q), st, now, c) == evaluation(p, s, st, now, c),
{
    reveal(evaluation);
    s.lemma_filter_push(q, |x: QuoteInput| eligible(p, x, now));
}

/// Without a quote that counts, nothing is reported and everything is forgotten.
pub proof fn law_unknown_market_is_forgotten(
    p: DpegPolicy,
    s: Seq<QuoteInput>,
    st: AlertView,
    now: Timestamp,
    c: ContextClassification,
)
    requires
        forall|i: int| 0 <= i < s.len() ==> !eligible(p, #[trigger] s[i], now),
    ensures
        evaluation(p, s, st, now, c) matches Some(o) && !o.should_emit_alert && o.next_state
            == (AlertView { breach_started_at: None, incident: no_incident() }),
{
    reveal(evaluation);
    let f = |x: QuoteInput| eligible(p, x, now);
    if s.filter(f).len() > 0 {
        let x = s.filter(f)[0];
        s.lemma_filter_pred(f, 0);
        assert(s.filter(f).contains(x));
        s.lemma_filter_contains_rev(f, x);
        assert(s.contains(x));
        let i = choose|i: int| 0 <= i < s.len() && s[i] == x;
        assert(!eligible(p, s[i], now));
    }
}

/// A market on which fewer sources quoted than have to is in no breach.
pub proof fn law_no_breach_without_quorum(
    p: DpegPolicy,
    s: Seq<QuoteInput>,
    st: AlertView,
    now: Timestamp,
    c: ContextClassification,
)
    ensures
        evaluation(p, s, st, now, c) matches Some(o) ==> o.snapshot.breach_active ==> ({
            let n = eligible_quotes(p, s, now).len();
            &&& n >= p.source_filter.min_healthy_sources
            &&& n >= p.min_sources
            &&& n >= 1
        }),
{
    reveal(evaluation);
}

/// A market is in no breach without an oracle that confirms it where the policy asks for one,
/// and in none without the confidence that the policy asks for.
pub proof fn law_no_breach_without_confirmation(
    p: DpegPolicy,
    s: Seq<QuoteInput>,
    st: AlertView,
    now: Timestamp,
    c: ContextClassification,
)
    ensures
        evaluation(p, s, st, now, c) matches Some(o) ==> o.snapshot.breach_active ==> ({
            &&& p.toggles.oracle_confirmation ==> oracle_confirms(
                p,
                eligible_quotes(p, s, now),
                floor_in(p, c),
                now,
                p.peg_target,
            )
            &&& o.snapshot.confidence_breakdown matches Some(b)
            &&& p.min_confidence_to_fire.at_most(b.total)
        }),
{
    reveal(evaluation);
}

/// A breach is reported as a new incident only once it has lasted for the window.
pub proof fn law_trigger_needs_a_sustained_breach(
    p: DpegPolicy,
    s: Seq<QuoteInput>,
    st: AlertView,
    now: Timestamp,
    c: ContextClassification,
)
    ensures
        evaluation(p, s, st, now, c) matches Some(o) ==> o.transition == Some(
            IncidentTransition::Trigger,
        ) ==> o.snapshot.breach_active && o.next_state.breach_started_at is Some && now.ms_since(
            o.next_state.breach_started_at->0,
        ) >= p.sustained_window_ms,
{
    reveal(evaluation);
}

/// A quote enters the consensus exactly where its source counts and has a weight, its price is
/// above zero, and it was made by now and no longer ago than its source's quotes hold.
pub proof fn law_quotes_enter_while_they_hold(p: DpegPolicy, q: QuoteInput, now: Timestamp)
    requires
        q.price.finite(),
        0 <= now.nanos - q.observed_at.nanos <= i64::MAX,
    ensures
        eligible(p, q, now) <==> {
            &&& counts(p, q.source_id@, q.source_kind@)
            &&& q.price.value() > 0
            &&& weight_of(p, q.source_id@).positive()
            &&& (now.nanos - q.observed_at.nanos) / 1_000_000 <= timeout_of(p, q.source_id@)
        },
        comparable(p, q, now) <==> {
            &&& counts(p, q.source_id@, q.source_kind@)
            &&& weight_of(p, q.source_id@).positive()
            &&& (now.nanos - q.observed_at.nanos) / 1_000_000 <= timeout_of(p, q.source_id@)
        },
{
    crate::aggregation::lemma_zero_value();
    crate::double::law_order_is_by_value(double(0), q.price);
}

/// A quote that was made later than now does not enter the consensus.
pub proof fn law_quotes_of_the_future_do_not_enter(p: DpegPolicy, q: QuoteInput, now: Timestamp)
    requires
        now.nanos + 1_000_000 <= q.observed_at.nanos,
    ensures
        !eligible(p, q, now),
{
    let d: int = q.observed_at.nanos - now.nanos;
    assert(d / 1_000_000 >= 1);
}

/// Every quote that enters the consensus is counted and has its say with the weight of its
/// source; no other has.
pub proof fn law_eligible_quotes_have_their_say(
    p: DpegPolicy,
    s: Seq<QuoteInput>,
    now: Timestamp,
    q: QuoteInput,
)
    ensures
        eligible_quotes(p, s, now).contains(q) <==> s.contains(q) && eligible(p, q, now),
        eligible(p, q, now) ==> points_of(p, eligible_quotes(p, s.push(q), now)) == points_of(
            p,
            eligible_quotes(p, s, now),
        ).push(Point { price: q.price, weight: weight_of(p, q.source_id@) }),
{
    let enters = |x: QuoteInput| eligible(p, x, now);
    let e = eligible_quotes(p, s, now);
    assert(e == s.filter(enters));
    if e.contains(q) {
        let i = choose|i: int| 0 <= i < e.len() && e[i] == q;
        s.lemma_filter_pred(enters, i);
        s.lemma_filter_contains_rev(enters, q);
    }
    if s.contains(q) && eligible(p, q, now) {
        let k = choose|k: int| 0 <= k < s.len() && s[k] == q;
        s.lemma_filter_contains(enters, k);
    }
    s.lemma_filter_push(q, enters);
    if eligible(p, q, now) {
        assert(eligible_quotes(p, s.push(q), now) == e.push(q));
        assert(points_of(p, e.push(q)) =~= points_of(p, e).push(
            Point { price: q.price, weight: weight_of(p, q.source_id@) },
        ));
    }
}

/// One fresh quote of an oracle that is off by the floor or more confirms a deviation, and
/// without one nothing does.
pub proof fn law_one_oracle_confirms(
    p: DpegPolicy,
    s: Seq<QuoteInput>,
    floor: Double,
    now: Timestamp,
    target: Double,
)
    ensures
        oracle_confirms(p, s, floor, now, target) <==> exists|i: int|
            #![trigger s[i]]
            0 <= i < s.len() && s[i].source_kind@ == "oracle"@ && now.ms_since(s[i].observed_at)
                <= timeout_of(p, s[i].source_id@) && floor.at_most(deviation(s[i].price, target)),
{
    if oracle_confirms(p, s, floor, now, target) {
        let i = choose|i: int|
            0 <= i < s.len() && fresh_oracle(p, #[trigger] s[i], now) && floor.at_most(
                deviation(s[i].price, target),
            );
        assert(s[i].source_kind@ == "oracle"@);
    }
    if exists|i: int|
        #![trigger s[i]]
        0 <= i < s.len() && s[i].source_kind@ == "oracle"@ && now.ms_since(s[i].observed_at)
            <= timeout_of(p, s[i].source_id@) && floor.at_most(deviation(s[i].price, target)) {
        let i = choose|i: int|
            #![trigger s[i]]
            0 <= i < s.len() && s[i].source_kind@ == "oracle"@ && now.ms_since(s[i].observed_at)
                <= timeout_of(p, s[i].source_id@) && floor.at_most(deviation(s[i].price, target));
        assert(fresh_oracle(p, s[i], now));
    }
}

/// What an evaluation saw is the median of the quotes that entered, how far it is from the peg,
/// and how severe that is in its context. A breach is active exactly where the quorum is met,
/// the floor reached, the deviation severe, and the policy's demands on oracles and confidence
/// fulfilled.
pub proof fn law_evaluations_see_the_market(
    p: DpegPolicy,
    s: Seq<QuoteInput>,
    st: AlertView,
    now: Timestamp,
    c: ContextClassification,
)
    requires
        eligible_quotes(p, s, now).len() > 0,
        median_price(p, s, now) is Some,
        eligible_quotes(p, s, now).len() <= usize::MAX,
    ensures
        ({
            let e = eligible_quotes(p, s, now);
            let price = half_weight_price(points_of(p, e))->0;
            let saw = evaluation(p, s, st, now, c)->0.snapshot;
            let d = deviation(price, p.peg_target);
            let severity = severity_in(d, bands_in(p, c));
            let met = quorum(
                e.len(),
                enabled_sources(p),
                p.source_filter.min_healthy_sources as nat,
                p.min_sources as nat,
                p.quorum_pct,
            );
            let confirmed = oracle_confirms(p, e, floor_in(p, c), now, p.peg_target);
            &&& evaluation(p, s, st, now, c) is Some
            &&& saw.weighted_median_price == price
            &&& saw.divergence_pct == d
            &&& saw.source_count == e.len()
            &&& saw.quorum_met == met
            &&& saw.oracle_confirmed == confirmed
            &&& saw.classification == c
            &&& saw.trigger_floor_pct == floor_in(p, c)
            &&& saw.severity == severity
            &&& saw.confidence_breakdown == Some(
                confidence(confidence_rules(p), e, price, confirmed, p.peg_target),
            )
            &&& saw.breach_active <==> met && floor_in(p, c).at_most(d) && severity is Some && (
            p.toggles.oracle_confirmation ==> confirmed) && p.min_confidence_to_fire.at_most(
                saw.confidence_breakdown->0.total,
            )
        }),
{
    reveal(evaluation);
}

/// A breach began when it was first seen and is over as soon as it is seen no more; it has
/// lasted once the window has passed since then, and not before.
pub proof fn law_breaches_are_timed_from_their_start(
    p: DpegPolicy,
    st: AlertView,
    began: Timestamp,
    now: Timestamp,
)
    ensures
        st.breach_started_at == Some(began) ==> breach_start(st, true, now) == Some(began),
        st.breach_started_at is None ==> breach_start(st, true, now) == Some(now),
        breach_start(st, false, now) is None,
        sustained(p, Some(began), now) <==> now.ms_since(began) >= p.sustained_window_ms,
        !sustained(p, None, now),
{
}

/// An evaluation goes on with the incident as it was: what it saw and what the incident makes
/// of it are remembered and reported as the rules of incidents say.
pub proof fn law_evaluations_advance_the_incident(
    p: DpegPolicy,
    s: Seq<QuoteInput>,
    st: AlertView,
    now: Timestamp,
    c: ContextClassification,
)
    requires
        eligible_quotes(p, s, now).len() > 0,
        median_price(p, s, now) is Some,
    ensures
        ({
            let e = eligible_quotes(p, s, now);
            let o = evaluation(p, s, st, now, c)->0;
            let began = breach_start(st, o.snapshot.breach_active, now);
            let told = Finding {
                breach: o.snapshot.breach_active,
                severity: o.snapshot.severity,
                divergence: o.snapshot.divergence_pct,
                classification: c,
                floor: floor_in(p, c),
                calm: oracles_calm(
                    e,
                    resolution_floor(st.incident, floor_in(p, c)),
                    p.peg_target,
                ),
            };
            let a = advanced(
                st.incident,
                told,
                limits_of(p),
                Manner { ready: sustained(p, began, now), silent: false },
                now,
            );
            &&& evaluation(p, s, st, now, c) is Some
            &&& o.should_emit_alert == a.emit
            &&& o.transition == a.transition
            &&& o.emitted_severity == a.severity
            &&& o.next_state.incident == a.next
            &&& o.next_state.breach_started_at == began
        }),
{
    reveal(evaluation);
}

/// For the comparison with other markets, a market is as far from its peg as the median of the
/// quotes that are fresh and count.
pub proof fn law_markets_are_compared_by_their_median(
    p: DpegPolicy,
    s: Seq<QuoteInput>,
    now: Timestamp,
)
    requires
        forall|i: int| 0 <= i < s.len() ==> comparable(p, #[trigger] s[i], now),
    ensures
        half_weight_price(points_of(p, s)) is Some ==> market_divergence(p, s, now) == Some(
            deviation(half_weight_price(points_of(p, s))->0, p.peg_target),
        ),
        half_weight_price(points_of(p, s)) is None ==> market_divergence(p, s, now) is None,
{
    let fresh = |q: QuoteInput| comparable(p, q, now);
    assert(s.filter(fresh) =~= s) by {
        lemma_all_stay(s, fresh);
    }
}

proof fn lemma_all_stay(s: Seq<QuoteInput>, keep: spec_fn(QuoteInput) -> bool)
    requires
        forall|i: int| 0 <= i < s.len() ==> keep(#[trigger] s[i]),
    ensures
        s.filter(keep) == s,
    decreases s.len(),
{
    reveal(Seq::filter);
    if s.len() > 0 {
        assert(keep(s[s.len() - 1]));
        assert forall|i: int| 0 <= i < s.drop_last().len() implies keep(
            #[trigger] s.drop_last()[i],
        ) by {
            assert(keep(s[i]));
        }
        lemma_all_stay(s.drop_last(), keep);
        assert(s.drop_last().push(s.last()) =~= s);
    }
}

} // verus!
