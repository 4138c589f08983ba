//! Evaluating a market: its consensus price, whether a breach is active, and what becomes of
//! its incident.

use std::sync::Arc;

use vstd::prelude::*;

use crate::aggregation::aggregate;
use crate::aggregation::aggregate_price;
use crate::aggregation::double;
use crate::aggregation::Point;
use crate::depeg_v2::policy::bands_in;
use crate::depeg_v2::policy::confidence_rules;
use crate::depeg_v2::policy::counts;
use crate::depeg_v2::policy::enabled_sources;
use crate::depeg_v2::policy::floor_in;
use crate::depeg_v2::policy::limits_of;
use crate::depeg_v2::policy::severity_for_divergence;
use crate::depeg_v2::policy::severity_in;
use crate::depeg_v2::policy::timeout_of;
use crate::depeg_v2::policy::weight_of;
use crate::depeg_v2::policy::DepegPolicy;
use crate::depeg_v2::policy::DepegSeverityBands;
use crate::double::clamped;
use crate::double::difference;
use crate::double::of_int;
use crate::double::sign_of;
use crate::double::Double;
use crate::event::severity_from_str;
use crate::event::severity_named;
use crate::event::ContextClassification;
use crate::event::IncidentTransition;
use crate::event::Severity;
use crate::expression::bindings;
use crate::expression::evaluate;
use crate::expression::input;
use crate::expression::inputs_view;
use crate::expression::may_reply;
use crate::expression::source_of;
use crate::expression::Answer;
use crate::expression::Datum;
use crate::expression::Input;
use crate::expression::Reply;
use crate::expression::ReplyView;
use crate::incident::advanced;
use crate::incident::available_oracles_within_resolution_floor;
use crate::incident::by_oracle;
use crate::incident::confidence;
use crate::incident::confidence_breakdown;
use crate::incident::effective_weights;
use crate::incident::no_incident;
use crate::incident::oracles_calm;
use crate::incident::part_weights;
use crate::incident::quorum;
use crate::incident::quorum_is_met;
use crate::incident::resolution_floor;
use crate::incident::Advance;
use crate::incident::AdvanceView;
use crate::incident::ConfidenceBreakdown;
use crate::incident::Finding;
use crate::incident::IncidentState;
use crate::incident::IncidentView;
use crate::incident::Manner;
use crate::json::either;
use crate::order::arrange;
use crate::order::arranged;
use crate::order::Ranked;
use crate::quotes::deviation;
use crate::quotes::deviation_pct;
use crate::quotes::round_to_6dp;
use crate::quotes::six_places;
use crate::quotes::QuoteInput;
use crate::quotes::HUNDRED_BITS;
use crate::text::comes_before;
use crate::text::copy_option;
use crate::text::precedes;
use crate::text::same;
use crate::text::text_option;
use crate::time::Timestamp;

verus! {

// ---------------------------------------------------------------------------
// What an evaluation is made of
// ---------------------------------------------------------------------------

/// What a quote contributed to an evaluation.
#[derive(Clone, Debug)]
pub struct EvidenceContributor {
    pub source_id: String,
    pub source_kind: String,
    pub price: Double,
    pub observed_at: Timestamp,
    pub age_ms: i64,
    pub weight: Double,
    pub divergence_pct: Double,
    pub supports_alert_direction: bool,
    pub contributes_to_quorum: bool,
    pub confirms_oracle: bool,
    pub contributes_to_breach: bool,
}

impl Ranked for EvidenceContributor {
    open spec fn outranks(&self, other: &Self) -> bool {
        self.observed_at.before(other.observed_at) || (self.observed_at == other.observed_at
            && precedes(self.source_id@, other.source_id@))
    }

    fn is_before(&self, other: &Self) -> (r: bool) {
        self.observed_at.is_before(other.observed_at) || (self.observed_at == other.observed_at
            && comes_before(self.source_id.as_str(), other.source_id.as_str()))
    }
}

/// A market that deviates with others.
#[derive(Clone, Debug)]
pub struct SystemicMarketContext {
    pub market_key: String,
    pub divergence_pct: Double,
    pub trigger_floor_pct: Double,
}

impl Ranked for SystemicMarketContext {
    open spec fn outranks(&self, other: &Self) -> bool {
        other.divergence_pct.below(self.divergence_pct) || (!self.divergence_pct.below(
            other.divergence_pct,
        ) && precedes(self.market_key@, other.market_key@))
    }

    fn is_before(&self, other: &Self) -> (r: bool) {
        other.divergence_pct.lt(self.divergence_pct) || (!self.divergence_pct.lt(
            other.divergence_pct,
        ) && comes_before(self.market_key.as_str(), other.market_key.as_str()))
    }
}

/// What is remembered of a market between two evaluations. Events earlier than the
/// `high_water_mark` come late and change nothing.
#[derive(Debug)]
pub struct DepegAlertState {
    pub cooldown_until: Option<Timestamp>,
    pub last_alerted_at: Option<Timestamp>,
    pub last_divergence_pct: Option<Double>,
    pub last_severity: Option<String>,
    pub last_classification: Option<String>,
    pub trigger_floor_pct: Option<Double>,
    pub below_severity_blocks: i64,
    pub below_trigger_blocks: i64,
    pub high_water_mark: Option<Timestamp>,
}

pub struct AlertView {
    pub incident: IncidentView,
    pub high_water_mark: Option<Timestamp>,
}

impl View for DepegAlertState {
    type V = AlertView;

    open spec fn view(&self) -> AlertView {
        AlertView {
            incident: IncidentView {
                cooldown_until: self.cooldown_until,
                last_alerted_at: self.last_alerted_at,
                last_divergence_pct: self.last_divergence_pct,
                last_severity: text_option(self.last_severity),
                last_classification: text_option(self.last_classification),
                trigger_floor_pct: self.trigger_floor_pct,
                below_severity_blocks: self.below_severity_blocks as int,
                below_trigger_blocks: self.below_trigger_blocks as int,
            },
            high_water_mark: self.high_water_mark,
        }
    }
}

impl Default for DepegAlertState {
    fn default() -> (r: Self)
        ensures
            r@ == (AlertView { incident: no_incident(), high_water_mark: None }),
    {
        DepegAlertState {
            cooldown_until: None,
            last_alerted_at: None,
            last_divergence_pct: None,
            last_severity: None,
            last_classification: None,
            trigger_floor_pct: None,
            below_severity_blocks: 0,
            below_trigger_blocks: 0,
            high_water_mark: None,
        }
    }
}

impl DepegAlertState {
    /// Whether the counts of evaluations can still grow.
    pub open spec fn countable(self) -> bool {
        self.below_severity_blocks < i64::MAX && self.below_trigger_blocks < i64::MAX
    }

    /// What is remembered of the incident.
    pub fn incident(&self) -> (r: IncidentState)
        ensures
            r@ == self@.incident,
            r.below_severity_blocks == self.below_severity_blocks,
            r.below_trigger_blocks == self.below_trigger_blocks,
    {
        IncidentState {
            cooldown_until: self.cooldown_until,
            last_alerted_at: self.last_alerted_at,
            last_divergence_pct: self.last_divergence_pct,
            last_severity: copy_option(&self.last_severity),
            last_classification: copy_option(&self.last_classification),
            trigger_floor_pct: self.trigger_floor_pct,
            below_severity_blocks: self.below_severity_blocks,
            below_trigger_blocks: self.below_trigger_blocks,
        }
    }

    fn of_incident(s: IncidentState, high_water_mark: Option<Timestamp>) -> (r: DepegAlertState)
        ensures
            r@ == (AlertView { incident: s@, high_water_mark }),
    {
        DepegAlertState {
            cooldown_until: s.cooldown_until,
            last_alerted_at: s.last_alerted_at,
            last_divergence_pct: s.last_divergence_pct,
            last_severity: s.last_severity,
            last_classification: s.last_classification,
            trigger_floor_pct: s.trigger_floor_pct,
            below_severity_blocks: s.below_severity_blocks,
            below_trigger_blocks: s.below_trigger_blocks,
            high_water_mark,
        }
    }
}

/// What an evaluation saw.
#[derive(Debug)]
pub struct ConsensusSnapshot {
    pub weighted_median_price: Double,
    pub divergence_pct: Double,
    pub source_count: usize,
    pub eligible_source_count: usize,
    pub quorum_met: bool,
    pub breach_active: bool,
    pub oracle_confirmed: bool,
    pub classification: ContextClassification,
    pub trigger_floor_pct: Double,
    pub confidence_breakdown: Option<ConfidenceBreakdown>,
    pub severity: Option<Severity>,
    pub contributors: Vec<EvidenceContributor>,
    pub systemic_markets: Vec<SystemicMarketContext>,
}

pub struct SnapshotView {
    pub weighted_median_price: Double,
    pub divergence_pct: Double,
    pub source_count: nat,
    pub eligible_source_count: nat,
    pub quorum_met: bool,
    pub breach_active: bool,
    pub oracle_confirmed: bool,
    pub classification: ContextClassification,
    pub trigger_floor_pct: Double,
    pub confidence_breakdown: Option<ConfidenceBreakdown>,
    pub severity: Option<Severity>,
    pub contributors: Seq<EvidenceContributor>,
    pub systemic_markets: Seq<SystemicMarketContext>,
}

impl View for ConsensusSnapshot {
    type V = SnapshotView;

    open spec fn view(&self) -> SnapshotView {
        SnapshotView {
            weighted_median_price: self.weighted_median_price,
            divergence_pct: self.divergence_pct,
            source_count: self.source_count as nat,
            eligible_source_count: self.eligible_source_count as nat,
            quorum_met: self.quorum_met,
            breach_active: self.breach_active,
            oracle_confirmed: self.oracle_confirmed,
            classification: self.classification,
            trigger_floor_pct: self.trigger_floor_pct,
            confidence_breakdown: self.confidence_breakdown,
            severity: self.severity,
            contributors: self.contributors@,
            systemic_markets: self.systemic_markets@,
        }
    }
}

/// What an evaluation comes to.
#[derive(Debug)]
pub struct EvaluationOutcome {
    pub snapshot: ConsensusSnapshot,
    pub should_emit_alert: bool,
    pub next_state: DepegAlertState,
    pub transition: Option<IncidentTransition>,
    pub emitted_severity: Option<Severity>,
}

pub struct OutcomeView {
    pub snapshot: SnapshotView,
    pub should_emit_alert: bool,
    pub next_state: AlertView,
    pub transition: Option<IncidentTransition>,
    pub emitted_severity: Option<Severity>,
}

impl View for EvaluationOutcome {
    type V = OutcomeView;

    open spec fn view(&self) -> OutcomeView {
        OutcomeView {
            snapshot: self.snapshot@,
            should_emit_alert: self.should_emit_alert,
            next_state: self.next_state@,
            transition: self.transition,
            emitted_severity: self.emitted_severity,
        }
    }
}

/// The quotes of a market give no consensus price.
#[derive(Clone, Copy, Debug, PartialEq, Eq, Structural)]
pub enum EvaluationError {
    AggregationFailed,
}

impl EvaluationError {
    pub fn message(&self) -> (r: &'static str)
        ensures
            r@ == "price aggregation failed"@,
    {
        "price aggregation failed"
    }
}

// ---------------------------------------------------------------------------
// Quotes
// ---------------------------------------------------------------------------

/// Whether a quote comes from a source that counts, with a price that makes sense.
pub open spec fn sensible(p: DepegPolicy, q: QuoteInput) -> bool {
    counts(p, q.source_id@, q.source_kind@) && q.price.positive()
}

/// Whether a quote enters the consensus: sensible, made by now and not too long ago, from a
/// source with a weight.
pub open spec fn eligible(p: DepegPolicy, q: QuoteInput, now: Timestamp) -> bool {
    &&& sensible(p, q)
    &&& 0 <= now.ms_since(q.observed_at) <= timeout_of(p, q.source_id@)
    &&& weight_of(p, q.source_id@).positive()
}

/// The quotes that enter the consensus.
pub open spec fn eligible_quotes(p: DepegPolicy, s: Seq<QuoteInput>, now: Timestamp) -> Seq<
    QuoteInput,
> {
    s.filter(|q: QuoteInput| eligible(p, q, now))
}

/// How many quotes are sensible.
pub open spec fn sensible_count(p: DepegPolicy, s: Seq<QuoteInput>) -> nat {
    s.filter(|q: QuoteInput| sensible(p, q)).len()
}

/// The prices of quotes, with the weights of their sources.
pub open spec fn points_of(p: DepegPolicy, s: Seq<QuoteInput>) -> Seq<Point> {
    s.map_values(|q: QuoteInput| Point { price: q.price, weight: weight_of(p, q.source_id@) })
}

/// The consensus price of the quotes that enter it.
pub open spec fn consensus_price(p: DepegPolicy, s: Seq<QuoteInput>, now: Timestamp) -> Option<
    Double,
> {
    aggregate(points_of(p, eligible_quotes(p, s, now)), p.aggregation)
}

/// How far a price is from the peg, in percent, to six decimal places.
pub open spec fn divergence(price: Double, target: Double) -> Double {
    six_places(deviation(price, target))
}

fn divergence_of(price: Double, target: Double) -> (r: Double)
    ensures
        r == divergence(price, target),
{
    round_to_6dp(deviation_pct(price, target))
}

fn points(policy: &DepegPolicy, quotes: &Vec<QuoteInput>) -> (r: Vec<Point>)
    ensures
        r@ == points_of(*policy, quotes@),
{
    let mut r: Vec<Point> = Vec::new();
    let mut i: usize = 0;
    while i < quotes.len()
        invariant
            i <= quotes.len(),
            r@ == points_of(*policy, quotes@).take(i as int),
        decreases quotes.len() - i,
    {
        r.push(
            Point {
                price: quotes[i].price,
                weight: policy.source_weight(quotes[i].source_id.as_str()),
            },
        );
        i = i + 1;
        assert(points_of(*policy, quotes@).take(i as int) =~= points_of(*policy, quotes@).take(
            i - 1,
        ).push(points_of(*policy, quotes@)[i - 1]));
    }
    assert(r@ =~= points_of(*policy, quotes@));
    r
}

/// The quotes that enter the consensus, and how many are sensible.
fn select_quotes(policy: &DepegPolicy, quotes: &[QuoteInput], now: Timestamp) -> (r: (
    Vec<QuoteInput>,
    usize,
))
    ensures
        r.0@ == eligible_quotes(*policy, quotes@, now),
        r.1 == sensible_count(*policy, quotes@),
{
    let ghost fits = |q: QuoteInput| eligible(*policy, q, now);
    let ghost makes_sense = |q: QuoteInput| sensible(*policy, q);
    let mut r: Vec<QuoteInput> = Vec::new();
    let mut count: usize = 0;
    let mut i: usize = 0;
    proof {
        reveal(Seq::filter);
        assert(quotes@.take(0) =~= Seq::<QuoteInput>::empty());
    }
    while i < quotes.len()
        invariant
            i <= quotes.len(),
            fits == (|q: QuoteInput| eligible(*policy, q, now)),
            makes_sense == (|q: QuoteInput| sensible(*policy, q)),
            r@ == quotes@.take(i as int).filter(fits),
            count <= i,
            count == quotes@.take(i as int).filter(makes_sense).len(),
        decreases quotes.len() - i,
    {
        let quote: &QuoteInput = &quotes[i];
        proof {
            assert(quotes@.take(i + 1) =~= quotes@.take(i as int).push(quotes@[i as int]));
            quotes@.take(i as int).lemma_filter_push(quotes@[i as int], fits);
            quotes@.take(i as int).lemma_filter_push(quotes@[i as int], makes_sense);
        }
        if policy.source_enabled(quote.source_id.as_str(), quote.source_kind.as_str())
            && quote.price.is_positive() {
            count = count + 1;
            let age_ms: i64 = now.millis_since(quote.observed_at);
            if age_ms >= 0 && age_ms <= policy.source_stale_timeout_ms(quote.source_id.as_str())
                && policy.source_weight(quote.source_id.as_str()).is_positive() {
                r.push(quote.copy());
            }
        }
        i = i + 1;
    }
    assert(quotes@.take(quotes@.len() as int) =~= quotes@);
    (r, count)
}

/// Whether a quote enters the comparison of markets with each other: from a source that
/// counts and has a weight, and not made too long ago.
pub open spec fn comparable(p: DepegPolicy, q: QuoteInput, now: Timestamp) -> bool {
    &&& counts(p, q.source_id@, q.source_kind@)
    &&& now.ms_since(q.observed_at) <= timeout_of(p, q.source_id@)
    &&& weight_of(p, q.source_id@).positive()
}

/// How far a market is from its peg, for the comparison with other markets.
pub open spec fn market_divergence(p: DepegPolicy, s: Seq<QuoteInput>, now: Timestamp) -> Option<
    Double,
> {
    match aggregate(
        points_of(p, s.filter(|q: QuoteInput| comparable(p, q, now))),
        p.aggregation,
    ) {
        Some(price) => Some(divergence(price, p.peg_target)),
        None => None,
    }
}

pub fn market_divergence_pct(policy: &DepegPolicy, quotes: &[QuoteInput], now: Timestamp) -> (r:
    Option<Double>)
    ensures
        r == market_divergence(*policy, quotes@, now),
{
    let ghost fits = |q: QuoteInput| comparable(*policy, q, now);
    let mut kept: Vec<QuoteInput> = Vec::new();
    let mut i: usize = 0;
    proof {
        reveal(Seq::filter);
        assert(quotes@.take(0) =~= Seq::<QuoteInput>::empty());
    }
    while i < quotes.len()
        invariant
            i <= quotes.len(),
            fits == (|q: QuoteInput| comparable(*policy, q, now)),
            kept@ == quotes@.take(i as int).filter(fits),
        decreases quotes.len() - i,
    {
        let quote: &QuoteInput = &quotes[i];
        proof {
            assert(quotes@.take(i + 1) =~= quotes@.take(i as int).push(quotes@[i as int]));
            quotes@.take(i as int).lemma_filter_push(quotes@[i as int], fits);
        }
        if policy.source_enabled(quote.source_id.as_str(), quote.source_kind.as_str())
            && now.millis_since(quote.observed_at) <= policy.source_stale_timeout_ms(
            quote.source_id.as_str(),
        ) && policy.source_weight(quote.source_id.as_str()).is_positive() {
            kept.push(quote.copy());
        }
        i = i + 1;
    }
    assert(quotes@.take(quotes@.len() as int) =~= quotes@);
    match aggregate_price(points(policy, &kept).as_slice(), policy.aggregation.as_ref()) {
        Some(price) => Some(divergence_of(price, policy.peg_target)),
        None => None,
    }
}

// ---------------------------------------------------------------------------
// Oracles
// ---------------------------------------------------------------------------

/// Whether a quote is an oracle's and still holds.
pub open spec fn fresh_oracle(p: DepegPolicy, q: QuoteInput, now: Timestamp) -> bool {
    by_oracle(q) && now.ms_since(q.observed_at) <= timeout_of(p, q.source_id@)
}

/// Whether an oracle confirms the deviation: one whose quote is off by the floor or more.
pub open spec fn oracle_confirms(
    p: DepegPolicy,
    s: Seq<QuoteInput>,
    floor: Double,
    now: Timestamp,
    target: Double,
) -> bool {
    exists|i: int|
        0 <= i < s.len() && fresh_oracle(p, #[trigger] s[i], now) && floor.at_most(
            divergence(s[i].price, target),
        )
}

/// How many of the first `n` quotes are an oracle's that still hold.
pub open spec fn oracle_count(p: DepegPolicy, s: Seq<QuoteInput>, now: Timestamp, n: nat) -> nat
    decreases n,
{
    if n == 0 {
        0
    } else {
        oracle_count(p, s, now, (n - 1) as nat) + if fresh_oracle(p, s[n - 1], now) {
            1nat
        } else {
            0nat
        }
    }
}

/// The largest divergence among the first `n` quotes that are an oracle's and still hold.
pub open spec fn oracle_divergence(
    p: DepegPolicy,
    s: Seq<QuoteInput>,
    now: Timestamp,
    target: Double,
    n: nat,
) -> Double
    decreases n,
{
    if n == 0 {
        double(0)
    } else {
        let before = oracle_divergence(p, s, now, target, (n - 1) as nat);
        let d = divergence(s[n - 1].price, target);
        if fresh_oracle(p, s[n - 1], now) && before.below(d) {
            d
        } else {
            before
        }
    }
}

fn is_fresh_oracle(policy: &DepegPolicy, q: &QuoteInput, now: Timestamp) -> (r: bool)
    ensures
        r == fresh_oracle(*policy, *q, now),
{
    same(q.source_kind.as_str(), "oracle") && now.millis_since(q.observed_at)
        <= policy.source_stale_timeout_ms(q.source_id.as_str())
}

pub fn oracle_confirmation_met(
    policy: &DepegPolicy,
    eligible_quotes: &[QuoteInput],
    trigger_floor_pct: Double,
    now: Timestamp,
    peg_target: Double,
) -> (r: bool)
    ensures
        r == oracle_confirms(*policy, eligible_quotes@, trigger_floor_pct, now, peg_target),
{
    let mut i: usize = 0;
    while i < eligible_quotes.len()
        invariant
            i <= eligible_quotes.len(),
            forall|k: int|
                0 <= k < i ==> !(fresh_oracle(*policy, #[trigger] eligible_quotes@[k], now)
                    && trigger_floor_pct.at_most(divergence(eligible_quotes@[k].price, peg_target))),
        decreases eligible_quotes.len() - i,
    {
        if is_fresh_oracle(policy, &eligible_quotes[i], now) && trigger_floor_pct.le(
            divergence_of(eligible_quotes[i].price, peg_target),
        ) {
            assert(fresh_oracle(*policy, eligible_quotes@[i as int], now));
            return true;
        }
        i = i + 1;
    }
    false
}

// ---------------------------------------------------------------------------
// Evidence
// ---------------------------------------------------------------------------

/// What a quote contributes.
pub open spec fn contribution(
    p: DepegPolicy,
    q: QuoteInput,
    now: Timestamp,
    target: Double,
    floor: Double,
    direction: Double,
    breach: bool,
) -> EvidenceContributor {
    let age = now.ms_since(q.observed_at);
    let d = divergence(q.price, target);
    let supports = !direction.same(double(0)) && sign_of(difference(q.price, target)).same(
        direction,
    );
    let confirms = by_oracle(q) && floor.at_most(d);
    EvidenceContributor {
        source_id: q.source_id,
        source_kind: q.source_kind,
        price: q.price,
        observed_at: q.observed_at,
        age_ms: if age < 0 {
            0
        } else {
            age
        },
        weight: weight_of(p, q.source_id@),
        divergence_pct: d,
        supports_alert_direction: supports,
        contributes_to_quorum: true,
        confirms_oracle: confirms,
        contributes_to_breach: breach && (supports || confirms),
    }
}

/// What the quotes contribute, in the order of time, at one time in the order of sources.
pub open spec fn evidence(
    p: DepegPolicy,
    s: Seq<QuoteInput>,
    now: Timestamp,
    target: Double,
    floor: Double,
    direction: Double,
    breach: bool,
) -> Seq<EvidenceContributor> {
    arranged(
        s.map_values(
            |q: QuoteInput| contribution(p, q, now, target, floor, direction, breach),
        ),
    )
}

pub fn build_evidence_contributors(
    policy: &DepegPolicy,
    eligible_quotes: &[QuoteInput],
    now: Timestamp,
    peg_target: Double,
    trigger_floor_pct: Double,
    alert_direction: Double,
    threshold_breach: bool,
) -> (r: Vec<EvidenceContributor>)
    ensures
        r@ == evidence(
            *policy,
            eligible_quotes@,
            now,
            peg_target,
            trigger_floor_pct,
            alert_direction,
            threshold_breach,
        ),
{
    let ghost all = eligible_quotes@.map_values(
        |q: QuoteInput|
            contribution(
                *policy,
                q,
                now,
                peg_target,
                trigger_floor_pct,
                alert_direction,
                threshold_breach,
            ),
    );
    let mut r: Vec<EvidenceContributor> = Vec::new();
    let mut i: usize = 0;
    while i < eligible_quotes.len()
        invariant
            i <= eligible_quotes.len(),
            all == eligible_quotes@.map_values(
                |q: QuoteInput|
                    contribution(
                        *policy,
                        q,
                        now,
                        peg_target,
                        trigger_floor_pct,
                        alert_direction,
                        threshold_breach,
                    ),
            ),
            r@ == all.take(i as int),
        decreases eligible_quotes.len() - i,
    {
        let quote: &QuoteInput = &eligible_quotes[i];
        let age: i64 = now.millis_since(quote.observed_at);
        let age_ms: i64 = if age < 0 {
            0
        } else {
            age
        };
        let divergence_pct: Double = divergence_of(quote.price, peg_target);
        let supports: bool = !alert_direction.equals(Double { bits: 0 }) && quote.price.minus(
            peg_target,
        ).signum().equals(alert_direction);
        let confirms: bool = same(quote.source_kind.as_str(), "oracle") && trigger_floor_pct.le(
            divergence_pct,
        );
        r.push(
            EvidenceContributor {
                source_id: quote.source_id.clone(),
                source_kind: quote.source_kind.clone(),
                price: quote.price,
                observed_at: quote.observed_at,
                age_ms,
                weight: policy.source_weight(quote.source_id.as_str()),
                divergence_pct,
                supports_alert_direction: supports,
                contributes_to_quorum: true,
                confirms_oracle: confirms,
                contributes_to_breach: threshold_breach && (supports || confirms),
            },
        );
        assert(all.take(i + 1) =~= all.take(i as int).push(all[i as int]));
        i = i + 1;
    }
    assert(r@ =~= all);
    arrange(r)
}

// ---------------------------------------------------------------------------
// Expressions
// ---------------------------------------------------------------------------

/// What the expressions of a policy replied; `None` where one was not asked.
#[derive(Debug)]
pub struct Replies {
    pub severity: Option<Reply>,
    pub oracle: Option<Reply>,
    pub confidence: Option<Reply>,
    pub decision: Option<Reply>,
}

pub struct RepliesView {
    pub severity: Option<ReplyView>,
    pub oracle: Option<ReplyView>,
    pub confidence: Option<ReplyView>,
    pub decision: Option<ReplyView>,
}

/// What an optional reply says.
pub open spec fn reply_option(r: Option<Reply>) -> Option<ReplyView> {
    match r {
        Some(r) => Some(r@),
        None => None,
    }
}

impl View for Replies {
    type V = RepliesView;

    open spec fn view(&self) -> RepliesView {
        RepliesView {
            severity: reply_option(self.severity),
            oracle: reply_option(self.oracle),
            confidence: reply_option(self.confidence),
            decision: reply_option(self.decision),
        }
    }
}

/// No expression was asked.
pub open spec fn no_replies() -> RepliesView {
    RepliesView { severity: None, oracle: None, confidence: None, decision: None }
}

/// The severity that a reply names.
pub open spec fn severity_reply(r: Option<ReplyView>) -> Option<Severity> {
    match r {
        Some(ReplyView::Text(s)) => severity_named(Some(s)),
        _ => None,
    }
}

/// The truth value of a reply.
pub open spec fn boolean_reply(r: Option<ReplyView>) -> Option<bool> {
    match r {
        Some(ReplyView::Bool(b)) => Some(b),
        _ => None,
    }
}

/// The number of a reply, brought into 0 to 100.
pub open spec fn percent_reply(r: Option<ReplyView>) -> Option<Double> {
    match r {
        Some(ReplyView::Number(x)) => Some(clamped(x, double(0), double(HUNDRED_BITS))),
        Some(ReplyView::Int(n)) => Some(
            clamped(of_int(n as int), double(0), double(HUNDRED_BITS)),
        ),
        _ => None,
    }
}

fn read_severity(r: &Option<Reply>) -> (v: Option<Severity>)
    ensures
        v == severity_reply(reply_option(*r)),
{
    match r {
        Some(Reply::Value { answer: Answer::Text(s), shown: _ }) => severity_from_str(
            Some(s.as_str()),
        ),
        _ => None,
    }
}

fn read_bool(r: &Option<Reply>) -> (v: Option<bool>)
    ensures
        v == boolean_reply(reply_option(*r)),
{
    match r {
        Some(Reply::Value { answer: Answer::Bool(b), shown: _ }) => Some(*b),
        _ => None,
    }
}

fn read_percent(r: &Option<Reply>) -> (v: Option<Double>)
    ensures
        v == percent_reply(reply_option(*r)),
{
    let zero = Double { bits: 0 };
    let hundred = Double { bits: HUNDRED_BITS };
    match r {
        Some(Reply::Value { answer: Answer::Number(x), shown: _ }) => Some(x.clamp(zero, hundred)),
        Some(Reply::Value { answer: Answer::Int(n), shown: _ }) => Some(
            Double::from_i64(*n).clamp(zero, hundred),
        ),
        _ => None,
    }
}

/// Whether a reply is one that an expression may give on the given variables; there is none
/// where there is no expression.
pub open spec fn heard(
    program: Option<Arc<cel::Program>>,
    asked: Seq<(Seq<char>, Datum)>,
    reply: Option<ReplyView>,
) -> bool {
    match program {
        Some(p) => match reply {
            Some(r) => exists|told: Seq<char>| may_reply(source_of(*p), bindings(asked), r, told),
            None => false,
        },
        None => reply is None,
    }
}

/// Asks an expression.
pub fn consult(program: &Option<Arc<cel::Program>>, inputs: &Vec<Input>) -> (r: Option<Reply>)
    ensures
        heard(*program, inputs_view(inputs@), reply_option(r)),
{
    match program {
        Some(p) => {
            let reply: Reply = evaluate(p, inputs);
            assert(may_reply(
                source_of(**p),
                bindings(inputs_view(inputs@)),
                reply@,
                crate::expression::reply_text(reply),
            ));
            Some(reply)
        },
        None => None,
    }
}

/// What an expression for the severity is given. The confidence is not known by then.
pub open spec fn severity_variables(
    divergence: Double,
    count: usize,
    price: Double,
    b: DepegSeverityBands,
) -> Seq<(Seq<char>, Datum)> {
    seq![
        ("deviation_pct"@, Datum::Number(divergence)),
        ("confidence_total"@, Datum::Number(double(0))),
        ("quorum_count"@, Datum::Int(count as i64)),
        ("source_count"@, Datum::Int(count as i64)),
        ("median_price"@, Datum::Number(price)),
        ("severity_bands_medium"@, Datum::Number(b.medium)),
        ("severity_bands_high"@, Datum::Number(b.high)),
        ("severity_bands_critical"@, Datum::Number(b.critical)),
    ]
}

fn severity_inputs(divergence: Double, count: usize, price: Double, b: &DepegSeverityBands) -> (r:
    Vec<Input>)
    ensures
        inputs_view(r@) == severity_variables(divergence, count, price, *b),
{
    let mut r: Vec<Input> = Vec::new();
    let n: i64 = count as i64;
    r.push(input("deviation_pct", Datum::Number(divergence)));
    r.push(input("confidence_total", Datum::Number(Double { bits: 0 })));
    r.push(input("quorum_count", Datum::Int(n)));
    r.push(input("source_count", Datum::Int(n)));
    r.push(input("median_price", Datum::Number(price)));
    r.push(input("severity_bands_medium", Datum::Number(b.medium)));
    r.push(input("severity_bands_high", Datum::Number(b.high)));
    r.push(input("severity_bands_critical", Datum::Number(b.critical)));
    assert(inputs_view(r@) =~= severity_variables(divergence, count, price, *b));
    r
}

/// What an expression for the confirmation by oracles is given.
pub open spec fn oracle_variables(
    p: DepegPolicy,
    s: Seq<QuoteInput>,
    floor: Double,
    divergence: Double,
    target: Double,
    now: Timestamp,
) -> Seq<(Seq<char>, Datum)> {
    let n = oracle_count(p, s, now, s.len());
    seq![
        (
            "oracle_max_divergence_pct"@,
            Datum::Number(oracle_divergence(p, s, now, target, s.len())),
        ),
        ("oracle_count"@, Datum::Int(n as i64)),
        ("has_fresh_oracle"@, Datum::Bool(n > 0)),
        ("trigger_floor_pct"@, Datum::Number(floor)),
        ("deviation_pct"@, Datum::Number(divergence)),
    ]
}

fn oracle_inputs(
    policy: &DepegPolicy,
    s: &Vec<QuoteInput>,
    floor: Double,
    divergence: Double,
    target: Double,
    now: Timestamp,
) -> (r: Vec<Input>)
    ensures
        inputs_view(r@) == oracle_variables(*policy, s@, floor, divergence, target, now),
{
    let mut count: usize = 0;
    let mut widest: Double = Double { bits: 0 };
    let mut i: usize = 0;
    while i < s.len()
        invariant
            i <= s.len(),
            count <= i,
            count == oracle_count(*policy, s@, now, i as nat),
            widest == oracle_divergence(*policy, s@, now, target, i as nat),
        decreases s.len() - i,
    {
        if is_fresh_oracle(policy, &s[i], now) {
            count = count + 1;
            let d: Double = divergence_of(s[i].price, target);
            if widest.lt(d) {
                widest = d;
            }
        }
        i = i + 1;
    }
    let n: i64 = count as i64;
    let mut r: Vec<Input> = Vec::new();
    r.push(input("oracle_max_divergence_pct", Datum::Number(widest)));
    r.push(input("oracle_count", Datum::Int(n)));
    r.push(input("has_fresh_oracle", Datum::Bool(count > 0)));
    r.push(input("trigger_floor_pct", Datum::Number(floor)));
    r.push(input("deviation_pct", Datum::Number(divergence)));
    assert(inputs_view(r@) =~= oracle_variables(*policy, s@, floor, divergence, target, now));
    r
}

/// What an expression for the confidence is given.
pub open spec fn confidence_variables(p: DepegPolicy, c: ConfidenceBreakdown) -> Seq<
    (Seq<char>, Datum),
> {
    let w = part_weights(confidence_rules(p));
    seq![
        ("source_agreement"@, Datum::Number(c.source_agreement)),
        ("oracle_score"@, Datum::Number(c.oracle_confirmation)),
        ("volume_score"@, Datum::Number(c.volume_confirmation)),
        ("weight_source"@, Datum::Number(w.0)),
        ("weight_oracle"@, Datum::Number(w.1)),
        ("weight_volume"@, Datum::Number(w.2)),
    ]
}

fn confidence_inputs(policy: &DepegPolicy, c: &ConfidenceBreakdown) -> (r: Vec<Input>)
    ensures
        inputs_view(r@) == confidence_variables(*policy, *c),
{
    let (ws, wo, wv): (Double, Double, Double) = effective_weights(&policy.confidence_settings());
    let mut r: Vec<Input> = Vec::new();
    r.push(input("source_agreement", Datum::Number(c.source_agreement)));
    r.push(input("oracle_score", Datum::Number(c.oracle_confirmation)));
    r.push(input("volume_score", Datum::Number(c.volume_confirmation)));
    r.push(input("weight_source", Datum::Number(ws)));
    r.push(input("weight_oracle", Datum::Number(wo)));
    r.push(input("weight_volume", Datum::Number(wv)));
    assert(inputs_view(r@) =~= confidence_variables(*policy, *c));
    r
}

/// What an expression for the decision is given. The names are part of what users write.
#[derive(Clone, Debug)]
pub struct DecisionExpressionTestInputs {
    pub quorum_met: bool,
    pub threshold_breach: bool,
    pub oracle_confirmed: bool,
    pub confidence_total: Double,
    pub deviation_pct: Double,
    pub median_price: Double,
    pub source_count: i64,
    pub min_confidence_to_fire: Double,
    pub oracle_confirmation_toggle: bool,
    pub volume_confirmation_toggle: bool,
    pub severity_bands_medium: Double,
    pub severity_bands_high: Double,
    pub severity_bands_critical: Double,
}

/// The variables of a decision; the number of sources has two names.
pub open spec fn decision_variables(d: DecisionExpressionTestInputs) -> Seq<(Seq<char>, Datum)> {
    seq![
        ("quorum_met"@, Datum::Bool(d.quorum_met)),
        ("threshold_breach"@, Datum::Bool(d.threshold_breach)),
        ("oracle_confirmed"@, Datum::Bool(d.oracle_confirmed)),
        ("confidence_total"@, Datum::Number(d.confidence_total)),
        ("deviation_pct"@, Datum::Number(d.deviation_pct)),
        ("median_price"@, Datum::Number(d.median_price)),
        ("source_count"@, Datum::Int(d.source_count)),
        ("quorum_count"@, Datum::Int(d.source_count)),
        ("min_confidence_to_fire"@, Datum::Number(d.min_confidence_to_fire)),
        ("oracle_confirmation_toggle"@, Datum::Bool(d.oracle_confirmation_toggle)),
        ("volume_confirmation_toggle"@, Datum::Bool(d.volume_confirmation_toggle)),
        ("severity_bands_medium"@, Datum::Number(d.severity_bands_medium)),
        ("severity_bands_high"@, Datum::Number(d.severity_bands_high)),
        ("severity_bands_critical"@, Datum::Number(d.severity_bands_critical)),
    ]
}

pub fn build_decision_context(d: &DecisionExpressionTestInputs) -> (r: Vec<Input>)
    ensures
        inputs_view(r@) == decision_variables(*d),
{
    let mut r: Vec<Input> = Vec::new();
    r.push(input("quorum_met", Datum::Bool(d.quorum_met)));
    r.push(input("threshold_breach", Datum::Bool(d.threshold_breach)));
    r.push(input("oracle_confirmed", Datum::Bool(d.oracle_confirmed)));
    r.push(input("confidence_total", Datum::Number(d.confidence_total)));
    r.push(input("deviation_pct", Datum::Number(d.deviation_pct)));
    r.push(input("median_price", Datum::Number(d.median_price)));
    r.push(input("source_count", Datum::Int(d.source_count)));
    r.push(input("quorum_count", Datum::Int(d.source_count)));
    r.push(input("min_confidence_to_fire", Datum::Number(d.min_confidence_to_fire)));
    r.push(input("oracle_confirmation_toggle", Datum::Bool(d.oracle_confirmation_toggle)));
    r.push(input("volume_confirmation_toggle", Datum::Bool(d.volume_confirmation_toggle)));
    r.push(input("severity_bands_medium", Datum::Number(d.severity_bands_medium)));
    r.push(input("severity_bands_high", Datum::Number(d.severity_bands_high)));
    r.push(input("severity_bands_critical", Datum::Number(d.severity_bands_critical)));
    assert(inputs_view(r@) =~= decision_variables(*d));
    r
}

// ---------------------------------------------------------------------------
// Evaluation
// ---------------------------------------------------------------------------

/// What an evaluation finds out before it decides, for quotes that have a consensus price.
pub struct Weighed {
    pub eligible: Seq<QuoteInput>,
    pub price: Double,
    pub divergence: Double,
    pub floor: Double,
    pub bands: DepegSeverityBands,
    pub quorum_met: bool,
}

pub open spec fn weighed(
    p: DepegPolicy,
    s: Seq<QuoteInput>,
    now: Timestamp,
    c: ContextClassification,
) -> Weighed {
    let e = eligible_quotes(p, s, now);
    let price = consensus_price(p, s, now)->0;
    Weighed {
        eligible: e,
        price,
        divergence: divergence(price, p.peg_target),
        floor: floor_in(p, c),
        bands: bands_in(p, c),
        quorum_met: quorum(
            e.len(),
            enabled_sources(p),
            p.source_filter.min_healthy_sources as nat,
            p.min_sources as nat,
            p.quorum_pct,
        ),
    }
}

/// The severity of a deviation: the one that the expression names, or that of the bands.
pub open spec fn severity_found(w: Weighed, v: RepliesView) -> Option<Severity> {
    either(severity_reply(v.severity), severity_in(w.divergence, w.bands))
}

/// Whether oracles confirm: as the expression says, or by their quotes.
pub open spec fn oracle_found(p: DepegPolicy, w: Weighed, now: Timestamp, v: RepliesView) -> bool {
    match boolean_reply(v.oracle) {
        Some(b) => b,
        None => oracle_confirms(p, w.eligible, w.floor, now, p.peg_target),
    }
}

/// The built-in confidence.
pub open spec fn confidence_found(
    p: DepegPolicy,
    w: Weighed,
    now: Timestamp,
    v: RepliesView,
) -> ConfidenceBreakdown {
    confidence(
        confidence_rules(p),
        w.eligible,
        w.price,
        oracle_found(p, w, now, v),
        p.peg_target,
    )
}

/// The total confidence: as the expression says, or the built-in one.
pub open spec fn total_found(p: DepegPolicy, w: Weighed, now: Timestamp, v: RepliesView) -> Double {
    match percent_reply(v.confidence) {
        Some(x) => x,
        None => confidence_found(p, w, now, v).total,
    }
}

/// Whether the deviation reaches the floor and has a severity.
pub open spec fn threshold_found(w: Weighed, v: RepliesView) -> bool {
    w.floor.at_most(w.divergence) && severity_found(w, v) is Some
}

/// The built-in decision whether a breach is active: a quorum, a deviation beyond the
/// threshold, oracles that confirm it where they have to, and enough confidence.
pub open spec fn default_breach(
    p: DepegPolicy,
    w: Weighed,
    now: Timestamp,
    v: RepliesView,
) -> bool {
    &&& w.quorum_met
    &&& threshold_found(w, v)
    &&& !p.toggles.oracle_confirmation || oracle_found(p, w, now, v)
    &&& p.min_confidence_to_fire.at_most(total_found(p, w, now, v))
}

/// Whether a breach is active: as the expression says, or by the built-in decision.
pub open spec fn breach_found(p: DepegPolicy, w: Weighed, now: Timestamp, v: RepliesView) -> bool {
    match boolean_reply(v.decision) {
        Some(b) => b,
        None => default_breach(p, w, now, v),
    }
}

/// What an expression for the decision is given.
pub open spec fn decision_inputs(
    p: DepegPolicy,
    w: Weighed,
    now: Timestamp,
    v: RepliesView,
) -> DecisionExpressionTestInputs {
    DecisionExpressionTestInputs {
        quorum_met: w.quorum_met,
        threshold_breach: threshold_found(w, v),
        oracle_confirmed: oracle_found(p, w, now, v),
        confidence_total: total_found(p, w, now, v),
        deviation_pct: w.divergence,
        median_price: w.price,
        source_count: w.eligible.len() as usize as i64,
        min_confidence_to_fire: p.min_confidence_to_fire,
        oracle_confirmation_toggle: p.toggles.oracle_confirmation,
        volume_confirmation_toggle: p.toggles.volume_confirmation,
        severity_bands_medium: w.bands.medium,
        severity_bands_high: w.bands.high,
        severity_bands_critical: w.bands.critical,
    }
}

/// Whether the replies are ones that the policy's expressions may give on what they are
/// asked in this evaluation. Where there is no consensus price, none is asked.
#[verifier::opaque]
pub open spec fn replies_fit(
    p: DepegPolicy,
    s: Seq<QuoteInput>,
    now: Timestamp,
    c: ContextClassification,
    v: RepliesView,
) -> bool {
    let w = weighed(p, s, now, c);
    if consensus_price(p, s, now) is None {
        v == no_replies()
    } else {
        &&& heard(
            p.compiled_severity,
            severity_variables(w.divergence, w.eligible.len() as usize, w.price, w.bands),
            v.severity,
        )
        &&& heard(
            p.compiled_oracle,
            oracle_variables(p, w.eligible, w.floor, w.divergence, p.peg_target, now),
            v.oracle,
        )
        &&& heard(
            p.compiled_confidence,
            confidence_variables(p, confidence_found(p, w, now, v)),
            v.confidence,
        )
        &&& heard(
            p.compiled_decision,
            decision_variables(decision_inputs(p, w, now, v)),
            v.decision,
        )
    }
}

/// What an evaluation without any quote that counts comes to: nothing is known of the
/// market, and nothing is remembered of it.
pub open spec fn unknown_market(
    p: DepegPolicy,
    s: Seq<QuoteInput>,
    c: ContextClassification,
) -> OutcomeView {
    OutcomeView {
        snapshot: SnapshotView {
            weighted_median_price: p.peg_target,
            divergence_pct: double(0),
            source_count: 0,
            eligible_source_count: sensible_count(p, s),
            quorum_met: false,
            breach_active: false,
            oracle_confirmed: false,
            classification: c,
            trigger_floor_pct: floor_in(p, c),
            confidence_breakdown: None,
            severity: None,
            contributors: Seq::<EvidenceContributor>::empty(),
            systemic_markets: Seq::<SystemicMarketContext>::empty(),
        },
        should_emit_alert: false,
        next_state: AlertView { incident: no_incident(), high_water_mark: None },
        transition: None,
        emitted_severity: None,
    }
}

/// What the incident of the market is told.
pub open spec fn finding(
    p: DepegPolicy,
    w: Weighed,
    st: AlertView,
    now: Timestamp,
    c: ContextClassification,
    v: RepliesView,
) -> Finding {
    Finding {
        breach: breach_found(p, w, now, v),
        severity: severity_found(w, v),
        divergence: w.divergence,
        classification: c,
        floor: w.floor,
        calm: oracles_calm(w.eligible, resolution_floor(st.incident, w.floor), p.peg_target),
    }
}

/// How the incidents of this pattern change: at once, and silently when they shrink or end.
pub open spec fn manner() -> Manner {
    Manner { ready: true, silent: true }
}

/// What becomes of the incident of the market.
pub open spec fn step(
    p: DepegPolicy,
    w: Weighed,
    st: AlertView,
    now: Timestamp,
    c: ContextClassification,
    v: RepliesView,
) -> AdvanceView {
    advanced(st.incident, finding(p, w, st, now, c, v), limits_of(p), manner(), now)
}

/// What an evaluation comes to; `None` where the quotes that count give no price.
#[verifier::opaque]
pub open spec fn evaluation(
    p: DepegPolicy,
    s: Seq<QuoteInput>,
    st: AlertView,
    now: Timestamp,
    c: ContextClassification,
    v: RepliesView,
) -> Option<OutcomeView> {
    let w = weighed(p, s, now, c);
    if w.eligible.len() == 0 {
        Some(unknown_market(p, s, c))
    } else if consensus_price(p, s, now) is None {
        None
    } else {
        let a = step(p, w, st, now, c, v);
        Some(
            OutcomeView {
                snapshot: SnapshotView {
                    weighted_median_price: w.price,
                    divergence_pct: w.divergence,
                    source_count: w.eligible.len(),
                    eligible_source_count: sensible_count(p, s),
                    quorum_met: w.quorum_met,
                    breach_active: breach_found(p, w, now, v),
                    oracle_confirmed: oracle_found(p, w, now, v),
                    classification: c,
                    trigger_floor_pct: w.floor,
                    confidence_breakdown: Some(confidence_found(p, w, now, v)),
                    severity: severity_found(w, v),
                    contributors: evidence(
                        p,
                        w.eligible,
                        now,
                        p.peg_target,
                        w.floor,
                        sign_of(difference(w.price, p.peg_target)),
                        threshold_found(w, v),
                    ),
                    systemic_markets: Seq::<SystemicMarketContext>::empty(),
                },
                should_emit_alert: a.emit,
                next_state: AlertView { incident: a.next, high_water_mark: st.high_water_mark },
                transition: a.transition,
                emitted_severity: a.severity,
            },
        )
    }
}

/// The numbers of an evaluation that has a consensus price.
struct Numbers {
    price: Double,
    divergence: Double,
    floor: Double,
    bands: DepegSeverityBands,
    quorum_met: bool,
}

fn numbers(
    policy: &DepegPolicy,
    eligible: &Vec<QuoteInput>,
    price: Double,
    classification: ContextClassification,
) -> (r: Numbers)
    ensures
        r.price == price,
        r.divergence == divergence(price, policy.peg_target),
        r.floor == floor_in(*policy, classification),
        r.bands == bands_in(*policy, classification),
        r.quorum_met == quorum(
            eligible@.len(),
            enabled_sources(*policy),
            policy.source_filter.min_healthy_sources as nat,
            policy.min_sources as nat,
            policy.quorum_pct,
        ),
{
    Numbers {
        price,
        divergence: divergence_of(price, policy.peg_target),
        floor: policy.floor_for(classification),
        bands: policy.bands_for(classification),
        quorum_met: quorum_is_met(
            eligible.len(),
            policy.enabled_source_count(),
            policy.source_filter.min_healthy_sources,
            policy.min_sources,
            policy.quorum_pct,
        ),
    }
}

/// Evaluates a market whose expressions have replied.
pub fn evaluate_with_replies(
    policy: &DepegPolicy,
    quotes: &[QuoteInput],
    current_state: &DepegAlertState,
    now: Timestamp,
    classification: ContextClassification,
    replies: &Replies,
) -> (r: Result<EvaluationOutcome, EvaluationError>)
    requires
        current_state.countable(),
    ensures
        match r {
            Ok(o) => evaluation(
                *policy,
                quotes@,
                current_state@,
                now,
                classification,
                replies@,
            ) == Some(o@),
            Err(_) => evaluation(
                *policy,
                quotes@,
                current_state@,
                now,
                classification,
                replies@,
            ) is None,
        },
{
    reveal(evaluation);
    let (eligible, total): (Vec<QuoteInput>, usize) = select_quotes(policy, quotes, now);
    let ghost w = weighed(*policy, quotes@, now, classification);
    let ghost v = replies@;
    if eligible.len() == 0 {
        return Ok(
            EvaluationOutcome {
                snapshot: ConsensusSnapshot {
                    weighted_median_price: policy.peg_target,
                    divergence_pct: Double { bits: 0 },
                    source_count: 0,
                    eligible_source_count: total,
                    quorum_met: false,
                    breach_active: false,
                    oracle_confirmed: false,
                    classification,
                    trigger_floor_pct: policy.floor_for(classification),
                    confidence_breakdown: None,
                    severity: None,
                    contributors: Vec::new(),
                    systemic_markets: Vec::new(),
                },
                should_emit_alert: false,
                next_state: DepegAlertState::default(),
                transition: None,
                emitted_severity: None,
            },
        );
    }
    let price: Double = match aggregate_price(
        points(policy, &eligible).as_slice(),
        policy.aggregation.as_ref(),
    ) {
        Some(price) => price,
        None => {
            return Err(EvaluationError::AggregationFailed);
        },
    };
    let n: Numbers = numbers(policy, &eligible, price, classification);
    let severity: Option<Severity> = match read_severity(&replies.severity) {
        Some(s) => Some(s),
        None => severity_for_divergence(n.divergence, &n.bands),
    };
    let oracle_confirmed: bool = match read_bool(&replies.oracle) {
        Some(b) => b,
        None => oracle_confirmation_met(
            policy,
            eligible.as_slice(),
            n.floor,
            now,
            policy.peg_target,
        ),
    };
    let breakdown: ConfidenceBreakdown = confidence_breakdown(
        &policy.confidence_settings(),
        eligible.as_slice(),
        price,
        oracle_confirmed,
        policy.peg_target,
    );
    let total_confidence: Double = match read_percent(&replies.confidence) {
        Some(x) => x,
        None => breakdown.total,
    };
    let threshold_breach: bool = n.floor.le(n.divergence) && severity.is_some();
    let contributors: Vec<EvidenceContributor> = build_evidence_contributors(
        policy,
        eligible.as_slice(),
        now,
        policy.peg_target,
        n.floor,
        price.minus(policy.peg_target).signum(),
        threshold_breach,
    );
    let breach_active: bool = match read_bool(&replies.decision) {
        Some(b) => b,
        None => n.quorum_met && threshold_breach && (!policy.toggles.oracle_confirmation
            || oracle_confirmed) && policy.min_confidence_to_fire.le(total_confidence),
    };
    let incident: IncidentState = current_state.incident();
    let calm: bool = available_oracles_within_resolution_floor(
        eligible.as_slice(),
        incident.floor_to_resolve(n.floor),
        policy.peg_target,
    );
    let found = Finding {
        breach: breach_active,
        severity,
        divergence: n.divergence,
        classification,
        floor: n.floor,
        calm,
    };
    assert(found == finding(*policy, w, current_state@, now, classification, v));
    let a: Advance = incident.advance(
        found,
        policy.limits(),
        Manner { ready: true, silent: true },
        now,
    );
    Ok(
        EvaluationOutcome {
            snapshot: ConsensusSnapshot {
                weighted_median_price: price,
                divergence_pct: n.divergence,
                source_count: eligible.len(),
                eligible_source_count: total,
                quorum_met: n.quorum_met,
                breach_active,
                oracle_confirmed,
                classification,
                trigger_floor_pct: n.floor,
                confidence_breakdown: Some(breakdown),
                severity,
                contributors,
                systemic_markets: Vec::new(),
            },
            should_emit_alert: a.emit,
            next_state: DepegAlertState::of_incident(a.next, current_state.high_water_mark),
            transition: a.transition,
            emitted_severity: a.severity,
        },
    )
}

/// Asks the expressions of a policy.
fn gather_replies(
    policy: &DepegPolicy,
    quotes: &[QuoteInput],
    now: Timestamp,
    classification: ContextClassification,
) -> (r: Replies)
    ensures
        replies_fit(*policy, quotes@, now, classification, r@),
{
    reveal(replies_fit);
    let (eligible, _total): (Vec<QuoteInput>, usize) = select_quotes(policy, quotes, now);
    let ghost w = weighed(*policy, quotes@, now, classification);
    let price: Double = match aggregate_price(
        points(policy, &eligible).as_slice(),
        policy.aggregation.as_ref(),
    ) {
        Some(price) => price,
        None => {
            return Replies { severity: None, oracle: None, confidence: None, decision: None };
        },
    };
    let n: Numbers = numbers(policy, &eligible, price, classification);
    let severity_answer: Option<Reply> = consult(
        &policy.compiled_severity,
        &severity_inputs(n.divergence, eligible.len(), price, &n.bands),
    );
    let severity: Option<Severity> = match read_severity(&severity_answer) {
        Some(s) => Some(s),
        None => severity_for_divergence(n.divergence, &n.bands),
    };
    let oracle_answer: Option<Reply> = consult(
        &policy.compiled_oracle,
        &oracle_inputs(policy, &eligible, n.floor, n.divergence, policy.peg_target, now),
    );
    let oracle_confirmed: bool = match read_bool(&oracle_answer) {
        Some(b) => b,
        None => oracle_confirmation_met(
            policy,
            eligible.as_slice(),
            n.floor,
            now,
            policy.peg_target,
        ),
    };
    let breakdown: ConfidenceBreakdown = confidence_breakdown(
        &policy.confidence_settings(),
        eligible.as_slice(),
        price,
        oracle_confirmed,
        policy.peg_target,
    );
    let confidence_answer: Option<Reply> = consult(
        &policy.compiled_confidence,
        &confidence_inputs(policy, &breakdown),
    );
    let total_confidence: Double = match read_percent(&confidence_answer) {
        Some(x) => x,
        None => breakdown.total,
    };
    let asked = DecisionExpressionTestInputs {
        quorum_met: n.quorum_met,
        threshold_breach: n.floor.le(n.divergence) && severity.is_some(),
        oracle_confirmed,
        confidence_total: total_confidence,
        deviation_pct: n.divergence,
        median_price: price,
        source_count: eligible.len() as i64,
        min_confidence_to_fire: policy.min_confidence_to_fire,
        oracle_confirmation_toggle: policy.toggles.oracle_confirmation,
        volume_confirmation_toggle: policy.toggles.volume_confirmation,
        severity_bands_medium: n.bands.medium,
        severity_bands_high: n.bands.high,
        severity_bands_critical: n.bands.critical,
    };
    let decision_answer: Option<Reply> = consult(
        &policy.compiled_decision,
        &build_decision_context(&asked),
    );
    let r = Replies {
        severity: severity_answer,
        oracle: oracle_answer,
        confidence: confidence_answer,
        decision: decision_answer,
    };
    assert(asked == decision_inputs(*policy, w, now, r@));
    r
}

/// Evaluates a market. Where the policy has an expression, it decides; where it fails or
/// gives something else than what is wanted, the built-in rule does.
pub fn evaluate_policy(
    policy: &DepegPolicy,
    quotes: &[QuoteInput],
    current_state: &DepegAlertState,
    now: Timestamp,
    classification: ContextClassification,
) -> (r: Result<EvaluationOutcome, EvaluationError>)
    requires
        current_state.countable(),
    ensures
        exists|v: RepliesView|
            replies_fit(*policy, quotes@, now, classification, v) && match r {
                Ok(o) => #[trigger] evaluation(
                    *policy,
                    quotes@,
                    current_state@,
                    now,
                    classification,
                    v,
                ) == Some(o@),
                Err(_) => evaluation(*policy, quotes@, current_state@, now, classification, v)
                    is None,
            },
{
    let replies: Replies = gather_replies(policy, quotes, now, classification);
    evaluate_with_replies(policy, quotes, current_state, now, classification, &replies)
}

// ---------------------------------------------------------------------------
// Laws
// ---------------------------------------------------------------------------

/// A quote that does not enter the consensus changes nothing of an evaluation, except that
/// it is counted where it is sensible.
pub proof fn law_other_quotes_are_only_counted(
    p: DepegPolicy,
    s: Seq<QuoteInput>,
    q: QuoteInput,
    st: AlertView,
    now: Timestamp,
    c: ContextClassification,
    v: RepliesView,
)
    requires
        !eligible(p, q, now),
    ensures
        match (evaluation(p, s.push(q), st, now, c, v), evaluation(p, s, st, now, c, v)) {
            (Some(a), Some(b)) => a == (OutcomeView {
                snapshot: SnapshotView {
                    eligible_source_count: b.snapshot.eligible_source_count + if sensible(p, q) {
                        1nat
                    } else {
                        0nat
                    },
                    ..b.snapshot
                },
                ..b
            }),
            (None, None) => true,
            _ => false,
        },
{
    reveal(evaluation);
    s.lemma_filter_push(q, |x: QuoteInput| eligible(p, x, now));
    s.lemma_filter_push(q, |x: QuoteInput| sensible(p, x));
}

/// Without a quote that counts, nothing is reported and everything is forgotten.
pub proof fn law_unknown_market_is_forgotten(
    p: DepegPolicy,
    s: Seq<QuoteInput>,
    st: AlertView,
    now: Timestamp,
    c: ContextClassification,
    v: RepliesView,
)
    requires
        forall|i: int| 0 <= i < s.len() ==> !eligible(p, #[trigger] s[i], now),
    ensures
        evaluation(p, s, st, now, c, v) == Some(unknown_market(p, s, c)),
{
    reveal(evaluation);
    let f = |x: QuoteInput| eligible(p, x, now);
    if s.filter(f).len() > 0 {
        let x = s.filter(f)[0];
        s.lemma_filter_pred(f, 0);
        assert(s.filter(f).contains(x));
        s.lemma_filter_contains_rev(f, x);
        assert(s.contains(x));
        let i = choose|i: int| 0 <= i < s.len() && s[i] == x;
        assert(!eligible(p, s[i], now));
    }
}

/// Replies without those that are not what was wanted.
pub open spec fn readable(v: RepliesView) -> RepliesView {
    RepliesView {
        severity: if severity_reply(v.severity) is Some {
            v.severity
        } else {
            None
        },
        oracle: if boolean_reply(v.oracle) is Some {
            v.oracle
        } else {
            None
        },
        confidence: if percent_reply(v.confidence) is Some {
            v.confidence
        } else {
            None
        },
        decision: if boolean_reply(v.decision) is Some {
            v.decision
        } else {
            None
        },
    }
}

/// An expression that fails or gives something else than what is wanted leaves the built-in
/// rule in force: the evaluation is what it would be without the expression.
pub proof fn law_unusable_replies_leave_the_built_in_rule(
    p: DepegPolicy,
    s: Seq<QuoteInput>,
    st: AlertView,
    now: Timestamp,
    c: ContextClassification,
    v: RepliesView,
)
    ensures
        evaluation(p, s, st, now, c, v) == evaluation(p, s, st, now, c, readable(v)),
{
    reveal(evaluation);
    let w = weighed(p, s, now, c);
    let r = readable(v);
    assert(severity_found(w, v) == severity_found(w, r));
    assert(oracle_found(p, w, now, v) == oracle_found(p, w, now, r));
    assert(total_found(p, w, now, v) == total_found(p, w, now, r));
    assert(breach_found(p, w, now, v) == breach_found(p, w, now, r));
}

/// A policy without expressions has one outcome, in which a breach is active exactly by the
/// built-in decision.
pub proof fn law_policy_without_expressions(
    p: DepegPolicy,
    s: Seq<QuoteInput>,
    st: AlertView,
    now: Timestamp,
    c: ContextClassification,
    v: RepliesView,
)
    requires
        p.compiled_severity is None,
        p.compiled_oracle is None,
        p.compiled_confidence is None,
        p.compiled_decision is None,
        replies_fit(p, s, now, c, v),
    ensures
        v == no_replies(),
        evaluation(p, s, st, now, c, v) matches Some(o) ==> eligible_quotes(p, s, now).len() > 0
            ==> o.snapshot.breach_active == default_breach(p, weighed(p, s, now, c), now, v),
{
    reveal(evaluation);
    reveal(replies_fit);
}

/// Without an expression for the decision, a market on which fewer sources quoted than have
/// to, or whose deviation stays below the floor, is in no breach.
pub proof fn law_no_breach_without_quorum_and_threshold(
    p: DepegPolicy,
    s: Seq<QuoteInput>,
    st: AlertView,
    now: Timestamp,
    c: ContextClassification,
    v: RepliesView,
)
    requires
        p.compiled_decision is None,
        replies_fit(p, s, now, c, v),
    ensures
        evaluation(p, s, st, now, c, v) matches Some(o) ==> o.snapshot.breach_active ==> ({
            let n = eligible_quotes(p, s, now).len();
            &&& n >= p.source_filter.min_healthy_sources
            &&& n >= p.min_sources
            &&& n >= 1
            &&& floor_in(p, c).at_most(o.snapshot.divergence_pct)
            &&& o.snapshot.severity is Some
        }),
{
    reveal(evaluation);
    reveal(replies_fit);
}

/// Without an expression for the decision, a market is in no breach that oracles do not
/// confirm where the policy asks for it; without one for the oracles either, one of their
/// quotes that count has to reach the floor.
pub proof fn law_no_breach_without_confirmation(
    p: DepegPolicy,
    s: Seq<QuoteInput>,
    st: AlertView,
    now: Timestamp,
    c: ContextClassification,
    v: RepliesView,
)
    requires
        p.compiled_decision is None,
        p.toggles.oracle_confirmation,
        replies_fit(p, s, now, c, v),
    ensures
        evaluation(p, s, st, now, c, v) matches Some(o) ==> o.snapshot.breach_active ==> ({
            &&& o.snapshot.oracle_confirmed
            &&& p.compiled_oracle is None ==> oracle_confirms(
                p,
                eligible_quotes(p, s, now),
                floor_in(p, c),
                now,
                p.peg_target,
            )
        }),
{
    reveal(evaluation);
    reveal(replies_fit);
}

/// A number that an expression gives for the confidence is taken as a percentage.
pub proof fn law_confidence_replies_are_percentages(r: Option<ReplyView>)
    ensures
        percent_reply(r) matches Some(x) ==> x.nan() || double(0).at_most(x) && x.at_most(
            double(HUNDRED_BITS),
        ),
{
    assert(!double(0).nan() && !double(HUNDRED_BITS).nan());
}

/// An alert is emitted only for an incident that starts or grows, and never while the
/// incident rests after its last change.
pub proof fn law_alerts_respect_the_cooldown(
    p: DepegPolicy,
    s: Seq<QuoteInput>,
    st: AlertView,
    now: Timestamp,
    c: ContextClassification,
    v: RepliesView,
)
    ensures
        evaluation(p, s, st, now, c, v) matches Some(o) ==> o.should_emit_alert ==> ({
            &&& o.snapshot.breach_active
            &&& o.emitted_severity is Some
            &&& o.transition == Some(IncidentTransition::Trigger) || o.transition == Some(
                IncidentTransition::Escalate,
            )
            &&& !crate::incident::cooling(st.incident, now)
        }),
{
    reveal(evaluation);
}

/// A quote enters the consensus exactly where its source counts and has a weight, its price is
/// above zero, and it was made by now and no longer ago than its source's quotes hold.
pub proof fn law_quotes_enter_while_they_hold(p: DepegPolicy, q: QuoteInput, now: Timestamp)
    requires
        q.price.finite(),
        0 <= now.nanos - q.observed_at.nanos <= i64::MAX,
    ensures
        eligible(p, q, now) <==> {
            &&& counts(p, q.source_id@, q.source_kind@)
            &&& q.price.value() > 0
            &&& weight_of(p, q.source_id@).positive()
            &&& (now.nanos - q.observed_at.nanos) / 1_000_000 <= timeout_of(p, q.source_id@)
        },
        comparable(p, q, now) <==> {
            &&& counts(p, q.source_id@, q.source_kind@)
            &&& weight_of(p, q.source_id@).positive()
            &&& (now.nanos - q.observed_at.nanos) / 1_000_000 <= timeout_of(p, q.source_id@)
        },
{
    crate::aggregation::lemma_zero_value();
    crate::double::law_order_is_by_value(double(0), q.price);
}

/// A quote that was made later than now does not enter the consensus.
pub proof fn law_quotes_of_the_future_do_not_enter(p: DepegPolicy, q: QuoteInput, now: Timestamp)
    requires
        now.nanos + 1_000_000 <= q.observed_at.nanos,
    ensures
        !eligible(p, q, now),
{
    let d: int = q.observed_at.nanos - now.nanos;
    assert(d / 1_000_000 >= 1);
}

/// Every quote that enters the consensus is counted and has its say with the weight of its
/// source; no other has.
pub proof fn law_eligible_quotes_have_their_say(
    p: DepegPolicy,
    s: Seq<QuoteInput>,
    now: Timestamp,
    q: QuoteInput,
)
    ensures
        eligible_quotes(p, s, now).contains(q) <==> s.contains(q) && eligible(p, q, now),
        eligible(p, q, now) ==> points_of(p, eligible_quotes(p, s.push(q), now)) == points_of(
            p,
            eligible_quotes(p, s, now),
        ).push(Point { price: q.price, weight: weight_of(p, q.source_id@) }),
{
    let enters = |x: QuoteInput| eligible(p, x, now);
    let e = eligible_quotes(p, s, now);
    assert(e == s.filter(enters));
    if e.contains(q) {
        let i = choose|i: int| 0 <= i < e.len() && e[i] == q;
        s.lemma_filter_pred(enters, i);
        s.lemma_filter_contains_rev(enters, q);
    }
    if s.contains(q) && eligible(p, q, now) {
        let k = choose|k: int| 0 <= k < s.len() && s[k] == q;
        s.lemma_filter_contains(enters, k);
    }
    s.lemma_filter_push(q, enters);
    if eligible(p, q, now) {
        assert(eligible_quotes(p, s.push(q), now) == e.push(q));
        assert(points_of(p, e.push(q)) =~= points_of(p, e).push(
            Point { price: q.price, weight: weight_of(p, q.source_id@) },
        ));
    }
}

/// One fresh quote of an oracle that is off by the floor or more confirms a deviation, and
/// without one nothing does.
pub proof fn law_one_oracle_confirms(
    p: DepegPolicy,
    s: Seq<QuoteInput>,
    floor: Double,
    now: Timestamp,
    target: Double,
)
    ensures
        oracle_confirms(p, s, floor, now, target) <==> exists|i: int|
            #![trigger s[i]]
            0 <= i < s.len() && s[i].source_kind@ == "oracle"@ && now.ms_since(s[i].observed_at)
                <= timeout_of(p, s[i].source_id@) && floor.at_most(divergence(s[i].price, target)),
{
    if oracle_confirms(p, s, floor, now, target) {
        let i = choose|i: int|
            0 <= i < s.len() && fresh_oracle(p, #[trigger] s[i], now) && floor.at_most(
                divergence(s[i].price, target),
            );
        assert(s[i].source_kind@ == "oracle"@);
    }
    if exists|i: int|
        #![trigger s[i]]
        0 <= i < s.len() && s[i].source_kind@ == "oracle"@ && now.ms_since(s[i].observed_at)
            <= timeout_of(p, s[i].source_id@) && floor.at_most(divergence(s[i].price, target)) {
        let i = choose|i: int|
            #![trigger s[i]]
            0 <= i < s.len() && s[i].source_kind@ == "oracle"@ && now.ms_since(s[i].observed_at)
                <= timeout_of(p, s[i].source_id@) && floor.at_most(divergence(s[i].price, target));
        assert(fresh_oracle(p, s[i], now));
    }
}

/// What an evaluation saw is the price of the quotes that entered, how far it is from the peg,
/// and, as far as no expression says otherwise, how severe that is in its context, whether the
/// oracles confirm it and how sure that is.
pub proof fn law_evaluations_see_the_market(
    p: DepegPolicy,
    s: Seq<QuoteInput>,
    st: AlertView,
    now: Timestamp,
    c: ContextClassification,
    v: RepliesView,
)
    requires
        eligible_quotes(p, s, now).len() > 0,
        consensus_price(p, s, now) is Some,
    ensures
        ({
            let e = eligible_quotes(p, s, now);
            let price = aggregate(points_of(p, e), p.aggregation)->0;
            let saw = evaluation(p, s, st, now, c, v)->0.snapshot;
            let d = six_places(deviation(price, p.peg_target));
            &&& evaluation(p, s, st, now, c, v) is Some
            &&& saw.weighted_median_price == price
            &&& saw.divergence_pct == d
            &&& saw.source_count == e.len()
            &&& saw.eligible_source_count == sensible_count(p, s)
            &&& saw.classification == c
            &&& saw.trigger_floor_pct == floor_in(p, c)
            &&& saw.quorum_met == quorum(
                e.len(),
                enabled_sources(p),
                p.source_filter.min_healthy_sources as nat,
                p.min_sources as nat,
                p.quorum_pct,
            )
            &&& severity_reply(v.severity) is None ==> saw.severity == severity_in(
                d,
                bands_in(p, c),
            )
            &&& boolean_reply(v.oracle) is None ==> saw.oracle_confirmed == oracle_confirms(
                p,
                e,
                floor_in(p, c),
                now,
                p.peg_target,
            )
            &&& saw.confidence_breakdown == Some(
                confidence(confidence_rules(p), e, price, saw.oracle_confirmed, p.peg_target),
            )
        }),
{
    reveal(evaluation);
}

/// What an expression says is followed: on the severity, on the oracles and on whether there is
/// a breach. Without a decision by an expression, a breach is active exactly where the quorum is
/// met, the floor reached, the deviation severe, and the policy's demands on oracles and
/// confidence fulfilled.
pub proof fn law_expressions_are_followed(
    p: DepegPolicy,
    s: Seq<QuoteInput>,
    st: AlertView,
    now: Timestamp,
    c: ContextClassification,
    v: RepliesView,
    said: bool,
    named: Severity,
    text: Seq<char>,
)
    requires
        eligible_quotes(p, s, now).len() > 0,
        consensus_price(p, s, now) is Some,
    ensures
        ({
            let saw = evaluation(p, s, st, now, c, v)->0.snapshot;
            let sure = if percent_reply(v.confidence) is Some {
                percent_reply(v.confidence)->0
            } else {
                saw.confidence_breakdown->0.total
            };
            &&& v.severity == Some(ReplyView::Text(text)) && severity_named(Some(text)) == Some(
                named,
            ) ==> saw.severity == Some(named)
            &&& v.oracle == Some(ReplyView::Bool(said)) ==> saw.oracle_confirmed == said
            &&& v.decision == Some(ReplyView::Bool(said)) ==> saw.breach_active == said
            &&& boolean_reply(v.decision) is None ==> (saw.breach_active <==> saw.quorum_met
                && floor_in(p, c).at_most(saw.divergence_pct) && saw.severity is Some && (
            p.toggles.oracle_confirmation ==> saw.oracle_confirmed)
                && p.min_confidence_to_fire.at_most(sure))
        }),
{
    reveal(evaluation);
}

/// A confidence that an expression gives is taken as it is within nothing and a hundred, and as
/// the nearer end beyond them.
pub proof fn law_confidence_is_brought_into_range(x: Double, n: i64)
    requires
        !x.nan(),
    ensures
        double(0).at_most(x) && x.at_most(double(HUNDRED_BITS)) ==> percent_reply(
            Some(ReplyView::Number(x)),
        ) == Some(x),
        x.below(double(0)) ==> percent_reply(Some(ReplyView::Number(x))) == Some(double(0)),
        double(HUNDRED_BITS).below(x) ==> percent_reply(Some(ReplyView::Number(x))) == Some(
            double(HUNDRED_BITS),
        ),
        percent_reply(Some(ReplyView::Int(n))) == percent_reply(
            Some(ReplyView::Number(of_int(n as int))),
        ),
        percent_reply(None) is None,
        percent_reply(Some(ReplyView::Bool(true))) is None,
{
}

/// An evaluation goes on with the incident as it was, at once and silently when it shrinks or
/// ends; the mark of the market stays as it was.
pub proof fn law_evaluations_advance_the_incident(
    p: DepegPolicy,
    s: Seq<QuoteInput>,
    st: AlertView,
    now: Timestamp,
    c: ContextClassification,
    v: RepliesView,
)
    requires
        eligible_quotes(p, s, now).len() > 0,
        consensus_price(p, s, now) is Some,
    ensures
        ({
            let e = eligible_quotes(p, s, now);
            let o = evaluation(p, s, st, now, c, v)->0;
            let told = Finding {
                breach: o.snapshot.breach_active,
                severity: o.snapshot.severity,
                divergence: o.snapshot.divergence_pct,
                classification: c,
                floor: floor_in(p, c),
                calm: oracles_calm(
                    e,
                    resolution_floor(st.incident, floor_in(p, c)),
                    p.peg_target,
                ),
            };
            let a = advanced(
                st.incident,
                told,
                limits_of(p),
                Manner { ready: true, silent: true },
                now,
            );
            &&& o.should_emit_alert == a.emit
            &&& o.transition == a.transition
            &&& o.emitted_severity == a.severity
            &&& o.next_state.incident == a.next
            &&& o.next_state.high_water_mark == st.high_water_mark
        }),
{
    reveal(evaluation);
}

/// What the oracles say is the largest of their deviations, and every one of them that is fresh
/// is counted.
pub proof fn law_oracles_are_counted_and_the_largest_is_told(
    p: DepegPolicy,
    s: Seq<QuoteInput>,
    now: Timestamp,
    target: Double,
    n: nat,
    i: int,
)
    requires
        0 <= i < n <= s.len(),
        fresh_oracle(p, s[i], now),
        !divergence(s[i].price, target).nan(),
    ensures
        oracle_count(p, s, now, n) >= 1,
        divergence(s[i].price, target).at_most(oracle_divergence(p, s, now, target, n)),
    decreases n,
{
    lemma_oracle_divergence(p, s, now, target, (n - 1) as nat);
    if i < n - 1 {
        law_oracles_are_counted_and_the_largest_is_told(p, s, now, target, (n - 1) as nat, i);
    }
}

proof fn lemma_oracle_divergence(
    p: DepegPolicy,
    s: Seq<QuoteInput>,
    now: Timestamp,
    target: Double,
    n: nat,
)
    ensures
        double(0).at_most(oracle_divergence(p, s, now, target, n)),
    decreases n,
{
    if n > 0 {
        lemma_oracle_divergence(p, s, now, target, (n - 1) as nat);
    }
}

/// Without a fresh quote of an oracle none is counted and no deviation is told of them.
pub proof fn law_without_oracles_nothing_is_told_of_them(
    p: DepegPolicy,
    s: Seq<QuoteInput>,
    now: Timestamp,
    target: Double,
    n: nat,
)
    requires
        n <= s.len(),
        forall|i: int| 0 <= i < n ==> !fresh_oracle(p, #[trigger] s[i], now),
    ensures
        oracle_count(p, s, now, n) == 0,
        oracle_divergence(p, s, now, target, n) == double(0),
    decreases n,
{
    if n > 0 {
        assert(!fresh_oracle(p, s[n - 1], now));
        law_without_oracles_nothing_is_told_of_them(p, s, now, target, (n - 1) as nat);
    }
}

/// A contributor is told with its price, its age, its weight and how far it is off. It supports
/// the alert where it is on the side of the consensus, confirms it where it is an oracle's and
/// off by the floor, and contributes to a breach where there is one and it does either.
pub proof fn law_contributions_are_told(
    p: DepegPolicy,
    q: QuoteInput,
    now: Timestamp,
    target: Double,
    floor: Double,
    price: Double,
    breach: bool,
)
    requires
        q.price.finite(),
        price.finite(),
        target.positive(),
    ensures
        ({
            let c = contribution(
                p,
                q,
                now,
                target,
                floor,
                sign_of(difference(price, target)),
                breach,
            );
            &&& c.source_id == q.source_id
            &&& c.source_kind == q.source_kind
            &&& c.price == q.price
            &&& c.observed_at == q.observed_at
            &&& c.weight == weight_of(p, q.source_id@)
            &&& c.divergence_pct == divergence(q.price, target)
            &&& now.nanos < q.observed_at.nanos ==> c.age_ms == 0
            &&& now.nanos >= q.observed_at.nanos ==> c.age_ms == now.ms_since(q.observed_at)
            &&& c.supports_alert_direction <==> (q.price.value() < target.value()
                <==> price.value() < target.value())
            &&& c.confirms_oracle <==> q.source_kind@ == "oracle"@ && floor.at_most(
                divergence(q.price, target),
            )
            &&& c.contributes_to_breach <==> breach && (c.supports_alert_direction
                || c.confirms_oracle)
            &&& c.contributes_to_quorum
        }),
{
    crate::double::law_differences_have_a_side(price, target);
    crate::double::law_differences_have_a_side(q.price, target);
    crate::double::lemma_signed(true, crate::double::ONE as nat);
    crate::double::lemma_signed(false, crate::double::ONE as nat);
    if now.nanos < q.observed_at.nanos {
        let d: int = q.observed_at.nanos - now.nanos;
        assert(d / 1_000_000 >= 0);
    }
}

/// Every quote that enters contributes, and nothing else does.
pub proof fn law_every_quote_contributes(
    p: DepegPolicy,
    s: Seq<QuoteInput>,
    now: Timestamp,
    target: Double,
    floor: Double,
    direction: Double,
    breach: bool,
    i: int,
)
    requires
        0 <= i < s.len(),
    ensures
        evidence(p, s, now, target, floor, direction, breach).len() == s.len(),
        evidence(p, s, now, target, floor, direction, breach).contains(
            contribution(p, s[i], now, target, floor, direction, breach),
        ),
{
    let all = s.map_values(
        |q: QuoteInput| contribution(p, q, now, target, floor, direction, breach),
    );
    crate::order::lemma_arranged_items(all);
    assert(all[i] == contribution(p, s[i], now, target, floor, direction, breach));
    assert(all.contains(all[i]));
}

/// For the comparison with other markets, a market is as far from its peg as the price of the
/// quotes that are fresh and count.
pub proof fn law_markets_are_compared_by_their_price(
    p: DepegPolicy,
    s: Seq<QuoteInput>,
    now: Timestamp,
)
    requires
        forall|i: int| 0 <= i < s.len() ==> comparable(p, #[trigger] s[i], now),
    ensures
        aggregate(points_of(p, s), p.aggregation) is Some ==> market_divergence(p, s, now) == Some(
            divergence(aggregate(points_of(p, s), p.aggregation)->0, p.peg_target),
        ),
        aggregate(points_of(p, s), p.aggregation) is None ==> market_divergence(p, s, now) is None,
{
    let fresh = |q: QuoteInput| comparable(p, q, now);
    assert(s.filter(fresh) =~= s) by {
        lemma_all_stay(s, fresh);
    }
}

proof fn lemma_all_stay(s: Seq<QuoteInput>, keep: spec_fn(QuoteInput) -> bool)
    requires
        forall|i: int| 0 <= i < s.len() ==> keep(#[trigger] s[i]),
    ensures
        s.filter(keep) == s,
    decreases s.len(),
{
    reveal(Seq::filter);
    if s.len() > 0 {
        assert(keep(s[s.len() - 1]));
        assert forall|i: int| 0 <= i < s.drop_last().len() implies keep(
            #[trigger] s.drop_last()[i],
        ) by {
            assert(keep(s[i]));
        }
        lemma_all_stay(s.drop_last(), keep);
        assert(s.drop_last().push(s.last()) =~= s);
    }
}

/// Expressions are told what was seen, under the names that they are promised.
pub proof fn law_expressions_are_told_what_was_seen(
    p: DepegPolicy,
    w: Weighed,
    now: Timestamp,
    v: RepliesView,
    c: ConfidenceBreakdown,
)
    ensures
        ({
            let d = decision_inputs(p, w, now, v);
            &&& d.quorum_met == w.quorum_met
            &&& d.threshold_breach <==> w.floor.at_most(w.divergence) && severity_found(
                w,
                v,
            ) is Some
            &&& d.oracle_confirmed == oracle_found(p, w, now, v)
            &&& d.deviation_pct == w.divergence
            &&& d.median_price == w.price
            &&& d.min_confidence_to_fire == p.min_confidence_to_fire
            &&& d.oracle_confirmation_toggle == p.toggles.oracle_confirmation
            &&& d.volume_confirmation_toggle == p.toggles.volume_confirmation
            &&& d.severity_bands_medium == w.bands.medium
            &&& d.severity_bands_high == w.bands.high
            &&& d.severity_bands_critical == w.bands.critical
            &&& w.eligible.len() <= i32::MAX ==> d.source_count == w.eligible.len()
        }),
        ({
            let told = confidence_variables(p, c);
            let weights = part_weights(confidence_rules(p));
            &&& told.contains(("source_agreement"@, Datum::Number(c.source_agreement)))
            &&& told.contains(("oracle_score"@, Datum::Number(c.oracle_confirmation)))
            &&& told.contains(("volume_score"@, Datum::Number(c.volume_confirmation)))
            &&& told.contains(("weight_source"@, Datum::Number(weights.0)))
            &&& told.contains(("weight_oracle"@, Datum::Number(weights.1)))
            &&& told.contains(("weight_volume"@, Datum::Number(weights.2)))
        }),
{
    let told = confidence_variables(p, c);
    assert(told[0].0 == "source_agreement"@);
    assert(told[1].0 == "oracle_score"@);
    assert(told[2].0 == "volume_score"@);
    assert(told[3].0 == "weight_source"@);
    assert(told[4].0 == "weight_oracle"@);
    assert(told[5].0 == "weight_volume"@);
}

/// Contributors stand in the order of time, those of one time in the order of their names, and
/// markets by how far they are off, the farthest first, equals in the order of their keys.
pub proof fn law_contributors_and_markets_have_their_order(
    a: EvidenceContributor,
    b: EvidenceContributor,
    m: SystemicMarketContext,
    n: SystemicMarketContext,
)
    requires
        m.divergence_pct.finite(),
        n.divergence_pct.finite(),
    ensures
        a.observed_at.nanos < b.observed_at.nanos ==> a.outranks(&b),
        a.observed_at.nanos > b.observed_at.nanos ==> !a.outranks(&b),
        a.observed_at.nanos == b.observed_at.nanos ==> (a.outranks(&b) <==> precedes(
            a.source_id@,
            b.source_id@,
        )),
        m.divergence_pct.value() > n.divergence_pct.value() ==> m.outranks(&n),
        m.divergence_pct.value() < n.divergence_pct.value() ==> !m.outranks(&n),
        m.divergence_pct.value() == n.divergence_pct.value() ==> (m.outranks(&n) <==> precedes(
            m.market_key@,
            n.market_key@,
        )),
{
    crate::double::law_order_is_by_value(m.divergence_pct, n.divergence_pct);
    crate::double::law_order_is_by_value(n.divergence_pct, m.divergence_pct);
}

} // verus!
