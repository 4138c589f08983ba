//! What is remembered of a rule's subject, and how samples of its value change it.

use vstd::prelude::*;

use crate::aggregation::double;
use crate::aggregation::ONE_BITS;
use crate::double::difference;
use crate::double::larger;
use crate::double::of_int;
use crate::double::quotient;
use crate::double::sum;
use crate::double::Double;
use crate::event::classification_name;
use crate::event::context_classification_str;
use crate::event::rank;
use crate::event::severity_from_str;
use crate::event::severity_name;
use crate::event::severity_named;
use crate::event::severity_rank;
use crate::event::severity_text;
use crate::event::str_option;
use crate::event::ContextClassification;
use crate::event::IncidentTransition;
use crate::event::Severity;
use crate::json::boolean_in;
use crate::json::either;
use crate::json::member_bool;
use crate::json::Json;
use crate::json::JsonView;
use crate::order::arrange;
use crate::order::arranged;
use crate::order::Ranked;
use crate::quotes::later;
use crate::quotes::later_of;
use crate::text::copy_option;
use crate::text::same;
use crate::text::text_option;
use crate::time::Timestamp;
use crate::tvl_drop::rule::RuleView;
use crate::tvl_drop::rule::TvlDropRule;
use crate::tvl_drop::window::analysis;
use crate::tvl_drop::window::analyze_window;
use crate::tvl_drop::window::classify_velocity_pattern;
use crate::tvl_drop::window::max_one_minute_drop_pct;
use crate::tvl_drop::window::samples_since;
use crate::tvl_drop::window::since;
use crate::tvl_drop::window::start_of_window;
use crate::tvl_drop::window::steepest_in;
use crate::tvl_drop::window::velocity;
use crate::tvl_drop::window::window_start;
use crate::tvl_drop::window::TvlSamplePoint;
use crate::tvl_drop::window::WindowAnalysis;

verus! {

/// The bits of 5.0.
pub const FAST_CRITICAL_WINDOW_BITS: u64 = 0x4014_0000_0000_0000;

/// What is remembered of the subject of a rule.
#[derive(Debug)]
pub struct TvlRuleState {
    pub samples: Vec<TvlSamplePoint>,
    pub last_severity: Option<String>,
    pub last_drop_pct: Option<Double>,
    pub active_since: Option<Timestamp>,
    pub last_breach_at: Option<Timestamp>,
    pub last_transition_at: Option<Timestamp>,
    pub last_context: Option<String>,
    pub last_pause_state: Option<bool>,
    pub protocol_chain_key: Option<String>,
    /// Whether the tenant has deposits in the protocol; taken to be so where it is not known.
    pub tenant_has_deposit: Option<bool>,
    /// Whether what is known of the tenant's deposits is out of date.
    pub position_data_stale: Option<bool>,
}

#[verifier::ext_equal]
pub struct StateView {
    pub samples: Seq<TvlSamplePoint>,
    pub last_severity: Option<Seq<char>>,
    pub last_drop_pct: Option<Double>,
    pub active_since: Option<Timestamp>,
    pub last_breach_at: Option<Timestamp>,
    pub last_transition_at: Option<Timestamp>,
    pub last_context: Option<Seq<char>>,
    pub last_pause_state: Option<bool>,
    pub protocol_chain_key: Option<Seq<char>>,
    pub tenant_has_deposit: Option<bool>,
    pub position_data_stale: Option<bool>,
}

impl View for TvlRuleState {
    type V = StateView;

    open spec fn view(&self) -> StateView {
        StateView {
            samples: self.samples@,
            last_severity: text_option(self.last_severity),
            last_drop_pct: self.last_drop_pct,
            active_since: self.active_since,
            last_breach_at: self.last_breach_at,
            last_transition_at: self.last_transition_at,
            last_context: text_option(self.last_context),
            last_pause_state: self.last_pause_state,
            protocol_chain_key: text_option(self.protocol_chain_key),
            tenant_has_deposit: self.tenant_has_deposit,
            position_data_stale: self.position_data_stale,
        }
    }
}

/// The state of a subject that nothing is known of.
pub open spec fn blank_state() -> StateView {
    StateView {
        samples: Seq::<TvlSamplePoint>::empty(),
        last_severity: None,
        last_drop_pct: None,
        active_since: None,
        last_breach_at: None,
        last_transition_at: None,
        last_context: None,
        last_pause_state: None,
        protocol_chain_key: None,
        tenant_has_deposit: None,
        position_data_stale: None,
    }
}

impl Default for TvlRuleState {
    fn default() -> (r: Self)
        ensures
            r@ == blank_state(),
    {
        TvlRuleState {
            samples: Vec::new(),
            last_severity: None,
            last_drop_pct: None,
            active_since: None,
            last_breach_at: None,
            last_transition_at: None,
            last_context: None,
            last_pause_state: None,
            protocol_chain_key: None,
            tenant_has_deposit: None,
            position_data_stale: None,
        }
    }
}

/// When a state was last seen to change.
pub open spec fn last_activity(s: StateView) -> Option<Timestamp> {
    let sampled = if s.samples.len() == 0 {
        None
    } else {
        Some(s.samples.last().observed_at)
    };
    later(later(later(sampled, s.last_transition_at), s.last_breach_at), s.active_since)
}

pub fn tvl_state_last_activity(state: &TvlRuleState) -> (r: Option<Timestamp>)
    ensures
        r == last_activity(state@),
{
    let n: usize = state.samples.len();
    let sampled: Option<Timestamp> = if n == 0 {
        None
    } else {
        Some(state.samples[n - 1].observed_at)
    };
    later_of(
        later_of(later_of(sampled, state.last_transition_at), state.last_breach_at),
        state.active_since,
    )
}

// ---------------------------------------------------------------------------
// Evaluation
// ---------------------------------------------------------------------------

/// The limit that a fall has passed.
#[derive(Clone, Copy, Debug, PartialEq, Eq, Structural)]
pub enum Branch {
    Velocity,
    Fast,
    Slow,
}

/// The name of a limit.
pub open spec fn branch_name(b: Branch) -> Seq<char> {
    match b {
        Branch::Velocity => "velocity"@,
        Branch::Fast => "fast"@,
        Branch::Slow => "slow"@,
    }
}

pub fn branch_text(b: Branch) -> (r: &'static str)
    ensures
        r@ == branch_name(b),
{
    match b {
        Branch::Velocity => "velocity",
        Branch::Fast => "fast",
        Branch::Slow => "slow",
    }
}

/// What a sample shows.
#[derive(Clone, Copy, Debug)]
pub struct TvlEvaluation {
    pub fast_drop_pct: Double,
    pub slow_drop_pct: Double,
    pub velocity_drop_pct: Double,
    pub selected_drop_pct: Double,
    pub fast_window_reference_tvl_usd: Option<Double>,
    pub time_to_reach_current_drop_minutes: Option<Double>,
    pub drain_rate_usd_per_min: Option<Double>,
    pub estimated_time_to_empty_minutes: Option<Double>,
    pub velocity_pattern: Option<&'static str>,
    pub base_severity: Option<Severity>,
    pub breached_branch: Option<Branch>,
    /// Whether nothing is made of a fall because the tenant has no deposit.
    pub deposit_gate_skipped: bool,
    pub position_data_stale: bool,
}

pub struct EvaluationView {
    pub fast_drop_pct: Double,
    pub slow_drop_pct: Double,
    pub velocity_drop_pct: Double,
    pub selected_drop_pct: Double,
    pub fast_window_reference_tvl_usd: Option<Double>,
    pub time_to_reach_current_drop_minutes: Option<Double>,
    pub drain_rate_usd_per_min: Option<Double>,
    pub estimated_time_to_empty_minutes: Option<Double>,
    pub velocity_pattern: Option<Seq<char>>,
    pub base_severity: Option<Severity>,
    pub breached_branch: Option<Branch>,
    pub deposit_gate_skipped: bool,
    pub position_data_stale: bool,
}

impl View for TvlEvaluation {
    type V = EvaluationView;

    open spec fn view(&self) -> EvaluationView {
        EvaluationView {
            fast_drop_pct: self.fast_drop_pct,
            slow_drop_pct: self.slow_drop_pct,
            velocity_drop_pct: self.velocity_drop_pct,
            selected_drop_pct: self.selected_drop_pct,
            fast_window_reference_tvl_usd: self.fast_window_reference_tvl_usd,
            time_to_reach_current_drop_minutes: self.time_to_reach_current_drop_minutes,
            drain_rate_usd_per_min: self.drain_rate_usd_per_min,
            estimated_time_to_empty_minutes: self.estimated_time_to_empty_minutes,
            velocity_pattern: str_option(self.velocity_pattern),
            base_severity: self.base_severity,
            breached_branch: self.breached_branch,
            deposit_gate_skipped: self.deposit_gate_skipped,
            position_data_stale: self.position_data_stale,
        }
    }
}

/// The larger of two integers.
pub open spec fn greater(a: i64, b: i64) -> i64 {
    if a < b {
        b
    } else {
        a
    }
}

fn greater_of(a: i64, b: i64) -> (r: i64)
    ensures
        r == greater(a, b),
{
    if a < b {
        b
    } else {
        a
    }
}

/// The longest window of a rule.
pub open spec fn longest_window(r: RuleView) -> i64 {
    greater(
        greater(r.fast_window_minutes, r.slow_window_minutes),
        greater(r.velocity_critical_minutes, r.concurrent_window_minutes),
    )
}

/// Samples with one more, in the order of time, as far back as a rule looks.
pub open spec fn samples_with(
    s: Seq<TvlSamplePoint>,
    r: RuleView,
    tvl: Double,
    now: Timestamp,
) -> Seq<TvlSamplePoint> {
    since(
        arranged(s.push(TvlSamplePoint { observed_at: now, tvl_usd: tvl })),
        window_start(now, longest_window(r)),
    )
}

/// Whether a tenant has, or may have, a deposit: only up-to-date news that there is none
/// counts.
pub open spec fn may_have_deposit(has: Option<bool>, stale: Option<bool>) -> bool {
    has != Some(false) || stale == Some(true)
}

/// How fast a value drains: by what it fell over the time that took.
pub open spec fn drain_rate(w: WindowAnalysis) -> Option<Double> {
    match (w.reference_tvl_usd, w.current_tvl_usd, w.time_to_reach_current_drop_minutes) {
        (Some(reference), Some(current), Some(minutes)) => if current.below(reference)
            && minutes.finite() && double(0).below(minutes) {
            Some(quotient(difference(reference, current), minutes))
        } else {
            None
        },
        _ => None,
    }
}

/// How long it takes until nothing is left.
pub open spec fn time_to_empty(w: WindowAnalysis) -> Option<Double> {
    match (w.current_tvl_usd, drain_rate(w)) {
        (Some(current), Some(rate)) => if double(0).below(current) && double(0).below(rate) {
            Some(quotient(current, rate))
        } else {
            None
        },
        _ => None,
    }
}

/// Whether a time was measured and lies below a limit.
pub open spec fn sooner(minutes: Option<Double>, limit: Double) -> bool {
    minutes matches Some(m) && m.below(limit)
}

fn is_sooner(minutes: Option<Double>, limit: Double) -> (r: bool)
    ensures
        r == sooner(minutes, limit),
{
    match minutes {
        Some(m) => m.lt(limit),
        None => false,
    }
}

/// Which limit of a rule falls have passed, and how severe that is.
pub open spec fn breach(r: RuleView, fast: Double, slow: Double, reached: Option<Double>) -> Option<
    (Branch, Severity),
> {
    if r.velocity_critical_pct.at_most(fast) && sooner(
        reached,
        of_int(r.velocity_critical_minutes as int),
    ) {
        Some((Branch::Velocity, Severity::Critical))
    } else if r.fast_drop_pct.at_most(fast) {
        Some(
            (
                Branch::Fast,
                if sooner(reached, double(FAST_CRITICAL_WINDOW_BITS)) {
                    Severity::Critical
                } else {
                    Severity::High
                },
            ),
        )
    } else if r.slow_drop_pct.at_most(slow) {
        Some((Branch::Slow, Severity::High))
    } else {
        None
    }
}

fn find_breach(rule: &TvlDropRule, fast: Double, slow: Double, reached: Option<Double>) -> (r:
    Option<(Branch, Severity)>)
    ensures
        r == breach(rule@, fast, slow, reached),
{
    if rule.velocity_critical_pct.le(fast) && is_sooner(
        reached,
        Double::from_i64(rule.velocity_critical_minutes),
    ) {
        return Some((Branch::Velocity, Severity::Critical));
    }
    if rule.fast_drop_pct.le(fast) {
        return if is_sooner(reached, Double { bits: FAST_CRITICAL_WINDOW_BITS }) {
            Some((Branch::Fast, Severity::Critical))
        } else {
            Some((Branch::Fast, Severity::High))
        };
    }
    if rule.slow_drop_pct.le(slow) {
        return Some((Branch::Slow, Severity::High));
    }
    None
}

/// What the samples of a state show by a rule, where the value now is `tvl`.
pub open spec fn evaluation(r: RuleView, s: StateView, tvl: Double, now: Timestamp) -> EvaluationView {
    let fast = analysis(s.samples, now, r.fast_window_minutes);
    let slow = analysis(s.samples, now, r.slow_window_minutes);
    let steep = steepest_in(s.samples, now, r.fast_window_minutes);
    let reached = fast.time_to_reach_current_drop_minutes;
    let deposit = may_have_deposit(s.tenant_has_deposit, s.position_data_stale);
    let reference = match fast.reference_tvl_usd {
        Some(x) => x,
        None => tvl,
    };
    let found = if deposit && r.min_tvl_floor_usd.at_most(reference) {
        breach(r, fast.drop_pct, slow.drop_pct, reached)
    } else {
        None
    };
    EvaluationView {
        fast_drop_pct: fast.drop_pct,
        slow_drop_pct: slow.drop_pct,
        velocity_drop_pct: steep,
        selected_drop_pct: larger(fast.drop_pct, slow.drop_pct),
        fast_window_reference_tvl_usd: fast.reference_tvl_usd,
        time_to_reach_current_drop_minutes: reached,
        drain_rate_usd_per_min: drain_rate(fast),
        estimated_time_to_empty_minutes: time_to_empty(fast),
        velocity_pattern: velocity(fast.drop_pct, steep, reached),
        base_severity: match found {
            Some(f) => Some(f.1),
            None => None,
        },
        breached_branch: match found {
            Some(f) => Some(f.0),
            None => None,
        },
        deposit_gate_skipped: !deposit,
        position_data_stale: s.position_data_stale == Some(true),
    }
}

/// A state with one more sample.
pub open spec fn sampled(r: RuleView, s: StateView, tvl: Double, now: Timestamp) -> StateView {
    StateView { samples: samples_with(s.samples, r, tvl, now), ..s }
}

fn drains(w: &WindowAnalysis) -> (r: (Option<Double>, Option<Double>))
    ensures
        r.0 == drain_rate(*w),
        r.1 == time_to_empty(*w),
{
    let zero = Double { bits: 0 };
    let current: Double = match w.current_tvl_usd {
        Some(x) => x,
        None => {
            return (None, None);
        },
    };
    let rate: Option<Double> = match (w.reference_tvl_usd, w.time_to_reach_current_drop_minutes) {
        (Some(reference), Some(minutes)) => if current.lt(reference) && minutes.is_finite()
            && zero.lt(minutes) {
            Some(reference.minus(current).over(minutes))
        } else {
            None
        },
        _ => None,
    };
    let empty: Option<Double> = match rate {
        Some(rate) => if zero.lt(current) && zero.lt(rate) {
            Some(current.over(rate))
        } else {
            None
        },
        None => None,
    };
    (rate, empty)
}

impl TvlRuleState {
    pub fn copy(&self) -> (r: TvlRuleState)
        ensures
            r@ == self@,
    {
        let mut samples: Vec<TvlSamplePoint> = Vec::new();
        let mut i: usize = 0;
        while i < self.samples.len()
            invariant
                i <= self.samples.len(),
                samples@ == self.samples@.take(i as int),
            decreases self.samples.len() - i,
        {
            samples.push(self.samples[i]);
            assert(self.samples@.take(i + 1) =~= self.samples@.take(i as int).push(
                self.samples@[i as int],
            ));
            i = i + 1;
        }
        assert(self.samples@.take(i as int) =~= self.samples@);
        TvlRuleState {
            samples,
            last_severity: copy_option(&self.last_severity),
            last_drop_pct: self.last_drop_pct,
            active_since: self.active_since,
            last_breach_at: self.last_breach_at,
            last_transition_at: self.last_transition_at,
            last_context: copy_option(&self.last_context),
            last_pause_state: self.last_pause_state,
            protocol_chain_key: copy_option(&self.protocol_chain_key),
            tenant_has_deposit: self.tenant_has_deposit,
            position_data_stale: self.position_data_stale,
        }
    }

    /// Takes a sample of the value in and says what the samples show.
    pub fn take_sample(&mut self, rule: &TvlDropRule, tvl_usd: Double, now: Timestamp) -> (r:
        TvlEvaluation)
        ensures
            final(self)@ == sampled(rule@, old(self)@, tvl_usd, now),
            r@ == evaluation(rule@, sampled(rule@, old(self)@, tvl_usd, now), tvl_usd, now),
    {
        let mut samples: Vec<TvlSamplePoint> = Vec::new();
        std::mem::swap(&mut samples, &mut self.samples);
        samples.push(TvlSamplePoint { observed_at: now, tvl_usd });
        let ordered: Vec<TvlSamplePoint> = arrange(samples);
        let longest: i64 = greater_of(
            greater_of(rule.fast_window_minutes, rule.slow_window_minutes),
            greater_of(rule.velocity_critical_minutes, rule.concurrent_window_minutes),
        );
        self.samples = samples_since(ordered.as_slice(), start_of_window(now, longest));
        let fast: WindowAnalysis = analyze_window(
            self.samples.as_slice(),
            now,
            rule.fast_window_minutes,
        );
        let slow: WindowAnalysis = analyze_window(
            self.samples.as_slice(),
            now,
            rule.slow_window_minutes,
        );
        let steep: Double = max_one_minute_drop_pct(
            self.samples.as_slice(),
            now,
            rule.fast_window_minutes,
        );
        let reached: Option<Double> = fast.time_to_reach_current_drop_minutes;
        let (rate, empty): (Option<Double>, Option<Double>) = drains(&fast);
        let stale: bool = self.position_data_stale.unwrap_or(false);
        let deposit: bool = self.tenant_has_deposit.unwrap_or(true) || stale;
        let reference: Double = match fast.reference_tvl_usd {
            Some(x) => x,
            None => tvl_usd,
        };
        let found: Option<(Branch, Severity)> = if deposit && rule.min_tvl_floor_usd.le(reference) {
            find_breach(rule, fast.drop_pct, slow.drop_pct, reached)
        } else {
            None
        };
        TvlEvaluation {
            fast_drop_pct: fast.drop_pct,
            slow_drop_pct: slow.drop_pct,
            velocity_drop_pct: steep,
            selected_drop_pct: fast.drop_pct.max(slow.drop_pct),
            fast_window_reference_tvl_usd: fast.reference_tvl_usd,
            time_to_reach_current_drop_minutes: reached,
            drain_rate_usd_per_min: rate,
            estimated_time_to_empty_minutes: empty,
            velocity_pattern: classify_velocity_pattern(fast.drop_pct, steep, reached),
            base_severity: match found {
                Some(f) => Some(f.1),
                None => None,
            },
            breached_branch: match found {
                Some(f) => Some(f.0),
                None => None,
            },
            deposit_gate_skipped: !deposit,
            position_data_stale: stale,
        }
    }
}

// ---------------------------------------------------------------------------
// Incidents
// ---------------------------------------------------------------------------

/// A severity that is not below the one before.
pub open spec fn not_below(current: Severity, previous: Option<Severity>) -> Severity {
    match previous {
        Some(p) => if rank(Some(current)) < rank(previous) {
            p
        } else {
            current
        },
        None => current,
    }
}

pub fn clamp_severity(current: Severity, previous: Option<&Severity>) -> (r: Severity)
    ensures
        r == not_below(
            current,
            match previous {
                Some(p) => Some(*p),
                None => None,
            },
        ),
{
    match previous {
        Some(p) => if severity_rank(Some(&current)) < severity_rank(Some(p)) {
            *p
        } else {
            current
        },
        None => current,
    }
}

/// What is made of a sample: how severe it is, in what context, and the transition of the
/// incident that it brings about.
#[derive(Clone, Copy, Debug, PartialEq, Eq, Structural)]
pub struct Verdict {
    pub severity: Severity,
    pub classification: ContextClassification,
    pub transition: Option<IncidentTransition>,
}

/// What is made of a sample, given the state before it and whether other protocols fall too.
pub open spec fn verdict(s: StateView, e: EvaluationView, systemic: bool) -> Verdict {
    let previous = severity_named(s.last_severity);
    match e.base_severity {
        Some(base) => {
            let classification = if systemic {
                ContextClassification::Systemic
            } else {
                ContextClassification::Isolated
            };
            let severity = not_below(
                if systemic {
                    Severity::Critical
                } else {
                    base
                },
                previous,
            );
            let previous_drop = match s.last_drop_pct {
                Some(x) => x,
                None => double(0),
            };
            let previous_context = match s.last_context {
                Some(c) => c,
                None => "isolated"@,
            };
            Verdict {
                severity,
                classification,
                transition: if previous is None {
                    Some(IncidentTransition::Trigger)
                } else if rank(Some(severity)) > rank(previous) {
                    Some(IncidentTransition::Escalate)
                } else if sum(previous_drop, double(ONE_BITS)).at_most(e.selected_drop_pct)
                    || previous_context != classification_name(classification) {
                    Some(IncidentTransition::Update)
                } else {
                    None
                },
            }
        },
        None => Verdict {
            severity: Severity::Info,
            classification: ContextClassification::Unclassified,
            transition: None,
        },
    }
}

/// The state once something was made of a sample.
pub open spec fn settled(s: StateView, e: EvaluationView, v: Verdict, now: Timestamp) -> StateView {
    if e.base_severity is Some {
        StateView {
            active_since: either(s.active_since, Some(now)),
            last_breach_at: Some(now),
            last_severity: Some(severity_name(v.severity)),
            last_drop_pct: Some(e.selected_drop_pct),
            last_context: Some(classification_name(v.classification)),
            last_transition_at: if v.transition is Some {
                Some(now)
            } else {
                s.last_transition_at
            },
            ..s
        }
    } else {
        StateView { last_drop_pct: Some(e.selected_drop_pct), ..s }
    }
}

/// A state with what an event says of its protocol and of the tenant's deposits.
pub open spec fn with_position(s: StateView, protocol: Seq<char>, payload: JsonView) -> StateView {
    StateView {
        protocol_chain_key: Some(protocol),
        tenant_has_deposit: either(
            boolean_in(payload.get("tenant_has_deposit"@)),
            s.tenant_has_deposit,
        ),
        position_data_stale: either(
            boolean_in(payload.get("position_data_stale"@)),
            s.position_data_stale,
        ),
        ..s
    }
}

impl TvlRuleState {
    /// Notes what an event says of its protocol and of the tenant's deposits.
    pub fn note_position(&mut self, protocol_chain_key: &str, payload: &Json)
        ensures
            final(self)@ == with_position(old(self)@, protocol_chain_key@, payload@),
    {
        self.protocol_chain_key = Some(protocol_chain_key.to_owned());
        match member_bool(payload.get("tenant_has_deposit")) {
            Some(b) => {
                self.tenant_has_deposit = Some(b);
            },
            None => {},
        }
        match member_bool(payload.get("position_data_stale")) {
            Some(b) => {
                self.position_data_stale = Some(b);
            },
            None => {},
        }
    }

    /// What is made of a sample, given whether other protocols fall too.
    pub fn judge_sample(&self, evaluation: &TvlEvaluation, systemic: bool) -> (r: Verdict)
        ensures
            r == verdict(self@, evaluation@, systemic),
    {
        let base: Severity = match evaluation.base_severity {
            Some(base) => base,
            None => {
                return Verdict {
                    severity: Severity::Info,
                    classification: ContextClassification::Unclassified,
                    transition: None,
                };
            },
        };
        let previous: Option<Severity> = match &self.last_severity {
            Some(s) => severity_from_str(Some(s.as_str())),
            None => None,
        };
        let classification = if systemic {
            ContextClassification::Systemic
        } else {
            ContextClassification::Isolated
        };
        let unclamped: Severity = if systemic {
            Severity::Critical
        } else {
            base
        };
        let severity: Severity = clamp_severity(unclamped, previous.as_ref());
        if previous.is_none() {
            return Verdict {
                severity,
                classification,
                transition: Some(IncidentTransition::Trigger),
            };
        }
        if severity_rank(Some(&severity)) > severity_rank(previous.as_ref()) {
            return Verdict {
                severity,
                classification,
                transition: Some(IncidentTransition::Escalate),
            };
        }
        let previous_drop: Double = match self.last_drop_pct {
            Some(x) => x,
            None => Double { bits: 0 },
        };
        let name: &'static str = context_classification_str(&classification);
        let context_changed: bool = match &self.last_context {
            Some(c) => !same(c.as_str(), name),
            None => !same("isolated", name),
        };
        let grown: bool = previous_drop.plus(Double { bits: ONE_BITS }).le(
            evaluation.selected_drop_pct,
        );
        let transition: Option<IncidentTransition> = if grown || context_changed {
            Some(IncidentTransition::Update)
        } else {
            None
        };
        Verdict { severity, classification, transition }
    }

    /// Notes what was made of a sample.
    pub fn settle(&mut self, evaluation: &TvlEvaluation, verdict: &Verdict, now: Timestamp)
        ensures
            final(self)@ == settled(old(self)@, evaluation@, *verdict, now),
    {
        self.last_drop_pct = Some(evaluation.selected_drop_pct);
        if evaluation.base_severity.is_some() {
            if self.active_since.is_none() {
                self.active_since = Some(now);
            }
            self.last_breach_at = Some(now);
            self.last_severity = Some(severity_text(verdict.severity).to_owned());
            self.last_context = Some(
                context_classification_str(&verdict.classification).to_owned(),
            );
            if verdict.transition.is_some() {
                self.last_transition_at = Some(now);
            }
        }
    }
}

// ---------------------------------------------------------------------------
// Pauses
// ---------------------------------------------------------------------------

/// What is made of news that a protocol was paused or goes on: an incident that is active is
/// updated, a pause without one starts one, and nothing comes of the end of a pause.
pub open spec fn pause_verdict(s: StateView, paused: bool) -> Option<Verdict> {
    match severity_named(s.last_severity) {
        Some(severity) => Some(
            Verdict {
                severity,
                classification: if s.last_context == Some("systemic"@) {
                    ContextClassification::Systemic
                } else if s.last_context == Some("isolated"@) {
                    ContextClassification::Isolated
                } else {
                    ContextClassification::Unclassified
                },
                transition: Some(IncidentTransition::Update),
            },
        ),
        None => if paused {
            Some(
                Verdict {
                    severity: Severity::High,
                    classification: ContextClassification::Unclassified,
                    transition: Some(IncidentTransition::Trigger),
                },
            )
        } else {
            None
        },
    }
}

/// The state once news of a pause came.
pub open spec fn paused_state(s: StateView, protocol: Seq<char>, paused: bool, now: Timestamp) -> StateView {
    StateView {
        protocol_chain_key: Some(protocol),
        last_pause_state: Some(paused),
        last_transition_at: Some(now),
        ..s
    }
}

impl TvlRuleState {
    /// What is made of news that a protocol was paused or goes on.
    pub fn judge_pause(&self, paused: bool) -> (r: Option<Verdict>)
        ensures
            r == pause_verdict(self@, paused),
    {
        let previous: Option<Severity> = match &self.last_severity {
            Some(s) => severity_from_str(Some(s.as_str())),
            None => None,
        };
        match previous {
            Some(severity) => {
                let classification: ContextClassification = match &self.last_context {
                    Some(c) => if same(c.as_str(), "systemic") {
                        ContextClassification::Systemic
                    } else if same(c.as_str(), "isolated") {
                        ContextClassification::Isolated
                    } else {
                        ContextClassification::Unclassified
                    },
                    None => ContextClassification::Unclassified,
                };
                Some(
                    Verdict {
                        severity,
                        classification,
                        transition: Some(IncidentTransition::Update),
                    },
                )
            },
            None => if paused {
                Some(
                    Verdict {
                        severity: Severity::High,
                        classification: ContextClassification::Unclassified,
                        transition: Some(IncidentTransition::Trigger),
                    },
                )
            } else {
                None
            },
        }
    }

    /// Notes news of a pause.
    pub fn note_pause(&mut self, protocol_chain_key: &str, paused: bool, now: Timestamp)
        ensures
            final(self)@ == paused_state(old(self)@, protocol_chain_key@, paused, now),
    {
        self.protocol_chain_key = Some(protocol_chain_key.to_owned());
        self.last_pause_state = Some(paused);
        self.last_transition_at = Some(now);
    }
}

// ---------------------------------------------------------------------------
// Laws
// ---------------------------------------------------------------------------

/// The severity of a subject never goes down, whatever samples come.
pub proof fn law_severity_only_goes_up(
    s: StateView,
    e: EvaluationView,
    systemic: bool,
    now: Timestamp,
)
    ensures
        rank(severity_named(settled(s, e, verdict(s, e, systemic), now).last_severity)) >= rank(
            severity_named(s.last_severity),
        ),
{
    crate::event::law_severity_name_round_trips(verdict(s, e, systemic).severity);
}

/// What a sample shows is high or critical, or nothing, and critical where the limit on
/// velocity is passed.
pub proof fn law_falls_are_high_or_critical(r: RuleView, s: StateView, tvl: Double, now: Timestamp)
    ensures
        ({
            let e = evaluation(r, s, tvl, now);
            &&& e.base_severity is Some ==> e.base_severity == Some(Severity::High)
                || e.base_severity == Some(Severity::Critical)
            &&& e.base_severity is Some <==> e.breached_branch is Some
            &&& e.breached_branch == Some(Branch::Velocity) ==> e.base_severity == Some(
                Severity::Critical,
            )
            &&& e.breached_branch == Some(Branch::Slow) ==> e.base_severity == Some(Severity::High)
        }),
{
}

/// No sample resolves an incident: it triggers, escalates or updates one, or does nothing.
pub proof fn law_samples_do_not_resolve(s: StateView, e: EvaluationView, systemic: bool)
    ensures
        ({
            let t = verdict(s, e, systemic).transition;
            ||| t is None
            ||| t == Some(IncidentTransition::Trigger)
            ||| t == Some(IncidentTransition::Escalate)
            ||| t == Some(IncidentTransition::Update)
        }),
{
}

/// An incident starts exactly when a limit is passed and none is active; one that is active
/// stays so when the value recovers.
pub proof fn law_incident_starts_once(
    s: StateView,
    e: EvaluationView,
    systemic: bool,
    now: Timestamp,
)
    ensures
        verdict(s, e, systemic).transition == Some(IncidentTransition::Trigger) <==> (
        e.base_severity is Some && severity_named(s.last_severity) is None),
        e.base_severity is None ==> settled(s, e, verdict(s, e, systemic), now).last_severity
            == s.last_severity,
        e.base_severity is Some ==> severity_named(
            settled(s, e, verdict(s, e, systemic), now).last_severity,
        ) is Some,
{
    crate::event::law_severity_name_round_trips(verdict(s, e, systemic).severity);
}

/// Where other protocols fall too, what passes a limit is critical.
pub proof fn law_systemic_falls_are_critical(s: StateView, e: EvaluationView)
    requires
        e.base_severity is Some,
    ensures
        verdict(s, e, true).severity == Severity::Critical,
        verdict(s, e, true).classification == ContextClassification::Systemic,
{
}

/// Nothing comes of a fall where the tenant is known to have no deposit, or where the value
/// was below the rule's floor to begin with.
pub proof fn law_gates_keep_falls_back(r: RuleView, s: StateView, tvl: Double, now: Timestamp)
    requires
        ({
            ||| s.tenant_has_deposit == Some(false) && s.position_data_stale != Some(true)
            ||| ({
                let reference = match analysis(
                    s.samples,
                    now,
                    r.fast_window_minutes,
                ).reference_tvl_usd {
                    Some(x) => x,
                    None => tvl,
                };
                !r.min_tvl_floor_usd.at_most(reference)
            })
        }),
    ensures
        evaluation(r, s, tvl, now).base_severity is None,
        evaluation(r, s, tvl, now).breached_branch is None,
{
}

/// Where it is not known for certain that the tenant has no deposit, falls are judged as if
/// it had one.
pub proof fn law_doubtful_deposits_hold_nothing_back(
    r: RuleView,
    s: StateView,
    tvl: Double,
    now: Timestamp,
)
    requires
        s.tenant_has_deposit != Some(false) || s.position_data_stale == Some(true),
    ensures
        !evaluation(r, s, tvl, now).deposit_gate_skipped,
        evaluation(r, s, tvl, now).base_severity == evaluation(
            r,
            (StateView { tenant_has_deposit: Some(true), ..s }),
            tvl,
            now,
        ).base_severity,
{
}

/// The samples of a state are in the order of time and reach back no further than the
/// longest window of the rule.
pub proof fn law_samples_are_recent_and_in_order(
    r: RuleView,
    s: StateView,
    tvl: Double,
    now: Timestamp,
)
    ensures
        ({
            let v = sampled(r, s, tvl, now).samples;
            &&& forall|i: int|
                0 <= i < v.len() ==> !(#[trigger] v[i]).observed_at.before(
                    window_start(now, longest_window(r)),
                )
            &&& forall|i: int, j: int|
                0 <= i < j < v.len() ==> !(#[trigger] v[j]).observed_at.before(
                    (#[trigger] v[i]).observed_at,
                )
        }),
{
    let grown = s.samples.push(TvlSamplePoint { observed_at: now, tvl_usd: tvl });
    let ordered = arranged(grown);
    let cutoff = window_start(now, longest_window(r));
    let recent = |p: TvlSamplePoint| !p.observed_at.before(cutoff);
    crate::order::lemma_arranged(grown, |p: TvlSamplePoint| true);
    let v = since(ordered, cutoff);
    assert forall|i: int| 0 <= i < v.len() implies !(#[trigger] v[i]).observed_at.before(
        cutoff,
    ) by {
        ordered.lemma_filter_pred(recent, i);
    }
    assert forall|i: int, j: int| 0 <= i < j < ordered.len() implies !(
    #[trigger] ordered[j]).observed_at.before((#[trigger] ordered[i]).observed_at) by {
        assert(!ordered[j].outranks(&ordered[i]));
    }
    lemma_filter_keeps_order(ordered, recent);
}

/// With the gates open something comes of a fall exactly where a limit is reached: the fast or
/// the slow one, or that on velocity in time. It is critical exactly where the fall over the
/// fast window was fast.
pub proof fn law_limits_are_passed_when_reached(r: RuleView, s: StateView, tvl: Double, now: Timestamp)
    requires
        s.tenant_has_deposit != Some(false) || s.position_data_stale == Some(true),
        r.min_tvl_floor_usd.at_most(
            match analysis(s.samples, now, r.fast_window_minutes).reference_tvl_usd {
                Some(x) => x,
                None => tvl,
            },
        ),
    ensures
        ({
            let e = evaluation(r, s, tvl, now);
            let minutes = e.time_to_reach_current_drop_minutes;
            let quick = r.velocity_critical_pct.at_most(e.fast_drop_pct) && minutes is Some
                && minutes->0.below(of_int(r.velocity_critical_minutes as int));
            let sudden = minutes is Some && minutes->0.below(double(FAST_CRITICAL_WINDOW_BITS));
            &&& e.base_severity is Some <==> quick || r.fast_drop_pct.at_most(e.fast_drop_pct)
                || r.slow_drop_pct.at_most(e.slow_drop_pct)
            &&& e.base_severity == Some(Severity::Critical) <==> quick || (sudden
                && r.fast_drop_pct.at_most(e.fast_drop_pct))
            &&& e.breached_branch == Some(Branch::Velocity) <==> quick
            &&& e.breached_branch == Some(Branch::Fast) <==> !quick && r.fast_drop_pct.at_most(
                e.fast_drop_pct,
            )
        }),
{
}

/// Lower limits are no harder to pass, and passing one of them is no less severe.
pub proof fn law_stricter_rules_see_as_much(
    a: RuleView,
    b: RuleView,
    s: StateView,
    tvl: Double,
    now: Timestamp,
)
    requires
        b.velocity_critical_pct.at_most(a.velocity_critical_pct),
        b.fast_drop_pct.at_most(a.fast_drop_pct),
        b.slow_drop_pct.at_most(a.slow_drop_pct),
        b.min_tvl_floor_usd.at_most(a.min_tvl_floor_usd),
        a.velocity_critical_minutes == b.velocity_critical_minutes,
        a.fast_window_minutes == b.fast_window_minutes,
        a.slow_window_minutes == b.slow_window_minutes,
    ensures
        rank(evaluation(a, s, tvl, now).base_severity) <= rank(
            evaluation(b, s, tvl, now).base_severity,
        ),
{
}

/// An evaluation tells what the two windows show, and its fall is the larger of the two.
pub proof fn law_evaluations_tell_both_windows(
    r: RuleView,
    s: StateView,
    tvl: Double,
    now: Timestamp,
)
    ensures
        ({
            let e = evaluation(r, s, tvl, now);
            let fast = analysis(s.samples, now, r.fast_window_minutes);
            let slow = analysis(s.samples, now, r.slow_window_minutes);
            &&& e.fast_drop_pct == fast.drop_pct
            &&& e.slow_drop_pct == slow.drop_pct
            &&& e.fast_window_reference_tvl_usd == fast.reference_tvl_usd
            &&& e.time_to_reach_current_drop_minutes == fast.time_to_reach_current_drop_minutes
            &&& e.velocity_drop_pct == steepest_in(s.samples, now, r.fast_window_minutes)
            &&& e.velocity_pattern == velocity(
                fast.drop_pct,
                e.velocity_drop_pct,
                fast.time_to_reach_current_drop_minutes,
            )
            &&& !fast.drop_pct.nan() && !slow.drop_pct.nan() ==> fast.drop_pct.at_most(
                e.selected_drop_pct,
            ) && slow.drop_pct.at_most(e.selected_drop_pct)
            &&& e.selected_drop_pct == fast.drop_pct || e.selected_drop_pct == slow.drop_pct
            &&& e.deposit_gate_skipped <==> s.tenant_has_deposit == Some(false)
                && s.position_data_stale != Some(true)
            &&& e.position_data_stale <==> s.position_data_stale == Some(true)
        }),
{
}

/// A value drains by what it lost over the minutes that took, where it lost something in a
/// time that could be measured, and at that rate what is left takes the time that is told.
pub proof fn law_drains_are_losses_over_time(w: WindowAnalysis, from: Double, to: Double, minutes: Double)
    requires
        w.reference_tvl_usd == Some(from),
        w.current_tvl_usd == Some(to),
        from.finite(),
        to.finite(),
    ensures
        w.time_to_reach_current_drop_minutes is None ==> drain_rate(w) is None && time_to_empty(
            w,
        ) is None,
        from.value() <= to.value() ==> drain_rate(w) is None && time_to_empty(w) is None,
        to.value() < from.value() && minutes.positive()
            && w.time_to_reach_current_drop_minutes == Some(minutes) ==> drain_rate(w) == Some(
            quotient(difference(from, to), minutes),
        ),
        drain_rate(w) is Some && 0 < to.value() && drain_rate(w)->0.positive() ==> time_to_empty(w)
            == Some(quotient(to, drain_rate(w)->0)),
        to.value() <= 0 ==> time_to_empty(w) is None,
{
    crate::double::law_order_is_by_value(to, from);
    crate::double::law_order_is_by_value(double(0), to);
    crate::aggregation::lemma_zero_value();
}

/// An active incident escalates exactly where the severity goes up, and is otherwise updated
/// exactly where the fall grew by a point or more or where its context changed.
pub proof fn law_incidents_are_updated_as_falls_grow(
    s: StateView,
    e: EvaluationView,
    systemic: bool,
    before: Severity,
    drop: Double,
    context: ContextClassification,
)
    requires
        e.base_severity is Some,
        s.last_severity == Some(severity_name(before)),
        s.last_drop_pct == Some(drop),
        s.last_context == Some(classification_name(context)),
        context == ContextClassification::Systemic || context == ContextClassification::Isolated,
    ensures
        ({
            let v = verdict(s, e, systemic);
            let worse = rank(Some(v.severity)) > rank(Some(before));
            let changed = systemic != (context == ContextClassification::Systemic);
            &&& rank(Some(v.severity)) >= rank(Some(before))
            &&& v.transition == Some(IncidentTransition::Escalate) <==> worse
            &&& v.transition == Some(IncidentTransition::Update) <==> !worse && (changed || sum(
                drop,
                double(ONE_BITS),
            ).at_most(e.selected_drop_pct))
            &&& v.classification == ContextClassification::Systemic <==> systemic
            &&& v.classification == ContextClassification::Isolated <==> !systemic
        }),
{
    crate::event::law_severity_name_round_trips(before);
    reveal_strlit("systemic");
    reveal_strlit("isolated");
    assert("systemic"@[0] != "isolated"@[0]);
}

/// A fall of one protocol alone is as severe as the limit that it passed, unless the incident
/// was worse already.
pub proof fn law_isolated_falls_keep_their_severity(s: StateView, e: EvaluationView, base: Severity)
    requires
        e.base_severity == Some(base),
    ensures
        rank(severity_named(s.last_severity)) <= rank(Some(base)) ==> verdict(s, e, false).severity
            == base,
        rank(severity_named(s.last_severity)) > rank(Some(base)) ==> Some(
            verdict(s, e, false).severity,
        ) == severity_named(s.last_severity),
{
}

/// A subject remembers when it began to fall, when it last passed a limit, how severe that was
/// and in what context, and when the incident last changed; what passes no limit leaves all but
/// the size of the fall as it was.
pub proof fn law_falls_are_remembered(s: StateView, e: EvaluationView, systemic: bool, now: Timestamp)
    ensures
        ({
            let v = verdict(s, e, systemic);
            let t = settled(s, e, v, now);
            &&& t.last_drop_pct == Some(e.selected_drop_pct)
            &&& e.base_severity is None ==> t.last_breach_at == s.last_breach_at && t.active_since
                == s.active_since && t.last_context == s.last_context && t.last_transition_at
                == s.last_transition_at
            &&& e.base_severity is Some ==> t.last_breach_at == Some(now)
                && t.last_severity == Some(severity_name(v.severity))
                && t.last_context == Some(classification_name(v.classification))
            &&& e.base_severity is Some && s.active_since is Some ==> t.active_since
                == s.active_since
            &&& e.base_severity is Some && s.active_since is None ==> t.active_since == Some(now)
            &&& v.transition is Some ==> t.last_transition_at == Some(now)
            &&& v.transition is None ==> t.last_transition_at == s.last_transition_at
            &&& t.samples == s.samples
            &&& t.last_pause_state == s.last_pause_state
            &&& t.protocol_chain_key == s.protocol_chain_key
            &&& t.tenant_has_deposit == s.tenant_has_deposit
            &&& t.position_data_stale == s.position_data_stale
        }),
{
}

/// What an event says of the tenant's deposits replaces what was known; where it says nothing,
/// that stays.
pub proof fn law_news_of_deposits_replace_what_was_known(
    s: StateView,
    protocol: Seq<char>,
    payload: JsonView,
    said: bool,
)
    ensures
        ({
            let t = with_position(s, protocol, payload);
            let has = payload.get("tenant_has_deposit"@);
            let stale = payload.get("position_data_stale"@);
            &&& t.protocol_chain_key == Some(protocol)
            &&& has == Some(JsonView::Bool(said)) ==> t.tenant_has_deposit == Some(said)
            &&& stale == Some(JsonView::Bool(said)) ==> t.position_data_stale == Some(said)
            &&& has is None ==> t.tenant_has_deposit == s.tenant_has_deposit
            &&& stale is None ==> t.position_data_stale == s.position_data_stale
            &&& t.samples == s.samples
            &&& t.last_severity == s.last_severity
            &&& t.last_breach_at == s.last_breach_at
        }),
{
}

/// News of a pause updates an active incident as severe as it is, a pause without one starts
/// one, and nothing else comes of such news; the subject remembers it.
pub proof fn law_pauses_update_or_start_incidents(
    s: StateView,
    severity: Severity,
    context: ContextClassification,
    protocol: Seq<char>,
    paused: bool,
    now: Timestamp,
)
    ensures
        s.last_severity == Some(severity_name(severity)) ==> pause_verdict(s, paused) == Some(
            Verdict {
                severity,
                classification: pause_verdict(s, paused)->0.classification,
                transition: Some(IncidentTransition::Update),
            },
        ),
        s.last_severity == Some(severity_name(severity)) && s.last_context == Some(
            classification_name(context),
        ) ==> pause_verdict(s, paused)->0.classification == context,
        s.last_severity is None && paused ==> pause_verdict(s, paused) == Some(
            Verdict {
                severity: Severity::High,
                classification: ContextClassification::Unclassified,
                transition: Some(IncidentTransition::Trigger),
            },
        ),
        s.last_severity is None && !paused ==> pause_verdict(s, paused) is None,
        paused_state(s, protocol, paused, now).last_pause_state == Some(paused),
        paused_state(s, protocol, paused, now).last_transition_at == Some(now),
        paused_state(s, protocol, paused, now).protocol_chain_key == Some(protocol),
        paused_state(s, protocol, paused, now).last_severity == s.last_severity,
        paused_state(s, protocol, paused, now).samples == s.samples,
        paused_state(s, protocol, paused, now).last_breach_at == s.last_breach_at,
{
    crate::event::law_severity_name_round_trips(severity);
    reveal_strlit("systemic");
    reveal_strlit("isolated");
    reveal_strlit("none");
    assert("systemic"@[0] != "isolated"@[0]);
    assert("systemic"@[0] != "none"@[0]);
    assert("isolated"@[0] != "none"@[0]);
}

/// The last activity of a subject is the latest of all that is known of it.
pub proof fn law_last_activity_is_the_latest(s: StateView, t: Timestamp)
    requires
        ({
            ||| s.samples.len() > 0 && s.samples.last().observed_at == t
            ||| s.last_transition_at == Some(t)
            ||| s.last_breach_at == Some(t)
            ||| s.active_since == Some(t)
        }),
    ensures
        last_activity(s) is Some,
        t.nanos <= last_activity(s)->0.nanos,
        ({
            let last = last_activity(s)->0;
            ||| s.samples.len() > 0 && s.samples.last().observed_at == last
            ||| s.last_transition_at == Some(last)
            ||| s.last_breach_at == Some(last)
            ||| s.active_since == Some(last)
        }),
{
}

/// A new sample is kept, and so is every sample that lies within the longest window of the
/// rule; no other sample is.
pub proof fn law_samples_are_kept_as_long_as_a_rule_looks(
    r: RuleView,
    s: StateView,
    tvl: Double,
    now: Timestamp,
    p: TvlSamplePoint,
)
    ensures
        sampled(r, s, tvl, now).samples.contains(p) <==> (s.samples.contains(p) || p == (
        TvlSamplePoint { observed_at: now, tvl_usd: tvl })) && !p.observed_at.before(
            window_start(now, longest_window(r)),
        ),
        longest_window(r) >= r.fast_window_minutes,
        longest_window(r) >= r.slow_window_minutes,
        longest_window(r) >= r.velocity_critical_minutes,
        longest_window(r) >= r.concurrent_window_minutes,
        ({
            ||| longest_window(r) == r.fast_window_minutes
            ||| longest_window(r) == r.slow_window_minutes
            ||| longest_window(r) == r.velocity_critical_minutes
            ||| longest_window(r) == r.concurrent_window_minutes
        }),
{
    let fresh = TvlSamplePoint { observed_at: now, tvl_usd: tvl };
    let grown = s.samples.push(fresh);
    let ordered = arranged(grown);
    let cutoff = window_start(now, longest_window(r));
    let recent = |q: TvlSamplePoint| !q.observed_at.before(cutoff);
    crate::order::lemma_arranged_items(grown);
    let v = since(ordered, cutoff);
    assert(v == ordered.filter(recent));
    assert(grown.contains(p) <==> s.samples.contains(p) || p == fresh) by {
        if s.samples.contains(p) {
            let k = choose|k: int| 0 <= k < s.samples.len() && s.samples[k] == p;
            assert(grown[k] == p);
        }
        assert(grown[s.samples.len() as int] == fresh);
    }
    if v.contains(p) {
        let i = choose|i: int| 0 <= i < v.len() && v[i] == p;
        ordered.lemma_filter_pred(recent, i);
        ordered.lemma_filter_contains_rev(recent, p);
    }
    if ordered.contains(p) && recent(p) {
        let k = choose|k: int| 0 <= k < ordered.len() && ordered[k] == p;
        ordered.lemma_filter_contains(recent, k);
    }
}

proof fn lemma_filter_keeps_order(s: Seq<TvlSamplePoint>, keep: spec_fn(TvlSamplePoint) -> bool)
    requires
        forall|i: int, j: int|
            0 <= i < j < s.len() ==> !(#[trigger] s[j]).observed_at.before(
                (#[trigger] s[i]).observed_at,
            ),
    ensures
        forall|i: int, j: int|
            0 <= i < j < s.filter(keep).len() ==> !(#[trigger] s.filter(
                keep,
            )[j]).observed_at.before((#[trigger] s.filter(keep)[i]).observed_at),
    decreases s.len(),
{
    reveal(Seq::filter);
    if s.len() > 0 {
        let t = s.drop_last();
        assert forall|i: int, j: int| 0 <= i < j < t.len() implies !(
        #[trigger] t[j]).observed_at.before((#[trigger] t[i]).observed_at) by {
            assert(!s[j].observed_at.before(s[i].observed_at));
        }
        lemma_filter_keeps_order(t, keep);
        let f = t.filter(keep);
        assert forall|i: int| 0 <= i < f.len() implies !s.last().observed_at.before(
            (#[trigger] f[i]).observed_at,
        ) by {
            assert(f.contains(f[i]));
            t.lemma_filter_contains_rev(keep, f[i]);
            let k = choose|k: int| 0 <= k < t.len() && t[k] == f[i];
            assert(!s[s.len() - 1].observed_at.before(s[k].observed_at));
        }
    }
}

/// A fall past the fast limit is critical where it took less than five minutes.
pub proof fn law_sudden_falls_are_critical(r: RuleView, fast: Double, slow: Double, minutes: Double)
    requires
        r.fast_drop_pct.at_most(fast),
    ensures
        minutes.below(double(0x4014_0000_0000_0000)) ==> breach(r, fast, slow, Some(minutes))
            is Some && (breach(r, fast, slow, Some(minutes))->0).1 == Severity::Critical,
        !r.velocity_critical_pct.at_most(fast) && double(0x4014_0000_0000_0000).at_most(minutes)
            ==> breach(r, fast, slow, Some(minutes)) == Some((Branch::Fast, Severity::High)),
        !r.velocity_critical_pct.at_most(fast) ==> breach(r, fast, slow, None) == Some(
            (Branch::Fast, Severity::High),
        ),
{
}

} // verus!
