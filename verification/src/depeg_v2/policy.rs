//! What a tenant asks of the depeg detection of a market.

use std::sync::Arc;

use vstd::prelude::*;

use crate::aggregation::double;
use crate::aggregation::MedianStrategy;
use crate::aggregation::ONE_BITS;
use crate::double::larger;
use crate::double::sum;
use crate::double::Double;
use crate::event::ContextClassification;
use crate::expression::compile;
use crate::expression::compile_failure;
use crate::expression::source_of;
use crate::incident::severity_by_bands;
use crate::incident::severity_in_bands;
use crate::incident::ConfidenceRules;
use crate::incident::Limits;
use crate::json::member;
use crate::json::member_of;
use crate::json::members_view;
use crate::json::put_member;
use crate::json::with_member;
use crate::json::Json;
use crate::json::JsonView;
use crate::quotes::HUNDRED_BITS;
use crate::text::alike;
use crate::text::lowercase;
use crate::text::lowered;
use crate::text::same;
use crate::text::same_ignoring_case;
use crate::text::trim;
use crate::text::trimmed;

verus! {

/// The deviations, in percent, from which on a depeg has a severity.
#[derive(Clone, Copy, Debug, PartialEq, Eq, Structural)]
pub struct DepegSeverityBands {
    pub medium: Double,
    pub high: Double,
    pub critical: Double,
}

/// The bits of 3.0, 5.0, 0.01, 0.25, 60.0, 25.0 and 15.0.
pub const THREE_BITS: u64 = 0x4008_0000_0000_0000;

pub const FIVE_BITS: u64 = 0x4014_0000_0000_0000;

pub const HUNDREDTH_BITS: u64 = 0x3f84_7ae1_47ae_147b;

pub const QUARTER_BITS: u64 = 0x3fd0_0000_0000_0000;

pub const SIXTY_BITS: u64 = 0x404e_0000_0000_0000;

pub const TWENTY_FIVE_BITS: u64 = 0x4039_0000_0000_0000;

pub const FIFTEEN_BITS: u64 = 0x402e_0000_0000_0000;

pub const HALF_BITS: u64 = 0x3fe0_0000_0000_0000;

impl Default for DepegSeverityBands {
    fn default() -> (r: Self)
        ensures
            r.medium.bits == ONE_BITS,
            r.high.bits == THREE_BITS,
            r.critical.bits == FIVE_BITS,
    {
        DepegSeverityBands {
            medium: Double { bits: ONE_BITS },
            high: Double { bits: THREE_BITS },
            critical: Double { bits: FIVE_BITS },
        }
    }
}

/// Which sources count.
#[derive(Clone, Debug)]
pub struct DepegSourceFilter {
    pub cex_whitelist: Vec<String>,
    pub include_oracles: bool,
    pub include_aggregators: bool,
    pub min_healthy_sources: usize,
}

pub fn default_true() -> (r: bool)
    ensures
        r,
{
    true
}

pub fn default_min_healthy() -> (r: usize)
    ensures
        r == 3,
{
    3
}

impl Default for DepegSourceFilter {
    fn default() -> (r: Self)
        ensures
            r.cex_whitelist@.len() == 0,
            r.include_oracles,
            !r.include_aggregators,
            r.min_healthy_sources == 3,
    {
        DepegSourceFilter {
            cex_whitelist: Vec::new(),
            include_oracles: true,
            include_aggregators: false,
            min_healthy_sources: 3,
        }
    }
}

/// Whether a text is in a list, whatever the case of its letters.
pub open spec fn listed_alike(v: Seq<String>, s: Seq<char>) -> bool {
    exists|i: int| 0 <= i < v.len() && alike(#[trigger] v[i]@, s)
}

pub fn contains_alike(v: &Vec<String>, s: &str) -> (r: bool)
    ensures
        r == listed_alike(v@, s@),
{
    let mut i: usize = 0;
    while i < v.len()
        invariant
            i <= v.len(),
            forall|k: int| 0 <= k < i ==> !alike(#[trigger] v@[k]@, s@),
        decreases v.len() - i,
    {
        if same_ignoring_case(v[i].as_str(), s) {
            assert(alike(v@[i as int]@, s@));
            return true;
        }
        i = i + 1;
    }
    false
}

/// Whether a source of a kind counts: an oracle or an aggregator where they are wanted, an
/// exchange that is on the list or any where there is no list, and nothing else. Prices of
/// pools never do.
pub open spec fn kind_allowed(f: DepegSourceFilter, source: Seq<char>, kind: Seq<char>) -> bool {
    let k = lowered(kind);
    if k == "oracle"@ {
        f.include_oracles
    } else if k == "aggregator"@ {
        f.include_aggregators
    } else if k == "dex"@ {
        false
    } else if k == "cex"@ {
        f.cex_whitelist@.len() == 0 || listed_alike(f.cex_whitelist@, source)
    } else {
        false
    }
}

impl DepegSourceFilter {
    pub fn source_kind_allowed(&self, source_id: &str, source_kind: &str) -> (r: bool)
        ensures
            r == kind_allowed(*self, source_id@, source_kind@),
    {
        let kind: String = lowercase(source_kind);
        if same(kind.as_str(), "oracle") {
            self.include_oracles
        } else if same(kind.as_str(), "aggregator") {
            self.include_aggregators
        } else if same(kind.as_str(), "dex") {
            false
        } else if same(kind.as_str(), "cex") {
            self.cex_whitelist.len() == 0 || contains_alike(&self.cex_whitelist, source_id)
        } else {
            false
        }
    }
}

/// Which conditions a breach has to meet.
#[derive(Clone, Copy, Debug, PartialEq, Eq, Structural)]
pub struct DepegToggles {
    pub oracle_confirmation: bool,
    pub volume_confirmation: bool,
    pub contagion_detection: bool,
}

impl Default for DepegToggles {
    fn default() -> (r: Self)
        ensures
            r.oracle_confirmation,
            !r.volume_confirmation,
            r.contagion_detection,
    {
        DepegToggles {
            oracle_confirmation: true,
            volume_confirmation: false,
            contagion_detection: true,
        }
    }
}

/// What the parts of the confidence count with.
#[derive(Clone, Copy, Debug, PartialEq, Eq, Structural)]
pub struct DepegConfidenceWeights {
    pub source_agreement: Double,
    pub oracle_confirmation: Double,
    pub volume_confirmation: Double,
}

impl Default for DepegConfidenceWeights {
    fn default() -> (r: Self)
        ensures
            r.source_agreement.bits == SIXTY_BITS,
            r.oracle_confirmation.bits == TWENTY_FIVE_BITS,
            r.volume_confirmation.bits == FIFTEEN_BITS,
    {
        DepegConfidenceWeights {
            source_agreement: Double { bits: SIXTY_BITS },
            oracle_confirmation: Double { bits: TWENTY_FIVE_BITS },
            volume_confirmation: Double { bits: FIFTEEN_BITS },
        }
    }
}

/// What a tenant says of one source.
#[derive(Clone, Debug)]
pub struct DepegSourceOverride {
    pub source_id: String,
    pub weight: Double,
    pub enabled: bool,
    pub stale_timeout_ms: Option<i64>,
}

/// What a tenant asks of the depeg detection of a market. The compiled expressions are made
/// of the texts when the policy is accepted.
#[derive(Clone, Debug)]
pub struct DepegPolicy {
    pub tenant_id: String,
    pub market_key: String,
    pub peg_target: Double,
    pub min_sources: usize,
    pub quorum_pct: Double,
    pub cooldown_sec: i64,
    pub stale_timeout_ms: i64,
    pub severity_bands: DepegSeverityBands,
    pub severity_bands_isolated: Option<DepegSeverityBands>,
    pub severity_bands_systemic: Option<DepegSeverityBands>,
    pub isolated_floor_pct: Double,
    pub systemic_floor_pct: Double,
    pub deescalation_blocks: i64,
    pub resolution_blocks: i64,
    pub source_filter: DepegSourceFilter,
    pub toggles: DepegToggles,
    pub confidence_weights: DepegConfidenceWeights,
    pub min_confidence_to_fire: Double,
    /// Overrides by source, at most one for each.
    pub source_overrides: Vec<(String, DepegSourceOverride)>,
    pub aggregation: Option<MedianStrategy>,
    /// Replaces the decision whether a breach is active; has to give a truth value.
    pub decision_expression: Option<String>,
    pub compiled_decision: Option<Arc<cel::Program>>,
    /// Replaces the choice of the severity; has to give the name of one.
    pub severity_expression: Option<String>,
    pub compiled_severity: Option<Arc<cel::Program>>,
    /// Replaces the confirmation by oracles; has to give a truth value.
    pub oracle_expression: Option<String>,
    pub compiled_oracle: Option<Arc<cel::Program>>,
    /// Replaces the total confidence; has to give a number, which is brought into 0 to 100.
    pub confidence_expression: Option<String>,
    pub compiled_confidence: Option<Arc<cel::Program>>,
    /// Replaces the classification of the context; has to give `isolated` or `systemic`.
    pub contagion_expression: Option<String>,
    pub compiled_contagion: Option<Arc<cel::Program>>,
}

pub fn default_isolated_floor_pct() -> (r: Double)
    ensures
        r.bits == HALF_BITS,
{
    Double { bits: HALF_BITS }
}

pub fn default_systemic_floor_pct() -> (r: Double)
    ensures
        r.bits == HUNDREDTH_BITS,
{
    Double { bits: HUNDREDTH_BITS }
}

pub fn default_deescalation_blocks() -> (r: i64)
    ensures
        r == 5,
{
    5
}

pub fn default_resolution_blocks() -> (r: i64)
    ensures
        r == 30,
{
    30
}

pub fn default_min_confidence_to_fire() -> (r: Double)
    ensures
        r.bits == 0,
{
    Double { bits: 0 }
}

/// What is wrong with a policy.
#[derive(Clone, Copy, Debug, PartialEq, Eq, Structural)]
pub enum PolicyError {
    PegTarget,
    MinSources,
    QuorumPct,
    CooldownSec,
    StaleTimeoutMs,
    IsolatedFloorPct,
    SystemicFloorPct,
    DeescalationBlocks,
    ResolutionBlocks,
    MinConfidenceToFire,
    NegativeConfidenceWeight,
    NoConfidenceWeight,
}

/// What is said of a flaw of a policy.
pub open spec fn flaw_text(e: PolicyError) -> Seq<char> {
    match e {
        PolicyError::PegTarget => "peg_target must be > 0"@,
        PolicyError::MinSources => "min_sources must be > 0"@,
        PolicyError::QuorumPct => "quorum_pct must be between 0 and 1"@,
        PolicyError::CooldownSec => "cooldown_sec must be >= 0"@,
        PolicyError::StaleTimeoutMs => "stale_timeout_ms must be > 0"@,
        PolicyError::IsolatedFloorPct => "isolated_floor_pct must be > 0"@,
        PolicyError::SystemicFloorPct => "systemic_floor_pct must be > 0"@,
        PolicyError::DeescalationBlocks => "deescalation_blocks must be > 0"@,
        PolicyError::ResolutionBlocks => "resolution_blocks must be > 0"@,
        PolicyError::MinConfidenceToFire => "min_confidence_to_fire must be between 0 and 100"@,
        PolicyError::NegativeConfidenceWeight => "confidence_weights must be non-negative"@,
        PolicyError::NoConfidenceWeight => "confidence_weights total must be > 0"@,
    }
}

impl PolicyError {
    pub fn message(&self) -> (r: &'static str)
        ensures
            r@ == flaw_text(*self),
    {
        match self {
            PolicyError::PegTarget => "peg_target must be > 0",
            PolicyError::MinSources => "min_sources must be > 0",
            PolicyError::QuorumPct => "quorum_pct must be between 0 and 1",
            PolicyError::CooldownSec => "cooldown_sec must be >= 0",
            PolicyError::StaleTimeoutMs => "stale_timeout_ms must be > 0",
            PolicyError::IsolatedFloorPct => "isolated_floor_pct must be > 0",
            PolicyError::SystemicFloorPct => "systemic_floor_pct must be > 0",
            PolicyError::DeescalationBlocks => "deescalation_blocks must be > 0",
            PolicyError::ResolutionBlocks => "resolution_blocks must be > 0",
            PolicyError::MinConfidenceToFire => "min_confidence_to_fire must be between 0 and 100",
            PolicyError::NegativeConfidenceWeight => "confidence_weights must be non-negative",
            PolicyError::NoConfidenceWeight => "confidence_weights total must be > 0",
        }
    }
}

/// The first thing that is wrong with a policy.
pub open spec fn flaw(p: DepegPolicy) -> Option<PolicyError> {
    let zero = double(0);
    let w = p.confidence_weights;
    if p.peg_target.at_most(zero) {
        Some(PolicyError::PegTarget)
    } else if p.min_sources == 0 {
        Some(PolicyError::MinSources)
    } else if !(zero.at_most(p.quorum_pct) && p.quorum_pct.at_most(double(ONE_BITS))) {
        Some(PolicyError::QuorumPct)
    } else if p.cooldown_sec < 0 {
        Some(PolicyError::CooldownSec)
    } else if p.stale_timeout_ms <= 0 {
        Some(PolicyError::StaleTimeoutMs)
    } else if p.isolated_floor_pct.at_most(zero) {
        Some(PolicyError::IsolatedFloorPct)
    } else if p.systemic_floor_pct.at_most(zero) {
        Some(PolicyError::SystemicFloorPct)
    } else if p.deescalation_blocks <= 0 {
        Some(PolicyError::DeescalationBlocks)
    } else if p.resolution_blocks <= 0 {
        Some(PolicyError::ResolutionBlocks)
    } else if !(zero.at_most(p.min_confidence_to_fire) && p.min_confidence_to_fire.at_most(
        double(HUNDRED_BITS),
    )) {
        Some(PolicyError::MinConfidenceToFire)
    } else if w.source_agreement.below(zero) || w.oracle_confirmation.below(zero)
        || w.volume_confirmation.below(zero) {
        Some(PolicyError::NegativeConfidenceWeight)
    } else if sum(sum(w.source_agreement, w.oracle_confirmation), w.volume_confirmation).at_most(
        zero,
    ) {
        Some(PolicyError::NoConfidenceWeight)
    } else {
        None
    }
}

/// What is said of a source; the first where several things are.
pub open spec fn override_for(
    v: Seq<(String, DepegSourceOverride)>,
    source: Seq<char>,
) -> Option<DepegSourceOverride>
    decreases v.len(),
{
    if v.len() == 0 {
        None
    } else if v[0].0@ == source {
        Some(v[0].1)
    } else {
        override_for(v.skip(1), source)
    }
}

/// Whether a source counts.
pub open spec fn counts(p: DepegPolicy, source: Seq<char>, kind: Seq<char>) -> bool {
    &&& kind_allowed(p.source_filter, source, kind)
    &&& match override_for(p.source_overrides@, source) {
        Some(o) => o.enabled,
        None => true,
    }
}

/// What a source counts with.
pub open spec fn weight_of(p: DepegPolicy, source: Seq<char>) -> Double {
    larger(
        match override_for(p.source_overrides@, source) {
            Some(o) => o.weight,
            None => double(ONE_BITS),
        },
        double(0),
    )
}

/// How many milliseconds a quote of a source holds; at least one.
pub open spec fn timeout_of(p: DepegPolicy, source: Seq<char>) -> i64 {
    let ms = match override_for(p.source_overrides@, source) {
        Some(o) => match o.stale_timeout_ms {
            Some(ms) => ms,
            None => p.stale_timeout_ms,
        },
        None => p.stale_timeout_ms,
    };
    if ms < 1 {
        1
    } else {
        ms
    }
}

/// How many of the first `n` overrides enable their source.
pub open spec fn enabled_overrides(v: Seq<(String, DepegSourceOverride)>, n: nat) -> nat
    decreases n,
{
    if n == 0 {
        0
    } else {
        enabled_overrides(v, (n - 1) as nat) + if v[n - 1].1.enabled {
            1nat
        } else {
            0nat
        }
    }
}

/// How many sources a market has: as many as are enabled one by one, or the least number
/// wanted where none is.
pub open spec fn enabled_sources(p: DepegPolicy) -> nat {
    let n = enabled_overrides(p.source_overrides@, p.source_overrides@.len());
    if n == 0 {
        p.min_sources as nat
    } else {
        n
    }
}

/// The bands of a market that deviates alone.
pub open spec fn isolated_bands_of(p: DepegPolicy) -> DepegSeverityBands {
    match p.severity_bands_isolated {
        Some(b) => b,
        None => if double(0).below(p.severity_bands.medium) {
            p.severity_bands
        } else {
            DepegSeverityBands {
                medium: double(HALF_BITS),
                high: double(ONE_BITS),
                critical: double(FIVE_BITS),
            }
        },
    }
}

/// The bands of a market that deviates with others.
pub open spec fn systemic_bands_of(p: DepegPolicy) -> DepegSeverityBands {
    match p.severity_bands_systemic {
        Some(b) => b,
        None => DepegSeverityBands {
            medium: double(HUNDREDTH_BITS),
            high: double(QUARTER_BITS),
            critical: double(QUARTER_BITS),
        },
    }
}

/// The bands that apply in a context.
pub open spec fn bands_in(p: DepegPolicy, c: ContextClassification) -> DepegSeverityBands {
    match c {
        ContextClassification::Systemic => systemic_bands_of(p),
        _ => isolated_bands_of(p),
    }
}

/// The deviation from which on a breach may be active in a context.
pub open spec fn floor_in(p: DepegPolicy, c: ContextClassification) -> Double {
    match c {
        ContextClassification::Systemic => p.systemic_floor_pct,
        _ => p.isolated_floor_pct,
    }
}

/// What the parts of the confidence count with.
pub open spec fn confidence_rules(p: DepegPolicy) -> ConfidenceRules {
    ConfidenceRules {
        source_weight: p.confidence_weights.source_agreement,
        oracle_weight: p.confidence_weights.oracle_confirmation,
        volume_weight: p.confidence_weights.volume_confirmation,
        oracle_toggle: p.toggles.oracle_confirmation,
        volume_toggle: p.toggles.volume_confirmation,
    }
}

/// How an incident of the market changes.
pub open spec fn limits_of(p: DepegPolicy) -> Limits {
    Limits {
        cooldown_sec: p.cooldown_sec,
        deescalation_blocks: p.deescalation_blocks,
        resolution_blocks: p.resolution_blocks,
    }
}

/// The severity of a deviation.
pub open spec fn severity_in(pct: Double, b: DepegSeverityBands) -> Option<
    crate::event::Severity,
> {
    severity_in_bands(pct, b.medium, b.high, b.critical)
}

pub fn severity_for_divergence(pct: Double, bands: &DepegSeverityBands) -> (r: Option<
    crate::event::Severity,
>)
    ensures
        r == severity_in(pct, *bands),
{
    severity_by_bands(pct, bands.medium, bands.high, bands.critical)
}

impl DepegPolicy {
    pub fn validate(&self) -> (r: Result<(), PolicyError>)
        ensures
            match r {
                Ok(_) => flaw(*self) is None,
                Err(e) => flaw(*self) == Some(e),
            },
    {
        let zero = Double { bits: 0 };
        let w: &DepegConfidenceWeights = &self.confidence_weights;
        if self.peg_target.le(zero) {
            return Err(PolicyError::PegTarget);
        }
        if self.min_sources == 0 {
            return Err(PolicyError::MinSources);
        }
        if !(zero.le(self.quorum_pct) && self.quorum_pct.le(Double { bits: ONE_BITS })) {
            return Err(PolicyError::QuorumPct);
        }
        if self.cooldown_sec < 0 {
            return Err(PolicyError::CooldownSec);
        }
        if self.stale_timeout_ms <= 0 {
            return Err(PolicyError::StaleTimeoutMs);
        }
        if self.isolated_floor_pct.le(zero) {
            return Err(PolicyError::IsolatedFloorPct);
        }
        if self.systemic_floor_pct.le(zero) {
            return Err(PolicyError::SystemicFloorPct);
        }
        if self.deescalation_blocks <= 0 {
            return Err(PolicyError::DeescalationBlocks);
        }
        if self.resolution_blocks <= 0 {
            return Err(PolicyError::ResolutionBlocks);
        }
        if !(zero.le(self.min_confidence_to_fire) && self.min_confidence_to_fire.le(
            Double { bits: HUNDRED_BITS },
        )) {
            return Err(PolicyError::MinConfidenceToFire);
        }
        if w.source_agreement.lt(zero) || w.oracle_confirmation.lt(zero)
            || w.volume_confirmation.lt(zero) {
            return Err(PolicyError::NegativeConfidenceWeight);
        }
        if w.source_agreement.plus(w.oracle_confirmation).plus(w.volume_confirmation).le(zero) {
            return Err(PolicyError::NoConfidenceWeight);
        }
        Ok(())
    }

    fn find_override(&self, source_id: &str) -> (r: Option<&DepegSourceOverride>)
        ensures
            match r {
                Some(o) => override_for(self.source_overrides@, source_id@) == Some(*o),
                None => override_for(self.source_overrides@, source_id@) is None,
            },
    {
        let ghost all = self.source_overrides@;
        let mut i: usize = 0;
        assert(all.skip(0) =~= all);
        while i < self.source_overrides.len()
            invariant
                i <= self.source_overrides.len(),
                all == self.source_overrides@,
                override_for(all, source_id@) == override_for(all.skip(i as int), source_id@),
            decreases self.source_overrides.len() - i,
        {
            if same(self.source_overrides[i].0.as_str(), source_id) {
                return Some(&self.source_overrides[i].1);
            }
            assert(all.skip(i as int).skip(1) =~= all.skip(i + 1));
            i = i + 1;
        }
        None
    }

    /// Whether a source counts.
    pub fn source_enabled(&self, source_id: &str, source_kind: &str) -> (r: bool)
        ensures
            r == counts(*self, source_id@, source_kind@),
    {
        if !self.source_filter.source_kind_allowed(source_id, source_kind) {
            return false;
        }
        match self.find_override(source_id) {
            Some(o) => o.enabled,
            None => true,
        }
    }

    /// What a source counts with.
    pub fn source_weight(&self, source_id: &str) -> (r: Double)
        ensures
            r == weight_of(*self, source_id@),
    {
        let weight: Double = match self.find_override(source_id) {
            Some(o) => o.weight,
            None => Double { bits: ONE_BITS },
        };
        weight.max(Double { bits: 0 })
    }

    /// How many milliseconds a quote of a source holds.
    pub fn source_stale_timeout_ms(&self, source_id: &str) -> (r: i64)
        ensures
            r == timeout_of(*self, source_id@),
    {
        let ms: i64 = match self.find_override(source_id) {
            Some(o) => match o.stale_timeout_ms {
                Some(ms) => ms,
                None => self.stale_timeout_ms,
            },
            None => self.stale_timeout_ms,
        };
        if ms < 1 {
            1
        } else {
            ms
        }
    }

    /// How many sources a market has.
    pub fn enabled_source_count(&self) -> (r: usize)
        ensures
            r == enabled_sources(*self),
    {
        let mut count: usize = 0;
        let mut i: usize = 0;
        while i < self.source_overrides.len()
            invariant
                i <= self.source_overrides.len(),
                count <= i,
                count == enabled_overrides(self.source_overrides@, i as nat),
            decreases self.source_overrides.len() - i,
        {
            if self.source_overrides[i].1.enabled {
                count = count + 1;
            }
            i = i + 1;
        }
        if count == 0 {
            self.min_sources
        } else {
            count
        }
    }

    pub fn isolated_bands(&self) -> (r: DepegSeverityBands)
        ensures
            r == isolated_bands_of(*self),
    {
        match self.severity_bands_isolated {
            Some(b) => b,
            None => if (Double { bits: 0 }).lt(self.severity_bands.medium) {
                self.severity_bands
            } else {
                DepegSeverityBands {
                    medium: Double { bits: HALF_BITS },
                    high: Double { bits: ONE_BITS },
                    critical: Double { bits: FIVE_BITS },
                }
            },
        }
    }

    pub fn systemic_bands(&self) -> (r: DepegSeverityBands)
        ensures
            r == systemic_bands_of(*self),
    {
        match self.severity_bands_systemic {
            Some(b) => b,
            None => DepegSeverityBands {
                medium: Double { bits: HUNDREDTH_BITS },
                high: Double { bits: QUARTER_BITS },
                critical: Double { bits: QUARTER_BITS },
            },
        }
    }

    /// The bands that apply in a context.
    pub fn bands_for(&self, classification: ContextClassification) -> (r: DepegSeverityBands)
        ensures
            r == bands_in(*self, classification),
    {
        match classification {
            ContextClassification::Systemic => self.systemic_bands(),
            _ => self.isolated_bands(),
        }
    }

    /// The deviation from which on a breach may be active in a context.
    pub fn floor_for(&self, classification: ContextClassification) -> (r: Double)
        ensures
            r == floor_in(*self, classification),
    {
        match classification {
            ContextClassification::Systemic => self.systemic_floor_pct,
            _ => self.isolated_floor_pct,
        }
    }

    /// What the parts of the confidence count with.
    pub fn confidence_settings(&self) -> (r: ConfidenceRules)
        ensures
            r == confidence_rules(*self),
    {
        ConfidenceRules {
            source_weight: self.confidence_weights.source_agreement,
            oracle_weight: self.confidence_weights.oracle_confirmation,
            volume_weight: self.confidence_weights.volume_confirmation,
            oracle_toggle: self.toggles.oracle_confirmation,
            volume_toggle: self.toggles.volume_confirmation,
        }
    }

    /// How an incident of the market changes.
    pub fn limits(&self) -> (r: Limits)
        ensures
            r == limits_of(*self),
    {
        Limits {
            cooldown_sec: self.cooldown_sec,
            deescalation_blocks: self.deescalation_blocks,
            resolution_blocks: self.resolution_blocks,
        }
    }
}

// ---------------------------------------------------------------------------
// Accepting policies
// ---------------------------------------------------------------------------

/// The policies of a configuration: those under `policies`, or the configuration itself
/// where it is one policy, with what such a policy may leave out filled in.
pub open spec fn policy_entries(config: JsonView) -> JsonView {
    match config {
        JsonView::Object(m) => match member(m, "policies"@) {
            Some(policies) => policies,
            None => if member(m, "market_key"@) is None {
                config
            } else {
                let quorum = if member(m, "quorum_pct"@) is None {
                    with_member(m, "quorum_pct"@, JsonView::Float(double(0)))
                } else {
                    m
                };
                let full = if member(quorum, "stale_timeout_ms"@) is None {
                    with_member(quorum, "stale_timeout_ms"@, JsonView::Whole(30_000))
                } else {
                    quorum
                };
                JsonView::List(seq![JsonView::Object(full)])
            },
        },
        _ => config,
    }
}

pub fn normalized_policy_config(config: &Json) -> (r: Json)
    ensures
        r@ == policy_entries(config@),
{
    let object: &Vec<(String, Json)> = match config.as_object() {
        Some(object) => object,
        None => {
            return config.copy();
        },
    };
    match member_of(object, "policies") {
        Some(policies) => {
            return policies.copy();
        },
        None => {},
    }
    if member_of(object, "market_key").is_none() {
        return config.copy();
    }
    let mut policy: Vec<(String, Json)> = crate::json::copy_members(object);
    if member_of(&policy, "quorum_pct").is_none() {
        put_member(&mut policy, "quorum_pct", Json::Float(Double { bits: 0 }));
    }
    if member_of(&policy, "stale_timeout_ms").is_none() {
        put_member(&mut policy, "stale_timeout_ms", Json::UInt(30_000));
    }
    let mut list: Vec<Json> = Vec::new();
    list.push(Json::object(policy));
    assert(crate::json::list_view(list@) =~= seq![JsonView::Object(members_view(policy@))]);
    Json::list(list)
}

/// Whether `program` is what an expression's text compiles to: nothing where the text is
/// missing, blank, or no expression.
pub open spec fn compiled_from(text: Option<String>, program: Option<Arc<cel::Program>>) -> bool {
    match text {
        Some(s) => {
            let source = trimmed(s@);
            match program {
                Some(p) => source.len() > 0 && compile_failure(source) is None && source_of(*p)
                    == source,
                None => source.len() == 0 || compile_failure(source) is Some,
            }
        },
        None => program is None,
    }
}

fn compile_text(text: &Option<String>) -> (r: Option<Arc<cel::Program>>)
    ensures
        compiled_from(*text, r),
{
    match text {
        Some(s) => {
            let source: String = trim(s.as_str());
            if source.as_str().is_empty() {
                return None;
            }
            match compile(source.as_str()) {
                Ok(program) => Some(program),
                Err(_) => None,
            }
        },
        None => None,
    }
}

/// Whether `q` is the policy `p` as it is accepted for a tenant: it belongs to the tenant,
/// its expressions are compiled, and nothing else is changed.
pub open spec fn accepted_as(tenant: Seq<char>, p: DepegPolicy, q: DepegPolicy) -> bool {
    &&& q.tenant_id@ == tenant
    &&& compiled_from(p.decision_expression, q.compiled_decision)
    &&& compiled_from(p.severity_expression, q.compiled_severity)
    &&& compiled_from(p.oracle_expression, q.compiled_oracle)
    &&& compiled_from(p.confidence_expression, q.compiled_confidence)
    &&& compiled_from(p.contagion_expression, q.compiled_contagion)
    &&& q == (DepegPolicy {
        tenant_id: q.tenant_id,
        compiled_decision: q.compiled_decision,
        compiled_severity: q.compiled_severity,
        compiled_oracle: q.compiled_oracle,
        compiled_confidence: q.compiled_confidence,
        compiled_contagion: q.compiled_contagion,
        ..p
    })
}

/// Whether `r` holds the policies of `s` that have no flaw, in their order, as they are
/// accepted.
pub open spec fn accepted_all(tenant: Seq<char>, s: Seq<DepegPolicy>, r: Seq<DepegPolicy>) -> bool
    decreases s.len(),
{
    if s.len() == 0 {
        r.len() == 0
    } else if flaw(s.last()) is Some {
        accepted_all(tenant, s.drop_last(), r)
    } else {
        &&& r.len() > 0
        &&& accepted_as(tenant, s.last(), r.last())
        &&& accepted_all(tenant, s.drop_last(), r.drop_last())
    }
}

/// Accepts a policy for a tenant, and compiles its expressions. One that is no expression
/// is left out, so that a mistake in it leaves the built-in decision in force.
fn accept(tenant_id: &str, policy: DepegPolicy) -> (r: DepegPolicy)
    ensures
        accepted_as(tenant_id@, policy, r),
{
    let compiled_decision: Option<Arc<cel::Program>> = compile_text(&policy.decision_expression);
    let compiled_severity: Option<Arc<cel::Program>> = compile_text(&policy.severity_expression);
    let compiled_oracle: Option<Arc<cel::Program>> = compile_text(&policy.oracle_expression);
    let compiled_confidence: Option<Arc<cel::Program>> = compile_text(
        &policy.confidence_expression,
    );
    let compiled_contagion: Option<Arc<cel::Program>> = compile_text(&policy.contagion_expression);
    DepegPolicy {
        tenant_id: tenant_id.to_owned(),
        compiled_decision,
        compiled_severity,
        compiled_oracle,
        compiled_confidence,
        compiled_contagion,
        ..policy
    }
}

/// The policies of a tenant out of the entries of its configuration, without those that
/// have a flaw; none where the configuration could not be read.
pub fn parse_policies(tenant_id: &str, entries: Option<Vec<DepegPolicy>>) -> (r: Vec<DepegPolicy>)
    ensures
        match entries {
            Some(s) => accepted_all(tenant_id@, s@, r@),
            None => r@.len() == 0,
        },
{
    let mut r: Vec<DepegPolicy> = Vec::new();
    let mut rest: Vec<DepegPolicy> = match entries {
        Some(entries) => entries,
        None => {
            return r;
        },
    };
    let ghost all = rest@;
    assert(all.take(0) =~= Seq::<DepegPolicy>::empty());
    assert(all.skip(0) =~= all);
    let ghost mut done: int = 0;
    while rest.len() > 0
        invariant
            0 <= done <= all.len(),
            rest@ == all.skip(done),
            accepted_all(tenant_id@, all.take(done), r@),
        decreases rest.len(),
    {
        let ghost before = r@;
        let policy: DepegPolicy = rest.remove(0);
        proof {
            assert(all.skip(done)[0] == all[done]);
            assert(rest@ =~= all.skip(done + 1));
            assert(all.take(done + 1).drop_last() =~= all.take(done));
        }
        if policy.validate().is_ok() {
            r.push(accept(tenant_id, policy));
            assert(r@.drop_last() =~= before);
        }
        proof {
            done = done + 1;
        }
    }
    assert(all.take(done) =~= all);
    r
}

// ---------------------------------------------------------------------------
// Laws
// ---------------------------------------------------------------------------

/// Prices of decentralised exchanges never count, whatever a policy says of the source.
pub proof fn law_dex_prices_do_not_count(p: DepegPolicy, source: Seq<char>, kind: Seq<char>)
    requires
        lowered(kind) == "dex"@,
    ensures
        !counts(p, source, kind),
{
    reveal_strlit("dex");
    reveal_strlit("oracle");
    reveal_strlit("aggregator");
    reveal_strlit("cex");
    assert("dex"@.len() == 3 && "oracle"@.len() == 6 && "aggregator"@.len() == 10);
}

/// Every accepted policy belongs to the tenant and has no flaw; and no more policies are
/// accepted than there are entries.
pub proof fn law_accepted_policies_are_sound(
    tenant: Seq<char>,
    s: Seq<DepegPolicy>,
    r: Seq<DepegPolicy>,
)
    requires
        accepted_all(tenant, s, r),
    ensures
        r.len() <= s.len(),
        forall|i: int|
            0 <= i < r.len() ==> (#[trigger] r[i]).tenant_id@ == tenant && flaw(r[i]) is None,
    decreases s.len(),
{
    if s.len() > 0 {
        if flaw(s.last()) is Some {
            law_accepted_policies_are_sound(tenant, s.drop_last(), r);
        } else {
            law_accepted_policies_are_sound(tenant, s.drop_last(), r.drop_last());
            assert forall|i: int| 0 <= i < r.len() implies (#[trigger] r[i]).tenant_id@ == tenant
                && flaw(r[i]) is None by {
                if i < r.len() - 1 {
                    assert(r.drop_last()[i] == r[i]);
                }
            }
        }
    }
}

/// Oracles and aggregators count where they are wanted, exchanges where they are on the list or
/// where there is none, and no other kind ever; the case of the kind does not matter.
pub proof fn law_sources_count_by_kind(f: DepegSourceFilter, source: Seq<char>, kind: Seq<char>)
    ensures
        lowered(kind) == "oracle"@ ==> kind_allowed(f, source, kind) == f.include_oracles,
        lowered(kind) == "aggregator"@ ==> kind_allowed(f, source, kind) == f.include_aggregators,
        lowered(kind) == "cex"@ ==> (kind_allowed(f, source, kind) <==> f.cex_whitelist@.len() == 0
            || exists|i: int|
            0 <= i < f.cex_whitelist@.len() && lowered(#[trigger] f.cex_whitelist@[i]@) == lowered(
                source,
            )),
        lowered(kind) != "oracle"@ && lowered(kind) != "aggregator"@ && lowered(kind) != "cex"@
            ==> !kind_allowed(f, source, kind),
{
    reveal_strlit("oracle");
    reveal_strlit("aggregator");
    reveal_strlit("dex");
    reveal_strlit("cex");
    assert("oracle"@[0] == 'o' && "aggregator"@[0] == 'a' && "dex"@[0] == 'd' && "cex"@[0] == 'c');
    if lowered(kind) == "cex"@ && listed_alike(f.cex_whitelist@, source) {
        let i = choose|i: int|
            0 <= i < f.cex_whitelist@.len() && alike(#[trigger] f.cex_whitelist@[i]@, source);
        assert(lowered(f.cex_whitelist@[i]@) == lowered(source));
    }
    if exists|i: int|
        0 <= i < f.cex_whitelist@.len() && lowered(#[trigger] f.cex_whitelist@[i]@) == lowered(
            source,
        ) {
        let i = choose|i: int|
            0 <= i < f.cex_whitelist@.len() && lowered(#[trigger] f.cex_whitelist@[i]@) == lowered(
                source,
            );
        assert(alike(f.cex_whitelist@[i]@, source));
    }
}

/// A policy is sound exactly where its target, windows, floors and counts are above zero, its
/// cooldown and its weights not below, its shares within their range, and not every weight zero.
pub proof fn law_sound_policies_have_what_they_need(p: DepegPolicy)
    requires
        p.peg_target.finite(),
        p.quorum_pct.finite(),
        p.isolated_floor_pct.finite(),
        p.systemic_floor_pct.finite(),
        p.min_confidence_to_fire.finite(),
        p.confidence_weights.source_agreement.finite(),
        p.confidence_weights.oracle_confirmation.finite(),
        p.confidence_weights.volume_confirmation.finite(),
    ensures
        flaw(p) is None <==> {
            let w = p.confidence_weights;
            &&& p.peg_target.value() > 0
            &&& p.min_sources > 0
            &&& 0 <= p.quorum_pct.value() <= double(ONE_BITS).value()
            &&& p.cooldown_sec >= 0
            &&& p.stale_timeout_ms > 0
            &&& p.isolated_floor_pct.value() > 0
            &&& p.systemic_floor_pct.value() > 0
            &&& p.deescalation_blocks > 0
            &&& p.resolution_blocks > 0
            &&& 0 <= p.min_confidence_to_fire.value() <= double(HUNDRED_BITS).value()
            &&& w.source_agreement.value() >= 0
            &&& w.oracle_confirmation.value() >= 0
            &&& w.volume_confirmation.value() >= 0
            &&& double(0).below(
                sum(sum(w.source_agreement, w.oracle_confirmation), w.volume_confirmation),
            )
        },
{
    let zero = double(0);
    let w = p.confidence_weights;
    crate::aggregation::lemma_zero_value();
    crate::double::law_order_is_by_value(p.peg_target, zero);
    crate::double::law_order_is_by_value(zero, p.quorum_pct);
    crate::double::law_order_is_by_value(p.quorum_pct, double(ONE_BITS));
    crate::double::law_order_is_by_value(p.isolated_floor_pct, zero);
    crate::double::law_order_is_by_value(p.systemic_floor_pct, zero);
    crate::double::law_order_is_by_value(zero, p.min_confidence_to_fire);
    crate::double::law_order_is_by_value(p.min_confidence_to_fire, double(HUNDRED_BITS));
    crate::double::law_order_is_by_value(w.source_agreement, zero);
    crate::double::law_order_is_by_value(w.oracle_confirmation, zero);
    crate::double::law_order_is_by_value(w.volume_confirmation, zero);
    crate::double::law_order_is_by_value(zero, w.source_agreement);
    crate::double::law_order_is_by_value(zero, w.oracle_confirmation);
    crate::double::law_order_is_by_value(zero, w.volume_confirmation);
    let first = sum(w.source_agreement, w.oracle_confirmation);
    if zero.at_most(w.source_agreement) && zero.at_most(w.oracle_confirmation) && zero.at_most(
        w.volume_confirmation,
    ) {
        crate::double::lemma_sum_grows_up(
            w.source_agreement,
            w.source_agreement,
            w.oracle_confirmation,
            w.oracle_confirmation,
        );
        crate::double::lemma_sum_grows_up(
            first,
            first,
            w.volume_confirmation,
            w.volume_confirmation,
        );
    }
}

/// Each flaw of a policy is one that it has.
pub proof fn law_flaws_are_there(p: DepegPolicy)
    ensures
        match flaw(p) {
            Some(PolicyError::PegTarget) => p.peg_target.at_most(double(0)),
            Some(PolicyError::MinSources) => p.min_sources == 0,
            Some(PolicyError::QuorumPct) => !double(0).at_most(p.quorum_pct)
                || !p.quorum_pct.at_most(double(ONE_BITS)),
            Some(PolicyError::CooldownSec) => p.cooldown_sec < 0,
            Some(PolicyError::StaleTimeoutMs) => p.stale_timeout_ms <= 0,
            Some(PolicyError::IsolatedFloorPct) => p.isolated_floor_pct.at_most(double(0)),
            Some(PolicyError::SystemicFloorPct) => p.systemic_floor_pct.at_most(double(0)),
            Some(PolicyError::DeescalationBlocks) => p.deescalation_blocks <= 0,
            Some(PolicyError::ResolutionBlocks) => p.resolution_blocks <= 0,
            Some(PolicyError::MinConfidenceToFire) => !double(0).at_most(p.min_confidence_to_fire)
                || !p.min_confidence_to_fire.at_most(double(HUNDRED_BITS)),
            Some(PolicyError::NegativeConfidenceWeight) => {
                ||| p.confidence_weights.source_agreement.below(double(0))
                ||| p.confidence_weights.oracle_confirmation.below(double(0))
                ||| p.confidence_weights.volume_confirmation.below(double(0))
            },
            Some(PolicyError::NoConfidenceWeight) => true,
            None => true,
        },
{
}

/// What a policy says of a source by itself goes before what it says of all of them: whether it
/// counts, with what weight and for how long. A source of which it says nothing counts one.
pub proof fn law_overrides_go_first(
    p: DepegPolicy,
    source: Seq<char>,
    kind: Seq<char>,
    i: int,
)
    requires
        0 <= i <= p.source_overrides@.len(),
        forall|k: int| 0 <= k < i ==> (#[trigger] p.source_overrides@[k]).0@ != source,
        i < p.source_overrides@.len() ==> p.source_overrides@[i].0@ == source,
    ensures
        i == p.source_overrides@.len() ==> {
            &&& counts(p, source, kind) == kind_allowed(p.source_filter, source, kind)
            &&& weight_of(p, source) == double(ONE_BITS)
            &&& p.stale_timeout_ms >= 1 ==> timeout_of(p, source) == p.stale_timeout_ms
        },
        i < p.source_overrides@.len() ==> {
            let o = p.source_overrides@[i].1;
            &&& counts(p, source, kind) <==> o.enabled && kind_allowed(p.source_filter, source, kind)
            &&& o.weight.positive() ==> weight_of(p, source) == o.weight
            &&& o.weight.below(double(0)) ==> weight_of(p, source) == double(0)
            &&& o.stale_timeout_ms is Some && o.stale_timeout_ms->0 >= 1 ==> Some(
                timeout_of(p, source),
            ) == o.stale_timeout_ms
            &&& o.stale_timeout_ms is None && p.stale_timeout_ms >= 1 ==> timeout_of(p, source)
                == p.stale_timeout_ms
        },
        timeout_of(p, source) >= 1,
{
    lemma_override_found(p.source_overrides@, source, i);
}

proof fn lemma_override_found(v: Seq<(String, DepegSourceOverride)>, source: Seq<char>, i: int)
    requires
        0 <= i <= v.len(),
        forall|k: int| 0 <= k < i ==> (#[trigger] v[k]).0@ != source,
        i < v.len() ==> v[i].0@ == source,
    ensures
        i < v.len() ==> override_for(v, source) == Some(v[i].1),
        i == v.len() ==> override_for(v, source) is None,
    decreases v.len(),
{
    if i > 0 {
        assert(v[0].0@ != source);
        assert forall|k: int| 0 <= k < i - 1 implies (#[trigger] v.skip(1)[k]).0@ != source by {
            assert(v[k + 1].0@ != source);
        }
        lemma_override_found(v.skip(1), source, i - 1);
    }
}

/// A market has as many sources as its policy enables one by one; where it names none that is
/// enabled, as many as it needs.
pub proof fn law_enabled_sources_are_counted(p: DepegPolicy, q: DepegPolicy, o: (String, DepegSourceOverride))
    requires
        q.source_overrides@ == p.source_overrides@.push(o),
        q.min_sources == p.min_sources,
    ensures
        p.source_overrides@.len() == 0 ==> enabled_sources(p) == p.min_sources,
        !o.1.enabled ==> enabled_sources(q) == enabled_sources(p),
        o.1.enabled && (exists|i: int|
            0 <= i < p.source_overrides@.len() && (#[trigger] p.source_overrides@[i]).1.enabled)
            ==> enabled_sources(q) == enabled_sources(p) + 1,
        o.1.enabled && (forall|i: int|
            0 <= i < p.source_overrides@.len() ==> !(#[trigger] p.source_overrides@[i]).1.enabled)
            ==> enabled_sources(q) == 1,
{
    let (v, w) = (p.source_overrides@, q.source_overrides@);
    lemma_overrides_before(v, o, v.len());
    lemma_enabled_overrides(v, v.len());
    assert(w[v.len() as int] == o);
}

proof fn lemma_overrides_before(
    v: Seq<(String, DepegSourceOverride)>,
    o: (String, DepegSourceOverride),
    n: nat,
)
    requires
        n <= v.len(),
    ensures
        enabled_overrides(v.push(o), n) == enabled_overrides(v, n),
    decreases n,
{
    if n > 0 {
        lemma_overrides_before(v, o, (n - 1) as nat);
        assert(v.push(o)[n - 1] == v[n - 1]);
    }
}

proof fn lemma_enabled_overrides(v: Seq<(String, DepegSourceOverride)>, n: nat)
    requires
        n <= v.len(),
    ensures
        enabled_overrides(v, n) == 0 <==> forall|i: int|
            0 <= i < n ==> !(#[trigger] v[i]).1.enabled,
    decreases n,
{
    if n > 0 {
        lemma_enabled_overrides(v, (n - 1) as nat);
        if forall|i: int| 0 <= i < n ==> !(#[trigger] v[i]).1.enabled {
            assert(!v[n - 1].1.enabled);
        } else if enabled_overrides(v, n) == 0 {
            assert forall|i: int| 0 <= i < n implies !(#[trigger] v[i]).1.enabled by {
                if i == n - 1 {
                    assert(!v[n - 1].1.enabled);
                }
            }
        }
    }
}

/// A market that deviates alone has its own bands and floor, and one that deviates with others
/// those for that; bands of a market of its own go before the general ones.
pub proof fn law_contexts_have_their_own_bands(p: DepegPolicy, b: DepegSeverityBands)
    ensures
        p.severity_bands_isolated == Some(b) ==> bands_in(p, ContextClassification::Isolated) == b
            && bands_in(p, ContextClassification::Unclassified) == b,
        p.severity_bands_systemic == Some(b) ==> bands_in(p, ContextClassification::Systemic) == b,
        p.severity_bands_isolated is None && p.severity_bands.medium.positive() ==> bands_in(
            p,
            ContextClassification::Isolated,
        ) == p.severity_bands,
        floor_in(p, ContextClassification::Systemic) == p.systemic_floor_pct,
        floor_in(p, ContextClassification::Isolated) == p.isolated_floor_pct,
        floor_in(p, ContextClassification::Unclassified) == p.isolated_floor_pct,
{
}

/// The parts of the confidence, and the pace of incidents, are those of the policy.
pub proof fn law_rules_are_those_of_the_policy(p: DepegPolicy)
    ensures
        confidence_rules(p).source_weight == p.confidence_weights.source_agreement,
        confidence_rules(p).oracle_weight == p.confidence_weights.oracle_confirmation,
        confidence_rules(p).volume_weight == p.confidence_weights.volume_confirmation,
        confidence_rules(p).oracle_toggle == p.toggles.oracle_confirmation,
        confidence_rules(p).volume_toggle == p.toggles.volume_confirmation,
        limits_of(p).cooldown_sec == p.cooldown_sec,
        limits_of(p).deescalation_blocks == p.deescalation_blocks,
        limits_of(p).resolution_blocks == p.resolution_blocks,
{
}

/// The policies of a configuration are those under their name. A configuration for one market
/// is a policy, in which the quorum and the age of quotes may be left out; every other member
/// it has stays.
pub proof fn law_a_configuration_may_be_a_policy(m: crate::json::Members, policies: JsonView, key: Seq<char>)
    ensures
        member(m, "policies"@) == Some(policies) ==> policy_entries(JsonView::Object(m))
            == policies,
        member(m, "policies"@) is None && member(m, "market_key"@) is None ==> policy_entries(
            JsonView::Object(m),
        ) == JsonView::Object(m),
        member(m, "policies"@) is None && member(m, "market_key"@) is Some ==> {
            let r = policy_entries(JsonView::Object(m));
            let one = r->List_0[0];
            &&& r is List && r->List_0.len() == 1
            &&& member(m, key) is Some ==> one.get(key) == member(m, key)
            &&& member(m, "quorum_pct"@) is None ==> one.get("quorum_pct"@) == Some(
                JsonView::Float(double(0)),
            )
            &&& member(m, "stale_timeout_ms"@) is None ==> one.get("stale_timeout_ms"@) == Some(
                JsonView::Whole(30_000),
            )
        },
{
    reveal_strlit("quorum_pct");
    reveal_strlit("stale_timeout_ms");
    assert("quorum_pct"@[0] != "stale_timeout_ms"@[0]);
    let zero = JsonView::Float(double(0));
    let age = JsonView::Whole(30_000);
    crate::assoc::law_lookup_after_put(m, "quorum_pct"@, zero, key);
    crate::assoc::law_lookup_after_put(m, "quorum_pct"@, zero, "stale_timeout_ms"@);
    let quorum = if member(m, "quorum_pct"@) is None {
        with_member(m, "quorum_pct"@, zero)
    } else {
        m
    };
    crate::assoc::law_lookup_after_put(quorum, "stale_timeout_ms"@, age, key);
    crate::assoc::law_lookup_after_put(quorum, "stale_timeout_ms"@, age, "quorum_pct"@);
}

/// A policy is accepted with the programs of its own expressions, each for what it is to
/// replace; what is blank or no expression replaces nothing.
pub proof fn law_expressions_are_compiled_for_their_use(
    tenant: Seq<char>,
    p: DepegPolicy,
    q: DepegPolicy,
)
    requires
        accepted_as(tenant, p, q),
    ensures
        q.compiled_decision is Some ==> p.decision_expression is Some && source_of(
            *q.compiled_decision->0,
        ) == trimmed(p.decision_expression->0@),
        q.compiled_severity is Some ==> p.severity_expression is Some && source_of(
            *q.compiled_severity->0,
        ) == trimmed(p.severity_expression->0@),
        q.compiled_oracle is Some ==> p.oracle_expression is Some && source_of(
            *q.compiled_oracle->0,
        ) == trimmed(p.oracle_expression->0@),
        q.compiled_confidence is Some ==> p.confidence_expression is Some && source_of(
            *q.compiled_confidence->0,
        ) == trimmed(p.confidence_expression->0@),
        q.compiled_contagion is Some ==> p.contagion_expression is Some && source_of(
            *q.compiled_contagion->0,
        ) == trimmed(p.contagion_expression->0@),
        p.decision_expression is Some && trimmed(p.decision_expression->0@).len() > 0
            && compile_failure(trimmed(p.decision_expression->0@)) is None
            ==> q.compiled_decision is Some,
        p.severity_expression is Some && trimmed(p.severity_expression->0@).len() > 0
            && compile_failure(trimmed(p.severity_expression->0@)) is None
            ==> q.compiled_severity is Some,
        p.oracle_expression is Some && trimmed(p.oracle_expression->0@).len() > 0
            && compile_failure(trimmed(p.oracle_expression->0@)) is None
            ==> q.compiled_oracle is Some,
        p.confidence_expression is Some && trimmed(p.confidence_expression->0@).len() > 0
            && compile_failure(trimmed(p.confidence_expression->0@)) is None
            ==> q.compiled_confidence is Some,
        p.contagion_expression is Some && trimmed(p.contagion_expression->0@).len() > 0
            && compile_failure(trimmed(p.contagion_expression->0@)) is None
            ==> q.compiled_contagion is Some,
        q.market_key == p.market_key,
        q.peg_target == p.peg_target,
        q.quorum_pct == p.quorum_pct,
        q.min_sources == p.min_sources,
        q.source_overrides == p.source_overrides,
        q.aggregation == p.aggregation,
        q.toggles == p.toggles,
{
}

/// Every sound policy is accepted.
pub proof fn law_no_sound_policy_is_lost(
    tenant: Seq<char>,
    s: Seq<DepegPolicy>,
    r: Seq<DepegPolicy>,
    i: int,
)
    requires
        accepted_all(tenant, s, r),
        0 <= i < s.len(),
        flaw(s[i]) is None,
    ensures
        exists|k: int| 0 <= k < r.len() && accepted_as(tenant, s[i], #[trigger] r[k]),
    decreases s.len(),
{
    if i == s.len() - 1 {
        assert(accepted_as(tenant, s[i], r[r.len() - 1]));
    } else if flaw(s.last()) is Some {
        assert(s.drop_last()[i] == s[i]);
        law_no_sound_policy_is_lost(tenant, s.drop_last(), r, i);
    } else {
        assert(s.drop_last()[i] == s[i]);
        law_no_sound_policy_is_lost(tenant, s.drop_last(), r.drop_last(), i);
        let k = choose|k: int|
            0 <= k < r.drop_last().len() && accepted_as(tenant, s[i], #[trigger] r.drop_last()[k]);
        assert(accepted_as(tenant, s[i], r[k]));
    }
}

/// Without bands of its own a market that deviates alone is judged by a half, one and five
/// percent, and one that deviates with others by a hundredth and a quarter.
pub proof fn law_the_usual_bands(p: DepegPolicy)
    ensures
        p.severity_bands_isolated is None && !double(0).below(p.severity_bands.medium)
            ==> isolated_bands_of(p).medium == double(0x3fe0_0000_0000_0000) && isolated_bands_of(
            p,
        ).high == double(0x3ff0_0000_0000_0000) && isolated_bands_of(p).critical == double(
            0x4014_0000_0000_0000,
        ),
        p.severity_bands_systemic is None ==> systemic_bands_of(p).medium == double(
            0x3f84_7ae1_47ae_147b,
        ) && systemic_bands_of(p).high == double(0x3fd0_0000_0000_0000) && systemic_bands_of(
            p,
        ).critical == double(0x3fd0_0000_0000_0000),
{
}

} // verus!
