//! The rules that a tenant sets for a protocol or one of its markets.

use vstd::prelude::*;
use vstd::string::StringExecFns;

use crate::aggregation::double;
use crate::double::of_int;
use crate::double::Double;
use crate::event::filled;
use crate::event::filled_text;
use crate::event::str_option;
use crate::json::boolean_in;
use crate::json::either;
use crate::json::either_of;
use crate::json::list_view;
use crate::json::member;
use crate::json::member_bool;
use crate::json::member_of;
use crate::json::member_text;
use crate::json::members_view;
use crate::json::text_in;
use crate::json::Json;
use crate::json::JsonView;
use crate::json::Members;
use crate::reader::parse_double;
use crate::reader::parse_i64;
use crate::reader::read_double;
use crate::reader::read_integer;
use crate::text::alike;
use crate::text::copy_option;
use crate::text::decimal;
use crate::text::decimal_text;
use crate::text::join;
use crate::text::join3;
use crate::text::lowercase;
use crate::text::lowered;
use crate::text::same;
use crate::text::same_ignoring_case;
use crate::text::text_option;
use crate::text::trim;
use crate::text::trimmed;

verus! {

/// The bits of 20.0, 35.0, 15.0 and 1000000.0.
pub const DEFAULT_FAST_DROP_BITS: u64 = 0x4034_0000_0000_0000;

pub const DEFAULT_SLOW_DROP_BITS: u64 = 0x4041_8000_0000_0000;

pub const DEFAULT_VELOCITY_BITS: u64 = 0x402e_0000_0000_0000;

pub const DEFAULT_FLOOR_BITS: u64 = 0x412e_8480_0000_0000;

pub const DEFAULT_FAST_WINDOW_MINUTES: i64 = 10;

pub const DEFAULT_SLOW_WINDOW_MINUTES: i64 = 60;

pub const DEFAULT_VELOCITY_WINDOW_MINUTES: i64 = 2;

pub const DEFAULT_CONCURRENT_WINDOW_MINUTES: i64 = 5;

/// From which drops on, in which windows, a protocol or a market is in an incident.
#[derive(Clone, Debug)]
pub struct TvlDropRule {
    pub rule_id: String,
    pub protocol_id: String,
    pub chain_slug: String,
    /// `protocol` or `market`.
    pub scope: String,
    pub market_id: Option<String>,
    pub fast_drop_pct: Double,
    pub fast_window_minutes: i64,
    pub slow_drop_pct: Double,
    pub slow_window_minutes: i64,
    pub velocity_critical_pct: Double,
    pub velocity_critical_minutes: i64,
    pub concurrent_window_minutes: i64,
    pub min_tvl_floor_usd: Double,
    pub enabled: bool,
    pub contagion_enabled: bool,
}

pub struct RuleView {
    pub rule_id: Seq<char>,
    pub protocol_id: Seq<char>,
    pub chain_slug: Seq<char>,
    pub scope: Seq<char>,
    pub market_id: Option<Seq<char>>,
    pub fast_drop_pct: Double,
    pub fast_window_minutes: i64,
    pub slow_drop_pct: Double,
    pub slow_window_minutes: i64,
    pub velocity_critical_pct: Double,
    pub velocity_critical_minutes: i64,
    pub concurrent_window_minutes: i64,
    pub min_tvl_floor_usd: Double,
    pub enabled: bool,
    pub contagion_enabled: bool,
}

impl View for TvlDropRule {
    type V = RuleView;

    open spec fn view(&self) -> RuleView {
        RuleView {
            rule_id: self.rule_id@,
            protocol_id: self.protocol_id@,
            chain_slug: self.chain_slug@,
            scope: self.scope@,
            market_id: text_option(self.market_id),
            fast_drop_pct: self.fast_drop_pct,
            fast_window_minutes: self.fast_window_minutes,
            slow_drop_pct: self.slow_drop_pct,
            slow_window_minutes: self.slow_window_minutes,
            velocity_critical_pct: self.velocity_critical_pct,
            velocity_critical_minutes: self.velocity_critical_minutes,
            concurrent_window_minutes: self.concurrent_window_minutes,
            min_tvl_floor_usd: self.min_tvl_floor_usd,
            enabled: self.enabled,
            contagion_enabled: self.contagion_enabled,
        }
    }
}

pub fn default_true() -> (r: bool)
    ensures
        r,
{
    true
}

/// What is wrong with a rule.
#[derive(Clone, Copy, Debug, PartialEq, Eq, Structural)]
pub enum RuleError {
    RuleId,
    ProtocolId,
    ChainSlug,
    DropThreshold,
    WindowMinutes,
    TvlFloor,
    MarketId,
}

/// What is said of a flaw of a rule.
pub open spec fn flaw_text(e: RuleError) -> Seq<char> {
    match e {
        RuleError::RuleId => "rule_id must be non-empty"@,
        RuleError::ProtocolId => "protocol_id must be non-empty"@,
        RuleError::ChainSlug => "chain_slug must be non-empty"@,
        RuleError::DropThreshold => "drop thresholds must be > 0"@,
        RuleError::WindowMinutes => "window minutes must be > 0"@,
        RuleError::TvlFloor => "min_tvl_floor_usd must be >= 0"@,
        RuleError::MarketId => "market scope requires market_id"@,
    }
}

impl RuleError {
    pub fn message(&self) -> (r: &'static str)
        ensures
            r@ == flaw_text(*self),
    {
        match self {
            RuleError::RuleId => "rule_id must be non-empty",
            RuleError::ProtocolId => "protocol_id must be non-empty",
            RuleError::ChainSlug => "chain_slug must be non-empty",
            RuleError::DropThreshold => "drop thresholds must be > 0",
            RuleError::WindowMinutes => "window minutes must be > 0",
            RuleError::TvlFloor => "min_tvl_floor_usd must be >= 0",
            RuleError::MarketId => "market scope requires market_id",
        }
    }
}

/// The first thing that is wrong with a rule.
pub open spec fn flaw(r: RuleView) -> Option<RuleError> {
    let zero = double(0);
    if trimmed(r.rule_id).len() == 0 {
        Some(RuleError::RuleId)
    } else if trimmed(r.protocol_id).len() == 0 {
        Some(RuleError::ProtocolId)
    } else if trimmed(r.chain_slug).len() == 0 {
        Some(RuleError::ChainSlug)
    } else if r.fast_drop_pct.at_most(zero) || r.slow_drop_pct.at_most(zero)
        || r.velocity_critical_pct.at_most(zero) {
        Some(RuleError::DropThreshold)
    } else if r.fast_window_minutes <= 0 || r.slow_window_minutes <= 0
        || r.velocity_critical_minutes <= 0 || r.concurrent_window_minutes <= 0 {
        Some(RuleError::WindowMinutes)
    } else if r.min_tvl_floor_usd.below(zero) {
        Some(RuleError::TvlFloor)
    } else if r.scope == "market"@ && filled(r.market_id) is None {
        Some(RuleError::MarketId)
    } else {
        None
    }
}

/// Whether a rule is for one market of a protocol.
pub open spec fn for_market(r: RuleView) -> bool {
    alike(r.scope, "market"@)
}

/// A text, or an empty one where there is none.
pub open spec fn or_empty(s: Option<Seq<char>>) -> Seq<char> {
    match s {
        Some(s) => s,
        None => Seq::<char>::empty(),
    }
}

/// Whether a rule is about a protocol on a chain, and about the market where it is for one.
pub open spec fn concerns(
    r: RuleView,
    protocol: Seq<char>,
    chain: Seq<char>,
    market: Option<Seq<char>>,
) -> bool {
    &&& alike(r.protocol_id, protocol)
    &&& alike(r.chain_slug, chain)
    &&& for_market(r) ==> alike(or_empty(r.market_id), or_empty(market))
}

/// The key of a rule's protocol on its chain.
pub open spec fn protocol_key(r: RuleView) -> Seq<char> {
    lowered(r.protocol_id) + ":"@ + lowered(r.chain_slug)
}

/// What a rule is about: the kind of subject, its key, and the key of its protocol; nothing
/// where it is for a market and none is named.
pub open spec fn subject(r: RuleView, market: Option<Seq<char>>) -> Option<
    (Seq<char>, Seq<char>, Seq<char>),
> {
    if for_market(r) {
        match filled(either(r.market_id, market)) {
            Some(m) => Some(
                ("market"@, protocol_key(r) + ":"@ + lowered(m), protocol_key(r)),
            ),
            None => None,
        }
    } else {
        Some(("protocol"@, protocol_key(r), protocol_key(r)))
    }
}

/// The texts of an optional subject.
pub open spec fn subject_view(s: Option<(String, String, String)>) -> Option<
    (Seq<char>, Seq<char>, Seq<char>),
> {
    match s {
        Some(s) => Some((s.0@, s.1@, s.2@)),
        None => None,
    }
}

impl TvlDropRule {
    pub fn copy(&self) -> (r: TvlDropRule)
        ensures
            r == *self,
    {
        TvlDropRule {
            rule_id: self.rule_id.clone(),
            protocol_id: self.protocol_id.clone(),
            chain_slug: self.chain_slug.clone(),
            scope: self.scope.clone(),
            market_id: copy_option(&self.market_id),
            fast_drop_pct: self.fast_drop_pct,
            fast_window_minutes: self.fast_window_minutes,
            slow_drop_pct: self.slow_drop_pct,
            slow_window_minutes: self.slow_window_minutes,
            velocity_critical_pct: self.velocity_critical_pct,
            velocity_critical_minutes: self.velocity_critical_minutes,
            concurrent_window_minutes: self.concurrent_window_minutes,
            min_tvl_floor_usd: self.min_tvl_floor_usd,
            enabled: self.enabled,
            contagion_enabled: self.contagion_enabled,
        }
    }

    pub fn validate(&self) -> (r: Result<(), RuleError>)
        ensures
            match r {
                Ok(_) => flaw(self@) is None,
                Err(e) => flaw(self@) == Some(e),
            },
    {
        let zero = Double { bits: 0 };
        if trim(self.rule_id.as_str()).as_str().is_empty() {
            return Err(RuleError::RuleId);
        }
        if trim(self.protocol_id.as_str()).as_str().is_empty() {
            return Err(RuleError::ProtocolId);
        }
        if trim(self.chain_slug.as_str()).as_str().is_empty() {
            return Err(RuleError::ChainSlug);
        }
        if self.fast_drop_pct.le(zero) || self.slow_drop_pct.le(zero)
            || self.velocity_critical_pct.le(zero) {
            return Err(RuleError::DropThreshold);
        }
        if self.fast_window_minutes <= 0 || self.slow_window_minutes <= 0
            || self.velocity_critical_minutes <= 0 || self.concurrent_window_minutes <= 0 {
            return Err(RuleError::WindowMinutes);
        }
        if self.min_tvl_floor_usd.lt(zero) {
            return Err(RuleError::TvlFloor);
        }
        let market: Option<String> = match &self.market_id {
            Some(m) => filled_text(Some(m.as_str())),
            None => None,
        };
        if same(self.scope.as_str(), "market") && market.is_none() {
            return Err(RuleError::MarketId);
        }
        Ok(())
    }

    /// Whether the rule is for one market of a protocol.
    pub fn is_for_market(&self) -> (r: bool)
        ensures
            r == for_market(self@),
    {
        same_ignoring_case(self.scope.as_str(), "market")
    }

    pub fn normalized_scope(&self) -> (r: &'static str)
        ensures
            r@ == (if for_market(self@) {
                "market"@
            } else {
                "protocol"@
            }),
    {
        if self.is_for_market() {
            "market"
        } else {
            "protocol"
        }
    }

    /// Whether the rule is about a protocol on a chain, and about the market where it is for
    /// one.
    pub fn matches(&self, protocol_id: &str, chain_slug: &str, market_id: Option<&str>) -> (r: bool)
        ensures
            r == concerns(self@, protocol_id@, chain_slug@, str_option(market_id)),
    {
        if !same_ignoring_case(self.protocol_id.as_str(), protocol_id) {
            return false;
        }
        if !same_ignoring_case(self.chain_slug.as_str(), chain_slug) {
            return false;
        }
        if self.is_for_market() {
            let expected: String = match &self.market_id {
                Some(m) => m.clone(),
                None => String::new(),
            };
            let observed: String = match market_id {
                Some(m) => m.to_owned(),
                None => String::new(),
            };
            return same_ignoring_case(expected.as_str(), observed.as_str());
        }
        true
    }

    /// What the rule is about: the kind of subject, its key, and the key of its protocol.
    pub fn subject_for_event(&self, market_id: Option<&str>) -> (r: Option<
        (String, String, String),
    >)
        ensures
            subject_view(r) == subject(self@, str_option(market_id)),
    {
        let protocol: String = lowercase(self.protocol_id.as_str());
        let chain: String = lowercase(self.chain_slug.as_str());
        let key: String = join3(protocol.as_str(), ":", chain.as_str());
        if self.is_for_market() {
            let market: Option<String> = match &self.market_id {
                Some(m) => filled_text(Some(m.as_str())),
                None => filled_text(market_id),
            };
            return match market {
                Some(m) => {
                    let subject_key: String = join3(
                        key.as_str(),
                        ":",
                        lowercase(m.as_str()).as_str(),
                    );
                    Some(("market".to_owned(), subject_key, key))
                },
                None => None,
            };
        }
        Some(("protocol".to_owned(), key.clone(), key))
    }
}

// ---------------------------------------------------------------------------
// Reading rules
// ---------------------------------------------------------------------------

/// A text with something in it, or the fallback.
pub open spec fn text_or(v: Option<JsonView>, fallback: Seq<char>) -> Seq<char> {
    match filled(text_in(v)) {
        Some(s) => s,
        None => fallback,
    }
}

/// A number, or a text that stands for one.
pub open spec fn number_of(v: JsonView) -> Option<Double> {
    match v.number() {
        Some(x) => Some(x),
        None => match v.text() {
            Some(s) => read_double(trimmed(s)),
            None => None,
        },
    }
}

/// A number, or the fallback.
pub open spec fn number_or(v: Option<JsonView>, fallback: Double) -> Double {
    match v {
        Some(v) => match number_of(v) {
            Some(x) => x,
            None => fallback,
        },
        None => fallback,
    }
}

/// The integer of 64 bits with sign that has the same bits.
pub open spec fn wrapped(n: u64) -> i64 {
    if n <= i64::MAX {
        n as i64
    } else {
        (n - 0x1_0000_0000_0000_0000) as i64
    }
}

/// An integer, or a text that stands for one.
pub open spec fn integer_of(v: Option<JsonView>) -> Option<i64> {
    match v {
        Some(v) => match v.signed_integer() {
            Some(n) => Some(n),
            None => match v.unsigned_integer() {
                Some(n) => Some(wrapped(n)),
                None => match v.text() {
                    Some(s) => match read_integer(trimmed(s)) {
                        Some(n) => if i64::MIN <= n <= i64::MAX {
                            Some(n as i64)
                        } else {
                            None
                        },
                        None => None,
                    },
                    None => None,
                },
            },
        },
        None => None,
    }
}

/// A window in minutes: as given in minutes, or in seconds, rounded up, or the fallback; at
/// least one.
pub open spec fn window_of(minutes: Option<JsonView>, seconds: Option<JsonView>, fallback: i64) -> i64 {
    let n: int = match integer_of(minutes) {
        Some(m) => m as int,
        None => match integer_of(seconds) {
            Some(s) => if s < 0 {
                0
            } else {
                (s + 59) / 60
            },
            None => fallback as int,
        },
    };
    if n < 1 {
        1
    } else {
        n as i64
    }
}

pub fn value_string(value: Option<&Json>, fallback: &str) -> (r: String)
    ensures
        r@ == text_or(crate::json::found(value), fallback@),
{
    match filled_text(member_text(value)) {
        Some(s) => s,
        None => fallback.to_owned(),
    }
}

pub fn value_to_f64(value: &Json) -> (r: Option<Double>)
    ensures
        r == number_of(value@),
{
    match value.as_f64() {
        Some(x) => Some(x),
        None => match value.as_str() {
            Some(s) => parse_double(trim(s).as_str()),
            None => None,
        },
    }
}

pub fn value_f64(value: Option<&Json>, fallback: Double) -> (r: Double)
    ensures
        r == number_or(crate::json::found(value), fallback),
{
    match value {
        Some(v) => match value_to_f64(v) {
            Some(x) => x,
            None => fallback,
        },
        None => fallback,
    }
}

pub fn value_i64(value: Option<&Json>) -> (r: Option<i64>)
    ensures
        r == integer_of(crate::json::found(value)),
{
    let v: &Json = match value {
        Some(v) => v,
        None => {
            return None;
        },
    };
    match v.as_i64() {
        Some(n) => {
            return Some(n);
        },
        None => {},
    }
    match v.as_u64() {
        Some(n) => {
            return Some(
                if n <= 0x7fff_ffff_ffff_ffff {
                    n as i64
                } else {
                    (n - 0x8000_0000_0000_0000) as i64 + i64::MIN
                },
            );
        },
        None => {},
    }
    match v.as_str() {
        Some(s) => parse_i64(trim(s).as_str()),
        None => None,
    }
}

pub fn value_window_minutes(minutes: Option<&Json>, seconds: Option<&Json>, fallback: i64) -> (r:
    i64)
    ensures
        r == window_of(crate::json::found(minutes), crate::json::found(seconds), fallback),
{
    let n: i64 = match value_i64(minutes) {
        Some(m) => m,
        None => match value_i64(seconds) {
            Some(s) => if s < 0 {
                0
            } else {
                ((s as i128 + 59) / 60) as i64
            },
            None => fallback,
        },
    };
    if n < 1 {
        1
    } else {
        n
    }
}

/// The members of an object under a name; none where there is no such object.
pub open spec fn object_under(m: Members, key: Seq<char>) -> Members {
    match member(m, key) {
        Some(JsonView::Object(o)) => o,
        _ => Seq::<(Seq<char>, JsonView)>::empty(),
    }
}

/// A member of the first of two objects that has it.
pub open spec fn either_member(a: Members, b: Members, key: Seq<char>) -> Option<JsonView> {
    either(member(a, key), member(b, key))
}

/// The market that a rule names, if it names one and not all of them.
pub open spec fn market_in(m: Members) -> Option<Seq<char>> {
    match either(
        text_in(member(object_under(m, "scope"@), "market_id"@)),
        text_in(member(m, "market_id"@)),
    ) {
        Some(s) => if trimmed(s).len() > 0 && !alike(trimmed(s), "all"@) {
            Some(trimmed(s))
        } else {
            None
        },
        None => None,
    }
}

/// The scope that a rule names, or the one that follows from whether it names a market.
pub open spec fn scope_in(m: Members) -> Seq<char> {
    let inferred = if market_in(m) is Some {
        "market"@
    } else {
        "protocol"@
    };
    match text_in(member(m, "scope"@)) {
        Some(s) => {
            let named = lowered(trimmed(s));
            if named == "market"@ || named == "protocol"@ {
                named
            } else {
                inferred
            }
        },
        None => inferred,
    }
}

/// The rule that an object at place `i` of the list describes.
pub open spec fn rule_in(m: Members, i: nat) -> RuleView {
    let scope = object_under(m, "scope"@);
    let limits = object_under(m, "thresholds"@);
    let contagion = object_under(m, "contagion"@);
    RuleView {
        rule_id: text_or(member(m, "rule_id"@), "tvl-rule-"@ + decimal(i + 1)),
        protocol_id: lowered(text_or(either_member(scope, m, "protocol_id"@), "aave_v3"@)),
        chain_slug: lowered(text_or(either_member(scope, m, "chain_slug"@), "base"@)),
        scope: scope_in(m),
        market_id: if scope_in(m) == "protocol"@ {
            None
        } else {
            match market_in(m) {
                Some(s) => Some(lowered(s)),
                None => None,
            }
        },
        fast_drop_pct: number_or(
            either_member(limits, m, "fast_drop_pct"@),
            double(DEFAULT_FAST_DROP_BITS),
        ),
        fast_window_minutes: window_of(
            either_member(limits, m, "fast_window_minutes"@),
            either_member(limits, m, "fast_window_sec"@),
            DEFAULT_FAST_WINDOW_MINUTES,
        ),
        slow_drop_pct: number_or(
            either_member(limits, m, "slow_drop_pct"@),
            double(DEFAULT_SLOW_DROP_BITS),
        ),
        slow_window_minutes: window_of(
            either_member(limits, m, "slow_window_minutes"@),
            either_member(limits, m, "slow_window_sec"@),
            DEFAULT_SLOW_WINDOW_MINUTES,
        ),
        velocity_critical_pct: number_or(
            either_member(limits, m, "velocity_critical_pct"@),
            double(DEFAULT_VELOCITY_BITS),
        ),
        velocity_critical_minutes: window_of(
            either_member(limits, m, "velocity_critical_minutes"@),
            either_member(limits, m, "velocity_window_sec"@),
            DEFAULT_VELOCITY_WINDOW_MINUTES,
        ),
        concurrent_window_minutes: window_of(
            either_member(m, limits, "concurrent_window_minutes"@),
            either(
                member(contagion, "overlap_window_sec"@),
                member(m, "concurrent_window_sec"@),
            ),
            DEFAULT_CONCURRENT_WINDOW_MINUTES,
        ),
        min_tvl_floor_usd: number_or(
            either_member(m, limits, "min_tvl_floor_usd"@),
            double(DEFAULT_FLOOR_BITS),
        ),
        enabled: boolean_in(member(m, "enabled"@)) != Some(false),
        contagion_enabled: either(
            boolean_in(member(contagion, "enabled"@)),
            boolean_in(member(m, "contagion_enabled"@)),
        ) != Some(false),
    }
}

/// The rule of a tenant that sets none.
pub open spec fn default_rule(id: Seq<char>) -> RuleView {
    RuleView {
        rule_id: id,
        protocol_id: "aave_v3"@,
        chain_slug: "base"@,
        scope: "protocol"@,
        market_id: None,
        fast_drop_pct: double(DEFAULT_FAST_DROP_BITS),
        fast_window_minutes: DEFAULT_FAST_WINDOW_MINUTES,
        slow_drop_pct: double(DEFAULT_SLOW_DROP_BITS),
        slow_window_minutes: DEFAULT_SLOW_WINDOW_MINUTES,
        velocity_critical_pct: double(DEFAULT_VELOCITY_BITS),
        velocity_critical_minutes: DEFAULT_VELOCITY_WINDOW_MINUTES,
        concurrent_window_minutes: DEFAULT_CONCURRENT_WINDOW_MINUTES,
        min_tvl_floor_usd: double(DEFAULT_FLOOR_BITS),
        enabled: true,
        contagion_enabled: true,
    }
}

/// The rules that the first `n` items of a list describe, without those that have a flaw.
pub open spec fn rules_in(s: Seq<JsonView>, n: nat) -> Seq<RuleView>
    decreases n,
{
    if n == 0 {
        Seq::<RuleView>::empty()
    } else {
        let before = rules_in(s, (n - 1) as nat);
        match s[n - 1] {
            JsonView::Object(m) => if flaw(rule_in(m, (n - 1) as nat)) is None {
                before.push(rule_in(m, (n - 1) as nat))
            } else {
                before
            },
            _ => before,
        }
    }
}

/// The rules of a configuration; a default one where it has none that is sound.
pub open spec fn configured_rules(config: JsonView) -> Seq<RuleView> {
    let found = match config.get("rules"@) {
        Some(JsonView::List(s)) => rules_in(s, s.len()),
        _ => Seq::<RuleView>::empty(),
    };
    if found.len() == 0 {
        seq![default_rule("tvl-default"@)]
    } else {
        found
    }
}

/// The contents of a list of rules.
pub open spec fn rules_view(v: Seq<TvlDropRule>) -> Seq<RuleView> {
    v.map_values(|r: TvlDropRule| r@)
}

pub fn default_tvl_drop_rule(rule_id: &str) -> (r: TvlDropRule)
    ensures
        r@ == default_rule(rule_id@),
{
    TvlDropRule {
        rule_id: rule_id.to_owned(),
        protocol_id: "aave_v3".to_owned(),
        chain_slug: "base".to_owned(),
        scope: "protocol".to_owned(),
        market_id: None,
        fast_drop_pct: Double { bits: DEFAULT_FAST_DROP_BITS },
        fast_window_minutes: DEFAULT_FAST_WINDOW_MINUTES,
        slow_drop_pct: Double { bits: DEFAULT_SLOW_DROP_BITS },
        slow_window_minutes: DEFAULT_SLOW_WINDOW_MINUTES,
        velocity_critical_pct: Double { bits: DEFAULT_VELOCITY_BITS },
        velocity_critical_minutes: DEFAULT_VELOCITY_WINDOW_MINUTES,
        concurrent_window_minutes: DEFAULT_CONCURRENT_WINDOW_MINUTES,
        min_tvl_floor_usd: Double { bits: DEFAULT_FLOOR_BITS },
        enabled: true,
        contagion_enabled: true,
    }
}

fn read_object<'a>(m: &'a Vec<(String, Json)>, key: &str, none: &'a Vec<(String, Json)>) -> (r:
    &'a Vec<(String, Json)>)
    requires
        none@.len() == 0,
    ensures
        members_view(r@) == object_under(members_view(m@), key@),
{
    assert(members_view(none@) =~= Seq::<(Seq<char>, JsonView)>::empty());
    match member_of(m, key) {
        Some(v) => match v.as_object() {
            Some(o) => o,
            None => none,
        },
        None => none,
    }
}

fn read_either<'a>(a: &'a Vec<(String, Json)>, b: &'a Vec<(String, Json)>, key: &str) -> (r: Option<
    &'a Json,
>)
    ensures
        crate::json::found(r) == either_member(members_view(a@), members_view(b@), key@),
{
    either_of(member_of(a, key), member_of(b, key))
}

fn read_market(m: &Vec<(String, Json)>, scope: &Vec<(String, Json)>) -> (r: Option<String>)
    requires
        members_view(scope@) == object_under(members_view(m@), "scope"@),
    ensures
        text_option(r) == market_in(members_view(m@)),
{
    let text: Option<&str> = match member_text(member_of(scope, "market_id")) {
        Some(s) => Some(s),
        None => member_text(member_of(m, "market_id")),
    };
    match filled_text(text) {
        Some(s) => if same_ignoring_case(s.as_str(), "all") {
            None
        } else {
            Some(s)
        },
        None => None,
    }
}

fn read_scope(m: &Vec<(String, Json)>, has_market: bool) -> (r: String)
    requires
        has_market == (market_in(members_view(m@)) is Some),
    ensures
        r@ == scope_in(members_view(m@)),
{
    match member_text(member_of(m, "scope")) {
        Some(s) => {
            let named: String = lowercase(trim(s).as_str());
            if same(named.as_str(), "market") || same(named.as_str(), "protocol") {
                return named;
            }
        },
        None => {},
    }
    if has_market {
        "market".to_owned()
    } else {
        "protocol".to_owned()
    }
}

fn read_rule(m: &Vec<(String, Json)>, i: usize) -> (r: TvlDropRule)
    requires
        i < usize::MAX,
    ensures
        r@ == rule_in(members_view(m@), i as nat),
{
    let none: Vec<(String, Json)> = Vec::new();
    let scope: &Vec<(String, Json)> = read_object(m, "scope", &none);
    let limits: &Vec<(String, Json)> = read_object(m, "thresholds", &none);
    let contagion: &Vec<(String, Json)> = read_object(m, "contagion", &none);
    let market: Option<String> = read_market(m, scope);
    let scope_name: String = read_scope(m, market.is_some());
    let market_id: Option<String> = if same(scope_name.as_str(), "protocol") {
        None
    } else {
        match &market {
            Some(s) => Some(lowercase(s.as_str())),
            None => None,
        }
    };
    let number: String = decimal_text(i as u64 + 1);
    let contagion_flag: Option<bool> = match member_bool(member_of(contagion, "enabled")) {
        Some(b) => Some(b),
        None => member_bool(member_of(m, "contagion_enabled")),
    };
    TvlDropRule {
        rule_id: value_string(
            member_of(m, "rule_id"),
            join("tvl-rule-", number.as_str()).as_str(),
        ),
        protocol_id: lowercase(
            value_string(read_either(scope, m, "protocol_id"), "aave_v3").as_str(),
        ),
        chain_slug: lowercase(
            value_string(read_either(scope, m, "chain_slug"), "base").as_str(),
        ),
        scope: scope_name,
        market_id,
        fast_drop_pct: value_f64(
            read_either(limits, m, "fast_drop_pct"),
            Double { bits: DEFAULT_FAST_DROP_BITS },
        ),
        fast_window_minutes: value_window_minutes(
            read_either(limits, m, "fast_window_minutes"),
            read_either(limits, m, "fast_window_sec"),
            DEFAULT_FAST_WINDOW_MINUTES,
        ),
        slow_drop_pct: value_f64(
            read_either(limits, m, "slow_drop_pct"),
            Double { bits: DEFAULT_SLOW_DROP_BITS },
        ),
        slow_window_minutes: value_window_minutes(
            read_either(limits, m, "slow_window_minutes"),
            read_either(limits, m, "slow_window_sec"),
            DEFAULT_SLOW_WINDOW_MINUTES,
        ),
        velocity_critical_pct: value_f64(
            read_either(limits, m, "velocity_critical_pct"),
            Double { bits: DEFAULT_VELOCITY_BITS },
        ),
        velocity_critical_minutes: value_window_minutes(
            read_either(limits, m, "velocity_critical_minutes"),
            read_either(limits, m, "velocity_window_sec"),
            DEFAULT_VELOCITY_WINDOW_MINUTES,
        ),
        concurrent_window_minutes: value_window_minutes(
            read_either(m, limits, "concurrent_window_minutes"),
            either_of(
                member_of(contagion, "overlap_window_sec"),
                member_of(m, "concurrent_window_sec"),
            ),
            DEFAULT_CONCURRENT_WINDOW_MINUTES,
        ),
        min_tvl_floor_usd: value_f64(
            read_either(m, limits, "min_tvl_floor_usd"),
            Double { bits: DEFAULT_FLOOR_BITS },
        ),
        enabled: member_bool(member_of(m, "enabled")).unwrap_or(true),
        contagion_enabled: contagion_flag.unwrap_or(true),
    }
}

/// The rules of a configuration; a default one where it has none that is sound.
pub fn parse_tvl_drop_rules(config: &Json) -> (r: Vec<TvlDropRule>)
    ensures
        rules_view(r@) == configured_rules(config@),
{
    let mut r: Vec<TvlDropRule> = Vec::new();
    assert(rules_view(r@) =~= Seq::<RuleView>::empty());
    let none: Vec<Json> = Vec::new();
    let items: &Vec<Json> = match config.get("rules") {
        Some(v) => match v.as_array() {
            Some(items) => items,
            None => &none,
        },
        None => &none,
    };
    let ghost all = list_view(items@);
    let mut i: usize = 0;
    while i < items.len()
        invariant
            i <= items.len(),
            all == list_view(items@),
            rules_view(r@) == rules_in(all, i as nat),
        decreases items.len() - i,
    {
        assert(all[i as int] == items@[i as int]@);
        match items[i].as_object() {
            Some(m) => {
                let rule: TvlDropRule = read_rule(m, i);
                let ghost before = r@;
                if rule.validate().is_ok() {
                    r.push(rule);
                    assert(rules_view(r@) =~= rules_view(before).push(rule@));
                }
            },
            None => {},
        }
        i = i + 1;
    }
    if r.len() == 0 {
        r.push(default_tvl_drop_rule("tvl-default"));
        assert(rules_view(r@) =~= seq![default_rule("tvl-default"@)]);
    }
    r
}

// ---------------------------------------------------------------------------
// Laws
// ---------------------------------------------------------------------------

proof fn lemma_rules_are_sound(s: Seq<JsonView>, n: nat)
    ensures
        forall|i: int| 0 <= i < rules_in(s, n).len() ==> flaw(#[trigger] rules_in(s, n)[i]) is None,
    decreases n,
{
    if n > 0 {
        lemma_rules_are_sound(s, (n - 1) as nat);
    }
}

proof fn lemma_default_rule_is_sound()
    ensures
        flaw(default_rule("tvl-default"@)) is None,
{
    reveal_strlit("tvl-default");
    reveal_strlit("aave_v3");
    reveal_strlit("base");
    reveal_strlit("protocol");
    reveal_strlit("market");
    assert("protocol"@.len() == 8 && "market"@.len() == 6);
    assert("tvl-default"@[0] == 't' && "tvl-default"@.last() == 't');
    assert("aave_v3"@[0] == 'a' && "aave_v3"@.last() == '3');
    assert("base"@[0] == 'b' && "base"@.last() == 'e');
}

/// A tenant always has a rule, and every rule of a tenant is sound.
pub proof fn law_configured_rules_are_sound(config: JsonView)
    ensures
        configured_rules(config).len() > 0,
        forall|i: int|
            0 <= i < configured_rules(config).len() ==> flaw(
                #[trigger] configured_rules(config)[i],
            ) is None,
{
    lemma_default_rule_is_sound();
    match config.get("rules"@) {
        Some(JsonView::List(s)) => {
            lemma_rules_are_sound(s, s.len());
        },
        _ => {},
    }
}

/// A rule is sound exactly where it has its names, limits and windows above zero, a floor that
/// is not negative, and a market where it is for one.
pub proof fn law_sound_rules_have_what_they_need(r: RuleView)
    requires
        r.fast_drop_pct.finite(),
        r.slow_drop_pct.finite(),
        r.velocity_critical_pct.finite(),
        r.min_tvl_floor_usd.finite(),
    ensures
        flaw(r) is None <==> {
            &&& trimmed(r.rule_id).len() > 0
            &&& trimmed(r.protocol_id).len() > 0
            &&& trimmed(r.chain_slug).len() > 0
            &&& r.fast_drop_pct.value() > 0
            &&& r.slow_drop_pct.value() > 0
            &&& r.velocity_critical_pct.value() > 0
            &&& r.fast_window_minutes > 0
            &&& r.slow_window_minutes > 0
            &&& r.velocity_critical_minutes > 0
            &&& r.concurrent_window_minutes > 0
            &&& r.min_tvl_floor_usd.value() >= 0
            &&& r.scope == "market"@ ==> r.market_id is Some && trimmed(r.market_id->0).len() > 0
        },
        flaw(r) == Some(RuleError::RuleId) <==> trimmed(r.rule_id).len() == 0,
        flaw(r) == Some(RuleError::ProtocolId) <==> trimmed(r.rule_id).len() > 0 && trimmed(
            r.protocol_id,
        ).len() == 0,
        flaw(r) == Some(RuleError::TvlFloor) ==> r.min_tvl_floor_usd.value() < 0,
        flaw(r) == Some(RuleError::MarketId) ==> r.scope == "market"@,
        flaw(r) == Some(RuleError::DropThreshold) ==> r.fast_drop_pct.value() <= 0
            || r.slow_drop_pct.value() <= 0 || r.velocity_critical_pct.value() <= 0,
        flaw(r) == Some(RuleError::WindowMinutes) ==> r.fast_window_minutes <= 0
            || r.slow_window_minutes <= 0 || r.velocity_critical_minutes <= 0
            || r.concurrent_window_minutes <= 0,
{
    let zero = double(0);
    crate::aggregation::lemma_zero_value();
    crate::double::law_order_is_by_value(r.fast_drop_pct, zero);
    crate::double::law_order_is_by_value(r.slow_drop_pct, zero);
    crate::double::law_order_is_by_value(r.velocity_critical_pct, zero);
    crate::double::law_order_is_by_value(r.min_tvl_floor_usd, zero);
}

/// A rule concerns its own protocol on its own chain, in any case of letters, and one for a
/// market that market alone; one for a protocol does not ask for the market.
pub proof fn law_rules_concern_their_subject(
    r: RuleView,
    protocol: Seq<char>,
    chain: Seq<char>,
    market: Option<Seq<char>>,
)
    ensures
        lowered(protocol) != lowered(r.protocol_id) ==> !concerns(r, protocol, chain, market),
        lowered(chain) != lowered(r.chain_slug) ==> !concerns(r, protocol, chain, market),
        !for_market(r) && lowered(protocol) == lowered(r.protocol_id) && lowered(chain) == lowered(
            r.chain_slug,
        ) ==> concerns(r, protocol, chain, market),
        for_market(r) && market is Some && r.market_id is Some && lowered(protocol) == lowered(
            r.protocol_id,
        ) && lowered(chain) == lowered(r.chain_slug) ==> (concerns(r, protocol, chain, market)
            <==> lowered(market->0) == lowered(r.market_id->0)),
        for_market(r) <==> lowered(r.scope) == lowered("market"@),
{
}

/// The subject of a rule for a protocol is the protocol; that of a rule for a market is the
/// market that the rule names, or else the one at hand.
pub proof fn law_subjects_are_protocols_or_markets(
    r: RuleView,
    market: Option<Seq<char>>,
    name: Seq<char>,
)
    requires
        trimmed(name).len() > 0,
    ensures
        protocol_key(r) == lowered(r.protocol_id) + ":"@ + lowered(r.chain_slug),
        !for_market(r) ==> subject(r, market) == Some(
            ("protocol"@, protocol_key(r), protocol_key(r)),
        ),
        for_market(r) && r.market_id == Some(name) ==> subject(r, market) == Some(
            ("market"@, protocol_key(r) + ":"@ + lowered(trimmed(name)), protocol_key(r)),
        ),
        for_market(r) && r.market_id is None && market == Some(name) ==> subject(r, market) == Some(
            ("market"@, protocol_key(r) + ":"@ + lowered(trimmed(name)), protocol_key(r)),
        ),
        for_market(r) && r.market_id is None && market is None ==> subject(r, market) is None,
{
}

/// A number may be written as one or as a text, margins aside; anything else leaves the
/// fallback.
pub proof fn law_numbers_may_be_texts(n: int, x: Double, s: Seq<char>, fallback: Double)
    ensures
        number_of(JsonView::Whole(n)) == Some(of_int(n)),
        number_of(JsonView::Float(x)) == Some(x),
        number_of(JsonView::Text(s)) == read_double(trimmed(s)),
        number_of(JsonView::Null) is None,
        number_or(Some(JsonView::Float(x)), fallback) == x,
        number_or(None, fallback) == fallback,
        number_or(Some(JsonView::Null), fallback) == fallback,
        read_double(trimmed(s)) is Some ==> number_or(Some(JsonView::Text(s)), fallback)
            == read_double(trimmed(s))->0,
        read_double(trimmed(s)) is None ==> number_or(Some(JsonView::Text(s)), fallback)
            == fallback,
{
}

/// A text is taken without its margins; an empty one, or none, leaves the fallback.
pub proof fn law_empty_texts_leave_the_fallback(s: Seq<char>, fallback: Seq<char>)
    ensures
        trimmed(s).len() > 0 ==> text_or(Some(JsonView::Text(s)), fallback) == trimmed(s),
        trimmed(s).len() == 0 ==> text_or(Some(JsonView::Text(s)), fallback) == fallback,
        text_or(None, fallback) == fallback,
{
}

/// A window is at least a minute. It is what is given in minutes, and seconds count only where
/// no minutes are given: the window is then the shortest one in whole minutes that holds them.
pub proof fn law_windows_are_whole_minutes(
    minutes: Option<JsonView>,
    seconds: Option<JsonView>,
    n: i64,
    fallback: i64,
)
    ensures
        window_of(minutes, seconds, fallback) >= 1,
        minutes == Some(JsonView::Whole(n as int)) && n >= 1 ==> window_of(
            minutes,
            seconds,
            fallback,
        ) == n,
        minutes is None && seconds == Some(JsonView::Whole(n as int)) && n >= 1 ==> {
            let w = window_of(minutes, seconds, fallback);
            &&& w * 60 >= n
            &&& (w - 1) * 60 < n
        },
        minutes == Some(JsonView::Whole(n as int)) && n < 1 ==> window_of(minutes, seconds, fallback)
            == 1,
        minutes is None && seconds == Some(JsonView::Whole(n as int)) && n < 1 ==> window_of(
            minutes,
            seconds,
            fallback,
        ) == 1,
        minutes is None && seconds is None && fallback >= 1 ==> window_of(minutes, seconds, fallback)
            == fallback,
{
}

/// An integer may be written as one or as a text, margins aside.
pub proof fn law_integers_may_be_texts(n: i64, s: Seq<char>)
    ensures
        integer_of(Some(JsonView::Whole(n as int))) == Some(n),
        read_integer(trimmed(s)) == Some(n as int) ==> integer_of(Some(JsonView::Text(s))) == Some(
            n,
        ),
        read_integer(trimmed(s)) is None ==> integer_of(Some(JsonView::Text(s))) is None,
        integer_of(None) is None,
        integer_of(Some(JsonView::Null)) is None,
{
}

/// The scope of a rule is what it says, or else a market where it names one.
pub proof fn law_scopes_follow_from_the_market(m: Members, s: Seq<char>)
    ensures
        member(m, "scope"@) == Some(JsonView::Text(s)) && lowered(trimmed(s)) == "market"@
            ==> scope_in(m) == "market"@,
        member(m, "scope"@) == Some(JsonView::Text(s)) && lowered(trimmed(s)) == "protocol"@
            ==> scope_in(m) == "protocol"@,
        text_in(member(m, "scope"@)) is None && market_in(m) is Some ==> scope_in(m) == "market"@,
        text_in(member(m, "scope"@)) is None && market_in(m) is None ==> scope_in(m)
            == "protocol"@,
        scope_in(m) == "market"@ || scope_in(m) == "protocol"@,
{
}

/// A rule is for the market that its scope names, or else the rule itself; the word for all
/// markets names none.
pub proof fn law_rules_name_their_market(m: Members, s: Seq<char>)
    requires
        trimmed(s).len() > 0,
        lowered(trimmed(s)) != lowered("all"@),
    ensures
        member(object_under(m, "scope"@), "market_id"@) == Some(JsonView::Text(s)) ==> market_in(m)
            == Some(trimmed(s)),
        member(object_under(m, "scope"@), "market_id"@) is None && member(m, "market_id"@) == Some(
            JsonView::Text(s),
        ) ==> market_in(m) == Some(trimmed(s)),
        market_in(m) is Some ==> lowered(market_in(m)->0) != lowered("all"@),
        rule_in(m, 0).scope == "protocol"@ ==> rule_in(m, 0).market_id is None,
        rule_in(m, 0).scope == "market"@ && market_in(m) is Some ==> rule_in(m, 0).market_id
            == Some(lowered(market_in(m)->0)),
{
    reveal_strlit("market");
    reveal_strlit("protocol");
    assert("market"@[0] != "protocol"@[0]);
}

/// What stands under the limits of a rule goes before what stands in the rule itself, and where
/// neither gives a limit the usual one holds.
pub proof fn law_limits_are_read_inside_out(m: Members, i: nat, x: Double)
    ensures
        ({
            let t = object_under(m, "thresholds"@);
            let r = rule_in(m, i);
            &&& member(t, "fast_drop_pct"@) == Some(JsonView::Float(x)) ==> r.fast_drop_pct == x
            &&& member(t, "slow_drop_pct"@) == Some(JsonView::Float(x)) ==> r.slow_drop_pct == x
            &&& member(t, "velocity_critical_pct"@) == Some(JsonView::Float(x))
                ==> r.velocity_critical_pct == x
            &&& member(t, "fast_drop_pct"@) is None && member(m, "fast_drop_pct"@) == Some(
                JsonView::Float(x),
            ) ==> r.fast_drop_pct == x
            &&& member(t, "slow_drop_pct"@) is None && member(m, "slow_drop_pct"@) == Some(
                JsonView::Float(x),
            ) ==> r.slow_drop_pct == x
            &&& member(t, "velocity_critical_pct"@) is None && member(m, "velocity_critical_pct"@)
                == Some(JsonView::Float(x)) ==> r.velocity_critical_pct == x
            &&& member(m, "min_tvl_floor_usd"@) == Some(JsonView::Float(x)) ==> r.min_tvl_floor_usd
                == x
            &&& member(m, "min_tvl_floor_usd"@) is None && member(t, "min_tvl_floor_usd"@) == Some(
                JsonView::Float(x),
            ) ==> r.min_tvl_floor_usd == x
        }),
{
}

/// Windows are read as limits are, in minutes or in seconds; how far apart falls may lie to be
/// concurrent is first asked of the rule itself, and in seconds of what it says of contagion.
pub proof fn law_windows_are_read_inside_out(m: Members, i: nat, n: i64)
    requires
        n >= 1,
    ensures
        ({
            let t = object_under(m, "thresholds"@);
            let c = object_under(m, "contagion"@);
            let r = rule_in(m, i);
            let v = Some(JsonView::Whole(n as int));
            &&& member(t, "fast_window_minutes"@) == v ==> r.fast_window_minutes == n
            &&& member(t, "slow_window_minutes"@) == v ==> r.slow_window_minutes == n
            &&& member(t, "velocity_critical_minutes"@) == v ==> r.velocity_critical_minutes == n
            &&& member(t, "fast_window_minutes"@) is None && member(m, "fast_window_minutes"@) == v
                ==> r.fast_window_minutes == n
            &&& member(t, "slow_window_minutes"@) is None && member(m, "slow_window_minutes"@) == v
                ==> r.slow_window_minutes == n
            &&& member(t, "velocity_critical_minutes"@) is None && member(
                m,
                "velocity_critical_minutes"@,
            ) == v ==> r.velocity_critical_minutes == n
            &&& member(m, "concurrent_window_minutes"@) == v ==> r.concurrent_window_minutes == n
            &&& member(t, "fast_window_minutes"@) is None && member(m, "fast_window_minutes"@)
                is None && member(t, "fast_window_sec"@) == v ==> r.fast_window_minutes * 60 >= n
                && (r.fast_window_minutes - 1) * 60 < n
            &&& member(t, "slow_window_minutes"@) is None && member(m, "slow_window_minutes"@)
                is None && member(t, "slow_window_sec"@) == v ==> r.slow_window_minutes * 60 >= n
                && (r.slow_window_minutes - 1) * 60 < n
            &&& member(t, "velocity_critical_minutes"@) is None && member(
                m,
                "velocity_critical_minutes"@,
            ) is None && member(t, "velocity_window_sec"@) == v ==> r.velocity_critical_minutes * 60
                >= n && (r.velocity_critical_minutes - 1) * 60 < n
            &&& member(m, "concurrent_window_minutes"@) is None && member(
                t,
                "concurrent_window_minutes"@,
            ) is None && member(c, "overlap_window_sec"@) == v ==> r.concurrent_window_minutes * 60
                >= n && (r.concurrent_window_minutes - 1) * 60 < n
        }),
{
}

/// A rule has the name, the protocol and the chain that it gives, and what it says is turned
/// off is off; otherwise it is on.
pub proof fn law_rules_are_on_unless_turned_off(m: Members, i: nat, s: Seq<char>)
    requires
        trimmed(s).len() > 0,
    ensures
        ({
            let scope = object_under(m, "scope"@);
            let c = object_under(m, "contagion"@);
            let r = rule_in(m, i);
            &&& member(m, "rule_id"@) == Some(JsonView::Text(s)) ==> r.rule_id == trimmed(s)
            &&& member(m, "rule_id"@) is None ==> r.rule_id == "tvl-rule-"@ + decimal(i + 1)
            &&& member(scope, "protocol_id"@) == Some(JsonView::Text(s)) ==> r.protocol_id
                == lowered(trimmed(s))
            &&& member(scope, "protocol_id"@) is None && member(m, "protocol_id"@) == Some(
                JsonView::Text(s),
            ) ==> r.protocol_id == lowered(trimmed(s))
            &&& member(scope, "chain_slug"@) == Some(JsonView::Text(s)) ==> r.chain_slug == lowered(
                trimmed(s),
            )
            &&& member(scope, "chain_slug"@) is None && member(m, "chain_slug"@) == Some(
                JsonView::Text(s),
            ) ==> r.chain_slug == lowered(trimmed(s))
            &&& r.enabled <==> member(m, "enabled"@) != Some(JsonView::Bool(false))
            &&& member(c, "enabled"@) == Some(JsonView::Bool(false)) ==> !r.contagion_enabled
            &&& member(c, "enabled"@) == Some(JsonView::Bool(true)) ==> r.contagion_enabled
            &&& member(c, "enabled"@) is None ==> (r.contagion_enabled <==> member(
                m,
                "contagion_enabled"@,
            ) != Some(JsonView::Bool(false)))
        }),
{
}

proof fn lemma_no_rule_is_lost(s: Seq<JsonView>, n: nat, i: int, m: Members)
    requires
        0 <= i < n <= s.len(),
        s[i] == JsonView::Object(m),
        flaw(rule_in(m, i as nat)) is None,
    ensures
        rules_in(s, n).contains(rule_in(m, i as nat)),
    decreases n,
{
    let before = rules_in(s, (n - 1) as nat);
    let r = rule_in(m, i as nat);
    if i == n - 1 {
        assert(rules_in(s, n) == before.push(r));
        assert(rules_in(s, n)[before.len() as int] == r);
    } else {
        lemma_no_rule_is_lost(s, (n - 1) as nat, i, m);
        let k = choose|k: int| 0 <= k < before.len() && before[k] == r;
        assert(rules_in(s, n)[k] == r);
    }
}

/// Every sound rule of a configuration is among the rules of its tenant; one that sets no rules
/// has the usual one.
pub proof fn law_no_sound_rule_is_lost(config: JsonView, s: Seq<JsonView>, i: int, m: Members)
    ensures
        config.get("rules"@) == Some(JsonView::List(s)) && 0 <= i < s.len() && s[i]
            == JsonView::Object(m) && flaw(rule_in(m, i as nat)) is None ==> configured_rules(
            config,
        ).contains(rule_in(m, i as nat)),
        config.get("rules"@) is None ==> configured_rules(config) == seq![
            default_rule("tvl-default"@),
        ],
{
    if config.get("rules"@) == Some(JsonView::List(s)) && 0 <= i < s.len() && s[i]
        == JsonView::Object(m) && flaw(rule_in(m, i as nat)) is None {
        lemma_no_rule_is_lost(s, s.len(), i, m);
    }
}

/// A rule that sets no limits falls back on the usual ones: twenty percent within ten minutes,
/// thirty-five within an hour, fifteen within two minutes, five minutes for falls to be
/// concurrent, and a floor of a million.
pub proof fn law_rules_without_limits_have_the_usual_ones(m: Members, i: nat, id: Seq<char>)
    requires
        m.len() == 0,
    ensures
        ({
            let r = rule_in(m, i);
            &&& r.fast_drop_pct == double(0x4034_0000_0000_0000)
            &&& r.slow_drop_pct == double(0x4041_8000_0000_0000)
            &&& r.velocity_critical_pct == double(0x402e_0000_0000_0000)
            &&& r.min_tvl_floor_usd == double(0x412e_8480_0000_0000)
            &&& r.fast_window_minutes == 10
            &&& r.slow_window_minutes == 60
            &&& r.velocity_critical_minutes == 2
            &&& r.concurrent_window_minutes == 5
            &&& r.enabled
            &&& r.contagion_enabled
            &&& r.scope == "protocol"@
            &&& r.market_id is None
            &&& default_rule(id).rule_id == id
            &&& default_rule(id).fast_drop_pct == r.fast_drop_pct
            &&& default_rule(id).slow_drop_pct == r.slow_drop_pct
            &&& default_rule(id).velocity_critical_pct == r.velocity_critical_pct
            &&& default_rule(id).min_tvl_floor_usd == r.min_tvl_floor_usd
            &&& default_rule(id).fast_window_minutes == r.fast_window_minutes
            &&& default_rule(id).slow_window_minutes == r.slow_window_minutes
            &&& default_rule(id).velocity_critical_minutes == r.velocity_critical_minutes
            &&& default_rule(id).concurrent_window_minutes == r.concurrent_window_minutes
        }),
{
}

} // verus!
