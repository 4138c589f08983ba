//! Rules that tenants write themselves and a runtime service executes: which of them an event
//! is run through, what the service is asked, and what is made of its reports.

use vstd::prelude::*;
use vstd::string::StringExecFns;

use crate::aggregation::double;
use crate::assoc::is_place;
use crate::assoc::lemma_lookup;
use crate::assoc::lemma_put;
use crate::assoc::lookup;
use crate::assoc::put;
use crate::double::Double;
use crate::event::numbers_view;
use crate::event::rank;
use crate::event::severity_name;
use crate::event::signals_view;
use crate::event::AttackFamily;
use crate::event::Chain;
use crate::event::ContextClassification;
use crate::event::DetectionResult;
use crate::event::DetectionSignal;
use crate::event::DetectionView;
use crate::event::IncidentTransition;
use crate::event::LifecycleState;
use crate::event::RiskScore;
use crate::event::RiskView;
use crate::event::Severity;
use crate::event::SignalType;
use crate::event::SignalView;
use crate::event::UnifiedEvent;
use crate::json::add_member;
use crate::json::copy_members;
use crate::json::integer_in;
use crate::json::list_view;
use crate::json::member;
use crate::json::member_i64;
use crate::json::member_of;
use crate::json::member_text;
use crate::json::members_view;
use crate::json::number_json;
use crate::json::put_member;
use crate::json::text_in;
use crate::json::texts_json;
use crate::json::texts_to_json;
use crate::json::with_member;
use crate::json::Json;
use crate::json::JsonView;
use crate::json::Members;
use crate::outside::current_time;
use crate::outside::fresh_id;
use crate::outside::is_clock_time;
use crate::outside::is_id;
use crate::outside::rfc3339;
use crate::outside::timestamp_text;
use crate::settings::ConfigEntry;
use crate::text::copy_option;
use crate::text::cut_back;
use crate::text::decimal;
use crate::text::decimal_text;
use crate::text::join;
use crate::text::join3;
use crate::text::lowercase;
use crate::text::lowered;
use crate::text::one_text;
use crate::text::same;
use crate::text::strip_back;
use crate::text::text_option;
use crate::text::texts;
use crate::text::trim;
use crate::text::trimmed;
use crate::text::Margin;
use crate::time::Timestamp;

verus! {

/// The bits of the scores 95.0, 80.0, 60.0, 35.0 and 10.0.
pub const CRITICAL_SCORE_BITS: u64 = 0x4057_c000_0000_0000;

pub const HIGH_SCORE_BITS: u64 = 0x4054_0000_0000_0000;

pub const MEDIUM_SCORE_BITS: u64 = 0x404e_0000_0000_0000;

pub const LOW_SCORE_BITS: u64 = 0x4041_8000_0000_0000;

pub const INFO_SCORE_BITS: u64 = 0x4024_0000_0000_0000;

/// The bits of 0.72.
pub const ALERT_CONFIDENCE_BITS: u64 = 0x3fe7_0a3d_70a3_d70a;

/// A rule as it was compiled.
#[derive(Debug)]
pub struct CompiledRuleRef {
    pub rule_id: String,
    pub version: Option<i64>,
    pub language: String,
    pub engine: String,
    pub compiled_artifact: Json,
    pub params: Json,
}

pub struct CompiledView {
    pub rule_id: Seq<char>,
    pub version: Option<i64>,
    pub language: Seq<char>,
    pub engine: Seq<char>,
    pub compiled_artifact: JsonView,
    pub params: JsonView,
}

impl View for CompiledRuleRef {
    type V = CompiledView;

    open spec fn view(&self) -> CompiledView {
        CompiledView {
            rule_id: self.rule_id@,
            version: self.version,
            language: self.language@,
            engine: self.engine@,
            compiled_artifact: self.compiled_artifact@,
            params: self.params@,
        }
    }
}

impl CompiledRuleRef {
    pub fn copy(&self) -> (r: CompiledRuleRef)
        ensures
            r@ == self@,
    {
        CompiledRuleRef {
            rule_id: self.rule_id.clone(),
            version: self.version,
            language: self.language.clone(),
            engine: self.engine.clone(),
            compiled_artifact: self.compiled_artifact.copy(),
            params: self.params.copy(),
        }
    }
}

/// The contents of a list of rules.
pub open spec fn compiled_view(v: Seq<CompiledRuleRef>) -> Seq<CompiledView> {
    v.map_values(|r: CompiledRuleRef| r@)
}

/// The rules of a tenant for a pattern.
#[derive(Debug)]
pub struct RuleSet {
    pub pattern_id: String,
    pub tenant_id: String,
    pub rules: Vec<CompiledRuleRef>,
}

#[verifier::ext_equal]
pub struct RuleSetView {
    pub pattern_id: Seq<char>,
    pub tenant_id: Seq<char>,
    pub rules: Seq<CompiledView>,
}

impl View for RuleSet {
    type V = RuleSetView;

    open spec fn view(&self) -> RuleSetView {
        RuleSetView {
            pattern_id: self.pattern_id@,
            tenant_id: self.tenant_id@,
            rules: compiled_view(self.rules@),
        }
    }
}

/// The contents of a list of rule sets.
pub open spec fn sets_view(v: Seq<RuleSet>) -> Seq<RuleSetView> {
    v.map_values(|r: RuleSet| r@)
}

/// Whether a rule's last run failed.
#[derive(Debug)]
pub struct RuleHealth {
    pub key: String,
    pub degraded: bool,
}

/// Keys of rules and whether their last run failed.
pub open spec fn health_view(v: Seq<RuleHealth>) -> Seq<(Seq<char>, bool)> {
    v.map_values(|h: RuleHealth| (h.key@, h.degraded))
}

/// The pattern that runs events through the rules that tenants write.
#[derive(Debug)]
pub struct GenericRulePattern {
    pub compiled_rules: Vec<RuleSet>,
    pub runtime_url: Option<String>,
    pub runtime_token: Option<String>,
    pub runtime_degraded: Vec<RuleHealth>,
}

// ---------------------------------------------------------------------------
// Configuration
// ---------------------------------------------------------------------------

/// An address without white space around it and slashes behind it, unless nothing is left.
pub open spec fn base_address(s: Option<Seq<char>>) -> Option<Seq<char>> {
    match s {
        Some(s) => {
            let a = cut_back(Margin::Slash, trimmed(s));
            if a.len() == 0 {
                None
            } else {
                Some(a)
            }
        },
        None => None,
    }
}

/// A token, unless it is blank.
pub open spec fn usable_token(s: Option<Seq<char>>) -> Option<Seq<char>> {
    match s {
        Some(s) => if trimmed(s).len() == 0 {
            None
        } else {
            Some(s)
        },
        None => None,
    }
}

/// Whether a pattern has a detector of its own, so that its rules are not run here.
pub open spec fn built_in(pattern: Seq<char>) -> bool {
    pattern == "dpeg"@ || pattern == "flash_loan"@ || pattern == "tvl_drop"@
}

/// Whether an engine runs in the sandbox.
pub open spec fn sandboxed(engine: Seq<char>) -> bool {
    engine == "python-sandbox-v1"@ || engine == "js-sandbox-v1"@
}

/// A document, or an empty object where there is none.
pub open spec fn or_empty_object(v: Option<JsonView>) -> JsonView {
    match v {
        Some(v) => v,
        None => JsonView::Object(Seq::<(Seq<char>, JsonView)>::empty()),
    }
}

/// A text, or the fallback where there is none.
pub open spec fn text_or_else(v: Option<JsonView>, fallback: Seq<char>) -> Seq<char> {
    match text_in(v) {
        Some(s) => s,
        None => fallback,
    }
}

/// The rule that an object describes: one with a name whose engine runs in the sandbox.
pub open spec fn rule_in(m: Members) -> Option<CompiledView> {
    let rule_id = match text_in(member(m, "rule_id"@)) {
        Some(s) => trimmed(s),
        None => Seq::<char>::empty(),
    };
    let artifact = or_empty_object(member(m, "compiled_artifact"@));
    let engine = text_or_else(artifact.get("engine"@), "unknown"@);
    if rule_id.len() == 0 || !sandboxed(engine) {
        None
    } else {
        Some(
            CompiledView {
                rule_id,
                version: integer_in(member(m, "rule_version"@)),
                language: text_or_else(member(m, "language"@), "cel"@),
                engine,
                compiled_artifact: artifact,
                params: or_empty_object(member(m, "authoring_model"@)),
            },
        )
    }
}

/// The rules that the first `n` items of a list describe.
pub open spec fn rules_in(s: Seq<JsonView>, n: nat) -> Seq<CompiledView>
    decreases n,
{
    if n == 0 {
        Seq::<CompiledView>::empty()
    } else {
        let before = rules_in(s, (n - 1) as nat);
        match s[n - 1] {
            JsonView::Object(m) => match rule_in(m) {
                Some(r) => before.push(r),
                None => before,
            },
            _ => before,
        }
    }
}

/// The rules of a configuration.
pub open spec fn configured(config: JsonView) -> Seq<CompiledView> {
    match config.get("rules"@) {
        Some(JsonView::List(s)) => rules_in(s, s.len()),
        _ => Seq::<CompiledView>::empty(),
    }
}

/// Whether a rule set is that of a tenant for a pattern.
pub open spec fn is_for(r: RuleSetView, pattern: Seq<char>, tenant: Seq<char>) -> bool {
    r.pattern_id == pattern && r.tenant_id == tenant
}

/// The place of a tenant's rules for a pattern, the number of rule sets where there are none.
pub open spec fn set_place(s: Seq<RuleSetView>, pattern: Seq<char>, tenant: Seq<char>) -> int
    decreases s.len(),
{
    if s.len() == 0 || is_for(s[0], pattern, tenant) {
        0
    } else {
        1 + set_place(s.skip(1), pattern, tenant)
    }
}

/// Rule sets with one more, in the place of that of the same tenant and pattern.
pub open spec fn with_set(s: Seq<RuleSetView>, r: RuleSetView) -> Seq<RuleSetView> {
    let i = set_place(s, r.pattern_id, r.tenant_id);
    if i < s.len() {
        s.update(i, r)
    } else {
        s.push(r)
    }
}

/// The rule sets of the first `n` rows.
pub open spec fn sets_after(rows: Seq<ConfigEntry>, n: nat) -> Seq<RuleSetView>
    decreases n,
{
    if n == 0 {
        Seq::<RuleSetView>::empty()
    } else {
        let before = sets_after(rows, (n - 1) as nat);
        let r = rows[n - 1];
        let rules = configured(r.config@);
        if built_in(r.pattern_id@) || rules.len() == 0 {
            before
        } else {
            with_set(
                before,
                (RuleSetView { pattern_id: r.pattern_id@, tenant_id: r.tenant_id@, rules }),
            )
        }
    }
}

fn empty_object() -> (r: Json)
    ensures
        r@ == JsonView::Object(Seq::<(Seq<char>, JsonView)>::empty()),
{
    let v: Vec<(String, Json)> = Vec::new();
    assert(members_view(v@) =~= Seq::<(Seq<char>, JsonView)>::empty());
    Json::object(v)
}

fn copy_or_empty(v: Option<&Json>) -> (r: Json)
    ensures
        r@ == or_empty_object(crate::json::found(v)),
{
    match v {
        Some(v) => v.copy(),
        None => empty_object(),
    }
}

fn read_text(v: Option<&Json>, fallback: &str) -> (r: String)
    ensures
        r@ == text_or_else(crate::json::found(v), fallback@),
{
    match member_text(v) {
        Some(s) => s.to_owned(),
        None => fallback.to_owned(),
    }
}

/// The contents of an optional rule.
pub open spec fn compiled_option(r: Option<CompiledRuleRef>) -> Option<CompiledView> {
    match r {
        Some(r) => Some(r@),
        None => None,
    }
}

fn read_rule(m: &Vec<(String, Json)>) -> (r: Option<CompiledRuleRef>)
    ensures
        compiled_option(r) == rule_in(members_view(m@)),
{
    let rule_id: String = match member_text(member_of(m, "rule_id")) {
        Some(s) => trim(s),
        None => String::new(),
    };
    if rule_id.as_str().is_empty() {
        return None;
    }
    let compiled_artifact: Json = copy_or_empty(member_of(m, "compiled_artifact"));
    let engine: String = read_text(compiled_artifact.get("engine"), "unknown");
    if !same(engine.as_str(), "python-sandbox-v1") && !same(engine.as_str(), "js-sandbox-v1") {
        return None;
    }
    Some(
        CompiledRuleRef {
            rule_id,
            version: member_i64(member_of(m, "rule_version")),
            language: read_text(member_of(m, "language"), "cel"),
            engine,
            compiled_artifact,
            params: copy_or_empty(member_of(m, "authoring_model")),
        },
    )
}

/// The rules of a configuration.
pub fn parse_compiled_rules(config: &Json) -> (r: Vec<CompiledRuleRef>)
    ensures
        compiled_view(r@) == configured(config@),
{
    let none: Vec<Json> = Vec::new();
    let items: &Vec<Json> = match config.get("rules") {
        Some(v) => match v.as_array() {
            Some(items) => items,
            None => &none,
        },
        None => &none,
    };
    let ghost all = list_view(items@);
    let mut r: Vec<CompiledRuleRef> = Vec::new();
    let mut i: usize = 0;
    assert(compiled_view(r@) =~= Seq::<CompiledView>::empty());
    while i < items.len()
        invariant
            i <= items.len(),
            all == list_view(items@),
            compiled_view(r@) == rules_in(all, i as nat),
        decreases items.len() - i,
    {
        assert(all[i as int] == items@[i as int]@);
        match items[i].as_object() {
            Some(m) => match read_rule(m) {
                Some(rule) => {
                    let ghost before = r@;
                    let ghost shown = rule@;
                    r.push(rule);
                    assert(compiled_view(r@) =~= compiled_view(before).push(shown));
                },
                None => {},
            },
            None => {},
        }
        i = i + 1;
    }
    r
}

fn find_set(v: &Vec<RuleSet>, pattern: &str, tenant: &str) -> (i: usize)
    ensures
        i <= v.len(),
        i == set_place(sets_view(v@), pattern@, tenant@),
{
    let ghost all = sets_view(v@);
    let mut i: usize = 0;
    assert(all.skip(0) =~= all);
    while i < v.len()
        invariant
            i <= v.len(),
            all == sets_view(v@),
            set_place(all, pattern@, tenant@) == i + set_place(
                all.skip(i as int),
                pattern@,
                tenant@,
            ),
        decreases v.len() - i,
    {
        assert(all.skip(i as int)[0] == v@[i as int]@);
        if same(v[i].pattern_id.as_str(), pattern) && same(v[i].tenant_id.as_str(), tenant) {
            return i;
        }
        assert(all.skip(i as int).skip(1) =~= all.skip(i + 1));
        i = i + 1;
    }
    i
}

// ---------------------------------------------------------------------------
// Runs
// ---------------------------------------------------------------------------

/// A rule that an event is run through.
#[derive(Debug)]
pub struct Candidate {
    pub pattern_id: String,
    pub rule: CompiledRuleRef,
}

/// The contents of a list of candidates.
pub open spec fn candidates_view(v: Seq<Candidate>) -> Seq<(Seq<char>, CompiledView)> {
    v.map_values(|c: Candidate| (c.pattern_id@, c.rule@))
}

/// The rules of a set, with the pattern that they are for.
pub open spec fn named_rules(r: RuleSetView) -> Seq<(Seq<char>, CompiledView)> {
    Seq::new(r.rules.len(), |i: int| (r.pattern_id, r.rules[i]))
}

/// The rules of a tenant in the first `n` rule sets.
pub open spec fn tenant_rules(s: Seq<RuleSetView>, tenant: Seq<char>, n: nat) -> Seq<
    (Seq<char>, CompiledView),
>
    decreases n,
{
    if n == 0 {
        Seq::<(Seq<char>, CompiledView)>::empty()
    } else {
        let before = tenant_rules(s, tenant, (n - 1) as nat);
        if s[n - 1].tenant_id == tenant {
            before + named_rules(s[n - 1])
        } else {
            before
        }
    }
}

/// The rules that an event of a tenant is run through: none where there is no service.
pub open spec fn rules_for(d: GenericRulePattern, tenant: Seq<char>) -> Seq<
    (Seq<char>, CompiledView),
> {
    let s = sets_view(d.compiled_rules@);
    if d.runtime_url is None {
        Seq::<(Seq<char>, CompiledView)>::empty()
    } else {
        tenant_rules(s, tenant, s.len())
    }
}

/// What the service is asked.
#[derive(Debug)]
pub struct RuntimeExecuteRequest {
    pub tenant_id: String,
    pub pattern_id: String,
    pub rule_id: String,
    pub rule_version: Option<i64>,
    pub language: String,
    pub compiled_artifact: Json,
    pub event: Json,
    pub state: Json,
    pub params: Json,
    pub now: String,
}

pub struct RequestView {
    pub tenant_id: Seq<char>,
    pub pattern_id: Seq<char>,
    pub rule_id: Seq<char>,
    pub rule_version: Option<i64>,
    pub language: Seq<char>,
    pub compiled_artifact: JsonView,
    pub event: JsonView,
    pub state: JsonView,
    pub params: JsonView,
    pub now: Seq<char>,
}

impl View for RuntimeExecuteRequest {
    type V = RequestView;

    open spec fn view(&self) -> RequestView {
        RequestView {
            tenant_id: self.tenant_id@,
            pattern_id: self.pattern_id@,
            rule_id: self.rule_id@,
            rule_version: self.rule_version,
            language: self.language@,
            compiled_artifact: self.compiled_artifact@,
            event: self.event@,
            state: self.state@,
            params: self.params@,
            now: self.now@,
        }
    }
}

/// How the service is called.
#[derive(Debug)]
pub struct RuntimeCall {
    pub url: String,
    pub token: Option<String>,
    pub request: RuntimeExecuteRequest,
}

#[derive(Debug)]
pub struct RuntimeMetrics {
    pub execution_ms: i64,
    pub ops_count: i64,
}

/// An alert of a rule.
#[derive(Debug)]
pub struct RuntimeAlert {
    pub severity: String,
    pub title: String,
    pub reason: String,
    pub payload: Json,
}

/// What the service reports of a run.
#[derive(Debug)]
pub struct RuntimeReport {
    pub ok: bool,
    pub matched_alerts: Vec<RuntimeAlert>,
    pub state: Json,
    pub trace: Vec<String>,
    pub metrics: RuntimeMetrics,
    pub error_code: Option<String>,
}

/// What the service answers.
#[derive(Debug)]
pub struct RuntimeExecuteResponse {
    pub ok: bool,
    pub runtime: RuntimeReport,
}

/// Whether a report is that of a run that failed for a reason, with a state and a trace.
pub open spec fn is_failure(
    r: RuntimeReport,
    state: JsonView,
    trace: Seq<char>,
    code: Seq<char>,
) -> bool {
    &&& !r.ok
    &&& r.matched_alerts@.len() == 0
    &&& r.state@ == state
    &&& texts(r.trace@) == seq![trace]
    &&& r.metrics.execution_ms == 0
    &&& r.metrics.ops_count == 0
    &&& text_option(r.error_code) == Some(code)
}

fn failure(state: Json, trace: String, code: &str) -> (r: RuntimeReport)
    ensures
        is_failure(r, state@, trace@, code@),
{
    RuntimeReport {
        ok: false,
        matched_alerts: Vec::new(),
        state,
        trace: one_text(trace),
        metrics: RuntimeMetrics { execution_ms: 0, ops_count: 0 },
        error_code: Some(code.to_owned()),
    }
}

/// What is made of an answer with a status other than success.
pub fn report_of_status(status: u16) -> (r: RuntimeReport)
    ensures
        is_failure(
            r,
            JsonView::Object(Seq::<(Seq<char>, JsonView)>::empty()),
            "http_status="@ + decimal(status as nat),
            "runtime_http_error"@,
        ),
{
    failure(
        empty_object(),
        join("http_status=", decimal_text(status as u64).as_str()),
        "runtime_http_error",
    )
}

/// What is made of an answer: its report, or a failure where it says that it is not in order.
pub fn report_of_response(response: RuntimeExecuteResponse) -> (r: RuntimeReport)
    ensures
        if response.ok {
            r == response.runtime
        } else {
            is_failure(
                r,
                JsonView::Object(Seq::<(Seq<char>, JsonView)>::empty()),
                "runtime_response_not_ok"@,
                "runtime_response_not_ok"@,
            )
        },
{
    if response.ok {
        return response.runtime;
    }
    failure(
        empty_object(),
        "runtime_response_not_ok".to_owned(),
        "runtime_response_not_ok",
    )
}

/// The members of an event as a rule sees them: those of its payload, and what else is known
/// of the event.
pub open spec fn event_members(event: UnifiedEvent, m: Members) -> Members {
    let a = with_member(m, "event_id"@, JsonView::Text(event.event_id@));
    let b = with_member(a, "event_type"@, JsonView::Text(event.event_type@));
    let c = with_member(b, "source_id"@, JsonView::Text(event.source_id@));
    let d = match event.market_key {
        Some(k) => with_member(c, "market_key"@, JsonView::Text(k@)),
        None => c,
    };
    let e = match event.price {
        Some(x) => with_member(d, "price"@, number_json(x)),
        None => d,
    };
    let f = match event.block_number {
        Some(n) => with_member(e, "block_number"@, JsonView::Whole(n as int)),
        None => e,
    };
    match event.tx_hash {
        Some(s) => with_member(f, "tx_hash"@, JsonView::Text(s@)),
        None => f,
    }
}

/// An event as a rule sees it.
pub open spec fn event_document(event: UnifiedEvent) -> JsonView {
    match event.payload@ {
        JsonView::Object(m) => JsonView::Object(event_members(event, m)),
        other => other,
    }
}

fn show_event(event: &UnifiedEvent) -> (r: Json)
    ensures
        r@ == event_document(*event),
{
    let members: &Vec<(String, Json)> = match event.payload.as_object() {
        Some(m) => m,
        None => {
            return event.payload.copy();
        },
    };
    let mut m: Vec<(String, Json)> = copy_members(members);
    put_member(&mut m, "event_id", Json::text(event.event_id.as_str()));
    put_member(&mut m, "event_type", Json::text(event.event_type.as_str()));
    put_member(&mut m, "source_id", Json::text(event.source_id.as_str()));
    match &event.market_key {
        Some(k) => {
            put_member(&mut m, "market_key", Json::text(k.as_str()));
        },
        None => {},
    }
    match event.price {
        Some(x) => {
            put_member(&mut m, "price", Json::number(x));
        },
        None => {},
    }
    match event.block_number {
        Some(n) => {
            put_member(&mut m, "block_number", Json::Int(n));
        },
        None => {},
    }
    match &event.tx_hash {
        Some(s) => {
            put_member(&mut m, "tx_hash", Json::text(s.as_str()));
        },
        None => {},
    }
    Json::object(m)
}

/// What the service is asked of a rule at a time.
pub open spec fn request_of(
    pattern: Seq<char>,
    rule: CompiledView,
    event: UnifiedEvent,
    state: JsonView,
    now: Timestamp,
) -> RequestView {
    RequestView {
        tenant_id: event.tenant_id@,
        pattern_id: pattern,
        rule_id: rule.rule_id,
        rule_version: rule.version,
        language: rule.language,
        compiled_artifact: rule.compiled_artifact,
        event: event_document(event),
        state,
        params: rule.params,
        now: timestamp_text(now),
    }
}

/// What the service is asked of a rule at a given time.
pub fn request_at(
    pattern_id: &str,
    rule: &CompiledRuleRef,
    event: &UnifiedEvent,
    state: Json,
    now: Timestamp,
) -> (r: RuntimeExecuteRequest)
    requires
        now.calendar(),
    ensures
        r@ == request_of(pattern_id@, rule@, *event, state@, now),
{
    RuntimeExecuteRequest {
        tenant_id: event.tenant_id.clone(),
        pattern_id: pattern_id.to_owned(),
        rule_id: rule.rule_id.clone(),
        rule_version: rule.version,
        language: rule.language.clone(),
        compiled_artifact: rule.compiled_artifact.copy(),
        event: show_event(event),
        state,
        params: rule.params.copy(),
        now: rfc3339(now),
    }
}

// ---------------------------------------------------------------------------
// Detections
// ---------------------------------------------------------------------------

/// The severity that an alert names; medium where it names none that is known.
pub open spec fn alert_severity(s: Seq<char>) -> Severity {
    let t = lowered(s);
    if t == "critical"@ {
        Severity::Critical
    } else if t == "high"@ {
        Severity::High
    } else if t == "medium"@ {
        Severity::Medium
    } else if t == "low"@ {
        Severity::Low
    } else if t == "info"@ {
        Severity::Info
    } else {
        Severity::Medium
    }
}

/// The score of a severity.
pub open spec fn score_of(s: Severity) -> Double {
    double(
        match s {
            Severity::Critical => CRITICAL_SCORE_BITS,
            Severity::High => HIGH_SCORE_BITS,
            Severity::Medium => MEDIUM_SCORE_BITS,
            Severity::Low => LOW_SCORE_BITS,
            Severity::Info => INFO_SCORE_BITS,
        },
    )
}

/// The signal of a pattern's rules.
pub open spec fn signal_of(pattern: Seq<char>) -> SignalType {
    if pattern == "dpeg"@ {
        SignalType::PegDeviation
    } else if pattern == "tvl_drop"@ {
        SignalType::PriceDeviation
    } else {
        SignalType::NearMissPattern
    }
}

/// The family of attacks that a pattern looks for.
pub open spec fn family_of(pattern: Seq<char>) -> AttackFamily {
    if pattern == "dpeg"@ {
        AttackFamily::PegDeviation
    } else if pattern == "tvl_drop"@ {
        AttackFamily::LiquidationCascade
    } else if pattern == "flash_loan"@ {
        AttackFamily::FlashLoan
    } else {
        AttackFamily::Unknown
    }
}

/// The chain with a number.
pub open spec fn chain_of(id: Option<i64>) -> Chain {
    match id {
        Some(1) => Chain::Ethereum,
        Some(42161) => Chain::Arbitrum,
        Some(10) => Chain::Optimism,
        Some(8453) => Chain::Base,
        Some(137) => Chain::Polygon,
        Some(43114) => Chain::Avalanche,
        Some(56) => Chain::BSC,
        _ => Chain::Unknown,
    }
}

/// The slug of a chain.
pub open spec fn slug_of(c: Chain) -> Seq<char> {
    match c {
        Chain::Ethereum => "ethereum"@,
        Chain::Arbitrum => "arbitrum"@,
        Chain::Optimism => "optimism"@,
        Chain::Base => "base"@,
        Chain::Polygon => "polygon"@,
        Chain::Avalanche => "avalanche"@,
        Chain::BSC => "bsc"@,
        Chain::Offchain => "offchain"@,
        Chain::Unknown => "unknown"@,
    }
}

/// The detection of an alert, with its identifier and the time at which it is made.
#[verifier::opaque]
pub open spec fn detection_of(
    pattern: Seq<char>,
    rule: Seq<char>,
    event: UnifiedEvent,
    alert: RuntimeAlert,
    trace: Seq<Seq<char>>,
    id: Seq<char>,
    at: Timestamp,
) -> DetectionView {
    let severity = alert_severity(alert.severity@);
    DetectionView {
        detection_id: id,
        pattern_id: pattern,
        event_key: Some(event.event_id@),
        subject_type: Some("rule"@),
        subject_key: Some(rule),
        tenant_id: Some(event.tenant_id@),
        chain: chain_of(event.chain_id),
        chain_slug: slug_of(chain_of(event.chain_id)),
        protocol: pattern,
        lifecycle_state: LifecycleState::Provisional,
        requires_confirmation: false,
        attack_family: family_of(pattern),
        severity,
        tx_hash: match event.tx_hash {
            Some(s) => s@,
            None => event.event_id@,
        },
        block_number: match event.block_number {
            Some(n) => n,
            None => 0,
        },
        triggered_rule_ids: seq![rule],
        description: Some(alert.reason@),
        signals: seq![
            SignalView {
                signal_type: signal_of(pattern),
                value: score_of(severity),
                label: Some(alert.title@),
                source_id: Some(event.source_id@),
            },
        ],
        risk_score: RiskView {
            score: score_of(severity),
            confidence: double(ALERT_CONFIDENCE_BITS),
            rationale: seq![alert.reason@],
            attribution: Seq::<Seq<char>>::empty(),
        },
        incident_transition: Some(IncidentTransition::Trigger),
        context_classification: Some(ContextClassification::Unclassified),
        confidence_breakdown: Seq::<(Seq<char>, Double)>::empty(),
        oracle_context: seq![
            ("runtime_payload"@, alert.payload@),
            ("runtime_trace"@, texts_json(trace)),
            ("source_id"@, JsonView::Text(event.source_id@)),
        ],
        actions_recommended: seq![
            "Review runtime-generated alert payload"@,
            "Confirm source freshness and quorum"@,
        ],
        is_simulated: false,
        simulation_run_id: None,
        detected_at: None,
        created_at: at,
    }
}

/// An alert as it is kept.
pub open spec fn alert_json(a: RuntimeAlert) -> JsonView {
    JsonView::Object(
        seq![
            ("severity"@, JsonView::Text(a.severity@)),
            ("title"@, JsonView::Text(a.title@)),
            ("reason"@, JsonView::Text(a.reason@)),
            ("payload"@, a.payload@),
        ],
    )
}

/// The snapshot of a run.
pub open spec fn snapshot_of(rule: CompiledView, r: RuntimeReport) -> JsonView {
    JsonView::Object(
        seq![
            ("rule_id"@, JsonView::Text(rule.rule_id)),
            ("engine"@, JsonView::Text(rule.engine)),
            ("language"@, JsonView::Text(rule.language)),
            ("runtime_trace"@, texts_json(texts(r.trace@))),
            (
                "runtime_metrics"@,
                JsonView::Object(
                    seq![
                        ("execution_ms"@, JsonView::Whole(r.metrics.execution_ms as int)),
                        ("ops_count"@, JsonView::Whole(r.metrics.ops_count as int)),
                    ],
                ),
            ),
            (
                "matched_alerts"@,
                JsonView::List(r.matched_alerts@.map_values(|a: RuntimeAlert| alert_json(a))),
            ),
        ],
    )
}

fn keep_alert(a: &RuntimeAlert) -> (r: Json)
    ensures
        r@ == alert_json(*a),
{
    let mut m: Vec<(String, Json)> = Vec::new();
    add_member(&mut m, "severity", Json::text(a.severity.as_str()));
    add_member(&mut m, "title", Json::text(a.title.as_str()));
    add_member(&mut m, "reason", Json::text(a.reason.as_str()));
    add_member(&mut m, "payload", a.payload.copy());
    assert(members_view(m@) =~= alert_json(*a)->Object_0);
    Json::object(m)
}

pub fn snapshot_document(rule: &CompiledRuleRef, report: &RuntimeReport) -> (r: Json)
    ensures
        r@ == snapshot_of(rule@, *report),
{
    let mut alerts: Vec<Json> = Vec::new();
    let ghost all = report.matched_alerts@.map_values(|a: RuntimeAlert| alert_json(a));
    let mut i: usize = 0;
    assert(list_view(alerts@) =~= all.take(0));
    while i < report.matched_alerts.len()
        invariant
            i <= report.matched_alerts.len(),
            all == report.matched_alerts@.map_values(|a: RuntimeAlert| alert_json(a)),
            list_view(alerts@) == all.take(i as int),
        decreases report.matched_alerts.len() - i,
    {
        let ghost before = alerts@;
        alerts.push(keep_alert(&report.matched_alerts[i]));
        assert(list_view(alerts@) =~= list_view(before).push(all[i as int]));
        assert(all.take(i + 1) =~= all.take(i as int).push(all[i as int]));
        i = i + 1;
    }
    assert(all.take(i as int) =~= all);
    let mut metrics: Vec<(String, Json)> = Vec::new();
    add_member(&mut metrics, "execution_ms", Json::Int(report.metrics.execution_ms));
    add_member(&mut metrics, "ops_count", Json::Int(report.metrics.ops_count));
    assert(members_view(metrics@) =~= seq![
        ("execution_ms"@, JsonView::Whole(report.metrics.execution_ms as int)),
        ("ops_count"@, JsonView::Whole(report.metrics.ops_count as int)),
    ]);
    let mut m: Vec<(String, Json)> = Vec::new();
    add_member(&mut m, "rule_id", Json::text(rule.rule_id.as_str()));
    add_member(&mut m, "engine", Json::text(rule.engine.as_str()));
    add_member(&mut m, "language", Json::text(rule.language.as_str()));
    add_member(&mut m, "runtime_trace", texts_to_json(&report.trace));
    add_member(&mut m, "runtime_metrics", Json::object(metrics));
    add_member(&mut m, "matched_alerts", Json::list(alerts));
    assert(members_view(m@) =~= snapshot_of(rule@, *report)->Object_0);
    Json::object(m)
}

/// What is done after a run.
#[derive(Debug)]
pub enum RuntimeStep {
    /// The run failed; whether that is news.
    Failed(bool),
    /// The state is kept.
    Kept(Json),
    /// The state and a snapshot are kept, and a detection is reported.
    Reported(RuntimeFinding),
}

/// What is kept and reported of a run with an alert.
#[derive(Debug)]
pub struct RuntimeFinding {
    pub state: Json,
    pub snapshot_key: String,
    pub snapshot: Json,
    pub score: Double,
    pub severity: String,
    pub detection: DetectionResult,
}

/// The key of a rule's health.
pub open spec fn health_key_of(tenant: Seq<char>, pattern: Seq<char>, rule: Seq<char>) -> Seq<char> {
    tenant + ":"@ + pattern + ":"@ + rule
}

/// Whether `step` is what may follow a run.
pub open spec fn may_follow(
    health: Seq<(Seq<char>, bool)>,
    event: UnifiedEvent,
    pattern: Seq<char>,
    rule: CompiledView,
    report: RuntimeReport,
    step: RuntimeStep,
) -> bool {
    if !report.ok {
        step == RuntimeStep::Failed(
            lookup(health, health_key_of(event.tenant_id@, pattern, rule.rule_id)) != Some(true),
        )
    } else if report.matched_alerts@.len() == 0 {
        step matches RuntimeStep::Kept(state) && state@ == report.state@
    } else {
        let first = report.matched_alerts@[0];
        &&& step is Reported
        &&& step->Reported_0.state@ == report.state@
        &&& step->Reported_0.snapshot_key@ == rule.rule_id + ":"@ + event.event_id@
        &&& step->Reported_0.snapshot@ == snapshot_of(rule, report)
        &&& step->Reported_0.score == score_of(alert_severity(first.severity@))
        &&& step->Reported_0.severity@ == lowered(first.severity@)
        &&& exists|id: Seq<char>, at: Timestamp|
            is_id(id) && is_clock_time(at) && step->Reported_0.detection@ == #[trigger] detection_of(
                pattern,
                rule.rule_id,
                event,
                first,
                texts(report.trace@),
                id,
                at,
            )
    }
}

impl GenericRulePattern {
    /// A pattern that calls the service at an address with a token, as far as they are given.
    pub fn with_runtime(runtime_url: Option<&str>, runtime_token: Option<&str>) -> (r:
        GenericRulePattern)
        ensures
            r.compiled_rules@.len() == 0,
            r.runtime_degraded@.len() == 0,
            text_option(r.runtime_url) == base_address(crate::event::str_option(runtime_url)),
            text_option(r.runtime_token) == usable_token(crate::event::str_option(runtime_token)),
    {
        let url: Option<String> = match runtime_url {
            Some(s) => {
                let a: String = strip_back(Margin::Slash, trim(s).as_str());
                if a.as_str().is_empty() {
                    None
                } else {
                    Some(a)
                }
            },
            None => None,
        };
        let token: Option<String> = match runtime_token {
            Some(s) => if trim(s).as_str().is_empty() {
                None
            } else {
                Some(s.to_owned())
            },
            None => None,
        };
        GenericRulePattern {
            compiled_rules: Vec::new(),
            runtime_url: url,
            runtime_token: token,
            runtime_degraded: Vec::new(),
        }
    }

    pub fn pattern_id(&self) -> (r: &'static str)
        ensures
            r@ == "generic_rule"@,
    {
        "generic_rule"
    }

    pub fn state_key(pattern_id: &str, rule_id: &str) -> (r: String)
        ensures
            r@ == "runtime:"@ + pattern_id@ + ":"@ + rule_id@,
    {
        let mut r = "runtime:".to_owned();
        r.append(pattern_id);
        r.append(":");
        r.append(rule_id);
        r
    }

    pub fn health_key(tenant_id: &str, pattern_id: &str, rule_id: &str) -> (r: String)
        ensures
            r@ == health_key_of(tenant_id@, pattern_id@, rule_id@),
    {
        let mut r: String = join3(tenant_id, ":", pattern_id);
        r.append(":");
        r.append(rule_id);
        r
    }

    pub fn severity_from_runtime(value: &str) -> (r: Severity)
        ensures
            r == alert_severity(value@),
    {
        let t: String = lowercase(value);
        let t: &str = t.as_str();
        if same(t, "critical") {
            Severity::Critical
        } else if same(t, "high") {
            Severity::High
        } else if same(t, "medium") {
            Severity::Medium
        } else if same(t, "low") {
            Severity::Low
        } else if same(t, "info") {
            Severity::Info
        } else {
            Severity::Medium
        }
    }

    pub fn risk_score_for_severity(severity: &Severity) -> (r: Double)
        ensures
            r == score_of(*severity),
    {
        Double {
            bits: match severity {
                Severity::Critical => CRITICAL_SCORE_BITS,
                Severity::High => HIGH_SCORE_BITS,
                Severity::Medium => MEDIUM_SCORE_BITS,
                Severity::Low => LOW_SCORE_BITS,
                Severity::Info => INFO_SCORE_BITS,
            },
        }
    }

    pub fn signal_type_for_pattern(pattern_id: &str) -> (r: SignalType)
        ensures
            r == signal_of(pattern_id@),
    {
        if same(pattern_id, "dpeg") {
            SignalType::PegDeviation
        } else if same(pattern_id, "tvl_drop") {
            SignalType::PriceDeviation
        } else {
            SignalType::NearMissPattern
        }
    }

    pub fn attack_family_for_pattern(pattern_id: &str) -> (r: AttackFamily)
        ensures
            r == family_of(pattern_id@),
    {
        if same(pattern_id, "dpeg") {
            AttackFamily::PegDeviation
        } else if same(pattern_id, "tvl_drop") {
            AttackFamily::LiquidationCascade
        } else if same(pattern_id, "flash_loan") {
            AttackFamily::FlashLoan
        } else {
            AttackFamily::Unknown
        }
    }

    pub fn chain_from_event(event: &UnifiedEvent) -> (r: Chain)
        ensures
            r == chain_of(event.chain_id),
    {
        let id: i64 = match event.chain_id {
            Some(id) => id,
            None => {
                return Chain::Unknown;
            },
        };
        if id == 1 {
            Chain::Ethereum
        } else if id == 42161 {
            Chain::Arbitrum
        } else if id == 10 {
            Chain::Optimism
        } else if id == 8453 {
            Chain::Base
        } else if id == 137 {
            Chain::Polygon
        } else if id == 43114 {
            Chain::Avalanche
        } else if id == 56 {
            Chain::BSC
        } else {
            Chain::Unknown
        }
    }

    pub fn chain_slug(chain: &Chain) -> (r: String)
        ensures
            r@ == slug_of(*chain),
    {
        let slug: &str = match chain {
            Chain::Ethereum => "ethereum",
            Chain::Arbitrum => "arbitrum",
            Chain::Optimism => "optimism",
            Chain::Base => "base",
            Chain::Polygon => "polygon",
            Chain::Avalanche => "avalanche",
            Chain::BSC => "bsc",
            Chain::Offchain => "offchain",
            Chain::Unknown => "unknown",
        };
        slug.to_owned()
    }

    /// Reports an alert under the given identifier and time.
    pub fn detection_with_id(
        pattern_id: &str,
        rule_id: &str,
        event: &UnifiedEvent,
        alert: &RuntimeAlert,
        runtime_trace: &Vec<String>,
        id: String,
        at: Timestamp,
    ) -> (r: DetectionResult)
        ensures
            r@ == detection_of(
                pattern_id@,
                rule_id@,
                *event,
                *alert,
                texts(runtime_trace@),
                id@,
                at,
            ),
    {
        reveal(detection_of);
        let severity: Severity = Self::severity_from_runtime(alert.severity.as_str());
        let score: Double = Self::risk_score_for_severity(&severity);
        let chain: Chain = Self::chain_from_event(event);
        let mut context: Vec<(String, Json)> = Vec::new();
        add_member(&mut context, "runtime_payload", alert.payload.copy());
        add_member(&mut context, "runtime_trace", texts_to_json(runtime_trace));
        add_member(&mut context, "source_id", Json::text(event.source_id.as_str()));
        let mut signals: Vec<DetectionSignal> = Vec::new();
        signals.push(
            DetectionSignal {
                signal_type: Self::signal_type_for_pattern(pattern_id),
                value: score,
                label: Some(alert.title.clone()),
                source_id: Some(event.source_id.clone()),
            },
        );
        let mut actions: Vec<String> = Vec::new();
        actions.push("Review runtime-generated alert payload".to_owned());
        actions.push("Confirm source freshness and quorum".to_owned());
        let r = DetectionResult {
            detection_id: id,
            pattern_id: pattern_id.to_owned(),
            event_key: Some(event.event_id.clone()),
            subject_type: Some("rule".to_owned()),
            subject_key: Some(rule_id.to_owned()),
            tenant_id: Some(event.tenant_id.clone()),
            chain,
            chain_slug: Self::chain_slug(&chain),
            protocol: pattern_id.to_owned(),
            lifecycle_state: LifecycleState::Provisional,
            requires_confirmation: false,
            attack_family: Self::attack_family_for_pattern(pattern_id),
            severity,
            tx_hash: match &event.tx_hash {
                Some(s) => s.clone(),
                None => event.event_id.clone(),
            },
            block_number: event.block_number.unwrap_or(0),
            triggered_rule_ids: one_text(rule_id.to_owned()),
            description: Some(alert.reason.clone()),
            signals,
            risk_score: RiskScore {
                score,
                confidence: Double { bits: ALERT_CONFIDENCE_BITS },
                rationale: one_text(alert.reason.clone()),
                attribution: Vec::new(),
            },
            incident_transition: Some(IncidentTransition::Trigger),
            context_classification: Some(ContextClassification::Unclassified),
            confidence_breakdown: Vec::new(),
            oracle_context: context,
            actions_recommended: actions,
            is_simulated: false,
            simulation_run_id: None,
            detected_at: None,
            created_at: at,
        };
        proof {
            let d = detection_of(
                pattern_id@,
                rule_id@,
                *event,
                *alert,
                texts(runtime_trace@),
                id@,
                at,
            );
            assert(signals_view(r.signals@) =~= d.signals);
            assert(numbers_view(r.confidence_breakdown@) =~= d.confidence_breakdown);
            assert(members_view(r.oracle_context@) =~= d.oracle_context);
            assert(texts(r.actions_recommended@) =~= d.actions_recommended);
            assert(texts(r.risk_score.attribution@) =~= Seq::<Seq<char>>::empty());
        }
        r
    }

    /// Reports an alert.
    pub fn detection_from_alert(
        pattern_id: &str,
        rule_id: &str,
        event: &UnifiedEvent,
        alert: &RuntimeAlert,
        runtime_trace: &Vec<String>,
    ) -> (r: DetectionResult)
        ensures
            exists|id: Seq<char>, at: Timestamp|
                is_id(id) && is_clock_time(at) && r@ == #[trigger] detection_of(
                    pattern_id@,
                    rule_id@,
                    *event,
                    *alert,
                    texts(runtime_trace@),
                    id,
                    at,
                ),
    {
        let id: String = fresh_id();
        let at: Timestamp = current_time();
        Self::detection_with_id(pattern_id, rule_id, event, alert, runtime_trace, id, at)
    }

    /// Takes over the rules of the tenants.
    pub fn reload_config(&mut self, rows: &Vec<ConfigEntry>)
        ensures
            sets_view(final(self).compiled_rules@) == sets_after(rows@, rows@.len()),
            final(self).runtime_url == old(self).runtime_url,
            final(self).runtime_token == old(self).runtime_token,
            final(self).runtime_degraded == old(self).runtime_degraded,
    {
        let mut sets: Vec<RuleSet> = Vec::new();
        let mut i: usize = 0;
        assert(sets_view(sets@) =~= Seq::<RuleSetView>::empty());
        while i < rows.len()
            invariant
                i <= rows.len(),
                sets_view(sets@) == sets_after(rows@, i as nat),
            decreases rows.len() - i,
        {
            let row: &ConfigEntry = &rows[i];
            let p: &str = row.pattern_id.as_str();
            if !(same(p, "dpeg") || same(p, "flash_loan") || same(p, "tvl_drop")) {
                let rules: Vec<CompiledRuleRef> = parse_compiled_rules(&row.config);
                if rules.len() > 0 {
                    let ghost before = sets_view(sets@);
                    let k: usize = find_set(&sets, p, row.tenant_id.as_str());
                    let set = RuleSet {
                        pattern_id: row.pattern_id.clone(),
                        tenant_id: row.tenant_id.clone(),
                        rules,
                    };
                    let ghost shown = set@;
                    if k < sets.len() {
                        sets.set(k, set);
                        assert(sets_view(sets@) =~= before.update(k as int, shown));
                    } else {
                        sets.push(set);
                        assert(sets_view(sets@) =~= before.push(shown));
                    }
                }
            }
            i = i + 1;
        }
        self.compiled_rules = sets;
    }

    /// The rules that an event is run through.
    pub fn candidates(&self, event: &UnifiedEvent) -> (r: Vec<Candidate>)
        ensures
            candidates_view(r@) == rules_for(*self, event.tenant_id@),
    {
        let mut r: Vec<Candidate> = Vec::new();
        assert(candidates_view(r@) =~= Seq::<(Seq<char>, CompiledView)>::empty());
        if self.runtime_url.is_none() {
            return r;
        }
        let ghost all = sets_view(self.compiled_rules@);
        let ghost tenant = event.tenant_id@;
        let mut i: usize = 0;
        while i < self.compiled_rules.len()
            invariant
                i <= self.compiled_rules.len(),
                all == sets_view(self.compiled_rules@),
                tenant == event.tenant_id@,
                candidates_view(r@) == tenant_rules(all, tenant, i as nat),
            decreases self.compiled_rules.len() - i,
        {
            let set: &RuleSet = &self.compiled_rules[i];
            assert(all[i as int] == set@);
            if same(set.tenant_id.as_str(), event.tenant_id.as_str()) {
                let ghost start = candidates_view(r@);
                let ghost named = named_rules(set@);
                let mut k: usize = 0;
                assert(start + named.take(0) =~= start);
                while k < set.rules.len()
                    invariant
                        k <= set.rules.len(),
                        named == named_rules(set@),
                        candidates_view(r@) == start + named.take(k as int),
                    decreases set.rules.len() - k,
                {
                    let ghost before = r@;
                    let c = Candidate {
                        pattern_id: set.pattern_id.clone(),
                        rule: set.rules[k].copy(),
                    };
                    let ghost shown = (c.pattern_id@, c.rule@);
                    r.push(c);
                    assert(candidates_view(r@) =~= candidates_view(before).push(shown));
                    assert(set@.rules[k as int] == set.rules@[k as int]@);
                    assert(named[k as int] == shown);
                    assert(named.take(k + 1) =~= named.take(k as int).push(shown));
                    assert((start + named.take(k as int)).push(shown) =~= start + named.take(
                        k + 1,
                    ));
                    k = k + 1;
                }
                assert(named.take(k as int) =~= named);
            }
            i = i + 1;
        }
        r
    }

    /// How the service is called for a rule, or the report of a run that fails for want of one.
    pub fn runtime_call(
        &self,
        pattern_id: &str,
        rule: &CompiledRuleRef,
        event: &UnifiedEvent,
        state: Json,
    ) -> (r: Result<RuntimeCall, RuntimeReport>)
        ensures
            match (self.runtime_url, r) {
                (Some(url), Ok(call)) => {
                    &&& call.url@ == url@ + "/execute"@
                    &&& text_option(call.token) == text_option(self.runtime_token)
                    &&& exists|now: Timestamp|
                        is_clock_time(now) && call.request@ == #[trigger] request_of(
                            pattern_id@,
                            rule@,
                            *event,
                            state@,
                            now,
                        )
                },
                (None, Err(report)) => is_failure(
                    report,
                    state@,
                    "runtime_url_not_configured"@,
                    "runtime_url_not_configured"@,
                ),
                _ => false,
            },
    {
        match &self.runtime_url {
            Some(url) => {
                let now: Timestamp = current_time();
                let request: RuntimeExecuteRequest = request_at(
                    pattern_id,
                    rule,
                    event,
                    state,
                    now,
                );
                Ok(
                    RuntimeCall {
                        url: join(url.as_str(), "/execute"),
                        token: copy_option(&self.runtime_token),
                        request,
                    },
                )
            },
            None => Err(
                failure(
                    state,
                    "runtime_url_not_configured".to_owned(),
                    "runtime_url_not_configured",
                ),
            ),
        }
    }

    /// Notes how a run went and says what is to be done after it.
    pub fn after_run(
        &mut self,
        event: &UnifiedEvent,
        candidate: &Candidate,
        report: RuntimeReport,
    ) -> (r: RuntimeStep)
        ensures
            may_follow(
                health_view(old(self).runtime_degraded@),
                *event,
                candidate.pattern_id@,
                candidate.rule@,
                report,
                r,
            ),
            health_view(final(self).runtime_degraded@) == put(
                health_view(old(self).runtime_degraded@),
                health_key_of(event.tenant_id@, candidate.pattern_id@, candidate.rule.rule_id@),
                !report.ok,
            ),
            final(self).compiled_rules == old(self).compiled_rules,
            final(self).runtime_url == old(self).runtime_url,
            final(self).runtime_token == old(self).runtime_token,
    {
        let rule: &CompiledRuleRef = &candidate.rule;
        let key: String = Self::health_key(
            event.tenant_id.as_str(),
            candidate.pattern_id.as_str(),
            rule.rule_id.as_str(),
        );
        let known: bool = self.note_health(key, !report.ok);
        if !report.ok {
            return RuntimeStep::Failed(!known);
        }
        if report.matched_alerts.len() == 0 {
            return RuntimeStep::Kept(report.state);
        }
        let first: &RuntimeAlert = &report.matched_alerts[0];
        let detection: DetectionResult = Self::detection_from_alert(
            candidate.pattern_id.as_str(),
            rule.rule_id.as_str(),
            event,
            first,
            &report.trace,
        );
        let snapshot: Json = snapshot_document(rule, &report);
        let severity: Severity = Self::severity_from_runtime(first.severity.as_str());
        RuntimeStep::Reported(
            RuntimeFinding {
                snapshot_key: join3(rule.rule_id.as_str(), ":", event.event_id.as_str()),
                snapshot,
                score: Self::risk_score_for_severity(&severity),
                severity: lowercase(first.severity.as_str()),
                detection,
                state: report.state,
            },
        )
    }

    fn note_health(&mut self, key: String, degraded: bool) -> (r: bool)
        ensures
            r == (lookup(health_view(old(self).runtime_degraded@), key@) == Some(true)),
            health_view(final(self).runtime_degraded@) == put(
                health_view(old(self).runtime_degraded@),
                key@,
                degraded,
            ),
            final(self).compiled_rules == old(self).compiled_rules,
            final(self).runtime_url == old(self).runtime_url,
            final(self).runtime_token == old(self).runtime_token,
    {
        let ghost before = health_view(self.runtime_degraded@);
        let mut i: usize = 0;
        while i < self.runtime_degraded.len() && !same(
            self.runtime_degraded[i].key.as_str(),
            key.as_str(),
        )
            invariant
                i <= self.runtime_degraded.len(),
                before == health_view(self.runtime_degraded@),
                *self == *old(self),
                forall|k: int| 0 <= k < i ==> (#[trigger] before[k]).0 != key@,
            decreases self.runtime_degraded.len() - i,
        {
            i = i + 1;
        }
        assert(is_place(before, key@, i as int));
        proof {
            lemma_lookup(before, key@, i as int);
            lemma_put(before, key@, degraded, i as int);
        }
        let ghost shown = (key@, degraded);
        if i < self.runtime_degraded.len() {
            let known: bool = self.runtime_degraded[i].degraded;
            self.runtime_degraded.set(i, RuleHealth { key, degraded });
            assert(health_view(self.runtime_degraded@) =~= before.update(i as int, shown));
            known
        } else {
            self.runtime_degraded.push(RuleHealth { key, degraded });
            assert(health_view(self.runtime_degraded@) =~= before.push(shown));
            false
        }
    }
}

// ---------------------------------------------------------------------------
// Laws
// ---------------------------------------------------------------------------

/// Every rule that is run has a name, and its engine runs in the sandbox.
pub proof fn law_rules_are_named_and_sandboxed(config: JsonView)
    ensures
        forall|i: int|
            0 <= i < configured(config).len() ==> {
                let r = #[trigger] configured(config)[i];
                r.rule_id.len() > 0 && sandboxed(r.engine)
            },
{
    match config.get("rules"@) {
        Some(JsonView::List(s)) => {
            lemma_rules_in(s, s.len());
        },
        _ => {},
    }
}

proof fn lemma_rules_in(s: Seq<JsonView>, n: nat)
    ensures
        forall|i: int|
            0 <= i < rules_in(s, n).len() ==> {
                let r = #[trigger] rules_in(s, n)[i];
                r.rule_id.len() > 0 && sandboxed(r.engine)
            },
    decreases n,
{
    if n > 0 {
        lemma_rules_in(s, (n - 1) as nat);
    }
}

/// No rule set is for a pattern that has a detector of its own, or is empty.
pub proof fn law_built_in_patterns_are_left_alone(rows: Seq<ConfigEntry>, n: nat)
    requires
        n <= rows.len(),
    ensures
        forall|i: int|
            0 <= i < sets_after(rows, n).len() ==> {
                let r = #[trigger] sets_after(rows, n)[i];
                !built_in(r.pattern_id) && r.rules.len() > 0
            },
    decreases n,
{
    if n > 0 {
        law_built_in_patterns_are_left_alone(rows, (n - 1) as nat);
        let r = rows[n - 1];
        lemma_set_place(sets_after(rows, (n - 1) as nat), r.pattern_id@, r.tenant_id@);
    }
}

proof fn lemma_set_place(s: Seq<RuleSetView>, pattern: Seq<char>, tenant: Seq<char>)
    ensures
        0 <= set_place(s, pattern, tenant) <= s.len(),
    decreases s.len(),
{
    if s.len() > 0 && !is_for(s[0], pattern, tenant) {
        lemma_set_place(s.skip(1), pattern, tenant);
    }
}

/// Whether a rule is one of a tenant's in the first `n` rule sets.
pub open spec fn is_of_tenant(
    s: Seq<RuleSetView>,
    tenant: Seq<char>,
    n: nat,
    x: (Seq<char>, CompiledView),
) -> bool {
    exists|k: int|
        0 <= k < n && (#[trigger] s[k]).tenant_id == tenant && named_rules(s[k]).contains(x)
}

/// An event is run through rules of its own tenant only.
pub proof fn law_rules_belong_to_the_tenant(s: Seq<RuleSetView>, tenant: Seq<char>, n: nat)
    requires
        n <= s.len(),
    ensures
        forall|i: int|
            0 <= i < tenant_rules(s, tenant, n).len() ==> is_of_tenant(
                s,
                tenant,
                n,
                #[trigger] tenant_rules(s, tenant, n)[i],
            ),
    decreases n,
{
    if n > 0 {
        let m = (n - 1) as nat;
        law_rules_belong_to_the_tenant(s, tenant, m);
        let before = tenant_rules(s, tenant, m);
        let all = tenant_rules(s, tenant, n);
        assert forall|i: int| 0 <= i < all.len() implies is_of_tenant(
            s,
            tenant,
            n,
            #[trigger] all[i],
        ) by {
            if i < before.len() {
                assert(all[i] == before[i]);
                assert(is_of_tenant(s, tenant, m, before[i]));
                let k = choose|k: int|
                    0 <= k < m && (#[trigger] s[k]).tenant_id == tenant && named_rules(
                        s[k],
                    ).contains(before[i]);
                assert(s[k].tenant_id == tenant);
            } else {
                assert(named_rules(s[n - 1])[i - before.len()] == all[i]);
                assert(s[n - 1].tenant_id == tenant);
            }
        }
    }
}

/// A failing run is news once: not again until the rule has run well in between.
pub proof fn law_failures_are_news_once(
    health: Seq<(Seq<char>, bool)>,
    event: UnifiedEvent,
    pattern: Seq<char>,
    rule: CompiledView,
    failed_before: bool,
    report: RuntimeReport,
    step: RuntimeStep,
)
    requires
        !report.ok,
        may_follow(
            put(health, health_key_of(event.tenant_id@, pattern, rule.rule_id), failed_before),
            event,
            pattern,
            rule,
            report,
            step,
        ),
    ensures
        step == RuntimeStep::Failed(!failed_before),
{
    let key = health_key_of(event.tenant_id@, pattern, rule.rule_id);
    crate::assoc::law_lookup_after_put(health, key, failed_before, key);
}

/// How many rules a tenant has in the first `n` rule sets.
pub open spec fn rule_count(s: Seq<RuleSetView>, tenant: Seq<char>, n: nat) -> nat
    decreases n,
{
    if n == 0 {
        0
    } else {
        rule_count(s, tenant, (n - 1) as nat) + if s[n - 1].tenant_id == tenant {
            s[n - 1].rules.len()
        } else {
            0
        }
    }
}

proof fn lemma_rules_are_run(s: Seq<RuleSetView>, tenant: Seq<char>, n: nat, k: int, i: int)
    requires
        n <= s.len(),
    ensures
        tenant_rules(s, tenant, n).len() == rule_count(s, tenant, n),
        0 <= k < n && s[k].tenant_id == tenant && 0 <= i < s[k].rules.len() ==> tenant_rules(
            s,
            tenant,
            n,
        ).contains((s[k].pattern_id, s[k].rules[i])),
    decreases n,
{
    if n > 0 {
        lemma_rules_are_run(s, tenant, (n - 1) as nat, k, i);
        let before = tenant_rules(s, tenant, (n - 1) as nat);
        let all = tenant_rules(s, tenant, n);
        if 0 <= k < n && s[k].tenant_id == tenant && 0 <= i < s[k].rules.len() {
            let x = (s[k].pattern_id, s[k].rules[i]);
            if k < n - 1 {
                let j = choose|j: int| 0 <= j < before.len() && before[j] == x;
                assert(all[j] == x);
            } else {
                assert(all[before.len() + i] == x);
            }
        }
    }
}

/// An event is run through every rule of its tenant, of whichever pattern, as long as there
/// is a service to run it; and through no more than there are.
pub proof fn law_every_rule_of_the_tenant_is_run(
    d: GenericRulePattern,
    tenant: Seq<char>,
    k: int,
    i: int,
)
    requires
        d.runtime_url is Some,
    ensures
        0 <= k < d.compiled_rules@.len() && d.compiled_rules@[k].tenant_id@ == tenant && 0 <= i
            < d.compiled_rules@[k].rules@.len() ==> rules_for(d, tenant).contains(
            (d.compiled_rules@[k].pattern_id@, d.compiled_rules@[k].rules@[i]@),
        ),
        rules_for(d, tenant).len() == rule_count(
            sets_view(d.compiled_rules@),
            tenant,
            d.compiled_rules@.len(),
        ),
{
    let s = sets_view(d.compiled_rules@);
    lemma_rules_are_run(s, tenant, s.len(), k, i);
    if 0 <= k < s.len() {
        assert(s[k] == d.compiled_rules@[k]@);
        if 0 <= i < s[k].rules.len() {
            assert(s[k].rules[i] == d.compiled_rules@[k].rules@[i]@);
        }
    }
}

/// Without a service, no rule is run.
pub proof fn law_no_rule_is_run_without_a_service(d: GenericRulePattern, tenant: Seq<char>)
    requires
        d.runtime_url is None,
    ensures
        rules_for(d, tenant).len() == 0,
{
}

/// An object with a name and an engine of the sandbox is a rule, and is read as it is written.
pub proof fn law_rules_are_read_as_written(
    m: Members,
    name: Seq<char>,
    artifact: JsonView,
    engine: Seq<char>,
    version: i64,
)
    requires
        member(m, "rule_id"@) == Some(JsonView::Text(name)),
        trimmed(name).len() > 0,
        member(m, "compiled_artifact"@) == Some(artifact),
        artifact.get("engine"@) == Some(JsonView::Text(engine)),
        engine == "python-sandbox-v1"@ || engine == "js-sandbox-v1"@,
    ensures
        rule_in(m) matches Some(r) && {
            &&& r.rule_id == trimmed(name)
            &&& r.engine == engine
            &&& r.compiled_artifact == artifact
            &&& member(m, "language"@) matches Some(JsonView::Text(l)) ==> r.language == l
            &&& member(m, "language"@) is None ==> r.language == "cel"@
            &&& member(m, "authoring_model"@) matches Some(p) ==> r.params == p
            &&& member(m, "rule_version"@) == Some(JsonView::Whole(version as int)) ==> r.version
                == Some(version)
            &&& member(m, "rule_version"@) is None ==> r.version is None
        },
{
}

proof fn lemma_rules_are_all_read(s: Seq<JsonView>, n: nat, k: int)
    requires
        0 <= k < n <= s.len(),
        s[k] is Object,
        rule_in(s[k]->Object_0) is Some,
    ensures
        rules_in(s, n).contains(rule_in(s[k]->Object_0)->0),
    decreases n,
{
    let before = rules_in(s, (n - 1) as nat);
    let r = rule_in(s[k]->Object_0)->0;
    let all = rules_in(s, n);
    if k == n - 1 {
        assert(all[all.len() - 1] == r);
    } else {
        lemma_rules_are_all_read(s, (n - 1) as nat, k);
        let j = choose|j: int| 0 <= j < before.len() && before[j] == r;
        assert(all[j] == r);
    }
}

/// Every item of a configuration's list that describes a rule is among its rules.
pub proof fn law_no_rule_is_passed_over(config: JsonView, s: Seq<JsonView>, k: int)
    requires
        config.get("rules"@) == Some(JsonView::List(s)),
        0 <= k < s.len(),
        s[k] is Object,
        rule_in(s[k]->Object_0) is Some,
    ensures
        configured(config).contains(rule_in(s[k]->Object_0)->0),
{
    lemma_rules_are_all_read(s, s.len(), k);
}

/// The rules of a tenant for a pattern, none where it has none.
pub open spec fn rules_under(s: Seq<RuleSetView>, pattern: Seq<char>, tenant: Seq<char>) -> Seq<
    CompiledView,
> {
    let i = set_place(s, pattern, tenant);
    if i < s.len() {
        s[i].rules
    } else {
        Seq::<CompiledView>::empty()
    }
}

proof fn lemma_with_set(s: Seq<RuleSetView>, r: RuleSetView, pattern: Seq<char>, tenant: Seq<char>)
    ensures
        rules_under(with_set(s, r), pattern, tenant) == (if is_for(r, pattern, tenant) {
            r.rules
        } else {
            rules_under(s, pattern, tenant)
        }),
    decreases s.len(),
{
    let w = with_set(s, r);
    lemma_set_place(s, r.pattern_id, r.tenant_id);
    if s.len() == 0 {
        assert(w.skip(1) =~= s);
        assert(set_place(w.skip(1), pattern, tenant) == 0);
    } else if is_for(s[0], r.pattern_id, r.tenant_id) {
        assert(w.skip(1) =~= s.skip(1));
        lemma_set_place(s.skip(1), pattern, tenant);
    } else {
        lemma_with_set(s.skip(1), r, pattern, tenant);
        lemma_set_place(s.skip(1), r.pattern_id, r.tenant_id);
        assert(w.skip(1) =~= with_set(s.skip(1), r));
        lemma_set_place(s.skip(1), pattern, tenant);
        lemma_set_place(w.skip(1), pattern, tenant);
    }
}

proof fn lemma_sets_prefix(rows: Seq<ConfigEntry>, row: ConfigEntry, n: nat)
    requires
        n <= rows.len(),
    ensures
        sets_after(rows.push(row), n) == sets_after(rows, n),
    decreases n,
{
    if n > 0 {
        lemma_sets_prefix(rows, row, (n - 1) as nat);
        assert(rows.push(row)[n - 1] == rows[n - 1]);
    }
}

/// A row with rules replaces those of its tenant for its pattern, unless the pattern has a
/// detector of its own, and leaves those of all other tenants and patterns alone.
pub proof fn law_rows_replace_their_own_rules(
    rows: Seq<ConfigEntry>,
    row: ConfigEntry,
    pattern: Seq<char>,
    tenant: Seq<char>,
)
    ensures
        ({
            let before = sets_after(rows, rows.len());
            let after = sets_after(rows.push(row), rows.push(row).len());
            if row.pattern_id@ == pattern && row.tenant_id@ == tenant && configured(
                row.config@,
            ).len() > 0 && pattern != "dpeg"@ && pattern != "flash_loan"@ && pattern
                != "tvl_drop"@ {
                rules_under(after, pattern, tenant) == configured(row.config@)
            } else {
                rules_under(after, pattern, tenant) == rules_under(before, pattern, tenant)
            }
        }),
{
    let n = rows.len();
    lemma_sets_prefix(rows, row, n);
    assert(rows.push(row)[n as int] == row);
    let r = RuleSetView {
        pattern_id: row.pattern_id@,
        tenant_id: row.tenant_id@,
        rules: configured(row.config@),
    };
    lemma_with_set(sets_after(rows, n), r, pattern, tenant);
}

/// A rule sees an event's own identifier, kind, source, market and transaction, whatever the
/// payload says of them, and everything else as the payload has it.
pub proof fn law_rules_see_the_event(event: UnifiedEvent, m: Members, other: Seq<char>)
    requires
        event.payload@ == JsonView::Object(m),
    ensures
        event_document(event).get("event_id"@) == Some(JsonView::Text(event.event_id@)),
        event_document(event).get("event_type"@) == Some(JsonView::Text(event.event_type@)),
        event_document(event).get("source_id"@) == Some(JsonView::Text(event.source_id@)),
        event.market_key matches Some(k) ==> event_document(event).get("market_key"@) == Some(
            JsonView::Text(k@),
        ),
        event.price matches Some(x) ==> event_document(event).get("price"@) == Some(number_json(x)),
        event.block_number matches Some(n) ==> event_document(event).get("block_number"@) == Some(
            JsonView::Whole(n as int),
        ),
        event.tx_hash matches Some(s) ==> event_document(event).get("tx_hash"@) == Some(
            JsonView::Text(s@),
        ),
        other != "event_id"@ && other != "event_type"@ && other != "source_id"@ && other
            != "market_key"@ && other != "price"@ && other != "block_number"@ && other
            != "tx_hash"@ ==> event_document(event).get(other) == member(m, other),
{
    reveal_strlit("event_id");
    reveal_strlit("event_type");
    reveal_strlit("source_id");
    reveal_strlit("market_key");
    reveal_strlit("price");
    reveal_strlit("block_number");
    reveal_strlit("tx_hash");
    assert("event_id"@.len() == 8 && "event_id"@[0] == 'e');
    assert("event_type"@.len() == 10 && "event_type"@[0] == 'e');
    assert("source_id"@.len() == 9 && "source_id"@[0] == 's');
    assert("market_key"@.len() == 10 && "market_key"@[0] == 'm');
    assert("price"@.len() == 5 && "price"@[0] == 'p');
    assert("block_number"@.len() == 12 && "block_number"@[0] == 'b');
    assert("tx_hash"@.len() == 7 && "tx_hash"@[0] == 't');
    lemma_event_members(event, m, "event_id"@);
    lemma_event_members(event, m, "event_type"@);
    lemma_event_members(event, m, "source_id"@);
    lemma_event_members(event, m, "market_key"@);
    lemma_event_members(event, m, "price"@);
    lemma_event_members(event, m, "block_number"@);
    lemma_event_members(event, m, "tx_hash"@);
    lemma_event_members(event, m, other);
}

proof fn lemma_event_members(event: UnifiedEvent, m: Members, key: Seq<char>)
    ensures
        member(event_members(event, m), key) == (if event.tx_hash is Some && key == "tx_hash"@ {
            Some(JsonView::Text(event.tx_hash->0@))
        } else if event.block_number is Some && key == "block_number"@ {
            Some(JsonView::Whole(event.block_number->0 as int))
        } else if event.price is Some && key == "price"@ {
            Some(number_json(event.price->0))
        } else if event.market_key is Some && key == "market_key"@ {
            Some(JsonView::Text(event.market_key->0@))
        } else if key == "source_id"@ {
            Some(JsonView::Text(event.source_id@))
        } else if key == "event_type"@ {
            Some(JsonView::Text(event.event_type@))
        } else if key == "event_id"@ {
            Some(JsonView::Text(event.event_id@))
        } else {
            member(m, key)
        }),
{
    let a = with_member(m, "event_id"@, JsonView::Text(event.event_id@));
    crate::assoc::law_lookup_after_put(m, "event_id"@, JsonView::Text(event.event_id@), key);
    let b = with_member(a, "event_type"@, JsonView::Text(event.event_type@));
    crate::assoc::law_lookup_after_put(a, "event_type"@, JsonView::Text(event.event_type@), key);
    let c = with_member(b, "source_id"@, JsonView::Text(event.source_id@));
    crate::assoc::law_lookup_after_put(b, "source_id"@, JsonView::Text(event.source_id@), key);
    let d = match event.market_key {
        Some(k) => with_member(c, "market_key"@, JsonView::Text(k@)),
        None => c,
    };
    if event.market_key is Some {
        crate::assoc::law_lookup_after_put(
            c,
            "market_key"@,
            JsonView::Text(event.market_key->0@),
            key,
        );
    }
    let e = match event.price {
        Some(x) => with_member(d, "price"@, number_json(x)),
        None => d,
    };
    if event.price is Some {
        crate::assoc::law_lookup_after_put(d, "price"@, number_json(event.price->0), key);
    }
    let f = match event.block_number {
        Some(n) => with_member(e, "block_number"@, JsonView::Whole(n as int)),
        None => e,
    };
    if event.block_number is Some {
        crate::assoc::law_lookup_after_put(
            e,
            "block_number"@,
            JsonView::Whole(event.block_number->0 as int),
            key,
        );
    }
    if event.tx_hash is Some {
        crate::assoc::law_lookup_after_put(
            f,
            "tx_hash"@,
            JsonView::Text(event.tx_hash->0@),
            key,
        );
    }
}

/// A severity is understood by its name, in letters of either case, and counts the more the
/// graver it is.
pub proof fn law_alert_severities_are_understood(a: Severity, b: Severity, s: Seq<char>)
    ensures
        lowered(s) == severity_name(a) ==> alert_severity(s) == a,
        rank(Some(a)) < rank(Some(b)) ==> score_of(a).below(score_of(b)),
{
    reveal_strlit("critical");
    reveal_strlit("high");
    reveal_strlit("medium");
    reveal_strlit("low");
    reveal_strlit("info");
    assert("critical"@.len() == 8 && "high"@.len() == 4 && "medium"@.len() == 6 && "low"@.len() == 3
        && "info"@.len() == 4 && "high"@[0] == 'h' && "info"@[0] == 'i');
}

/// A run that went well and gave alerts is reported with the first of them, and its state is
/// kept; one without alerts is not reported, and its state is kept too.
pub proof fn law_the_first_alert_is_reported(
    health: Seq<(Seq<char>, bool)>,
    event: UnifiedEvent,
    pattern: Seq<char>,
    rule: CompiledView,
    report: RuntimeReport,
    step: RuntimeStep,
)
    requires
        report.ok,
        may_follow(health, event, pattern, rule, report, step),
    ensures
        step is Reported <==> report.matched_alerts@.len() > 0,
        step matches RuntimeStep::Kept(state) ==> state@ == report.state@,
        step matches RuntimeStep::Reported(f) ==> {
            let first = report.matched_alerts@[0];
            &&& f.state@ == report.state@
            &&& f.detection@.tenant_id == Some(event.tenant_id@)
            &&& f.detection@.pattern_id == pattern
            &&& f.detection@.event_key == Some(event.event_id@)
            &&& f.detection@.subject_key == Some(rule.rule_id)
            &&& f.detection@.triggered_rule_ids.contains(rule.rule_id)
            &&& f.detection@.description == Some(first.reason@)
            &&& f.detection@.signals.len() == 1
            &&& f.detection@.signals[0].label == Some(first.title@)
            &&& f.detection@.chain == chain_of(event.chain_id)
            &&& f.score == score_of(f.detection@.severity)
            &&& f.detection@.severity == alert_severity(first.severity@)
            &&& event.tx_hash matches Some(s) ==> f.detection@.tx_hash == s@
            &&& event.block_number matches Some(n) ==> f.detection@.block_number == n
        },
{
    reveal(detection_of);
    if step is Reported {
        assert(step->Reported_0.detection@.triggered_rule_ids[0] == rule.rule_id);
    }
}

/// The slug of every chain that is known by a number leads back to the chain.
pub proof fn law_chains_are_known_by_slug(id: i64)
    requires
        chain_of(Some(id)) != Chain::Unknown,
    ensures
        crate::event::chain_of_slug(slug_of(chain_of(Some(id)))) == chain_of(Some(id)),
{
    reveal_strlit("ethereum");
    reveal_strlit("mainnet");
    reveal_strlit("arbitrum");
    reveal_strlit("optimism");
    reveal_strlit("base");
    reveal_strlit("polygon");
    reveal_strlit("avalanche");
    reveal_strlit("bsc");
    reveal_strlit("bnb");
    assert("ethereum"@[0] == 'e' && "mainnet"@[0] == 'm' && "arbitrum"@[0] == 'a'
        && "optimism"@[0] == 'o' && "base"@[0] == 'b' && "polygon"@[0] == 'p' && "avalanche"@[0]
        == 'a' && "bsc"@[0] == 'b' && "bnb"@[0] == 'b');
    assert("arbitrum"@.len() == 8 && "avalanche"@.len() == 9 && "base"@.len() == 4 && "bsc"@.len()
        == 3);
}

/// The service is asked of the rule with the event, the state and the parameters of the rule,
/// in the name of the event's tenant.
pub proof fn law_requests_tell_rule_and_event(
    pattern: Seq<char>,
    rule: CompiledView,
    event: UnifiedEvent,
    state: JsonView,
    now: Timestamp,
)
    ensures
        ({
            let r = request_of(pattern, rule, event, state, now);
            &&& r.tenant_id == event.tenant_id@
            &&& r.pattern_id == pattern
            &&& r.rule_id == rule.rule_id
            &&& r.rule_version == rule.version
            &&& r.language == rule.language
            &&& r.compiled_artifact == rule.compiled_artifact
            &&& r.params == rule.params
            &&& r.state == state
            &&& r.now == timestamp_text(now)
            &&& r.event == event_document(event)
        }),
{
}

/// A detection tells of the alert and of the event that it came of.
pub proof fn law_detections_tell_the_alert(
    pattern: Seq<char>,
    rule: Seq<char>,
    event: UnifiedEvent,
    alert: RuntimeAlert,
    trace: Seq<Seq<char>>,
    id: Seq<char>,
    at: Timestamp,
)
    ensures
        ({
            let d = detection_of(pattern, rule, event, alert, trace, id, at);
            &&& d.detection_id == id
            &&& d.pattern_id == pattern
            &&& d.tenant_id == Some(event.tenant_id@)
            &&& d.event_key == Some(event.event_id@)
            &&& d.subject_key == Some(rule)
            &&& d.triggered_rule_ids == seq![rule]
            &&& d.severity == alert_severity(alert.severity@)
            &&& d.risk_score.score == score_of(alert_severity(alert.severity@))
            &&& d.description == Some(alert.reason@)
            &&& d.risk_score.rationale == seq![alert.reason@]
            &&& d.signals.len() == 1
            &&& d.signals[0].label == Some(alert.title@)
            &&& d.signals[0].source_id == Some(event.source_id@)
            &&& d.signals[0].signal_type == signal_of(pattern)
            &&& d.attack_family == family_of(pattern)
            &&& d.chain == chain_of(event.chain_id)
            &&& d.chain_slug == slug_of(chain_of(event.chain_id))
            &&& event.tx_hash is Some ==> d.tx_hash == event.tx_hash->0@
            &&& event.tx_hash is None ==> d.tx_hash == event.event_id@
            &&& event.block_number is Some ==> d.block_number == event.block_number->0
            &&& event.block_number is None ==> d.block_number == 0
            &&& d.lifecycle_state == LifecycleState::Provisional
            &&& d.incident_transition == Some(IncidentTransition::Trigger)
            &&& d.created_at == at
            &&& d.oracle_context.contains(("runtime_payload"@, alert.payload@))
            &&& d.oracle_context.contains(("runtime_trace"@, texts_json(trace)))
        }),
{
    reveal(detection_of);
    let d = detection_of(pattern, rule, event, alert, trace, id, at);
    assert(d.oracle_context[0].0 == "runtime_payload"@);
    assert(d.oracle_context[1].0 == "runtime_trace"@);
}

/// A graver alert has a higher score.
pub proof fn law_graver_alerts_score_higher()
    ensures
        score_of(Severity::Info).below(score_of(Severity::Low)),
        score_of(Severity::Low).below(score_of(Severity::Medium)),
        score_of(Severity::Medium).below(score_of(Severity::High)),
        score_of(Severity::High).below(score_of(Severity::Critical)),
{
}

/// The address of the service is what is given without white space around it and slashes behind
/// it; where nothing is left, there is no service.
pub proof fn law_service_addresses_end_without_a_slash(s: Seq<char>)
    ensures
        base_address(None) is None,
        base_address(Some(s)) is None <==> forall|i: int|
            0 <= i < trimmed(s).len() ==> #[trigger] trimmed(s)[i] == '/',
        base_address(Some(s)) is Some ==> ({
            let a = base_address(Some(s))->0;
            &&& a.last() != '/'
            &&& a == trimmed(s).take(a.len() as int)
            &&& forall|i: int|
                a.len() <= i < trimmed(s).len() ==> #[trigger] trimmed(s)[i] == '/'
        }),
{
    let t = trimmed(s);
    let n = crate::text::lemma_cut_back(Margin::Slash, t);
    let a = cut_back(Margin::Slash, t);
    assert(a.len() == n);
    assert forall|i: int| n <= i < t.len() implies #[trigger] t[i] == '/' by {
        assert(crate::text::marginal(Margin::Slash, t[i]));
    }
    if n > 0 {
        assert(a.last() == t[n - 1]);
        assert(!crate::text::marginal(Margin::Slash, t[n - 1]));
    }
}

/// A token is used as it is given, unless it is blank.
pub proof fn law_blank_tokens_are_not_used(s: Seq<char>)
    ensures
        trimmed(s).len() > 0 ==> usable_token(Some(s)) == Some(s),
        trimmed(s).len() == 0 ==> usable_token(Some(s)) is None,
        usable_token(None) is None,
{
}

/// The rules of three patterns are not run here, and those of two engines alone are.
pub proof fn law_rules_run_here_are_known(name: Seq<char>)
    ensures
        built_in(name) <==> name == "dpeg"@ || name == "flash_loan"@ || name == "tvl_drop"@,
        sandboxed(name) <==> name == "python-sandbox-v1"@ || name == "js-sandbox-v1"@,
{
}

/// The health of a rule is kept apart by tenant, pattern and rule.
pub proof fn law_health_is_kept_by_rule(tenant: Seq<char>, pattern: Seq<char>, rule: Seq<char>)
    ensures
        health_key_of(tenant, pattern, rule) == tenant + ":"@ + pattern + ":"@ + rule,
{
}

} // verus!
