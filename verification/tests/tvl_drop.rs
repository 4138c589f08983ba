use std::ops::Add;
use std::ops::Sub;

use detector::double::Double;
use detector::time::Timestamp;
use std::collections::HashMap;

use detector::event::severity_rank;
use detector::event::severity_text;
use detector::event::AttackFamily;
use detector::event::ContextClassification;
use detector::event::IncidentTransition;
use detector::event::LifecycleState;
use detector::event::Severity;
use detector::event::SignalType;
use detector::event::SourceType;
use detector::event::UnifiedEvent;
use detector::json::Json;
use detector::settings::ConfigEntry;
use detector::tvl_drop::detection::build_pause_detection;
use detector::tvl_drop::detection::build_tvl_detection;
use detector::tvl_drop::detection::DetectionSubject;
use detector::tvl_drop::pattern::CachedState;
use detector::tvl_drop::pattern::TenantRules;
use detector::tvl_drop::pattern::TvlDropPattern;
use detector::tvl_drop::reading::TvlPauseEvent;
use detector::tvl_drop::reading::TvlStateEvent;
use detector::tvl_drop::rule::parse_tvl_drop_rules;
use detector::tvl_drop::rule::TvlDropRule;
use detector::tvl_drop::state::clamp_severity;
use detector::tvl_drop::state::Branch;
use detector::tvl_drop::state::TvlEvaluation;
use detector::tvl_drop::state::TvlRuleState;
use detector::tvl_drop::state::Verdict;
use detector::tvl_drop::window::classify_velocity_pattern;
use detector::tvl_drop::window::TvlSamplePoint;

fn d(x: f64) -> Double {
    Double { bits: x.to_bits() }
}

fn f(x: Double) -> f64 {
    f64::from_bits(x.bits)
}

struct Utc;

impl Utc {
    fn now() -> Timestamp {
        detector::outside::current_time()
    }
}

#[derive(Clone, Copy)]
struct Duration {
    nanos: i128,
}

impl Duration {
    fn seconds(n: i64) -> Duration {
        Duration { nanos: n as i128 * 1_000_000_000 }
    }

    fn minutes(n: i64) -> Duration {
        Duration { nanos: n as i128 * 60_000_000_000 }
    }
}

impl Add<Duration> for Timestamp {
    type Output = Timestamp;

    fn add(self, other: Duration) -> Timestamp {
        Timestamp { nanos: self.nanos + other.nanos }
    }
}

impl Sub<Duration> for Timestamp {
    type Output = Timestamp;

    fn sub(self, other: Duration) -> Timestamp {
        Timestamp { nanos: self.nanos - other.nanos }
    }
}

fn from_value(v: &serde_json::Value) -> Json {
    match v {
        serde_json::Value::Null => Json::Null,
        serde_json::Value::Bool(b) => Json::Bool(*b),
        serde_json::Value::Number(n) => match (n.as_u64(), n.as_i64()) {
            (Some(n), _) => Json::UInt(n),
            (None, Some(n)) => Json::Int(n),
            (None, None) => Json::Float(d(n.as_f64().unwrap())),
        },
        serde_json::Value::String(s) => Json::Text(s.clone()),
        serde_json::Value::Array(v) => Json::List(v.iter().map(from_value).collect()),
        serde_json::Value::Object(m) => Json::Object(
            m.iter().map(|(k, v)| (k.clone(), from_value(v))).collect(),
        ),
    }
}

fn json(text: &str) -> Json {
    from_value(&serde_json::from_str(text).expect("a document"))
}

fn to_value(v: &Json) -> serde_json::Value {
    match v {
        Json::Null => serde_json::Value::Null,
        Json::Bool(b) => serde_json::Value::from(*b),
        Json::UInt(n) => serde_json::Value::from(*n),
        Json::Int(n) => serde_json::Value::from(*n),
        Json::Float(x) => serde_json::Value::from(f(*x)),
        Json::Text(s) => serde_json::Value::from(s.as_str()),
        Json::List(v) => serde_json::Value::Array(v.iter().map(to_value).collect()),
        Json::Object(m) => serde_json::Value::Object(
            m.iter().map(|(k, v)| (k.clone(), to_value(v))).collect(),
        ),
    }
}

fn shown(m: &Vec<(String, Json)>) -> HashMap<String, serde_json::Value> {
    m.iter().map(|(k, v)| (k.clone(), to_value(v))).collect()
}

fn value<T: Into<serde_json::Value>>(x: T) -> serde_json::Value {
    x.into()
}

fn row(tenant_id: &str, config: Json) -> ConfigEntry {
    ConfigEntry {
        tenant_id: tenant_id.to_string(),
        pattern_id: "tvl_drop".to_string(),
        config,
    }
}

fn base_rule() -> TvlDropRule {
    TvlDropRule {
        rule_id: "tvl-default".to_string(),
        protocol_id: "aave_v3".to_string(),
        chain_slug: "base".to_string(),
        scope: "protocol".to_string(),
        market_id: None,
        fast_drop_pct: d(20.0),
        fast_window_minutes: 10,
        slow_drop_pct: d(35.0),
        slow_window_minutes: 60,
        velocity_critical_pct: d(15.0),
        velocity_critical_minutes: 2,
        concurrent_window_minutes: 5,
        min_tvl_floor_usd: d(1_000_000.0),
        enabled: true,
        contagion_enabled: true,
    }
}

fn sample(ts: Timestamp, tvl_usd: f64) -> TvlSamplePoint {
    TvlSamplePoint {
        observed_at: ts,
        tvl_usd: d(tvl_usd),
    }
}

fn state_event(
    protocol_id: &str,
    chain_slug: &str,
    market_id: Option<&str>,
    tvl_usd: f64,
) -> TvlStateEvent {
    TvlStateEvent {
        protocol_id: protocol_id.to_string(),
        chain_slug: chain_slug.to_string(),
        market_id: market_id.map(ToString::to_string),
        tvl_usd: d(tvl_usd),
        block_number: 1,
        tx_hash: Some("0xtest".to_string()),
    }
}

fn unified_tvl_event() -> UnifiedEvent {
    UnifiedEvent {
        event_id: "evt-1".to_string(),
        tenant_id: "tenant-a".to_string(),
        source_id: "aave-v3-base-protocol-state".to_string(),
        source_type: SourceType::EvmChain,
        event_type: "protocol_state".to_string(),
        timestamp: Utc::now(),
        payload: json(r#"{
            "protocol_id": "aave_v3",
            "chain_slug": "base",
            "tvl_usd": 375000000.0
        }"#),
        chain_id: Some(8453),
        block_number: Some(1),
        tx_hash: Some("0xtest".to_string()),
        market_key: None,
        price: None,
    }
}

#[test]
fn velocity_branch_sets_critical() {
    let now = Utc::now();
    let mut state = TvlRuleState::default();
    let rule = base_rule();
    state
        .samples
        .push(sample(now - Duration::minutes(1), 100_000_000.0));
    let event = state_event("aave_v3", "base", None, 80_000_000.0);

    let pattern = TvlDropPattern::default();
    let eval = pattern.process_state_sample(&rule, &mut state, &event, now);
    assert!(matches!(eval.base_severity, Some(Severity::Critical)));
    assert_eq!(eval.velocity_pattern, Some("ACCELERATING"));
    assert_eq!(eval.breached_branch, Some(Branch::Velocity));
}

#[test]
fn floor_gate_blocks_detection() {
    let now = Utc::now();
    let mut state = TvlRuleState::default();
    let mut rule = base_rule();
    rule.min_tvl_floor_usd = d(5_000_000.0);
    state
        .samples
        .push(sample(now - Duration::minutes(3), 4_500_000.0));
    let event = state_event("aave_v3", "base", None, 3_000_000.0);

    let pattern = TvlDropPattern::default();
    let eval = pattern.process_state_sample(&rule, &mut state, &event, now);
    assert!(eval.base_severity.is_none());
}

#[test]
fn floor_gate_uses_fast_window_reference_tvl() {
    let now = Utc::now();
    let mut state = TvlRuleState::default();
    let rule = base_rule();
    state
        .samples
        .push(sample(now - Duration::minutes(4), 2_000_000.0));
    state
        .samples
        .push(sample(now - Duration::minutes(2), 1_600_000.0));
    let event = state_event("aave_v3", "base", None, 800_000.0);

    let pattern = TvlDropPattern::default();
    let eval = pattern.process_state_sample(&rule, &mut state, &event, now);

    assert!(matches!(eval.base_severity, Some(Severity::Critical)));
    assert_eq!(eval.fast_window_reference_tvl_usd, Some(d(2_000_000.0)));
}

#[test]
fn exactly_at_floor_still_allows_detection() {
    let now = Utc::now();
    let mut state = TvlRuleState::default();
    let rule = base_rule();
    state
        .samples
        .push(sample(now - Duration::minutes(4), 1_000_000.0));
    let event = state_event("aave_v3", "base", None, 750_000.0);

    let pattern = TvlDropPattern::default();
    let eval = pattern.process_state_sample(&rule, &mut state, &event, now);

    assert!(matches!(eval.base_severity, Some(Severity::Critical)));
}

#[test]
fn fast_drop_under_five_minutes_is_critical() {
    let now = Utc::now();
    let mut state = TvlRuleState::default();
    let rule = base_rule();
    state
        .samples
        .push(sample(now - Duration::minutes(4), 100_000_000.0));
    let event = state_event("aave_v3", "base", None, 78_000_000.0);

    let pattern = TvlDropPattern::default();
    let eval = pattern.process_state_sample(&rule, &mut state, &event, now);

    assert!(matches!(eval.base_severity, Some(Severity::Critical)));
    assert_eq!(eval.time_to_reach_current_drop_minutes, Some(d(4.0)));
    assert_eq!(eval.breached_branch, Some(Branch::Fast));
}

#[test]
fn fast_drop_at_exactly_five_minutes_is_high() {
    let now = Utc::now();
    let mut state = TvlRuleState::default();
    let rule = base_rule();
    state
        .samples
        .push(sample(now - Duration::minutes(5), 100_000_000.0));
    let event = state_event("aave_v3", "base", None, 80_000_000.0);

    let pattern = TvlDropPattern::default();
    let eval = pattern.process_state_sample(&rule, &mut state, &event, now);

    assert!(matches!(eval.base_severity, Some(Severity::High)));
    assert_eq!(eval.time_to_reach_current_drop_minutes, Some(d(5.0)));
}

#[test]
fn fast_drop_at_exactly_two_minutes_uses_fast_branch_critical() {
    let now = Utc::now();
    let mut state = TvlRuleState::default();
    let rule = base_rule();
    state
        .samples
        .push(sample(now - Duration::minutes(2), 100_000_000.0));
    let event = state_event("aave_v3", "base", None, 80_000_000.0);

    let pattern = TvlDropPattern::default();
    let eval = pattern.process_state_sample(&rule, &mut state, &event, now);

    assert!(matches!(eval.base_severity, Some(Severity::Critical)));
    assert_eq!(eval.time_to_reach_current_drop_minutes, Some(d(2.0)));
    assert_eq!(eval.breached_branch, Some(Branch::Fast));
}

#[test]
fn slow_drain_fires_when_fast_window_misses() {
    let now = Utc::now();
    let mut state = TvlRuleState::default();
    let rule = base_rule();
    state
        .samples
        .push(sample(now - Duration::minutes(60), 500_000_000.0));
    state
        .samples
        .push(sample(now - Duration::minutes(10), 340_000_000.0));
    let event = state_event("aave_v3", "base", None, 310_000_000.0);

    let pattern = TvlDropPattern::default();
    let eval = pattern.process_state_sample(&rule, &mut state, &event, now);

    assert!(matches!(eval.base_severity, Some(Severity::High)));
    assert!(f(eval.fast_drop_pct) < f(rule.fast_drop_pct));
    assert!(f(eval.slow_drop_pct) >= f(rule.slow_drop_pct));
    assert_eq!(eval.breached_branch, Some(Branch::Slow));
}

#[test]
fn tvl_increase_does_not_alert() {
    let now = Utc::now();
    let mut state = TvlRuleState::default();
    let rule = base_rule();
    state
        .samples
        .push(sample(now - Duration::minutes(10), 500_000_000.0));
    let event = state_event("aave_v3", "base", None, 550_000_000.0);

    let pattern = TvlDropPattern::default();
    let eval = pattern.process_state_sample(&rule, &mut state, &event, now);

    assert!(eval.base_severity.is_none());
    assert_eq!(f(eval.fast_drop_pct), 0.0);
    assert_eq!(f(eval.slow_drop_pct), 0.0);
}

#[test]
fn velocity_classification_matches_pdf_examples() {
    assert_eq!(
        classify_velocity_pattern(d(30.0), d(10.0), Some(d(0.05))),
        Some("CLIFF")
    );
    assert_eq!(
        classify_velocity_pattern(d(25.0), d(15.0), Some(d(4.0))),
        Some("ACCELERATING")
    );
    assert_eq!(
        classify_velocity_pattern(d(20.0), d(5.0), Some(d(5.0))),
        Some("LINEAR")
    );
    assert_eq!(
        classify_velocity_pattern(d(20.0), d(5.0), Some(d(9.0))),
        Some("DECELERATING")
    );
}

#[test]
fn parser_supports_threshold_and_scope_variants() {
    let config = json(r#"{
        "rules": [{
            "rule_id": "r1",
            "scope": {
                "chain_slug": "base",
                "protocol_id": "morpho_blue",
                "market_id": "usdc"
            },
            "thresholds": {
                "fast_drop_pct": 25,
                "fast_window_sec": 300,
                "slow_drop_pct": 40,
                "slow_window_sec": 3600,
                "velocity_critical_pct": 18,
                "velocity_window_sec": 120
            },
            "contagion": {
                "enabled": true,
                "overlap_window_sec": 600
            },
            "min_tvl_floor_usd": 2500000,
            "enabled": true
        }]
    }"#);

    let rules = parse_tvl_drop_rules(&config);
    assert_eq!(rules.len(), 1);
    let rule = &rules[0];
    assert_eq!(rule.protocol_id, "morpho_blue");
    assert_eq!(rule.chain_slug, "base");
    assert_eq!(rule.scope, "market");
    assert_eq!(rule.market_id.as_deref(), Some("usdc"));
    assert_eq!(rule.fast_window_minutes, 5);
    assert_eq!(rule.velocity_critical_minutes, 2);
    assert_eq!(rule.concurrent_window_minutes, 10);
}

#[test]
fn reload_config_keeps_tenant_rules_isolated_for_same_subject() {
    let mut pattern = TvlDropPattern::default();
    let mut rows = Vec::new();

    rows.push(row(
        "tenant-a",
        json(r#"{
            "rules": [{
                "rule_id": "tvl-a",
                "scope": {
                    "chain_slug": "base",
                    "protocol_id": "aave_v3",
                    "market_id": "all"
                },
                "thresholds": {
                    "fast_drop_pct": 10,
                    "fast_window_sec": 300,
                    "slow_drop_pct": 20,
                    "slow_window_sec": 3600,
                    "velocity_critical_pct": 5,
                    "velocity_window_sec": 120
                },
                "contagion": {
                    "enabled": true,
                    "overlap_window_sec": 300
                },
                "min_tvl_floor_usd": 1000000,
                "enabled": true
            }]
        }"#),
    ));
    rows.push(row(
        "tenant-b",
        json(r#"{
            "rules": [{
                "rule_id": "tvl-b",
                "scope": {
                    "chain_slug": "base",
                    "protocol_id": "aave_v3",
                    "market_id": "all"
                },
                "thresholds": {
                    "fast_drop_pct": 35,
                    "fast_window_sec": 300,
                    "slow_drop_pct": 50,
                    "slow_window_sec": 3600,
                    "velocity_critical_pct": 25,
                    "velocity_window_sec": 120
                },
                "contagion": {
                    "enabled": false,
                    "overlap_window_sec": 900
                },
                "min_tvl_floor_usd": 2000000,
                "enabled": true
            }]
        }"#),
    ));

    pattern.reload_config(&rows);

    let tenant_a = pattern.effective_rules("tenant-a").expect("tenant-a rules");
    let tenant_b = pattern.effective_rules("tenant-b").expect("tenant-b rules");

    assert_eq!(tenant_a.len(), 1);
    assert_eq!(tenant_b.len(), 1);
    assert_eq!(f(tenant_a[0].fast_drop_pct), 10.0);
    assert_eq!(f(tenant_b[0].fast_drop_pct), 35.0);
    assert!(tenant_a[0].contagion_enabled);
    assert!(!tenant_b[0].contagion_enabled);
}

#[test]
fn process_state_sample_uses_tenant_specific_thresholds_independently() {
    let now = Utc::now();
    let mut state = TvlRuleState::default();
    state
        .samples
        .push(sample(now - Duration::minutes(4), 100_000_000.0));
    let mut tenant_a_state = state.copy();
    let mut tenant_b_state = state;

    let event = state_event("aave_v3", "base", None, 80_000_000.0);

    let mut tenant_a_rule = base_rule();
    tenant_a_rule.fast_drop_pct = d(10.0);
    tenant_a_rule.slow_drop_pct = d(20.0);
    tenant_a_rule.velocity_critical_pct = d(25.0);

    let mut tenant_b_rule = base_rule();
    tenant_b_rule.fast_drop_pct = d(30.0);
    tenant_b_rule.slow_drop_pct = d(45.0);
    tenant_b_rule.velocity_critical_pct = d(25.0);

    let pattern = TvlDropPattern::default();
    let tenant_a =
        pattern.process_state_sample(&tenant_a_rule, &mut tenant_a_state, &event, now);
    let tenant_b =
        pattern.process_state_sample(&tenant_b_rule, &mut tenant_b_state, &event, now);

    assert!(tenant_a.base_severity.is_some());
    assert!(f(tenant_a.selected_drop_pct) >= f(tenant_a_rule.fast_drop_pct));
    assert!(tenant_b.base_severity.is_none());
    assert!(f(tenant_b.selected_drop_pct) < f(tenant_b_rule.fast_drop_pct));
}

#[test]
fn payload_includes_velocity_drain_and_contagion_metadata() {
    let event = unified_tvl_event();
    let rule = base_rule();
    let evaluation = TvlEvaluation {
        fast_drop_pct: d(25.0),
        slow_drop_pct: d(25.0),
        velocity_drop_pct: d(15.0),
        selected_drop_pct: d(25.0),
        fast_window_reference_tvl_usd: Some(d(500_000_000.0)),
        time_to_reach_current_drop_minutes: Some(d(5.0)),
        drain_rate_usd_per_min: Some(d(25_000_000.0)),
        estimated_time_to_empty_minutes: Some(d(15.0)),
        velocity_pattern: Some("CLIFF"),
        base_severity: Some(Severity::Critical),
        breached_branch: Some(Branch::Velocity),
        deposit_gate_skipped: false,
        position_data_stale: false,
    };
    let subject = DetectionSubject {
        subject_type: "protocol".to_string(),
        subject_key: "aave_v3:base".to_string(),
    };
    let verdict = Verdict {
        severity: Severity::Critical,
        classification: ContextClassification::Systemic,
        transition: Some(IncidentTransition::Trigger),
    };
    let sample = state_event("aave_v3", "base", None, 375_000_000.0);

    let detection = build_tvl_detection(
        &event,
        &rule,
        &subject,
        &verdict,
        verdict.transition.unwrap(),
        &evaluation,
        &sample,
        &Vec::new(),
        Utc::now(),
    );
    let oracle = shown(&detection.oracle_context);

    assert_eq!(
        oracle.get("velocity_pattern"),
        Some(&value("CLIFF"))
    );
    assert_eq!(
        oracle.get("drain_rate_usd_per_min"),
        Some(&value(25_000_000.0))
    );
    assert_eq!(
        oracle.get("estimated_time_to_empty_minutes"),
        Some(&value(15.0))
    );
    assert_eq!(
        oracle.get("contagion_status"),
        Some(&value("CONCURRENT_DROPS"))
    );
}

#[test]
fn concurrent_active_drop_detection_is_tenant_isolated() {
    let now = Utc::now();
    let mut pattern = TvlDropPattern::default();
    pattern.state_cache.push(CachedState {
        key: "tenant-a:rule-a:aave_v3:base".to_string(),
        state: TvlRuleState {
            last_severity: Some("high".to_string()),
            last_breach_at: Some(now),
            protocol_chain_key: Some("aave_v3:base".to_string()),
            ..Default::default()
        },
    });
    pattern.state_cache.push(CachedState {
        key: "tenant-a:rule-b:euler_v2:base".to_string(),
        state: TvlRuleState {
            last_severity: Some("high".to_string()),
            last_breach_at: Some(now),
            protocol_chain_key: Some("euler_v2:base".to_string()),
            ..Default::default()
        },
    });
    pattern.state_cache.push(CachedState {
        key: "tenant-b:rule-c:euler_v2:base".to_string(),
        state: TvlRuleState {
            last_severity: Some("high".to_string()),
            last_breach_at: Some(now),
            protocol_chain_key: Some("euler_v2:base".to_string()),
            ..Default::default()
        },
    });

    assert!(pattern.has_concurrent_active_drop(
        "tenant-a",
        "tenant-a:rule-a:aave_v3:base",
        "aave_v3:base",
        now,
        5
    ));
    assert!(!pattern.has_concurrent_active_drop(
        "tenant-b",
        "tenant-b:rule-c:euler_v2:base",
        "euler_v2:base",
        now,
        5
    ));
}

fn determine_transition(
    base_severity: Option<&Severity>,
    final_severity: &Severity,
    previous_severity: Option<&Severity>,
    selected_drop_pct: f64,
    previous_drop_pct: f64,
    previous_context: &str,
    current_context: &str,
) -> Option<IncidentTransition> {
    let state = TvlRuleState {
        last_severity: previous_severity.map(|s| severity_text(*s).to_string()),
        last_drop_pct: Some(d(previous_drop_pct)),
        last_context: Some(previous_context.to_string()),
        ..Default::default()
    };
    let evaluation = TvlEvaluation {
        fast_drop_pct: d(selected_drop_pct),
        slow_drop_pct: d(selected_drop_pct),
        velocity_drop_pct: d(0.0),
        selected_drop_pct: d(selected_drop_pct),
        fast_window_reference_tvl_usd: None,
        time_to_reach_current_drop_minutes: None,
        drain_rate_usd_per_min: None,
        estimated_time_to_empty_minutes: None,
        velocity_pattern: None,
        base_severity: base_severity.copied(),
        breached_branch: None,
        deposit_gate_skipped: false,
        position_data_stale: false,
    };
    let verdict = state.judge_sample(&evaluation, current_context == "systemic");
    assert_eq!(verdict.severity, *final_severity);
    verdict.transition
}

fn determine_reorg_correction(
    orphaned_severity: Option<&Severity>,
    canonical_severity: Option<&Severity>,
) -> Option<&'static str> {
    match (orphaned_severity, canonical_severity) {
        (Some(_), None) => Some("RETRACTION"),
        (Some(o), Some(c)) if severity_rank(Some(c)) != severity_rank(Some(o)) => {
            Some("UPDATE")
        }
        (None, Some(_)) => Some("LATE_ALERT"),
        _ => None,
    }
}

fn pause_event_data(protocol_id: &str, chain_slug: &str, paused: bool) -> TvlPauseEvent {
    TvlPauseEvent {
        protocol_id: protocol_id.to_string(),
        chain_slug: chain_slug.to_string(),
        market_id: None,
        paused,
        block_number: 1,
        tx_hash: Some("0xtest-pause".to_string()),
    }
}

fn unified_pause_event(protocol_id: &str, paused: bool) -> UnifiedEvent {
    UnifiedEvent {
        event_id: "evt-pause-1".to_string(),
        tenant_id: "tenant-a".to_string(),
        source_id: format!("{protocol_id}-base-pause"),
        source_type: SourceType::EvmChain,
        event_type: if paused {
            "protocol_pause".to_string()
        } else {
            "protocol_unpause".to_string()
        },
        timestamp: Utc::now(),
        payload: json(&format!(
            r#"{{"protocol_id": "{protocol_id}", "chain_slug": "base", "paused": {paused}}}"#
        )),
        chain_id: Some(8453),
        block_number: Some(1),
        tx_hash: Some("0xtest-pause".to_string()),
        market_key: None,
        price: None,
    }
}

#[test]
fn no_deposit_skips_detection() {
    let now = Utc::now();
    let mut state = TvlRuleState {
        tenant_has_deposit: Some(false),
        ..Default::default()
    };
    let rule = base_rule();
    state
        .samples
        .push(sample(now - Duration::minutes(3), 500_000_000.0));

    let event = state_event("aave_v3", "base", None, 250_000_000.0);

    let pattern = TvlDropPattern::default();
    let eval = pattern.process_state_sample(&rule, &mut state, &event, now);
    assert!(eval.base_severity.is_none());
    assert!(eval.deposit_gate_skipped);
}

#[test]
fn stale_position_data_defaults_to_alerting() {
    let now = Utc::now();
    let mut state = TvlRuleState {
        tenant_has_deposit: Some(false),
        position_data_stale: Some(true),
        ..Default::default()
    };
    let rule = base_rule();
    state
        .samples
        .push(sample(now - Duration::minutes(3), 500_000_000.0));
    let event = state_event("aave_v3", "base", None, 375_000_000.0);

    let pattern = TvlDropPattern::default();
    let eval = pattern.process_state_sample(&rule, &mut state, &event, now);
    assert!(matches!(eval.base_severity, Some(Severity::Critical)));
    assert!(!eval.deposit_gate_skipped);
    assert!(eval.position_data_stale);
}

#[test]
fn moderate_fast_drop_over_five_min_is_high() {
    let now = Utc::now();
    let mut state = TvlRuleState::default();
    let rule = base_rule();
    state
        .samples
        .push(sample(now - Duration::minutes(7), 100_000_000.0));
    let event = state_event("aave_v3", "base", None, 78_000_000.0);

    let pattern = TvlDropPattern::default();
    let eval = pattern.process_state_sample(&rule, &mut state, &event, now);
    assert!(matches!(eval.base_severity, Some(Severity::High)));
    assert_eq!(eval.breached_branch, Some(Branch::Fast));
    assert_eq!(eval.time_to_reach_current_drop_minutes, Some(d(7.0)));
}

#[test]
fn below_both_thresholds_no_alert() {
    let now = Utc::now();
    let mut state = TvlRuleState::default();
    let rule = base_rule();
    state
        .samples
        .push(sample(now - Duration::minutes(60), 100_000_000.0));
    state
        .samples
        .push(sample(now - Duration::minutes(10), 100_000_000.0));

    let event = state_event("aave_v3", "base", None, 82_000_000.0);

    let pattern = TvlDropPattern::default();
    let eval = pattern.process_state_sample(&rule, &mut state, &event, now);
    assert!(eval.base_severity.is_none());
    assert!(eval.breached_branch.is_none());
}

#[test]
fn severity_is_never_medium_for_tvl_drops() {
    let now = Utc::now();
    let pattern = TvlDropPattern::default();
    let rule = base_rule();

    for fast_pct in [5, 10, 15, 20, 25, 30, 50, 80] {
        for time_min in [1i64, 2, 3, 5, 7, 10] {
            let start_tvl = 100_000_000.0;
            let end_tvl = start_tvl * (1.0 - fast_pct as f64 / 100.0);
            let mut state = TvlRuleState::default();
            state
                .samples
                .push(sample(now - Duration::minutes(time_min), start_tvl));
            let event = state_event("aave_v3", "base", None, end_tvl);
            let eval = pattern.process_state_sample(&rule, &mut state, &event, now);
            if let Some(ref sev) = eval.base_severity {
                assert!(
                    !matches!(sev, Severity::Medium),
                    "got MEDIUM for fast_pct={fast_pct}%, time={time_min}min"
                );
            }
        }
    }
}

#[test]
fn slow_drain_above_threshold_standalone_high() {
    let now = Utc::now();
    let mut state = TvlRuleState::default();
    let rule = base_rule();

    state
        .samples
        .push(sample(now - Duration::minutes(60), 500_000_000.0));
    state
        .samples
        .push(sample(now - Duration::minutes(10), 350_000_000.0));
    let event = state_event("aave_v3", "base", None, 320_000_000.0);

    let pattern = TvlDropPattern::default();
    let eval = pattern.process_state_sample(&rule, &mut state, &event, now);
    assert!(matches!(eval.base_severity, Some(Severity::High)));
    assert!(f(eval.fast_drop_pct) < f(rule.fast_drop_pct));
    assert!(f(eval.slow_drop_pct) >= f(rule.slow_drop_pct));
    assert_eq!(eval.breached_branch, Some(Branch::Slow));
}

#[test]
fn slow_drain_below_threshold_no_alert() {
    let now = Utc::now();
    let mut state = TvlRuleState::default();
    let rule = base_rule();
    state
        .samples
        .push(sample(now - Duration::minutes(60), 100_000_000.0));
    state
        .samples
        .push(sample(now - Duration::minutes(10), 90_000_000.0));
    let event = state_event("aave_v3", "base", None, 88_000_000.0);

    let pattern = TvlDropPattern::default();
    let eval = pattern.process_state_sample(&rule, &mut state, &event, now);
    assert!(eval.base_severity.is_none());
}

#[test]
fn cross_protocol_concurrent_drops_elevates_to_critical() {
    let now = Utc::now();
    let mut pattern = TvlDropPattern::default();

    pattern.state_cache.push(CachedState {
        key: "tenant-a:rule-a:aave_v3:base".to_string(),
        state: TvlRuleState {
            last_severity: Some("high".to_string()),
            last_breach_at: Some(now),
            protocol_chain_key: Some("aave_v3:base".to_string()),
            ..Default::default()
        },
    });

    pattern.state_cache.push(CachedState {
        key: "tenant-a:rule-b:euler_v2:base".to_string(),
        state: TvlRuleState {
            last_severity: Some("high".to_string()),
            last_breach_at: Some(now),
            protocol_chain_key: Some("euler_v2:base".to_string()),
            ..Default::default()
        },
    });

    assert!(pattern.has_concurrent_active_drop(
        "tenant-a",
        "tenant-a:rule-a:aave_v3:base",
        "aave_v3:base",
        now,
        5
    ));

    assert!(pattern.has_concurrent_active_drop(
        "tenant-a",
        "tenant-a:rule-b:euler_v2:base",
        "euler_v2:base",
        now,
        5
    ));
}

#[test]
fn single_protocol_no_cross_contagion() {
    let now = Utc::now();
    let mut pattern = TvlDropPattern::default();
    pattern.state_cache.push(CachedState {
        key: "tenant-a:rule-a:aave_v3:base".to_string(),
        state: TvlRuleState {
            last_severity: Some("high".to_string()),
            last_breach_at: Some(now),
            protocol_chain_key: Some("aave_v3:base".to_string()),
            ..Default::default()
        },
    });

    assert!(!pattern.has_concurrent_active_drop(
        "tenant-a",
        "tenant-a:rule-a:aave_v3:base",
        "aave_v3:base",
        now,
        5
    ));
}

#[test]
fn severity_escalates_high_to_critical() {
    let now = Utc::now();
    let pattern = TvlDropPattern::default();
    let rule = base_rule();

    let mut state = TvlRuleState::default();
    state
        .samples
        .push(sample(now - Duration::minutes(7), 100_000_000.0));
    let event1 = state_event("aave_v3", "base", None, 80_000_000.0);
    let eval1 = pattern.process_state_sample(&rule, &mut state, &event1, now);
    assert!(matches!(eval1.base_severity, Some(Severity::High)));

    state.last_severity = Some("high".to_string());
    state.last_drop_pct = Some(eval1.selected_drop_pct);

    let now2 = now + Duration::minutes(4);
    let event2 = state_event("aave_v3", "base", None, 50_000_000.0);
    let eval2 = pattern.process_state_sample(&rule, &mut state, &event2, now2);
    assert!(matches!(eval2.base_severity, Some(Severity::Critical)));

    let clamped = clamp_severity(Severity::Critical, Some(&Severity::High));
    assert!(matches!(clamped, Severity::Critical));
}

#[test]
fn severity_never_deescalates() {
    assert!(matches!(
        clamp_severity(Severity::High, Some(&Severity::Critical)),
        Severity::Critical
    ));

    assert!(matches!(
        clamp_severity(Severity::Critical, Some(&Severity::Critical)),
        Severity::Critical
    ));

    assert!(matches!(
        clamp_severity(Severity::High, None),
        Severity::High
    ));

    assert!(matches!(
        clamp_severity(Severity::Critical, Some(&Severity::High)),
        Severity::Critical
    ));
}

#[test]
fn pause_without_tvl_drop_fires_protocol_paused() {
    let event = unified_pause_event("euler_v2", true);
    let mut rule = base_rule();
    rule.protocol_id = "euler_v2".to_string();

    let pause = pause_event_data("euler_v2", "base", true);
    let subject = DetectionSubject {
        subject_type: "protocol".to_string(),
        subject_key: "euler_v2:base".to_string(),
    };
    let verdict = Verdict {
        severity: Severity::High,
        classification: ContextClassification::Unclassified,
        transition: Some(IncidentTransition::Trigger),
    };

    let detection = build_pause_detection(
        &event,
        &rule.rule_id,
        &subject,
        &verdict,
        verdict.transition.unwrap(),
        &pause,
        Utc::now(),
    );
    assert!(matches!(detection.severity, Severity::High));
    assert!(matches!(
        detection.incident_transition,
        Some(IncidentTransition::Trigger)
    ));
    assert_eq!(
        detection.signals[0].signal_type,
        SignalType::ProtocolPauseState
    );
    assert_eq!(f(detection.signals[0].value), 1.0);
    assert!(detection.description.as_deref().unwrap().contains("paused"));
}

#[test]
fn pause_during_active_tvl_drop_annotates_incident() {
    let event = unified_pause_event("euler_v2", true);
    let mut rule = base_rule();
    rule.protocol_id = "euler_v2".to_string();

    let pause = pause_event_data("euler_v2", "base", true);
    let subject = DetectionSubject {
        subject_type: "protocol".to_string(),
        subject_key: "euler_v2:base".to_string(),
    };
    let verdict = Verdict {
        severity: Severity::Critical,
        classification: ContextClassification::Isolated,
        transition: Some(IncidentTransition::Update),
    };

    let detection = build_pause_detection(
        &event,
        &rule.rule_id,
        &subject,
        &verdict,
        verdict.transition.unwrap(),
        &pause,
        Utc::now(),
    );
    assert!(matches!(detection.severity, Severity::Critical));
    assert!(matches!(
        detection.incident_transition,
        Some(IncidentTransition::Update)
    ));
    assert_eq!(
        shown(&detection.oracle_context).get("pause_state"),
        Some(&value("paused"))
    );
    assert!(detection
        .description
        .as_deref()
        .unwrap()
        .contains("TVL-drop incident remains active"));
}

#[test]
fn tvl_unchanged_no_alert() {
    let now = Utc::now();
    let mut state = TvlRuleState::default();
    let rule = base_rule();
    state
        .samples
        .push(sample(now - Duration::minutes(10), 300_000_000.0));
    let event = state_event("aave_v3", "base", None, 300_000_000.0);

    let pattern = TvlDropPattern::default();
    let eval = pattern.process_state_sample(&rule, &mut state, &event, now);
    assert!(eval.base_severity.is_none());
    assert_eq!(f(eval.fast_drop_pct), 0.0);
}

#[test]
fn small_organic_withdrawal_no_alert() {
    let now = Utc::now();
    let mut state = TvlRuleState::default();
    let rule = base_rule();
    state
        .samples
        .push(sample(now - Duration::minutes(10), 100_000_000.0));
    let event = state_event("aave_v3", "base", None, 97_000_000.0);

    let pattern = TvlDropPattern::default();
    let eval = pattern.process_state_sample(&rule, &mut state, &event, now);
    assert!(eval.base_severity.is_none());
    assert!(f(eval.fast_drop_pct) < f(rule.fast_drop_pct));
}

#[test]
fn duplicate_signal_same_severity_no_new_trigger() {
    let t = determine_transition(
        Some(&Severity::High),
        &Severity::High,
        Some(&Severity::High),
        20.0,
        20.0,
        "isolated",
        "isolated",
    );
    assert!(t.is_none(), "duplicate should produce no transition");

    let t2 = determine_transition(
        Some(&Severity::High),
        &Severity::High,
        Some(&Severity::High),
        20.5,
        20.0,
        "isolated",
        "isolated",
    );
    assert!(t2.is_none(), "<1% increase should not trigger update");

    let t3 = determine_transition(
        Some(&Severity::High),
        &Severity::High,
        Some(&Severity::High),
        22.0,
        20.0,
        "isolated",
        "isolated",
    );
    assert!(matches!(t3, Some(IncidentTransition::Update)));
}

#[test]
fn different_protocol_produces_different_subject() {
    let rule_aave = base_rule();
    let mut rule_euler = base_rule();
    rule_euler.protocol_id = "euler_v2".to_string();

    let (_, key_aave, _) = rule_aave.subject_for_event(None).unwrap();
    let (_, key_euler, _) = rule_euler.subject_for_event(None).unwrap();

    assert_ne!(key_aave, key_euler);
    assert_eq!(key_aave, "aave_v3:base");
    assert_eq!(key_euler, "euler_v2:base");
}

#[test]
fn detection_fields_correct_at_creation() {
    let event = unified_tvl_event();
    let rule = base_rule();
    let evaluation = TvlEvaluation {
        fast_drop_pct: d(25.0),
        slow_drop_pct: d(10.0),
        velocity_drop_pct: d(12.0),
        selected_drop_pct: d(25.0),
        fast_window_reference_tvl_usd: Some(d(500_000_000.0)),
        time_to_reach_current_drop_minutes: Some(d(4.0)),
        drain_rate_usd_per_min: Some(d(31_250_000.0)),
        estimated_time_to_empty_minutes: Some(d(12.0)),
        velocity_pattern: Some("ACCELERATING"),
        base_severity: Some(Severity::Critical),
        breached_branch: Some(Branch::Fast),
        deposit_gate_skipped: false,
        position_data_stale: false,
    };
    let sample_evt = state_event("aave_v3", "base", None, 375_000_000.0);
    let subject = DetectionSubject {
        subject_type: "protocol".to_string(),
        subject_key: "aave_v3:base".to_string(),
    };
    let verdict = Verdict {
        severity: Severity::Critical,
        classification: ContextClassification::Isolated,
        transition: Some(IncidentTransition::Trigger),
    };

    let det = build_tvl_detection(
        &event,
        &rule,
        &subject,
        &verdict,
        verdict.transition.unwrap(),
        &evaluation,
        &sample_evt,
        &Vec::new(),
        Utc::now(),
    );

    assert_eq!(det.pattern_id, "tvl_drop");
    assert!(matches!(det.severity, Severity::Critical));
    assert!(matches!(det.lifecycle_state, LifecycleState::Confirmed));
    assert!(matches!(
        det.incident_transition,
        Some(IncidentTransition::Trigger)
    ));
    assert!(matches!(
        det.attack_family,
        AttackFamily::LiquidationCascade
    ));
    assert_eq!(det.protocol, "aave_v3");
    assert_eq!(det.subject_key.as_deref(), Some("aave_v3:base"));
    assert_eq!(det.tenant_id.as_deref(), Some("tenant-a"));
}

#[test]
fn new_market_dropping_produces_independent_detection() {
    let now = Utc::now();
    let pattern = TvlDropPattern::default();
    let mut rule_usdc = base_rule();
    rule_usdc.scope = "market".to_string();
    rule_usdc.market_id = Some("usdc".to_string());
    let mut rule_weth = base_rule();
    rule_weth.scope = "market".to_string();
    rule_weth.market_id = Some("weth".to_string());

    let (_, key_usdc, _) = rule_usdc.subject_for_event(Some("usdc")).unwrap();
    let (_, key_weth, _) = rule_weth.subject_for_event(Some("weth")).unwrap();
    assert_ne!(key_usdc, key_weth);

    let mut state_usdc = TvlRuleState::default();
    state_usdc
        .samples
        .push(sample(now - Duration::minutes(4), 200_000_000.0));
    let evt_usdc = state_event("aave_v3", "base", Some("usdc"), 150_000_000.0);
    let eval_usdc = pattern.process_state_sample(&rule_usdc, &mut state_usdc, &evt_usdc, now);

    let mut state_weth = TvlRuleState::default();
    state_weth
        .samples
        .push(sample(now - Duration::minutes(4), 100_000_000.0));
    let evt_weth = state_event("aave_v3", "base", Some("weth"), 75_000_000.0);
    let eval_weth = pattern.process_state_sample(&rule_weth, &mut state_weth, &evt_weth, now);

    assert!(eval_usdc.base_severity.is_some());
    assert!(eval_weth.base_severity.is_some());
}

#[test]
fn no_automatic_resolution_on_tvl_recovery() {
    let now = Utc::now();
    let pattern = TvlDropPattern::default();
    let rule = base_rule();

    let mut state = TvlRuleState {
        last_severity: Some("critical".to_string()),
        last_drop_pct: Some(d(25.0)),
        ..Default::default()
    };
    state
        .samples
        .push(sample(now - Duration::minutes(10), 500_000_000.0));
    state
        .samples
        .push(sample(now - Duration::minutes(5), 375_000_000.0));

    let event = state_event("aave_v3", "base", None, 500_000_000.0);
    let eval = pattern.process_state_sample(&rule, &mut state, &event, now);

    assert!(eval.base_severity.is_none());
    let t = determine_transition(
        eval.base_severity.as_ref(),
        &Severity::Info,
        Some(&Severity::Critical),
        f(eval.selected_drop_pct),
        25.0,
        "isolated",
        "none",
    );
    assert!(t.is_none(), "must NOT auto-resolve");
}

#[test]
fn unpause_notification_no_auto_resolve() {
    let event = unified_pause_event("euler_v2", false);
    let mut rule = base_rule();
    rule.protocol_id = "euler_v2".to_string();

    let pause = pause_event_data("euler_v2", "base", false);

    let subject = DetectionSubject {
        subject_type: "protocol".to_string(),
        subject_key: "euler_v2:base".to_string(),
    };
    let verdict = Verdict {
        severity: Severity::Critical,
        classification: ContextClassification::Isolated,
        transition: Some(IncidentTransition::Update),
    };

    let det = build_pause_detection(
        &event,
        &rule.rule_id,
        &subject,
        &verdict,
        verdict.transition.unwrap(),
        &pause,
        Utc::now(),
    );

    assert!(matches!(
        det.incident_transition,
        Some(IncidentTransition::Update)
    ));
    assert_eq!(
        shown(&det.oracle_context).get("pause_state"),
        Some(&value("unpaused"))
    );

    assert!(matches!(det.severity, Severity::Critical));
}

#[test]
fn same_protocol_contagion_flags_at_risk_markets() {
    let mut pattern = TvlDropPattern::default();
    let mut rule_usdc = base_rule();
    rule_usdc.rule_id = "tvl-usdc".to_string();
    rule_usdc.scope = "market".to_string();
    rule_usdc.market_id = Some("usdc".to_string());
    let mut rule_weth = base_rule();
    rule_weth.rule_id = "tvl-weth".to_string();
    rule_weth.scope = "market".to_string();
    rule_weth.market_id = Some("weth".to_string());

    pattern.configs.push(TenantRules {
        tenant_id: "tenant-a".to_string(),
        rules: vec![rule_usdc, rule_weth],
    });

    let at_risk = pattern.find_at_risk_markets("tenant-a", "aave_v3", "base", Some("usdc"));
    assert_eq!(at_risk, vec!["aave_v3:base:weth"]);

    let at_risk2 = pattern.find_at_risk_markets("tenant-a", "aave_v3", "base", Some("weth"));
    assert_eq!(at_risk2, vec!["aave_v3:base:usdc"]);
}

#[test]
fn same_tvl_data_evaluated_independently_per_tenant() {
    let now = Utc::now();
    let pattern = TvlDropPattern::default();
    let event = state_event("aave_v3", "base", None, 80_000_000.0);

    let mut rule_a = base_rule();
    rule_a.fast_drop_pct = d(15.0);
    let mut state_a = TvlRuleState::default();
    state_a
        .samples
        .push(sample(now - Duration::minutes(5), 100_000_000.0));

    let mut rule_b = base_rule();
    rule_b.fast_drop_pct = d(25.0);
    let mut state_b = TvlRuleState::default();
    state_b
        .samples
        .push(sample(now - Duration::minutes(5), 100_000_000.0));

    let eval_a = pattern.process_state_sample(&rule_a, &mut state_a, &event, now);
    let eval_b = pattern.process_state_sample(&rule_b, &mut state_b, &event, now);

    assert!(eval_a.base_severity.is_some(), "Tenant A should fire");
    assert!(eval_b.base_severity.is_none(), "Tenant B should not fire");

    assert!(state_b.last_severity.is_none());
}

#[test]
fn reorg_retraction_no_drop_on_canonical() {
    let now = Utc::now();
    let pattern = TvlDropPattern::default();
    let rule = base_rule();

    let mut state_orphaned = TvlRuleState::default();
    state_orphaned
        .samples
        .push(sample(now - Duration::minutes(3), 500_000_000.0));
    let orphaned_evt = state_event("aave_v3", "base", None, 350_000_000.0);
    let eval_orphaned =
        pattern.process_state_sample(&rule, &mut state_orphaned, &orphaned_evt, now);
    assert!(matches!(
        eval_orphaned.base_severity,
        Some(Severity::Critical)
    ));

    let mut state_canonical = TvlRuleState::default();
    state_canonical
        .samples
        .push(sample(now - Duration::minutes(3), 500_000_000.0));
    let canonical_evt = state_event("aave_v3", "base", None, 500_000_000.0);
    let eval_canonical =
        pattern.process_state_sample(&rule, &mut state_canonical, &canonical_evt, now);
    assert!(eval_canonical.base_severity.is_none());

    let correction = determine_reorg_correction(
        eval_orphaned.base_severity.as_ref(),
        eval_canonical.base_severity.as_ref(),
    );
    assert_eq!(correction, Some("RETRACTION"));
}

#[test]
fn reorg_severity_update_canonical_different() {
    let now = Utc::now();
    let pattern = TvlDropPattern::default();
    let rule = base_rule();

    let mut s1 = TvlRuleState::default();
    s1.samples
        .push(sample(now - Duration::minutes(7), 100_000_000.0));
    let e1 = state_event("aave_v3", "base", None, 80_000_000.0);
    let ev1 = pattern.process_state_sample(&rule, &mut s1, &e1, now);
    assert!(matches!(ev1.base_severity, Some(Severity::High)));

    let mut s2 = TvlRuleState::default();
    s2.samples
        .push(sample(now - Duration::minutes(3), 100_000_000.0));
    let e2 = state_event("aave_v3", "base", None, 70_000_000.0);
    let ev2 = pattern.process_state_sample(&rule, &mut s2, &e2, now);
    assert!(matches!(ev2.base_severity, Some(Severity::Critical)));

    let correction =
        determine_reorg_correction(ev1.base_severity.as_ref(), ev2.base_severity.as_ref());
    assert_eq!(correction, Some("UPDATE"));
}

#[test]
fn reorg_late_alert_drop_only_on_canonical() {
    let correction = determine_reorg_correction(
        None,
        Some(&Severity::Critical),
    );
    assert_eq!(correction, Some("LATE_ALERT"));
}

#[test]
fn reorg_no_correction_same_severity() {
    let correction =
        determine_reorg_correction(Some(&Severity::Critical), Some(&Severity::Critical));
    assert!(correction.is_none(), "same severity → no correction");

    let correction2 = determine_reorg_correction(None, None);
    assert!(correction2.is_none());
}

#[test]
fn reorg_uses_protocol_exploit_not_depeg() {
    let event = unified_tvl_event();
    let rule = base_rule();
    let evaluation = TvlEvaluation {
        fast_drop_pct: d(25.0),
        slow_drop_pct: d(0.0),
        velocity_drop_pct: d(0.0),
        selected_drop_pct: d(25.0),
        fast_window_reference_tvl_usd: Some(d(500_000_000.0)),
        time_to_reach_current_drop_minutes: Some(d(4.0)),
        drain_rate_usd_per_min: None,
        estimated_time_to_empty_minutes: None,
        velocity_pattern: None,
        base_severity: Some(Severity::Critical),
        breached_branch: Some(Branch::Fast),
        deposit_gate_skipped: false,
        position_data_stale: false,
    };
    let sample_evt = state_event("aave_v3", "base", None, 375_000_000.0);
    let subject = DetectionSubject {
        subject_type: "protocol".to_string(),
        subject_key: "aave_v3:base".to_string(),
    };
    let verdict = Verdict {
        severity: Severity::Critical,
        classification: ContextClassification::Isolated,
        transition: Some(IncidentTransition::Trigger),
    };

    let det = build_tvl_detection(
        &event,
        &rule,
        &subject,
        &verdict,
        verdict.transition.unwrap(),
        &evaluation,
        &sample_evt,
        &Vec::new(),
        Utc::now(),
    );

    assert!(matches!(
        det.attack_family,
        AttackFamily::LiquidationCascade
    ));
    assert!(!matches!(det.attack_family, AttackFamily::PegDeviation));
}

#[test]
fn normalized_scope_is_market_or_protocol() {
    let mut rule = base_rule();
    assert_eq!(rule.normalized_scope(), "protocol");
    rule.scope = "MARKET".to_string();
    assert_eq!(rule.normalized_scope(), "market");
    rule.scope = "chain".to_string();
    assert_eq!(rule.normalized_scope(), "protocol");
}
