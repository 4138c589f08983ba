use std::ops::Add;
use std::ops::Sub;

use detector::double::Double;
use detector::time::Timestamp;
use detector::dpeg::detection::build_detection;
use detector::dpeg::evaluation::evaluate_policy;
use detector::dpeg::evaluation::DpegAlertState;
use detector::dpeg::evaluation::EvaluationOutcome;
use detector::dpeg::pattern::ConfigRow;
use detector::dpeg::pattern::DpegPattern;
use detector::dpeg::policy::default_deescalation_blocks;
use detector::dpeg::policy::default_isolated_floor_pct;
use detector::dpeg::policy::default_min_confidence_to_fire;
use detector::dpeg::policy::default_resolution_blocks;
use detector::dpeg::policy::default_systemic_floor_pct;
use detector::dpeg::policy::normalized_policy_config;
use detector::dpeg::policy::parse_policies;
use detector::dpeg::policy::severity_for_divergence;
use detector::dpeg::policy::DpegConfidenceWeights;
use detector::dpeg::policy::DpegPolicy;
use detector::dpeg::policy::DpegSeverityBands;
use detector::dpeg::policy::DpegSourceFilter;
use detector::dpeg::policy::DpegSourceOverride;
use detector::dpeg::policy::DpegToggles;
use detector::event::context_classification_str;
use detector::event::severity_from_str;
use detector::event::severity_rank;
use detector::event::AttackFamily;
use detector::event::Chain;
use detector::event::ContextClassification;
use detector::event::IncidentTransition;
use detector::event::Severity;
use detector::event::SignalType;
use detector::event::SourceType;
use detector::event::UnifiedEvent;
use detector::incident::available_oracles_within_resolution_floor;
use detector::incident::recommended_actions_for_severity;
use detector::json::Json;
use detector::quotes::latest_quotes_for_time;
use detector::quotes::remember_quote;
use detector::quotes::QuoteInput;

fn d(x: f64) -> Double {
    Double { bits: x.to_bits() }
}

fn f(x: Double) -> f64 {
    f64::from_bits(x.bits)
}

struct Utc;

impl Utc {
    fn now() -> Timestamp {
        detector::outside::current_time()
    }
}

#[derive(Clone, Copy)]
struct Duration {
    nanos: i128,
}

impl Duration {
    fn seconds(n: i64) -> Duration {
        Duration { nanos: n as i128 * 1_000_000_000 }
    }
}

impl Add<Duration> for Timestamp {
    type Output = Timestamp;

    fn add(self, other: Duration) -> Timestamp {
        Timestamp { nanos: self.nanos + other.nanos }
    }
}

impl Sub<Duration> for Timestamp {
    type Output = Timestamp;

    fn sub(self, other: Duration) -> Timestamp {
        Timestamp { nanos: self.nanos - other.nanos }
    }
}

fn from_value(v: &serde_json::Value) -> Json {
    match v {
        serde_json::Value::Null => Json::Null,
        serde_json::Value::Bool(b) => Json::Bool(*b),
        serde_json::Value::Number(n) => match (n.as_u64(), n.as_i64()) {
            (Some(n), _) => Json::UInt(n),
            (None, Some(n)) => Json::Int(n),
            (None, None) => Json::Float(d(n.as_f64().unwrap())),
        },
        serde_json::Value::String(s) => Json::Text(s.clone()),
        serde_json::Value::Array(v) => Json::List(v.iter().map(from_value).collect()),
        serde_json::Value::Object(m) => Json::Object(
            m.iter().map(|(k, v)| (k.clone(), from_value(v))).collect(),
        ),
    }
}

fn json(text: &str) -> Json {
    from_value(&serde_json::from_str(text).expect("a document"))
}

fn number(v: &Json) -> Option<Double> {
    match v {
        Json::UInt(n) => Some(d(*n as f64)),
        Json::Int(n) => Some(d(*n as f64)),
        Json::Float(x) => Some(*x),
        _ => None,
    }
}

fn whole(v: &Json) -> Option<i64> {
    match v {
        Json::UInt(n) => i64::try_from(*n).ok(),
        Json::Int(n) => Some(*n),
        _ => None,
    }
}

fn field<'a>(v: &'a Json, name: &str) -> Option<&'a Json> {
    match v {
        Json::Object(m) => m.iter().find(|(k, _)| k == name).map(|(_, v)| v),
        _ => None,
    }
}

fn read_bands(v: &Json) -> Option<DpegSeverityBands> {
    Some(DpegSeverityBands {
        medium: number(field(v, "medium")?)?,
        high: number(field(v, "high")?)?,
        critical: number(field(v, "critical")?)?,
    })
}

fn read_policy(v: &Json) -> Option<DpegPolicy> {
    Some(DpegPolicy {
        tenant_id: String::new(),
        market_key: match field(v, "market_key")? {
            Json::Text(s) => s.clone(),
            _ => return None,
        },
        peg_target: number(field(v, "peg_target")?)?,
        min_sources: whole(field(v, "min_sources")?)? as usize,
        quorum_pct: number(field(v, "quorum_pct")?)?,
        sustained_window_ms: whole(field(v, "sustained_window_ms")?)?,
        cooldown_sec: whole(field(v, "cooldown_sec")?)?,
        stale_timeout_ms: whole(field(v, "stale_timeout_ms")?)?,
        severity_bands: read_bands(field(v, "severity_bands")?)?,
        severity_bands_isolated: None,
        severity_bands_systemic: None,
        isolated_floor_pct: default_isolated_floor_pct(),
        systemic_floor_pct: default_systemic_floor_pct(),
        deescalation_blocks: default_deescalation_blocks(),
        resolution_blocks: default_resolution_blocks(),
        source_filter: DpegSourceFilter::default(),
        toggles: DpegToggles::default(),
        confidence_weights: DpegConfidenceWeights::default(),
        min_confidence_to_fire: default_min_confidence_to_fire(),
        source_overrides: Vec::new(),
    })
}

fn read_policies(config: &Json) -> Option<Vec<DpegPolicy>> {
    match normalized_policy_config(config) {
        Json::List(v) => v.iter().map(read_policy).collect(),
        _ => None,
    }
}

fn row(tenant_id: &str, config: Json) -> ConfigRow {
    ConfigRow {
        tenant_id: tenant_id.to_string(),
        pattern_id: "dpeg".to_string(),
        entries: read_policies(&config),
        config,
    }
}

fn has(m: &Vec<(String, Json)>, name: &str) -> bool {
    m.iter().any(|(k, _)| k == name)
}

fn base_policy() -> DpegPolicy {
    DpegPolicy {
        tenant_id: "tenant-a".to_string(),
        market_key: "USDC/USD".to_string(),
        peg_target: d(1.0),
        min_sources: 1,
        quorum_pct: d(0.0),
        sustained_window_ms: 0,
        cooldown_sec: 0,
        stale_timeout_ms: 60_000,
        severity_bands: DpegSeverityBands {
            medium: d(0.5),
            high: d(1.0),
            critical: d(5.0),
        },
        severity_bands_isolated: Some(DpegSeverityBands {
            medium: d(0.5),
            high: d(1.0),
            critical: d(5.0),
        }),
        severity_bands_systemic: Some(DpegSeverityBands {
            medium: d(0.01),
            high: d(0.25),
            critical: d(0.5),
        }),
        isolated_floor_pct: d(0.5),
        systemic_floor_pct: d(0.01),
        deescalation_blocks: 5,
        resolution_blocks: 30,
        source_filter: DpegSourceFilter::default(),
        toggles: DpegToggles::default(),
        confidence_weights: DpegConfidenceWeights::default(),
        min_confidence_to_fire: d(50.0),
        source_overrides: Vec::new(),
    }
}

fn quote(
    source_id: &str,
    source_kind: &str,
    price: f64,
    observed_at: Timestamp,
) -> QuoteInput {
    QuoteInput {
        source_id: source_id.to_string(),
        source_kind: source_kind.to_string(),
        price: d(price),
        observed_at,
    }
}

#[test]
fn dpeg_future_quotes_are_ignored_for_consensus() {
    let now = Utc::now();
    let policy = base_policy();
    let quotes = vec![
        quote("cex-a", "cex", 0.99, now),
        quote("cex-b", "cex", 0.99, now),
        quote("cex-future", "cex", 0.50, now + Duration::seconds(30)),
    ];

    let outcome = evaluate_policy(
        &policy,
        &quotes,
        &DpegAlertState::default(),
        now,
        ContextClassification::Isolated,
    )
    .expect("evaluation");

    assert_eq!(outcome.snapshot.source_count, 2);
    assert!((f(outcome.snapshot.weighted_median_price) - 0.99).abs() < 1e-9);
}

#[test]
fn dpeg_latest_quotes_for_time_uses_last_quote_at_or_before_event_time() {
    let base = Utc::now();
    let mut market_quotes = Vec::new();
    remember_quote(&mut market_quotes, quote("oracle-a", "oracle", 1.0, base), 16);
    remember_quote(
        &mut market_quotes,
        quote("oracle-a", "oracle", 0.88, base + Duration::seconds(24)),
        16,
    );
    remember_quote(
        &mut market_quotes,
        quote("cex-a", "cex", 0.8785, base + Duration::seconds(21)),
        16,
    );
    remember_quote(
        &mut market_quotes,
        quote("cex-b", "cex", 0.8769, base + Duration::seconds(22)),
        16,
    );

    let quotes = latest_quotes_for_time(&market_quotes, base + Duration::seconds(22));
    let oracle = quotes
        .iter()
        .find(|quote| quote.source_id == "oracle-a")
        .expect("oracle quote selected");

    assert_eq!(quotes.len(), 3);
    assert_eq!(oracle.price, d(1.0));
    assert_eq!(oracle.observed_at, base);
}

#[test]
fn dpeg_oracle_confirmation_gate_blocks_alert_without_oracle_quote() {
    let now = Utc::now();
    let mut policy = base_policy();
    policy.toggles.oracle_confirmation = true;
    let quotes = vec![quote("cex-a", "cex", 0.99, now)];

    let outcome = evaluate_policy(
        &policy,
        &quotes,
        &DpegAlertState::default(),
        now,
        ContextClassification::Isolated,
    )
    .expect("evaluation");

    assert!(!outcome.snapshot.oracle_confirmed);
    assert!(!outcome.snapshot.breach_active);
    assert!(!outcome.should_emit_alert);
}

#[test]
fn dpeg_contagion_toggle_off_forces_isolated_classification() {
    let now = Utc::now();
    let mut pattern = DpegPattern::default();
    let mut policy = base_policy();
    policy.toggles.contagion_detection = false;
    pattern.install_policy(policy.clone());

    let classification = pattern.classify_context(&policy, &policy.tenant_id, "__test__", now);
    assert!(matches!(classification, ContextClassification::Isolated));
}

#[test]
fn dpeg_reload_config_keeps_tenant_policies_isolated_for_same_market() {
    let mut pattern = DpegPattern::default();
    let mut rows = Vec::new();

    rows.push(row(
        "tenant-a",
        json(r#"{
            "policies": [{
                "market_key": "USDC/USD",
                "peg_target": 1.0,
                "min_sources": 1,
                "quorum_pct": 0.0,
                "sustained_window_ms": 1,
                "cooldown_sec": 0,
                "stale_timeout_ms": 60000,
                "severity_bands": { "medium": 0.5, "high": 1.0, "critical": 5.0 }
            }]
        }"#),
    ));
    rows.push(row(
        "tenant-b",
        json(r#"{
            "policies": [{
                "market_key": "USDC/USD",
                "peg_target": 0.98,
                "min_sources": 3,
                "quorum_pct": 0.8,
                "sustained_window_ms": 30000,
                "cooldown_sec": 600,
                "stale_timeout_ms": 120000,
                "severity_bands": { "medium": 2.0, "high": 4.0, "critical": 8.0 }
            }]
        }"#),
    ));

    pattern.reload_config(rows);

    let tenant_a = pattern
        .effective_policy("tenant-a", "USDC/USD")
        .expect("tenant-a policy");
    let tenant_b = pattern
        .effective_policy("tenant-b", "USDC/USD")
        .expect("tenant-b policy");

    assert_eq!(tenant_a.peg_target, d(1.0));
    assert_eq!(tenant_a.min_sources, 1);
    assert_eq!(tenant_b.peg_target, d(0.98));
    assert_eq!(tenant_b.min_sources, 3);
}

#[test]
fn dpeg_parse_policies_accepts_legacy_single_policy_object() {
    let config = json(r#"{
        "market_key": "USDC/USD",
        "peg_target": 1.0,
        "min_sources": 2,
        "window_sec": 60,
        "cooldown_sec": 300,
        "severity_bands": { "medium": 1.0, "high": 3.0, "critical": 5.0 }
    }"#);

    let policies = parse_policies("tenant-a", read_policies(&config));

    assert_eq!(policies.len(), 1);
    assert_eq!(policies[0].tenant_id, "tenant-a");
    assert_eq!(policies[0].market_key, "USDC/USD");
    assert_eq!(policies[0].sustained_window_ms, 60_000);
    assert_eq!(policies[0].quorum_pct, d(0.5));
    assert_eq!(policies[0].stale_timeout_ms, 30_000);
}

#[test]
fn dpeg_evaluate_policy_uses_tenant_specific_thresholds_independently() {
    let now = Utc::now();
    let quotes = vec![quote("cex-a", "cex", 0.99, now)];

    let mut tenant_a_policy = base_policy();
    tenant_a_policy.tenant_id = "tenant-a".to_string();
    tenant_a_policy.severity_bands.medium = d(0.5);
    tenant_a_policy.severity_bands_isolated = Some(DpegSeverityBands {
        medium: d(0.5),
        high: d(1.0),
        critical: d(5.0),
    });
    tenant_a_policy.min_confidence_to_fire = d(0.0);

    let mut tenant_b_policy = base_policy();
    tenant_b_policy.tenant_id = "tenant-b".to_string();
    tenant_b_policy.severity_bands.medium = d(2.0);
    tenant_b_policy.severity_bands_isolated = Some(DpegSeverityBands {
        medium: d(2.0),
        high: d(4.0),
        critical: d(8.0),
    });
    tenant_b_policy.min_confidence_to_fire = d(0.0);

    let tenant_a = evaluate_policy(
        &tenant_a_policy,
        &quotes,
        &DpegAlertState::default(),
        now,
        ContextClassification::Isolated,
    )
    .expect("tenant-a evaluation");
    let tenant_b = evaluate_policy(
        &tenant_b_policy,
        &quotes,
        &DpegAlertState::default(),
        now,
        ContextClassification::Isolated,
    )
    .expect("tenant-b evaluation");

    assert!(tenant_a.snapshot.severity.is_some());
    assert!(tenant_a.snapshot.breach_active);
    assert!(tenant_b.snapshot.severity.is_none());
    assert!(!tenant_b.snapshot.breach_active);
}

#[test]
fn dpeg_effective_policy_is_scoped_by_tenant_and_market() {
    let mut pattern = DpegPattern::default();
    let usdt_default = DpegPolicy {
        market_key: "USDT/USD".to_string(),
        ..base_policy()
    };
    pattern.install_policy(usdt_default);

    let usdc_policy = DpegPolicy {
        market_key: "USDC/USD".to_string(),
        ..base_policy()
    };
    pattern.install_policy(usdc_policy);

    assert!(pattern.effective_policy("tenant-a", "USDC/USD").is_some());
    assert!(pattern.effective_policy("tenant-a", "USDT/USD").is_some());
    assert!(pattern
        .effective_policy("other-tenant", "USDC/USD")
        .is_none());
}

#[test]
fn dpeg_deescalation_requires_configured_block_count() {
    let now = Utc::now();
    let policy = base_policy();
    let quotes = vec![quote("cex-a", "cex", 0.994, now)];
    let mut state = DpegAlertState {
        breach_started_at: Some(now),
        cooldown_until: None,
        last_alerted_at: Some(now),
        last_divergence_pct: Some(d(1.2)),
        last_severity: Some("high".to_string()),
        last_classification: Some("isolated".to_string()),
        trigger_floor_pct: Some(d(0.5)),
        below_severity_blocks: 0,
        below_trigger_blocks: 0,
    };

    for i in 1..=policy.deescalation_blocks {
        let ts = now + Duration::seconds(i);
        let outcome = evaluate_policy(
            &policy,
            &quotes,
            &state,
            ts,
            ContextClassification::Isolated,
        )
        .expect("evaluation");
        if i < policy.deescalation_blocks {
            assert!(!outcome.should_emit_alert);
        } else {
            assert!(outcome.should_emit_alert);
            assert!(matches!(
                outcome.transition,
                Some(IncidentTransition::Deescalate)
            ));
        }
        state = outcome.next_state;
    }
}

#[test]
fn dpeg_resolution_requires_configured_block_count() {
    let now = Utc::now();
    let policy = base_policy();
    let quotes = vec![quote("cex-a", "cex", 0.9998, now)];
    let mut state = DpegAlertState {
        breach_started_at: None,
        cooldown_until: None,
        last_alerted_at: Some(now),
        last_divergence_pct: Some(d(0.8)),
        last_severity: Some("medium".to_string()),
        last_classification: Some("isolated".to_string()),
        trigger_floor_pct: Some(d(0.5)),
        below_severity_blocks: 0,
        below_trigger_blocks: 0,
    };

    for i in 1..=policy.resolution_blocks {
        let ts = now + Duration::seconds(i);
        let outcome = evaluate_policy(
            &policy,
            &quotes,
            &state,
            ts,
            ContextClassification::Isolated,
        )
        .expect("evaluation");
        if i < policy.resolution_blocks {
            assert!(!outcome.should_emit_alert);
        } else {
            assert!(outcome.should_emit_alert);
            assert!(matches!(
                outcome.transition,
                Some(IncidentTransition::Resolve)
            ));
        }
        state = outcome.next_state;
    }
}

#[test]
fn dpeg_escalation_respects_cooldown_before_emitting() {
    let now = Utc::now();
    let mut policy = base_policy();
    policy.cooldown_sec = 300;
    policy.min_confidence_to_fire = d(0.0);
    policy.stale_timeout_ms = 300_000;
    let quotes = vec![quote("cex-a", "cex", 0.989, now)];
    let state = DpegAlertState {
        breach_started_at: Some(now - Duration::seconds(120)),
        cooldown_until: Some(now + Duration::seconds(120)),
        last_alerted_at: Some(now - Duration::seconds(10)),
        last_divergence_pct: Some(d(0.6)),
        last_severity: Some("medium".to_string()),
        last_classification: Some("isolated".to_string()),
        trigger_floor_pct: Some(d(0.5)),
        below_severity_blocks: 0,
        below_trigger_blocks: 0,
    };

    let suppressed = evaluate_policy(
        &policy,
        &quotes,
        &state,
        now,
        ContextClassification::Isolated,
    )
    .expect("evaluation");
    assert!(!suppressed.should_emit_alert);
    assert!(suppressed.transition.is_none());
    assert_eq!(
        suppressed.next_state.last_severity.as_deref(),
        Some("medium")
    );

    let emitted = evaluate_policy(
        &policy,
        &quotes,
        &suppressed.next_state,
        now + Duration::seconds(121),
        ContextClassification::Isolated,
    )
    .expect("evaluation");
    assert!(emitted.should_emit_alert);
    assert!(matches!(
        emitted.transition,
        Some(IncidentTransition::Escalate)
    ));
    assert_eq!(emitted.next_state.last_severity.as_deref(), Some("high"));
}

#[test]
fn dpeg_deescalation_waits_for_cooldown_expiry() {
    let now = Utc::now();
    let mut policy = base_policy();
    policy.cooldown_sec = 300;
    policy.deescalation_blocks = 2;
    policy.min_confidence_to_fire = d(0.0);
    policy.stale_timeout_ms = 300_000;
    let quotes = vec![quote("cex-a", "cex", 0.994, now)];
    let state = DpegAlertState {
        breach_started_at: Some(now - Duration::seconds(120)),
        cooldown_until: Some(now + Duration::seconds(60)),
        last_alerted_at: Some(now - Duration::seconds(10)),
        last_divergence_pct: Some(d(1.2)),
        last_severity: Some("high".to_string()),
        last_classification: Some("isolated".to_string()),
        trigger_floor_pct: Some(d(0.5)),
        below_severity_blocks: 1,
        below_trigger_blocks: 0,
    };

    let suppressed = evaluate_policy(
        &policy,
        &quotes,
        &state,
        now,
        ContextClassification::Isolated,
    )
    .expect("evaluation");
    assert!(!suppressed.should_emit_alert);
    assert!(suppressed.transition.is_none());
    assert_eq!(suppressed.next_state.last_severity.as_deref(), Some("high"));
    assert_eq!(suppressed.next_state.below_severity_blocks, 2);

    let emitted = evaluate_policy(
        &policy,
        &quotes,
        &suppressed.next_state,
        now + Duration::seconds(61),
        ContextClassification::Isolated,
    )
    .expect("evaluation");
    assert!(emitted.should_emit_alert);
    assert!(matches!(
        emitted.transition,
        Some(IncidentTransition::Deescalate)
    ));
    assert_eq!(emitted.next_state.last_severity.as_deref(), Some("medium"));
    assert_eq!(emitted.next_state.below_severity_blocks, 0);
}

fn price_from_deviation(peg_target: f64, deviation_pct: f64) -> f64 {
    peg_target * (1.0 - deviation_pct / 100.0)
}

fn make_quotes(
    median_price: f64,
    chainlink_price: Option<f64>,
    pyth_price: Option<f64>,
    cex_count: usize,
    now: Timestamp,
) -> Vec<QuoteInput> {
    let mut quotes = Vec::new();
    for i in 0..cex_count {
        quotes.push(quote(&format!("cex-{}", i), "cex", median_price, now));
    }
    if let Some(cl) = chainlink_price {
        quotes.push(quote("chainlink", "oracle", cl, now));
    }
    if let Some(py) = pyth_price {
        quotes.push(quote("pyth", "oracle", py, now));
    }
    quotes
}

fn oracle_policy() -> DpegPolicy {
    DpegPolicy {
        toggles: DpegToggles {
            oracle_confirmation: true,
            ..Default::default()
        },
        min_sources: 3,
        source_filter: DpegSourceFilter {
            min_healthy_sources: 3,
            ..Default::default()
        },

        min_confidence_to_fire: d(0.0),
        ..base_policy()
    }
}

fn eval_fresh(
    policy: &DpegPolicy,
    quotes: &[QuoteInput],
    now: Timestamp,
    classification: ContextClassification,
) -> EvaluationOutcome {
    evaluate_policy(
        policy,
        quotes,
        &DpegAlertState::default(),
        now,
        classification,
    )
    .expect("evaluate_policy should not fail")
}

fn assert_no_alert(outcome: &EvaluationOutcome) {
    assert!(
        !outcome.should_emit_alert,
        "Expected no alert, but got one (severity={:?}, transition={:?})",
        outcome.emitted_severity, outcome.transition
    );
}

fn assert_alert_with_severity(outcome: &EvaluationOutcome, expected: Severity) {
    assert!(
        outcome.should_emit_alert,
        "Expected alert with severity {:?}, but no alert emitted",
        expected
    );
    assert_eq!(
        outcome.emitted_severity,
        Some(expected.clone()),
        "Severity mismatch"
    );
}

fn assert_transition(outcome: &EvaluationOutcome, expected: IncidentTransition) {
    assert_eq!(outcome.transition, Some(expected), "Transition mismatch");
}

fn assert_breach(outcome: &EvaluationOutcome, active: bool) {
    assert_eq!(
        outcome.snapshot.breach_active, active,
        "breach_active mismatch"
    );
}

#[test]
fn dpeg_tc_d_100_no_detection_normal_market() {
    let now = Utc::now();
    let p = price_from_deviation(1.0, 0.10);
    let quotes = make_quotes(p, Some(p), Some(p), 12, now);
    let outcome = eval_fresh(
        &oracle_policy(),
        &quotes,
        now,
        ContextClassification::Isolated,
    );
    assert_no_alert(&outcome);
    assert_breach(&outcome, false);
}

#[test]
fn dpeg_tc_d_101_no_detection_below_isolated_floor() {
    let now = Utc::now();
    let p = price_from_deviation(1.0, 0.40);
    let quotes = make_quotes(p, Some(p), Some(p), 12, now);
    let outcome = eval_fresh(
        &oracle_policy(),
        &quotes,
        now,
        ContextClassification::Isolated,
    );
    assert_no_alert(&outcome);
    assert_breach(&outcome, false);
}

#[test]
fn dpeg_tc_d_102_no_detection_insufficient_healthy_sources() {
    let now = Utc::now();
    let p = price_from_deviation(1.0, 1.50);

    let mut policy = oracle_policy();

    policy.toggles.oracle_confirmation = false;
    policy.source_filter.include_oracles = false;
    let quotes_no_oracle = vec![quote("cex-a", "cex", p, now), quote("cex-b", "cex", p, now)];
    let outcome = eval_fresh(
        &policy,
        &quotes_no_oracle,
        now,
        ContextClassification::Isolated,
    );
    assert_no_alert(&outcome);
    assert!(!outcome.snapshot.quorum_met);
}

#[test]
fn dpeg_tc_d_103_no_detection_median_breached_no_oracle() {
    let now = Utc::now();
    let cex_price = price_from_deviation(1.0, 1.50);
    let oracle_price = price_from_deviation(1.0, 0.20);
    let quotes = make_quotes(cex_price, Some(oracle_price), Some(oracle_price), 12, now);
    let outcome = eval_fresh(
        &oracle_policy(),
        &quotes,
        now,
        ContextClassification::Isolated,
    );
    assert_no_alert(&outcome);
    assert!(!outcome.snapshot.oracle_confirmed);
}

#[test]
fn dpeg_tc_d_104_no_detection_oracle_breached_median_below() {
    let now = Utc::now();
    let cex_price = price_from_deviation(1.0, 0.20);
    let oracle_price = price_from_deviation(1.0, 1.50);
    let quotes = make_quotes(cex_price, Some(oracle_price), Some(oracle_price), 12, now);
    let outcome = eval_fresh(
        &oracle_policy(),
        &quotes,
        now,
        ContextClassification::Isolated,
    );
    assert_no_alert(&outcome);
    assert_breach(&outcome, false);
}

#[test]
fn dpeg_tc_d_105_detection_chainlink_only_confirms() {
    let now = Utc::now();
    let breach_price = price_from_deviation(1.0, 1.50);
    let safe_price = price_from_deviation(1.0, 0.20);
    let quotes = make_quotes(breach_price, Some(breach_price), Some(safe_price), 12, now);
    let outcome = eval_fresh(
        &oracle_policy(),
        &quotes,
        now,
        ContextClassification::Isolated,
    );
    assert_breach(&outcome, true);
    assert_eq!(outcome.snapshot.severity, Some(Severity::High));
}

#[test]
fn dpeg_tc_d_106_detection_pyth_only_confirms() {
    let now = Utc::now();
    let breach_price = price_from_deviation(1.0, 1.50);
    let safe_price = price_from_deviation(1.0, 0.30);
    let quotes = make_quotes(breach_price, Some(safe_price), Some(breach_price), 12, now);
    let outcome = eval_fresh(
        &oracle_policy(),
        &quotes,
        now,
        ContextClassification::Isolated,
    );
    assert_breach(&outcome, true);
    assert_eq!(outcome.snapshot.severity, Some(Severity::High));
}

#[test]
fn dpeg_tc_d_107_detection_at_min_healthy_boundary() {
    let now = Utc::now();
    let p = price_from_deviation(1.0, 1.00);

    let quotes = make_quotes(p, Some(p), Some(p), 3, now);
    let outcome = eval_fresh(
        &oracle_policy(),
        &quotes,
        now,
        ContextClassification::Isolated,
    );
    assert!(outcome.snapshot.quorum_met);
    assert_breach(&outcome, true);
    assert_eq!(outcome.snapshot.severity, Some(Severity::High));
}

#[test]
fn dpeg_tc_d_108_no_detection_chainlink_absent_pyth_below() {
    let now = Utc::now();
    let cex_price = price_from_deviation(1.0, 1.50);
    let pyth_price = price_from_deviation(1.0, 0.20);
    let quotes = make_quotes(cex_price, None, Some(pyth_price), 12, now);
    let outcome = eval_fresh(
        &oracle_policy(),
        &quotes,
        now,
        ContextClassification::Isolated,
    );
    assert!(!outcome.snapshot.oracle_confirmed);
    assert_breach(&outcome, false);
}

#[test]
fn dpeg_tc_d_109_detection_chainlink_absent_pyth_breaches() {
    let now = Utc::now();
    let breach_price = price_from_deviation(1.0, 1.50);
    let quotes = make_quotes(breach_price, None, Some(breach_price), 12, now);
    let outcome = eval_fresh(
        &oracle_policy(),
        &quotes,
        now,
        ContextClassification::Isolated,
    );
    assert!(outcome.snapshot.oracle_confirmed);
    assert_breach(&outcome, true);
    assert_eq!(outcome.snapshot.severity, Some(Severity::High));
}

#[test]
fn dpeg_tc_d_110_no_detection_both_oracles_absent() {
    let now = Utc::now();
    let p = price_from_deviation(1.0, 5.50);
    let quotes = make_quotes(p, None, None, 12, now);
    let outcome = eval_fresh(
        &oracle_policy(),
        &quotes,
        now,
        ContextClassification::Isolated,
    );
    assert!(!outcome.snapshot.oracle_confirmed);
    assert_breach(&outcome, false);
}

#[test]
fn dpeg_tc_d_200_isolated_medium_at_floor() {
    let now = Utc::now();
    let p = price_from_deviation(1.0, 0.50);
    let quotes = make_quotes(p, Some(p), Some(p), 12, now);
    let outcome = eval_fresh(
        &oracle_policy(),
        &quotes,
        now,
        ContextClassification::Isolated,
    );
    assert_eq!(outcome.snapshot.severity, Some(Severity::Medium));
}

#[test]
fn dpeg_tc_d_201_isolated_medium_below_high() {
    let now = Utc::now();
    let p = price_from_deviation(1.0, 0.99);
    let quotes = make_quotes(p, Some(p), Some(p), 12, now);
    let outcome = eval_fresh(
        &oracle_policy(),
        &quotes,
        now,
        ContextClassification::Isolated,
    );
    assert_eq!(outcome.snapshot.severity, Some(Severity::Medium));
}

#[test]
fn dpeg_tc_d_202_isolated_high_at_threshold() {
    let now = Utc::now();
    let p = price_from_deviation(1.0, 1.00);
    let quotes = make_quotes(p, Some(p), Some(p), 12, now);
    let outcome = eval_fresh(
        &oracle_policy(),
        &quotes,
        now,
        ContextClassification::Isolated,
    );
    assert_eq!(outcome.snapshot.severity, Some(Severity::High));
}

#[test]
fn dpeg_tc_d_203_isolated_high_moderate() {
    let now = Utc::now();
    let p = price_from_deviation(1.0, 2.50);
    let quotes = make_quotes(p, Some(p), Some(p), 12, now);
    let outcome = eval_fresh(
        &oracle_policy(),
        &quotes,
        now,
        ContextClassification::Isolated,
    );
    assert_eq!(outcome.snapshot.severity, Some(Severity::High));
}

#[test]
fn dpeg_tc_d_204_isolated_high_below_critical() {
    let now = Utc::now();
    let p = price_from_deviation(1.0, 4.99);
    let quotes = make_quotes(p, Some(p), Some(p), 12, now);
    let outcome = eval_fresh(
        &oracle_policy(),
        &quotes,
        now,
        ContextClassification::Isolated,
    );
    assert_eq!(outcome.snapshot.severity, Some(Severity::High));
}

#[test]
fn dpeg_tc_d_205_isolated_critical_at_threshold() {
    let now = Utc::now();
    let p = price_from_deviation(1.0, 5.00);
    let quotes = make_quotes(p, Some(p), Some(p), 12, now);
    let outcome = eval_fresh(
        &oracle_policy(),
        &quotes,
        now,
        ContextClassification::Isolated,
    );
    assert_eq!(outcome.snapshot.severity, Some(Severity::Critical));
}

#[test]
fn dpeg_tc_d_206_isolated_critical_catastrophic() {
    let now = Utc::now();
    let p = price_from_deviation(1.0, 5.50);
    let quotes = make_quotes(p, Some(p), Some(p), 12, now);
    let outcome = eval_fresh(
        &oracle_policy(),
        &quotes,
        now,
        ContextClassification::Isolated,
    );
    assert_eq!(outcome.snapshot.severity, Some(Severity::Critical));
}

#[test]
fn dpeg_tc_d_300_systemic_medium_at_floor() {
    let now = Utc::now();
    let p = price_from_deviation(1.0, 0.015);
    let quotes = make_quotes(p, Some(p), Some(p), 12, now);
    let outcome = eval_fresh(
        &oracle_policy(),
        &quotes,
        now,
        ContextClassification::Systemic,
    );
    assert_eq!(outcome.snapshot.severity, Some(Severity::Medium));
}

#[test]
fn dpeg_tc_d_301_systemic_medium_between_floor_and_critical() {
    let now = Utc::now();
    let p = price_from_deviation(1.0, 0.10);
    let quotes = make_quotes(p, Some(p), Some(p), 12, now);
    let outcome = eval_fresh(
        &oracle_policy(),
        &quotes,
        now,
        ContextClassification::Systemic,
    );
    assert_eq!(outcome.snapshot.severity, Some(Severity::Medium));
}

#[test]
fn dpeg_tc_d_302_systemic_medium_below_critical() {
    let now = Utc::now();
    let p = price_from_deviation(1.0, 0.24);
    let quotes = make_quotes(p, Some(p), Some(p), 12, now);
    let outcome = eval_fresh(
        &oracle_policy(),
        &quotes,
        now,
        ContextClassification::Systemic,
    );
    assert_eq!(outcome.snapshot.severity, Some(Severity::Medium));
}

#[test]
fn dpeg_tc_d_303_systemic_at_025_pct() {
    let now = Utc::now();
    let p = price_from_deviation(1.0, 0.26);
    let quotes = make_quotes(p, Some(p), Some(p), 12, now);
    let outcome = eval_fresh(
        &oracle_policy(),
        &quotes,
        now,
        ContextClassification::Systemic,
    );
    assert_eq!(outcome.snapshot.severity, Some(Severity::High));
}

#[test]
fn dpeg_tc_d_304_systemic_critical_large() {
    let now = Utc::now();
    let p = price_from_deviation(1.0, 2.50);
    let quotes = make_quotes(p, Some(p), Some(p), 12, now);
    let outcome = eval_fresh(
        &oracle_policy(),
        &quotes,
        now,
        ContextClassification::Systemic,
    );
    assert_eq!(outcome.snapshot.severity, Some(Severity::Critical));
}

#[test]
fn dpeg_tc_d_305_systemic_vs_isolated_same_deviation() {
    let now = Utc::now();
    let p = price_from_deviation(1.0, 0.10);
    let quotes = make_quotes(p, Some(p), Some(p), 12, now);
    let policy = oracle_policy();

    let isolated = eval_fresh(&policy, &quotes, now, ContextClassification::Isolated);
    assert_eq!(isolated.snapshot.severity, None);
    assert_breach(&isolated, false);

    let systemic = eval_fresh(&policy, &quotes, now, ContextClassification::Systemic);
    assert_eq!(systemic.snapshot.severity, Some(Severity::Medium));
    assert_breach(&systemic, true);
}

#[test]
fn dpeg_tc_d_306_no_detection_systemic_below_floor() {
    let now = Utc::now();
    let p = price_from_deviation(1.0, 0.005);
    let quotes = make_quotes(p, Some(p), Some(p), 12, now);
    let outcome = eval_fresh(
        &oracle_policy(),
        &quotes,
        now,
        ContextClassification::Systemic,
    );
    assert_eq!(outcome.snapshot.severity, None);
    assert_breach(&outcome, false);
}

#[test]
fn dpeg_tc_d_307_unknown_contagion_treated_as_isolated() {
    let now = Utc::now();
    let p = price_from_deviation(1.0, 0.10);
    let quotes = make_quotes(p, Some(p), Some(p), 12, now);

    let outcome = eval_fresh(&oracle_policy(), &quotes, now, ContextClassification::Unclassified);

    assert_eq!(outcome.snapshot.severity, None);
    assert_breach(&outcome, false);
}

#[test]
fn dpeg_tc_d_400_contagion_flip_escalates_severity() {
    let now = Utc::now();
    let p = price_from_deviation(1.0, 0.60);
    let quotes = make_quotes(p, Some(p), Some(p), 12, now);
    let policy = oracle_policy();

    let step1 = eval_fresh(&policy, &quotes, now, ContextClassification::Isolated);
    assert_eq!(step1.snapshot.severity, Some(Severity::Medium));
    assert_transition(&step1, IncidentTransition::Trigger);

    let step2 = evaluate_policy(
        &policy,
        &quotes,
        &step1.next_state,
        now + Duration::seconds(1),
        ContextClassification::Systemic,
    )
    .expect("evaluation");
    assert_eq!(step2.snapshot.severity, Some(Severity::Critical));

    assert_transition(&step2, IncidentTransition::Escalate);
}

#[test]
fn dpeg_tc_d_401_contagion_flip_creates_new_alert() {
    let now = Utc::now();
    let p = price_from_deviation(1.0, 0.02);
    let quotes = make_quotes(p, Some(p), Some(p), 12, now);
    let policy = oracle_policy();

    let isolated = eval_fresh(&policy, &quotes, now, ContextClassification::Isolated);
    assert_breach(&isolated, false);

    let systemic = eval_fresh(&policy, &quotes, now, ContextClassification::Systemic);
    assert_eq!(systemic.snapshot.severity, Some(Severity::Medium));
    assert_breach(&systemic, true);
}

#[test]
fn dpeg_tc_d_402_contagion_reverts_no_immediate_deescalation() {
    let now = Utc::now();
    let p = price_from_deviation(1.0, 1.50);
    let quotes = make_quotes(p, Some(p), Some(p), 12, now);
    let policy = oracle_policy();

    let step1 = eval_fresh(&policy, &quotes, now, ContextClassification::Systemic);
    assert_eq!(step1.snapshot.severity, Some(Severity::Critical));
    assert_transition(&step1, IncidentTransition::Trigger);

    let step2 = evaluate_policy(
        &policy,
        &quotes,
        &step1.next_state,
        now + Duration::seconds(1),
        ContextClassification::Isolated,
    )
    .expect("evaluation");

    assert!(
        !step2.should_emit_alert
            || !matches!(step2.transition, Some(IncidentTransition::Deescalate))
    );
}

#[test]
fn dpeg_tc_d_500_resolution_all_below_threshold() {
    let now = Utc::now();
    let recovery_price = price_from_deviation(1.0, 0.10);
    let quotes = make_quotes(
        recovery_price,
        Some(recovery_price),
        Some(recovery_price),
        12,
        now,
    );
    let policy = oracle_policy();

    let state = DpegAlertState {
        breach_started_at: None,
        cooldown_until: None,
        last_alerted_at: Some(now - Duration::seconds(120)),
        last_divergence_pct: Some(d(1.5)),
        last_severity: Some("high".to_string()),
        last_classification: Some("isolated".to_string()),
        trigger_floor_pct: Some(d(0.5)),
        below_severity_blocks: 0,
        below_trigger_blocks: 0,
    };

    let outcome = evaluate_policy(
        &policy,
        &quotes,
        &state,
        now,
        ContextClassification::Isolated,
    )
    .expect("evaluation");

    assert!(outcome.next_state.below_trigger_blocks > 0);
}

#[test]
fn dpeg_tc_d_501_no_resolution_still_depegged() {
    let now = Utc::now();
    let depeg_price = price_from_deviation(1.0, 1.50);
    let quotes = make_quotes(depeg_price, Some(depeg_price), Some(depeg_price), 12, now);
    let policy = oracle_policy();

    let state = DpegAlertState {
        breach_started_at: Some(now - Duration::seconds(60)),
        cooldown_until: None,
        last_alerted_at: Some(now - Duration::seconds(30)),
        last_divergence_pct: Some(d(1.5)),
        last_severity: Some("high".to_string()),
        last_classification: Some("isolated".to_string()),
        trigger_floor_pct: Some(d(0.5)),
        below_severity_blocks: 0,
        below_trigger_blocks: 0,
    };

    let outcome = evaluate_policy(
        &policy,
        &quotes,
        &state,
        now,
        ContextClassification::Isolated,
    )
    .expect("evaluation");

    assert_eq!(outcome.next_state.below_trigger_blocks, 0);
    assert!(outcome.transition != Some(IncidentTransition::Resolve));
}

#[test]
fn dpeg_tc_d_502_resolution_uses_original_systemic_threshold() {
    let now = Utc::now();

    let recovery_price = price_from_deviation(1.0, 0.005);
    let quotes = make_quotes(
        recovery_price,
        Some(recovery_price),
        Some(recovery_price),
        12,
        now,
    );
    let mut policy = oracle_policy();
    policy.resolution_blocks = 1;

    let state = DpegAlertState {
        breach_started_at: None,
        cooldown_until: None,
        last_alerted_at: Some(now - Duration::seconds(60)),
        last_divergence_pct: Some(d(0.05)),
        last_severity: Some("medium".to_string()),
        last_classification: Some("systemic".to_string()),
        trigger_floor_pct: Some(d(0.01)),
        below_severity_blocks: 0,
        below_trigger_blocks: 0,
    };

    let outcome = evaluate_policy(
        &policy,
        &quotes,
        &state,
        now,
        ContextClassification::Isolated,
    )
    .expect("evaluation");

    assert_transition(&outcome, IncidentTransition::Resolve);
}

#[test]
fn dpeg_tc_d_503_no_resolution_above_systemic_floor() {
    let now = Utc::now();
    let p = price_from_deviation(1.0, 0.02);
    let quotes = make_quotes(p, Some(p), Some(p), 12, now);
    let mut policy = oracle_policy();
    policy.resolution_blocks = 1;

    let state = DpegAlertState {
        breach_started_at: None,
        cooldown_until: None,
        last_alerted_at: Some(now - Duration::seconds(60)),
        last_divergence_pct: Some(d(0.05)),
        last_severity: Some("medium".to_string()),
        last_classification: Some("systemic".to_string()),
        trigger_floor_pct: Some(d(0.01)),
        below_severity_blocks: 0,
        below_trigger_blocks: 0,
    };

    let outcome = evaluate_policy(
        &policy,
        &quotes,
        &state,
        now,
        ContextClassification::Isolated,
    )
    .expect("evaluation");

    assert_eq!(outcome.next_state.below_trigger_blocks, 0);
    assert!(outcome.transition != Some(IncidentTransition::Resolve));
}

#[test]
fn dpeg_tc_d_504_resolution_blocked_by_single_oracle() {
    let now = Utc::now();
    let median_recovery_price = price_from_deviation(1.0, 0.10);
    let blocking_oracle_price = price_from_deviation(1.0, 0.80);
    let quotes = vec![
        quote("cex-a", "cex", median_recovery_price, now),
        quote("cex-b", "cex", median_recovery_price, now),
        quote("chainlink", "oracle", median_recovery_price, now),
        quote("pyth", "oracle", blocking_oracle_price, now),
    ];
    let mut policy = oracle_policy();
    policy.resolution_blocks = 1;

    let state = DpegAlertState {
        breach_started_at: None,
        cooldown_until: None,
        last_alerted_at: Some(now - Duration::seconds(60)),
        last_divergence_pct: Some(d(1.5)),
        last_severity: Some("high".to_string()),
        last_classification: Some("isolated".to_string()),
        trigger_floor_pct: Some(d(0.5)),
        below_severity_blocks: 0,
        below_trigger_blocks: 0,
    };

    let outcome = evaluate_policy(
        &policy,
        &quotes,
        &state,
        now,
        ContextClassification::Isolated,
    )
    .expect("evaluation");

    assert_eq!(outcome.next_state.below_trigger_blocks, 0);
    assert!(outcome.transition != Some(IncidentTransition::Resolve));
}

#[test]
fn dpeg_tc_d_505_resolution_passes_with_absent_oracle() {
    let now = Utc::now();
    let recovery_price = price_from_deviation(1.0, 0.10);

    let quotes = make_quotes(recovery_price, None, None, 12, now);
    let mut policy = oracle_policy();
    policy.toggles.oracle_confirmation = false;
    policy.resolution_blocks = 1;

    let state = DpegAlertState {
        breach_started_at: None,
        cooldown_until: None,
        last_alerted_at: Some(now - Duration::seconds(60)),
        last_divergence_pct: Some(d(1.5)),
        last_severity: Some("high".to_string()),
        last_classification: Some("isolated".to_string()),
        trigger_floor_pct: Some(d(0.5)),
        below_severity_blocks: 0,
        below_trigger_blocks: 0,
    };

    let outcome = evaluate_policy(
        &policy,
        &quotes,
        &state,
        now,
        ContextClassification::Isolated,
    )
    .expect("evaluation");

    assert_transition(&outcome, IncidentTransition::Resolve);
}

#[test]
fn dpeg_tc_d_600_full_resolution_countdown() {
    let now = Utc::now();
    let recovery_price = price_from_deviation(1.0, 0.10);
    let mut policy = oracle_policy();
    policy.toggles.oracle_confirmation = false;
    policy.resolution_blocks = 30;

    let mut state = DpegAlertState {
        breach_started_at: None,
        cooldown_until: None,
        last_alerted_at: Some(now - Duration::seconds(120)),
        last_divergence_pct: Some(d(1.5)),
        last_severity: Some("high".to_string()),
        last_classification: Some("isolated".to_string()),
        trigger_floor_pct: Some(d(0.5)),
        below_severity_blocks: 0,
        below_trigger_blocks: 0,
    };

    for i in 1..=30 {
        let ts = now + Duration::seconds(i);
        let quotes = make_quotes(recovery_price, None, None, 12, ts);
        let outcome = evaluate_policy(
            &policy,
            &quotes,
            &state,
            ts,
            ContextClassification::Isolated,
        )
        .expect("evaluation");
        if i < 30 {
            assert!(!outcome.should_emit_alert, "Should not emit at block {}", i);
            assert_eq!(outcome.next_state.below_trigger_blocks, i);
        } else {
            assert!(outcome.should_emit_alert, "Should emit resolve at block 30");
            assert_transition(&outcome, IncidentTransition::Resolve);
        }
        state = outcome.next_state;
    }
}

#[test]
fn dpeg_tc_d_601_resolution_interrupted_resets() {
    let now = Utc::now();
    let breach_price = price_from_deviation(1.0, 1.50);
    let mut policy = oracle_policy();
    policy.toggles.oracle_confirmation = false;
    policy.resolution_blocks = 30;

    let state = DpegAlertState {
        breach_started_at: None,
        cooldown_until: None,
        last_alerted_at: Some(now - Duration::seconds(120)),
        last_divergence_pct: Some(d(1.5)),
        last_severity: Some("high".to_string()),
        last_classification: Some("isolated".to_string()),
        trigger_floor_pct: Some(d(0.5)),
        below_severity_blocks: 0,
        below_trigger_blocks: 15,
    };

    let quotes = make_quotes(breach_price, None, None, 12, now);
    let outcome = evaluate_policy(
        &policy,
        &quotes,
        &state,
        now,
        ContextClassification::Isolated,
    )
    .expect("evaluation");
    assert_eq!(outcome.next_state.below_trigger_blocks, 0);
}

#[test]
fn dpeg_tc_d_602_resolution_resumes_from_zero() {
    let now = Utc::now();
    let recovery_price = price_from_deviation(1.0, 0.10);
    let breach_price = price_from_deviation(1.0, 1.50);
    let mut policy = oracle_policy();
    policy.toggles.oracle_confirmation = false;
    policy.resolution_blocks = 30;

    let base_state = DpegAlertState {
        breach_started_at: None,
        cooldown_until: None,
        last_alerted_at: Some(now - Duration::seconds(120)),
        last_divergence_pct: Some(d(1.5)),
        last_severity: Some("high".to_string()),
        last_classification: Some("isolated".to_string()),
        trigger_floor_pct: Some(d(0.5)),
        below_severity_blocks: 0,
        below_trigger_blocks: 0,
    };

    let mut state = base_state;
    for i in 1..=15 {
        let ts = now + Duration::seconds(i);
        let quotes = make_quotes(recovery_price, None, None, 12, ts);
        let outcome = evaluate_policy(
            &policy,
            &quotes,
            &state,
            ts,
            ContextClassification::Isolated,
        )
        .expect("evaluation");
        state = outcome.next_state;
    }
    assert_eq!(state.below_trigger_blocks, 15);

    let ts = now + Duration::seconds(16);
    let quotes = make_quotes(breach_price, None, None, 12, ts);
    let outcome = evaluate_policy(
        &policy,
        &quotes,
        &state,
        ts,
        ContextClassification::Isolated,
    )
    .expect("evaluation");
    state = outcome.next_state;
    assert_eq!(state.below_trigger_blocks, 0);

    let ts = now + Duration::seconds(17);
    let quotes = make_quotes(recovery_price, None, None, 12, ts);
    let outcome = evaluate_policy(
        &policy,
        &quotes,
        &state,
        ts,
        ContextClassification::Isolated,
    )
    .expect("evaluation");
    assert_eq!(outcome.next_state.below_trigger_blocks, 1);
}

#[test]
fn dpeg_tc_d_603_resolution_payload_structure() {
    let now = Utc::now();
    let recovery_price = price_from_deviation(1.0, 0.10);
    let mut policy = oracle_policy();
    policy.toggles.oracle_confirmation = false;
    policy.resolution_blocks = 1;

    let state = DpegAlertState {
        breach_started_at: None,
        cooldown_until: None,
        last_alerted_at: Some(now - Duration::seconds(60)),
        last_divergence_pct: Some(d(1.5)),
        last_severity: Some("high".to_string()),
        last_classification: Some("isolated".to_string()),
        trigger_floor_pct: Some(d(0.5)),
        below_severity_blocks: 0,
        below_trigger_blocks: 0,
    };

    let quotes = make_quotes(recovery_price, None, None, 12, now);
    let outcome = evaluate_policy(
        &policy,
        &quotes,
        &state,
        now,
        ContextClassification::Isolated,
    )
    .expect("evaluation");

    assert_transition(&outcome, IncidentTransition::Resolve);

    assert_eq!(outcome.emitted_severity, Some(Severity::High));

    assert!(outcome.next_state.last_severity.is_none());
    assert!(outcome.next_state.last_classification.is_none());
    assert!(outcome.next_state.trigger_floor_pct.is_none());
    assert_eq!(outcome.next_state.below_trigger_blocks, 0);

    assert!(outcome.next_state.cooldown_until.is_some());
}

#[test]
fn dpeg_tc_d_700_duplicate_detection_suppressed() {
    let now = Utc::now();
    let p = price_from_deviation(1.0, 0.60);
    let quotes = make_quotes(p, Some(p), Some(p), 12, now);
    let policy = oracle_policy();

    let step1 = eval_fresh(&policy, &quotes, now, ContextClassification::Isolated);
    assert_transition(&step1, IncidentTransition::Trigger);

    let step2 = evaluate_policy(
        &policy,
        &quotes,
        &step1.next_state,
        now + Duration::seconds(1),
        ContextClassification::Isolated,
    )
    .expect("evaluation");
    assert_no_alert(&step2);
}

#[test]
fn dpeg_tc_d_701_escalation_higher_severity() {
    let now = Utc::now();
    let medium_price = price_from_deviation(1.0, 0.60);
    let critical_price = price_from_deviation(1.0, 5.50);
    let mut policy = oracle_policy();
    policy.cooldown_sec = 0;

    let quotes1 = make_quotes(
        medium_price,
        Some(medium_price),
        Some(medium_price),
        12,
        now,
    );
    let step1 = eval_fresh(&policy, &quotes1, now, ContextClassification::Isolated);
    assert_alert_with_severity(&step1, Severity::Medium);
    assert_transition(&step1, IncidentTransition::Trigger);

    let quotes2 = make_quotes(
        critical_price,
        Some(critical_price),
        Some(critical_price),
        12,
        now,
    );
    let step2 = evaluate_policy(
        &policy,
        &quotes2,
        &step1.next_state,
        now + Duration::seconds(1),
        ContextClassification::Isolated,
    )
    .expect("evaluation");
    assert_alert_with_severity(&step2, Severity::Critical);
    assert_transition(&step2, IncidentTransition::Escalate);
}

#[test]
fn dpeg_tc_d_702_escalation_equal_severity_noop() {
    let now = Utc::now();
    let p = price_from_deviation(1.0, 5.50);
    let lower_p = price_from_deviation(1.0, 0.60);
    let mut policy = oracle_policy();
    policy.cooldown_sec = 0;

    let quotes = make_quotes(p, Some(p), Some(p), 12, now);
    let step1 = eval_fresh(&policy, &quotes, now, ContextClassification::Isolated);
    assert_alert_with_severity(&step1, Severity::Critical);

    let step2 = evaluate_policy(
        &policy,
        &quotes,
        &step1.next_state,
        now + Duration::seconds(1),
        ContextClassification::Isolated,
    )
    .expect("evaluation");
    assert_no_alert(&step2);

    let quotes_low = make_quotes(lower_p, Some(lower_p), Some(lower_p), 12, now);
    let step3 = evaluate_policy(
        &policy,
        &quotes_low,
        &step2.next_state,
        now + Duration::seconds(2),
        ContextClassification::Isolated,
    )
    .expect("evaluation");

    assert!(
        !step3.should_emit_alert
            || !matches!(step3.transition, Some(IncidentTransition::Escalate))
    );
}

#[test]
fn dpeg_tc_d_703_cooldown_prevents_retrigger() {
    let now = Utc::now();
    let breach_price = price_from_deviation(1.0, 1.50);
    let mut policy = oracle_policy();
    policy.cooldown_sec = 300;

    let state = DpegAlertState {
        breach_started_at: None,
        cooldown_until: Some(now + Duration::seconds(250)),
        last_alerted_at: Some(now - Duration::seconds(5)),
        last_divergence_pct: None,
        last_severity: None,
        last_classification: None,
        trigger_floor_pct: None,
        below_severity_blocks: 0,
        below_trigger_blocks: 0,
    };

    let quotes = make_quotes(
        breach_price,
        Some(breach_price),
        Some(breach_price),
        12,
        now,
    );
    let outcome = evaluate_policy(
        &policy,
        &quotes,
        &state,
        now,
        ContextClassification::Isolated,
    )
    .expect("evaluation");

    assert_no_alert(&outcome);
}

#[test]
fn dpeg_tc_d_704_cooldown_expired_new_incident() {
    let now = Utc::now();
    let breach_price = price_from_deviation(1.0, 1.50);
    let mut policy = oracle_policy();
    policy.cooldown_sec = 300;

    let state = DpegAlertState {
        breach_started_at: None,
        cooldown_until: Some(now - Duration::seconds(10)),
        last_alerted_at: Some(now - Duration::seconds(310)),
        last_divergence_pct: None,
        last_severity: None,
        last_classification: None,
        trigger_floor_pct: None,
        below_severity_blocks: 0,
        below_trigger_blocks: 0,
    };

    let quotes = make_quotes(
        breach_price,
        Some(breach_price),
        Some(breach_price),
        12,
        now,
    );
    let outcome = evaluate_policy(
        &policy,
        &quotes,
        &state,
        now,
        ContextClassification::Isolated,
    )
    .expect("evaluation");
    assert_alert_with_severity(&outcome, Severity::High);
    assert_transition(&outcome, IncidentTransition::Trigger);
}

#[test]
fn dpeg_tc_d_705_resolved_cannot_transition_during_cooldown() {
    let now = Utc::now();
    let breach_price = price_from_deviation(1.0, 1.50);
    let mut policy = oracle_policy();
    policy.cooldown_sec = 300;

    let state = DpegAlertState {
        breach_started_at: None,
        cooldown_until: Some(now + Duration::seconds(250)),
        last_alerted_at: Some(now - Duration::seconds(5)),
        last_divergence_pct: None,
        last_severity: None,
        last_classification: None,
        trigger_floor_pct: None,
        below_severity_blocks: 0,
        below_trigger_blocks: 0,
    };

    let quotes = make_quotes(
        breach_price,
        Some(breach_price),
        Some(breach_price),
        12,
        now,
    );
    let outcome = evaluate_policy(
        &policy,
        &quotes,
        &state,
        now,
        ContextClassification::Isolated,
    )
    .expect("evaluation");

    assert_no_alert(&outcome);
    assert_eq!(outcome.transition, None);
}

#[test]
fn dpeg_tc_d_706_false_positive_state_blocks_retrigger() {
    let now = Utc::now();
    let critical_price = price_from_deviation(1.0, 5.50);
    let mut policy = oracle_policy();
    policy.cooldown_sec = 600;

    let state = DpegAlertState {
        breach_started_at: None,
        cooldown_until: Some(now + Duration::seconds(500)),
        last_alerted_at: Some(now - Duration::seconds(10)),
        last_divergence_pct: None,
        last_severity: None,
        last_classification: None,
        trigger_floor_pct: None,
        below_severity_blocks: 0,
        below_trigger_blocks: 0,
    };

    let quotes = make_quotes(
        critical_price,
        Some(critical_price),
        Some(critical_price),
        12,
        now,
    );
    let outcome = evaluate_policy(
        &policy,
        &quotes,
        &state,
        now,
        ContextClassification::Isolated,
    )
    .expect("evaluation");
    assert_no_alert(&outcome);
}

#[test]
fn dpeg_tc_d_707_deescalation_requires_block_count() {
    let now = Utc::now();
    let medium_price = price_from_deviation(1.0, 0.60);
    let mut policy = oracle_policy();
    policy.cooldown_sec = 0;
    policy.deescalation_blocks = 5;

    let state = DpegAlertState {
        breach_started_at: Some(now - Duration::seconds(120)),
        cooldown_until: None,
        last_alerted_at: Some(now - Duration::seconds(60)),
        last_divergence_pct: Some(d(5.50)),
        last_severity: Some("critical".to_string()),
        last_classification: Some("isolated".to_string()),
        trigger_floor_pct: Some(d(0.5)),
        below_severity_blocks: 0,
        below_trigger_blocks: 0,
    };

    let quotes = make_quotes(
        medium_price,
        Some(medium_price),
        Some(medium_price),
        12,
        now,
    );
    let step1 = evaluate_policy(
        &policy,
        &quotes,
        &state,
        now,
        ContextClassification::Isolated,
    )
    .expect("evaluation");

    assert_no_alert(&step1);
    assert_eq!(step1.next_state.below_severity_blocks, 1);

    let mut s = step1.next_state;
    for i in 1..4 {
        let ts = now + Duration::seconds(i);
        let q = make_quotes(medium_price, Some(medium_price), Some(medium_price), 12, ts);
        let out = evaluate_policy(&policy, &q, &s, ts, ContextClassification::Isolated)
            .expect("evaluation");
        assert_no_alert(&out);
        s = out.next_state;
    }
    assert_eq!(s.below_severity_blocks, 4);

    let ts = now + Duration::seconds(4);
    let q = make_quotes(medium_price, Some(medium_price), Some(medium_price), 12, ts);
    let final_out = evaluate_policy(&policy, &q, &s, ts, ContextClassification::Isolated)
        .expect("evaluation");
    assert_alert_with_severity(&final_out, Severity::Medium);
    assert_transition(&final_out, IncidentTransition::Deescalate);
}

#[test]
fn dpeg_tc_d_708_stale_state_triggers_resolution_countdown() {
    let now = Utc::now();
    let recovery_price = price_from_deviation(1.0, 0.10);
    let mut policy = oracle_policy();
    policy.toggles.oracle_confirmation = false;
    policy.resolution_blocks = 3;

    let state = DpegAlertState {
        breach_started_at: None,
        cooldown_until: None,
        last_alerted_at: Some(now - Duration::seconds(300)),
        last_divergence_pct: Some(d(1.50)),
        last_severity: Some("high".to_string()),
        last_classification: Some("isolated".to_string()),
        trigger_floor_pct: Some(d(0.5)),
        below_severity_blocks: 0,
        below_trigger_blocks: 0,
    };

    let mut s = state;
    for i in 0..3 {
        let ts = now + Duration::seconds(i);
        let q = make_quotes(recovery_price, None, None, 12, ts);
        let out = evaluate_policy(&policy, &q, &s, ts, ContextClassification::Isolated)
            .expect("evaluation");
        if i < 2 {
            assert!(!out.should_emit_alert);
            assert_eq!(out.next_state.below_trigger_blocks, i + 1);
        } else {
            assert_transition(&out, IncidentTransition::Resolve);
        }
        s = out.next_state;
    }
}

#[test]
fn dpeg_tc_d_1301_recommended_actions_by_severity() {
    let critical_actions = recommended_actions_for_severity(&Severity::Critical);
    assert_eq!(critical_actions.len(), 3);
    assert!(critical_actions[0].contains("Immediate Rebalance"));
    assert!(critical_actions[1].contains("Exit all positions"));
    assert!(critical_actions[2].contains("Withdraw to Owner"));

    let high_actions = recommended_actions_for_severity(&Severity::High);
    assert_eq!(high_actions.len(), 3);
    assert!(high_actions[0].contains("Partial Exit"));
    assert!(high_actions[1].contains("Rebalance to ETH"));
    assert!(high_actions[2].contains("Hold and Monitor"));

    let medium_actions = recommended_actions_for_severity(&Severity::Medium);
    assert_eq!(medium_actions.len(), 2);
    assert!(medium_actions[0].contains("Hold and Monitor"));

    let info_actions = recommended_actions_for_severity(&Severity::Info);
    assert!(info_actions.is_empty());
}

#[test]
fn dpeg_tc_d_1400_detection_signal_detail_fields() {
    let now = Utc::now();
    let p = price_from_deviation(1.0, 5.50);
    let quotes = make_quotes(p, Some(p), Some(p), 12, now);
    let policy = oracle_policy();

    let outcome = eval_fresh(&policy, &quotes, now, ContextClassification::Isolated);
    assert_alert_with_severity(&outcome, Severity::Critical);

    let event = UnifiedEvent {
        event_id: uuid::Uuid::new_v4().to_string(),
        tenant_id: "test-tenant".to_string(),
        source_type: SourceType::CexWebsocket,
        source_id: "binance".to_string(),
        event_type: "quote".to_string(),
        timestamp: now,
        payload: Json::Null,
        chain_id: None,
        block_number: None,
        tx_hash: None,
        market_key: Some("USDC/USD".to_string()),
        price: Some(d(p)),
    };

    let detection = build_detection(
        &event,
        &policy,
        &outcome.snapshot,
        Severity::Critical,
        Some(IncidentTransition::Trigger),
        now,
    );

    assert_eq!(detection.pattern_id, "dpeg");
    assert_eq!(detection.severity, Severity::Critical);
    assert_eq!(detection.chain, Chain::Offchain);
    assert_eq!(detection.attack_family, AttackFamily::PegDeviation);
    assert!(detection.subject_type.as_deref() == Some("market"));
    assert!(detection.subject_key.is_some());
    assert!(detection.tenant_id.is_some());
    assert!(detection.event_key.is_some());
    assert_eq!(
        detection.incident_transition,
        Some(IncidentTransition::Trigger)
    );
    assert_eq!(
        detection.context_classification,
        Some(ContextClassification::Isolated)
    );
    assert!(!detection.signals.is_empty());
    assert_eq!(detection.signals[0].signal_type, SignalType::PriceDeviation);
    assert!(f(detection.signals[0].value) > 5.0);
    assert!(!detection.risk_score.rationale.is_empty());
    assert!(!detection.actions_recommended.is_empty());
    assert!(has(&detection.oracle_context, "oracle_confirmed"));
    assert!(has(&detection.oracle_context, "weighted_median_price"));
    assert!(has(&detection.oracle_context, "trigger_floor_pct"));
    assert!(has(&detection.oracle_context, "context_classification"));
    assert!(!detection.confidence_breakdown.is_empty());
    assert!(detection.description.is_some());
}

#[test]
fn dpeg_tc_d_1401_oracle_breached_flag_matches_threshold() {
    let now = Utc::now();

    let median_price = price_from_deviation(1.0, 0.60);
    let chainlink_price = price_from_deviation(1.0, 0.60);
    let pyth_price = price_from_deviation(1.0, 0.30);
    let quotes = make_quotes(
        median_price,
        Some(chainlink_price),
        Some(pyth_price),
        12,
        now,
    );
    let policy = oracle_policy();

    let outcome = eval_fresh(&policy, &quotes, now, ContextClassification::Isolated);

    assert!(outcome.snapshot.oracle_confirmed);
    assert!(outcome.snapshot.breach_active);

    let low_chainlink = price_from_deviation(1.0, 0.20);
    let low_pyth = price_from_deviation(1.0, 0.30);
    let quotes2 = make_quotes(median_price, Some(low_chainlink), Some(low_pyth), 12, now);
    let outcome2 = eval_fresh(&policy, &quotes2, now, ContextClassification::Isolated);

    assert!(!outcome2.snapshot.oracle_confirmed);
    assert!(!outcome2.snapshot.breach_active);
}

#[test]
fn dpeg_tc_d_1402_severity_none_below_all_bands() {
    let bands = DpegSeverityBands {
        medium: d(0.5),
        high: d(1.0),
        critical: d(5.0),
    };
    assert_eq!(severity_for_divergence(d(0.0), &bands), None);
    assert_eq!(severity_for_divergence(d(0.49), &bands), None);
}

#[test]
fn dpeg_tc_d_1403_severity_boundaries() {
    let bands = DpegSeverityBands {
        medium: d(0.5),
        high: d(1.0),
        critical: d(5.0),
    };
    assert_eq!(severity_for_divergence(d(0.5), &bands), Some(Severity::Medium));
    assert_eq!(
        severity_for_divergence(d(0.99), &bands),
        Some(Severity::Medium)
    );
    assert_eq!(severity_for_divergence(d(1.0), &bands), Some(Severity::High));
    assert_eq!(severity_for_divergence(d(4.99), &bands), Some(Severity::High));
    assert_eq!(
        severity_for_divergence(d(5.0), &bands),
        Some(Severity::Critical)
    );
    assert_eq!(
        severity_for_divergence(d(99.0), &bands),
        Some(Severity::Critical)
    );
}

#[test]
fn dpeg_tc_d_1404_systemic_severity_boundaries() {
    let bands = DpegSeverityBands {
        medium: d(0.01),
        high: d(0.25),
        critical: d(0.5),
    };
    assert_eq!(severity_for_divergence(d(0.009), &bands), None);
    assert_eq!(
        severity_for_divergence(d(0.01), &bands),
        Some(Severity::Medium)
    );
    assert_eq!(
        severity_for_divergence(d(0.24), &bands),
        Some(Severity::Medium)
    );
    assert_eq!(severity_for_divergence(d(0.25), &bands), Some(Severity::High));
    assert_eq!(severity_for_divergence(d(0.49), &bands), Some(Severity::High));
    assert_eq!(
        severity_for_divergence(d(0.5), &bands),
        Some(Severity::Critical)
    );
}

#[test]
fn dpeg_tc_d_1405_context_classification_str_values() {
    assert_eq!(
        context_classification_str(&ContextClassification::Isolated),
        "isolated"
    );
    assert_eq!(
        context_classification_str(&ContextClassification::Systemic),
        "systemic"
    );
    assert_eq!(
        context_classification_str(&ContextClassification::Unclassified),
        "none"
    );
}

#[test]
fn dpeg_tc_d_1406_severity_from_str_roundtrip() {
    assert_eq!(
        severity_from_str(Some("critical")),
        Some(Severity::Critical)
    );
    assert_eq!(severity_from_str(Some("HIGH")), Some(Severity::High));
    assert_eq!(severity_from_str(Some("Medium")), Some(Severity::Medium));
    assert_eq!(severity_from_str(Some("low")), Some(Severity::Low));
    assert_eq!(severity_from_str(Some("info")), Some(Severity::Info));
    assert_eq!(severity_from_str(Some("unknown")), None);
    assert_eq!(severity_from_str(None), None);
}

#[test]
fn dpeg_tc_d_1407_severity_rank_ordering() {
    assert!(severity_rank(Some(&Severity::Critical)) > severity_rank(Some(&Severity::High)));
    assert!(severity_rank(Some(&Severity::High)) > severity_rank(Some(&Severity::Medium)));
    assert!(severity_rank(Some(&Severity::Medium)) > severity_rank(Some(&Severity::Low)));
    assert!(severity_rank(Some(&Severity::Low)) > severity_rank(Some(&Severity::Info)));
    assert!(severity_rank(Some(&Severity::Info)) > severity_rank(None));
    assert_eq!(severity_rank(None), 0);
}

#[test]
fn dpeg_tc_d_1408_oracles_within_resolution_floor() {
    let now = Utc::now();
    let good_oracle = quote("chainlink", "oracle", 0.998, now);
    let good_pyth = quote("pyth", "oracle", 0.999, now);
    let quotes = vec![good_oracle, good_pyth];

    assert!(available_oracles_within_resolution_floor(&quotes, d(0.5), d(1.0)));
}

#[test]
fn dpeg_tc_d_1409_oracle_above_resolution_floor() {
    let now = Utc::now();
    let good_oracle = quote("chainlink", "oracle", 0.998, now);
    let bad_pyth = quote("pyth", "oracle", 0.990, now);
    let quotes = vec![good_oracle, bad_pyth];

    assert!(!available_oracles_within_resolution_floor(
        &quotes, d(0.5), d(1.0)
    ));
}

#[test]
fn dpeg_tc_d_1410_no_oracles_resolution_passes() {
    let now = Utc::now();
    let quotes = vec![quote("binance", "cex", 0.998, now)];

    assert!(available_oracles_within_resolution_floor(&quotes, d(0.5), d(1.0)));
}

#[test]
fn dpeg_tc_d_1411_single_source_valid_median() {
    let now = Utc::now();
    let p = price_from_deviation(1.0, 1.50);
    let mut policy = oracle_policy();
    policy.min_sources = 1;
    policy.source_filter.min_healthy_sources = 1;
    policy.toggles.oracle_confirmation = false;

    let quotes = vec![quote("binance", "cex", p, now)];
    let outcome = eval_fresh(&policy, &quotes, now, ContextClassification::Isolated);
    assert_eq!(outcome.snapshot.source_count, 1);
    assert!(outcome.snapshot.breach_active);
}

#[test]
fn dpeg_tc_d_1412_zero_weight_source_excluded() {
    let now = Utc::now();
    let mut policy = oracle_policy();
    policy.toggles.oracle_confirmation = false;
    policy.min_sources = 1;
    policy.source_filter.min_healthy_sources = 1;
    policy.source_overrides.push((
        "bad-source".to_string(),
        DpegSourceOverride {
            source_id: "bad-source".to_string(),
            weight: d(0.0),
            enabled: true,
            stale_timeout_ms: None,
        },
    ));

    let good_price = price_from_deviation(1.0, 0.10);
    let bad_price = price_from_deviation(1.0, 5.0);
    let quotes = vec![
        quote("good-source", "cex", good_price, now),
        quote("bad-source", "cex", bad_price, now),
    ];

    let outcome = eval_fresh(&policy, &quotes, now, ContextClassification::Isolated);

    assert_eq!(outcome.snapshot.source_count, 1);
    assert!(!outcome.snapshot.breach_active);
}

#[test]
fn dpeg_tc_d_1413_disabled_source_excluded() {
    let now = Utc::now();
    let mut policy = oracle_policy();
    policy.toggles.oracle_confirmation = false;
    policy.min_sources = 1;
    policy.source_filter.min_healthy_sources = 1;
    policy.source_overrides.push((
        "disabled-cex".to_string(),
        DpegSourceOverride {
            source_id: "disabled-cex".to_string(),
            weight: d(1.0),
            enabled: false,
            stale_timeout_ms: None,
        },
    ));

    let good_price = price_from_deviation(1.0, 0.10);
    let breach_price = price_from_deviation(1.0, 5.0);
    let quotes = vec![
        quote("active-cex", "cex", good_price, now),
        quote("disabled-cex", "cex", breach_price, now),
    ];

    let outcome = eval_fresh(&policy, &quotes, now, ContextClassification::Isolated);
    assert_eq!(outcome.snapshot.source_count, 1);
    assert!(!outcome.snapshot.breach_active);
}

#[test]
fn dpeg_tc_d_1414_confidence_gate_blocks_alert() {
    let now = Utc::now();
    let p = price_from_deviation(1.0, 1.50);
    let mut policy = oracle_policy();
    policy.min_confidence_to_fire = d(100.1);
    policy.min_sources = 1;
    policy.source_filter.min_healthy_sources = 1;
    policy.toggles.oracle_confirmation = false;

    let quotes = vec![quote("binance", "cex", p, now)];
    let outcome = eval_fresh(&policy, &quotes, now, ContextClassification::Isolated);

    assert!(!outcome.snapshot.breach_active);
    assert_no_alert(&outcome);
}

#[test]
fn dpeg_tc_d_1415_full_escalation_deescalation_resolution_lifecycle() {
    let now = Utc::now();
    let mut policy = oracle_policy();
    policy.cooldown_sec = 0;
    policy.deescalation_blocks = 2;
    policy.resolution_blocks = 2;
    policy.toggles.oracle_confirmation = false;

    let medium_price = price_from_deviation(1.0, 0.60);
    let q1 = make_quotes(medium_price, None, None, 12, now);
    let s1 = eval_fresh(&policy, &q1, now, ContextClassification::Isolated);
    assert_transition(&s1, IncidentTransition::Trigger);
    assert_alert_with_severity(&s1, Severity::Medium);

    let critical_price = price_from_deviation(1.0, 5.50);
    let q2 = make_quotes(critical_price, None, None, 12, now + Duration::seconds(1));
    let s2 = evaluate_policy(
        &policy,
        &q2,
        &s1.next_state,
        now + Duration::seconds(1),
        ContextClassification::Isolated,
    )
    .expect("evaluation");
    assert_transition(&s2, IncidentTransition::Escalate);
    assert_alert_with_severity(&s2, Severity::Critical);

    let mut state = s2.next_state;
    for i in 2..4 {
        let ts = now + Duration::seconds(i);
        let q = make_quotes(medium_price, None, None, 12, ts);
        let out = evaluate_policy(&policy, &q, &state, ts, ContextClassification::Isolated)
            .expect("evaluation");
        if i == 3 {
            assert_transition(&out, IncidentTransition::Deescalate);
            assert_alert_with_severity(&out, Severity::Medium);
        }
        state = out.next_state;
    }

    let recovery_price = price_from_deviation(1.0, 0.10);
    for i in 4..6 {
        let ts = now + Duration::seconds(i);
        let q = make_quotes(recovery_price, None, None, 12, ts);
        let out = evaluate_policy(&policy, &q, &state, ts, ContextClassification::Isolated)
            .expect("evaluation");
        if i == 5 {
            assert_transition(&out, IncidentTransition::Resolve);
        }
        state = out.next_state;
    }
}

#[test]
fn dpeg_tc_d_1416_policy_validation() {
    let mut p = base_policy();
    p.sustained_window_ms = 1;
    assert!(p.validate().is_ok());

    p.peg_target = d(0.0);
    assert!(p.validate().is_err());
    p.peg_target = d(1.0);

    p.min_sources = 0;
    assert!(p.validate().is_err());
    p.min_sources = 3;

    p.quorum_pct = d(1.5);
    assert!(p.validate().is_err());
    p.quorum_pct = d(0.5);

    p.sustained_window_ms = -1;
    assert!(p.validate().is_err());
    p.sustained_window_ms = 0;
    assert!(p.validate().is_err());
    p.sustained_window_ms = 1;

    p.resolution_blocks = 0;
    assert!(p.validate().is_err());
    p.resolution_blocks = 30;

    p.min_confidence_to_fire = d(101.0);
    assert!(p.validate().is_err());
}

#[test]
fn dpeg_tc_d_1417_stale_quotes_excluded() {
    let now = Utc::now();
    let mut policy = oracle_policy();
    policy.stale_timeout_ms = 30_000;
    policy.min_sources = 1;
    policy.source_filter.min_healthy_sources = 1;
    policy.toggles.oracle_confirmation = false;

    let stale_time = now - Duration::seconds(60);
    let breach_price = price_from_deviation(1.0, 5.0);
    let quotes = vec![quote("binance", "cex", breach_price, stale_time)];

    let outcome = eval_fresh(&policy, &quotes, now, ContextClassification::Isolated);

    assert_eq!(outcome.snapshot.source_count, 0);
    assert!(!outcome.snapshot.breach_active);
}

#[test]
fn dpeg_tc_d_1418_per_source_stale_override() {
    let now = Utc::now();
    let mut policy = oracle_policy();
    policy.stale_timeout_ms = 30_000;
    policy.min_sources = 1;
    policy.source_filter.min_healthy_sources = 1;
    policy.toggles.oracle_confirmation = false;
    policy.source_overrides.push((
        "slow-source".to_string(),
        DpegSourceOverride {
            source_id: "slow-source".to_string(),
            weight: d(1.0),
            enabled: true,
            stale_timeout_ms: Some(120_000),
        },
    ));

    let old_time = now - Duration::seconds(60);
    let breach_price = price_from_deviation(1.0, 1.50);

    let quotes_normal = vec![quote("normal-source", "cex", breach_price, old_time)];
    let out1 = eval_fresh(
        &policy,
        &quotes_normal,
        now,
        ContextClassification::Isolated,
    );
    assert_eq!(out1.snapshot.source_count, 0);

    let quotes_slow = vec![quote("slow-source", "cex", breach_price, old_time)];
    let out2 = eval_fresh(&policy, &quotes_slow, now, ContextClassification::Isolated);
    assert_eq!(out2.snapshot.source_count, 1);
    assert!(out2.snapshot.breach_active);
}
