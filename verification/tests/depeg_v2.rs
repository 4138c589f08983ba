use std::ops::Add;
use std::ops::Sub;

use detector::double::Double;
use detector::time::Timestamp;
use std::collections::HashMap;

use detector::aggregation::aggregate_price;
use detector::aggregation::trimmed_mean;
use detector::aggregation::weighted_mean;
use detector::aggregation::weighted_median;
use detector::aggregation::weighted_percentile;
use detector::aggregation::MedianStrategy;
use detector::aggregation::Point;
use detector::depeg_v2::detection::build_detection;
use detector::depeg_v2::dry_run::run_decision_expression_test;
use detector::depeg_v2::dry_run::DecisionExpressionTestCase;
use detector::depeg_v2::dry_run::DecisionExpressionTestRequest;
use detector::depeg_v2::evaluation::evaluate_policy;
use detector::depeg_v2::evaluation::DecisionExpressionTestInputs;
use detector::depeg_v2::evaluation::DepegAlertState;
use detector::depeg_v2::evaluation::EvaluationOutcome;
use detector::depeg_v2::mapping::effective_event_fields;
use detector::depeg_v2::mapping::mapping_for_event;
use detector::depeg_v2::mapping::parse_source_mapping_overrides;
use detector::depeg_v2::mapping::MappedFields;
use detector::depeg_v2::mapping::SourceBindingRuntimeOverride;
use detector::depeg_v2::mapping::TenantOverrides;
use detector::depeg_v2::pattern::ConfigRow;
use detector::depeg_v2::pattern::DepegPatternV2;
use detector::depeg_v2::policy::default_deescalation_blocks;
use detector::depeg_v2::policy::default_isolated_floor_pct;
use detector::depeg_v2::policy::default_min_confidence_to_fire;
use detector::depeg_v2::policy::default_resolution_blocks;
use detector::depeg_v2::policy::default_systemic_floor_pct;
use detector::depeg_v2::policy::normalized_policy_config;
use detector::depeg_v2::policy::parse_policies;
use detector::depeg_v2::policy::severity_for_divergence;
use detector::depeg_v2::policy::DepegConfidenceWeights;
use detector::depeg_v2::policy::DepegPolicy;
use detector::depeg_v2::policy::DepegSeverityBands;
use detector::depeg_v2::policy::DepegSourceFilter;
use detector::depeg_v2::policy::DepegSourceOverride;
use detector::depeg_v2::policy::DepegToggles;
use detector::event::context_classification_str;
use detector::event::severity_from_str;
use detector::event::severity_rank;
use detector::event::AttackFamily;
use detector::event::Chain;
use detector::event::ContextClassification;
use detector::event::IncidentTransition;
use detector::event::Severity;
use detector::event::SignalType;
use detector::event::SourceType;
use detector::event::UnifiedEvent;
use detector::expression::compile;
use detector::incident::available_oracles_within_resolution_floor;
use detector::incident::recommended_actions_for_severity;
use detector::json::Json;
use detector::quotes::latest_quotes_for_time;
use detector::quotes::remember_quote;
use detector::quotes::QuoteInput;

fn d(x: f64) -> Double {
    Double { bits: x.to_bits() }
}

fn f(x: Double) -> f64 {
    f64::from_bits(x.bits)
}

struct Utc;

impl Utc {
    fn now() -> Timestamp {
        detector::outside::current_time()
    }
}

#[derive(Clone, Copy)]
struct Duration {
    nanos: i128,
}

impl Duration {
    fn seconds(n: i64) -> Duration {
        Duration { nanos: n as i128 * 1_000_000_000 }
    }
}

impl Add<Duration> for Timestamp {
    type Output = Timestamp;

    fn add(self, other: Duration) -> Timestamp {
        Timestamp { nanos: self.nanos + other.nanos }
    }
}

impl Sub<Duration> for Timestamp {
    type Output = Timestamp;

    fn sub(self, other: Duration) -> Timestamp {
        Timestamp { nanos: self.nanos - other.nanos }
    }
}

fn from_value(v: &serde_json::Value) -> Json {
    match v {
        serde_json::Value::Null => Json::Null,
        serde_json::Value::Bool(b) => Json::Bool(*b),
        serde_json::Value::Number(n) => match (n.as_u64(), n.as_i64()) {
            (Some(n), _) => Json::UInt(n),
            (None, Some(n)) => Json::Int(n),
            (None, None) => Json::Float(d(n.as_f64().unwrap())),
        },
        serde_json::Value::String(s) => Json::Text(s.clone()),
        serde_json::Value::Array(v) => Json::List(v.iter().map(from_value).collect()),
        serde_json::Value::Object(m) => Json::Object(
            m.iter().map(|(k, v)| (k.clone(), from_value(v))).collect(),
        ),
    }
}

fn json(text: &str) -> Json {
    from_value(&serde_json::from_str(text).expect("a document"))
}

fn to_value(v: &Json) -> serde_json::Value {
    match v {
        Json::Null => serde_json::Value::Null,
        Json::Bool(b) => serde_json::Value::from(*b),
        Json::UInt(n) => serde_json::Value::from(*n),
        Json::Int(n) => serde_json::Value::from(*n),
        Json::Float(x) => serde_json::Value::from(f(*x)),
        Json::Text(s) => serde_json::Value::from(s.as_str()),
        Json::List(v) => serde_json::Value::Array(v.iter().map(to_value).collect()),
        Json::Object(m) => serde_json::Value::Object(
            m.iter().map(|(k, v)| (k.clone(), to_value(v))).collect(),
        ),
    }
}

fn shown(m: &Vec<(String, Json)>) -> HashMap<String, serde_json::Value> {
    m.iter().map(|(k, v)| (k.clone(), to_value(v))).collect()
}

fn value<T: Into<serde_json::Value>>(x: T) -> serde_json::Value {
    x.into()
}

fn moment(text: &str) -> Timestamp {
    let t = chrono::DateTime::parse_from_rfc3339(text).expect("a time");
    Timestamp { nanos: t.timestamp() as i128 * 1_000_000_000 + t.timestamp_subsec_nanos() as i128 }
}

fn points(v: &[(f64, f64)]) -> Vec<Point> {
    v.iter().map(|(price, weight)| Point { price: d(*price), weight: d(*weight) }).collect()
}

fn number(v: &Json) -> Option<Double> {
    match v {
        Json::UInt(n) => Some(d(*n as f64)),
        Json::Int(n) => Some(d(*n as f64)),
        Json::Float(x) => Some(*x),
        _ => None,
    }
}

fn whole(v: &Json) -> Option<i64> {
    match v {
        Json::UInt(n) => i64::try_from(*n).ok(),
        Json::Int(n) => Some(*n),
        _ => None,
    }
}

fn field<'a>(v: &'a Json, name: &str) -> Option<&'a Json> {
    match v {
        Json::Object(m) => m.iter().find(|(k, _)| k == name).map(|(_, v)| v),
        _ => None,
    }
}

fn text(v: Option<&Json>) -> Option<String> {
    match v {
        Some(Json::Text(s)) => Some(s.clone()),
        _ => None,
    }
}

fn read_bands(v: &Json) -> Option<DepegSeverityBands> {
    Some(DepegSeverityBands {
        medium: number(field(v, "medium")?)?,
        high: number(field(v, "high")?)?,
        critical: number(field(v, "critical")?)?,
    })
}

fn read_policy(v: &Json) -> Option<DepegPolicy> {
    Some(DepegPolicy {
        tenant_id: String::new(),
        market_key: text(field(v, "market_key"))?,
        peg_target: number(field(v, "peg_target")?)?,
        min_sources: whole(field(v, "min_sources")?)? as usize,
        quorum_pct: number(field(v, "quorum_pct")?)?,
        cooldown_sec: whole(field(v, "cooldown_sec")?)?,
        stale_timeout_ms: whole(field(v, "stale_timeout_ms")?)?,
        severity_bands: read_bands(field(v, "severity_bands")?)?,
        severity_bands_isolated: None,
        severity_bands_systemic: None,
        isolated_floor_pct: default_isolated_floor_pct(),
        systemic_floor_pct: default_systemic_floor_pct(),
        deescalation_blocks: default_deescalation_blocks(),
        resolution_blocks: default_resolution_blocks(),
        source_filter: DepegSourceFilter::default(),
        toggles: DepegToggles::default(),
        confidence_weights: DepegConfidenceWeights::default(),
        min_confidence_to_fire: default_min_confidence_to_fire(),
        source_overrides: Vec::new(),
        aggregation: None,
        decision_expression: text(field(v, "decision_expression")),
        compiled_decision: None,
        severity_expression: text(field(v, "severity_expression")),
        compiled_severity: None,
        oracle_expression: text(field(v, "oracle_expression")),
        compiled_oracle: None,
        confidence_expression: text(field(v, "confidence_expression")),
        compiled_confidence: None,
        contagion_expression: text(field(v, "contagion_expression")),
        compiled_contagion: None,
    })
}

fn read_policies(config: &Json) -> Option<Vec<DepegPolicy>> {
    match normalized_policy_config(config) {
        Json::List(v) => v.iter().map(read_policy).collect(),
        _ => None,
    }
}

fn row(tenant_id: &str, pattern_id: &str, config: Json) -> ConfigRow {
    ConfigRow {
        tenant_id: tenant_id.to_string(),
        pattern_id: pattern_id.to_string(),
        entries: read_policies(&config),
        config,
        rejected: Vec::new(),
    }
}

fn has(m: &Vec<(String, Json)>, name: &str) -> bool {
    m.iter().any(|(k, _)| k == name)
}

fn base_policy() -> DepegPolicy {
    DepegPolicy {
        tenant_id: "tenant-a".to_string(),
        market_key: "USDC/USD".to_string(),
        peg_target: d(1.0),
        min_sources: 1,
        quorum_pct: d(0.0),
        cooldown_sec: 0,
        stale_timeout_ms: 60_000,
        severity_bands: DepegSeverityBands {
            medium: d(0.5),
            high: d(1.0),
            critical: d(5.0),
        },
        severity_bands_isolated: Some(DepegSeverityBands {
            medium: d(0.5),
            high: d(1.0),
            critical: d(5.0),
        }),
        severity_bands_systemic: Some(DepegSeverityBands {
            medium: d(0.01),
            high: d(0.25),
            critical: d(0.25),
        }),
        isolated_floor_pct: d(0.5),
        systemic_floor_pct: d(0.01),
        deescalation_blocks: 5,
        resolution_blocks: 30,
        source_filter: DepegSourceFilter {
            min_healthy_sources: 1,
            ..DepegSourceFilter::default()
        },
        toggles: DepegToggles::default(),
        confidence_weights: DepegConfidenceWeights::default(),
        min_confidence_to_fire: d(0.0),
        source_overrides: Vec::new(),
        aggregation: None,
        decision_expression: None,
        compiled_decision: None,
        severity_expression: None,
        compiled_severity: None,
        oracle_expression: None,
        compiled_oracle: None,
        confidence_expression: None,
        compiled_confidence: None,
        contagion_expression: None,
        compiled_contagion: None,
    }
}

fn quote(
    source_id: &str,
    source_kind: &str,
    price: f64,
    observed_at: Timestamp,
) -> QuoteInput {
    QuoteInput {
        source_id: source_id.to_string(),
        source_kind: source_kind.to_string(),
        price: d(price),
        observed_at,
    }
}

#[test]
fn simulation_state_key_is_scoped_by_run() {
    assert_eq!(
        DepegPatternV2::state_key("USDC/USD", Some("run_123")),
        "USDC/USD::run_123"
    );
    assert_eq!(DepegPatternV2::state_key("USDC/USD", None), "USDC/USD");
}

#[test]
fn depeg_v2_future_quotes_are_ignored_for_consensus() {
    let now = Utc::now();
    let policy = base_policy();
    let quotes = vec![
        quote("cex-a", "cex", 0.99, now),
        quote("cex-b", "cex", 0.99, now),
        quote("cex-future", "cex", 0.50, now + Duration::seconds(30)),
    ];

    let outcome = evaluate_policy(
        &policy,
        &quotes,
        &DepegAlertState::default(),
        now,
        ContextClassification::Isolated,
    )
    .expect("evaluation");

    assert_eq!(outcome.snapshot.source_count, 2);
    assert!((f(outcome.snapshot.weighted_median_price) - 0.99).abs() < 1e-9);
}

#[test]
fn depeg_v2_latest_quotes_for_time_uses_last_quote_at_or_before_event_time() {
    let base = Utc::now();
    let mut market_quotes = Vec::new();
    remember_quote(
        &mut market_quotes,
        quote("oracle-a", "oracle", 1.0, base),
        16,
    );
    remember_quote(
        &mut market_quotes,
        quote("oracle-a", "oracle", 0.88, base + Duration::seconds(24)),
        16,
    );
    remember_quote(
        &mut market_quotes,
        quote("cex-a", "cex", 0.8785, base + Duration::seconds(21)),
        16,
    );
    remember_quote(
        &mut market_quotes,
        quote("cex-b", "cex", 0.8769, base + Duration::seconds(22)),
        16,
    );

    let quotes = latest_quotes_for_time(&market_quotes, base + Duration::seconds(22));
    let oracle = quotes
        .iter()
        .find(|quote| quote.source_id == "oracle-a")
        .expect("oracle quote selected");

    assert_eq!(quotes.len(), 3);
    assert_eq!(oracle.price, d(1.0));
    assert_eq!(oracle.observed_at, base);
}

#[test]
fn depeg_v2_oracle_confirmation_gate_blocks_alert_without_oracle_quote() {
    let now = Utc::now();
    let mut policy = base_policy();
    policy.toggles.oracle_confirmation = true;
    let quotes = vec![quote("cex-a", "cex", 0.99, now)];

    let outcome = evaluate_policy(
        &policy,
        &quotes,
        &DepegAlertState::default(),
        now,
        ContextClassification::Isolated,
    )
    .expect("evaluation");

    assert!(!outcome.snapshot.oracle_confirmed);
    assert!(!outcome.snapshot.breach_active);
    assert!(!outcome.should_emit_alert);
}

fn with_decision_expression(mut policy: DepegPolicy, expr: &str) -> DepegPolicy {
    policy.decision_expression = Some(expr.to_string());
    policy.compiled_decision = Some(compile(expr).expect("expression should compile"));
    policy
}

fn fires_by_default_quotes(now: Timestamp) -> Vec<QuoteInput> {
    vec![
        quote("cex-a", "cex", 0.994, now),
        quote("cex-b", "cex", 0.994, now),
        quote("chainlink", "oracle", 0.994, now),
    ]
}

#[test]
fn decision_expression_default_equivalent_matches_hardcoded_predicate() {
    let now = Utc::now();
    let policy = base_policy();
    let policy_with_cel = with_decision_expression(
        base_policy(),
        "quorum_met && threshold_breach \
         && (!oracle_confirmation_toggle || oracle_confirmed) \
         && confidence_total >= min_confidence_to_fire",
    );
    let quotes = fires_by_default_quotes(now);

    let baseline = evaluate_policy(
        &policy,
        &quotes,
        &DepegAlertState::default(),
        now,
        ContextClassification::Isolated,
    )
    .expect("baseline");
    let overridden = evaluate_policy(
        &policy_with_cel,
        &quotes,
        &DepegAlertState::default(),
        now,
        ContextClassification::Isolated,
    )
    .expect("overridden");

    assert!(
        baseline.snapshot.breach_active,
        "fixture must trigger the default predicate so the parity check is meaningful"
    );
    assert_eq!(
        baseline.snapshot.breach_active, overridden.snapshot.breach_active,
        "default-equivalent CEL expression must match hardcoded predicate"
    );
    assert_eq!(
        baseline.should_emit_alert, overridden.should_emit_alert,
        "default-equivalent CEL expression must produce identical alert decision"
    );
}

#[test]
fn decision_expression_can_make_breach_predicate_stricter() {
    let now = Utc::now();
    let baseline_policy = base_policy();
    let overridden_policy = with_decision_expression(
        base_policy(),

        "quorum_met && deviation_pct >= 2.0",
    );
    let quotes = fires_by_default_quotes(now);

    let baseline = evaluate_policy(
        &baseline_policy,
        &quotes,
        &DepegAlertState::default(),
        now,
        ContextClassification::Isolated,
    )
    .expect("baseline");
    let overridden = evaluate_policy(
        &overridden_policy,
        &quotes,
        &DepegAlertState::default(),
        now,
        ContextClassification::Isolated,
    )
    .expect("overridden");

    assert!(
        baseline.snapshot.breach_active,
        "fixture must trigger the default predicate"
    );
    assert!(
        !overridden.snapshot.breach_active,
        "custom CEL override should suppress sub-2% breach"
    );
    assert!(!overridden.should_emit_alert);
}

#[test]
fn decision_expression_can_make_breach_predicate_looser() {
    let now = Utc::now();

    let mut policy = base_policy();
    policy.severity_bands_isolated = Some(DepegSeverityBands {
        medium: d(0.5),
        high: d(1.0),
        critical: d(5.0),
    });
    let baseline = evaluate_policy(
        &policy,
        &[
            quote("cex-a", "cex", 0.999, now),
            quote("cex-b", "cex", 0.999, now),
        ],
        &DepegAlertState::default(),
        now,
        ContextClassification::Isolated,
    )
    .expect("baseline");

    assert!(!baseline.snapshot.breach_active);

    let policy =
        with_decision_expression(policy, "source_count >= 2 && confidence_total > 50.0");
    let outcome = evaluate_policy(
        &policy,
        &[
            quote("cex-a", "cex", 0.999, now),
            quote("cex-b", "cex", 0.999, now),
        ],
        &DepegAlertState::default(),
        now,
        ContextClassification::Isolated,
    )
    .expect("override");

    assert!(
        outcome.snapshot.breach_active,
        "custom CEL override should fire on confidence-only condition"
    );
}

#[test]
fn parse_policies_keeps_policy_alive_on_compile_error() {
    let mut pattern = DepegPatternV2::default();
    let mut rows = Vec::new();
    rows.push(row(
        "tenant-broken",
        "depeg_v2",
        json(r#"{
            "policies": [{
                "market_key": "USDC/USD",
                "peg_target": 1.0,
                "min_sources": 1,
                "quorum_pct": 0.0,
                "cooldown_sec": 0,
                "stale_timeout_ms": 60000,
                "severity_bands": { "medium": 0.5, "high": 1.0, "critical": 5.0 },

                "decision_expression": "deviation_pct >> 5"
            }]
        }"#),
    ));

    pattern.reload_config(rows);

    let policy = pattern
        .effective_policy("tenant-broken", "USDC/USD")
        .expect("policy should still be loaded after compile failure");
    assert!(
        policy.compiled_decision.is_none(),
        "broken expression must leave compiled_decision as None"
    );
    assert_eq!(
        policy.decision_expression.as_deref(),
        Some("deviation_pct >> 5"),
        "the raw expression text is still kept on the policy for audit"
    );
}

#[test]
fn parse_policies_compiles_valid_expression() {
    let mut pattern = DepegPatternV2::default();
    let mut rows = Vec::new();
    rows.push(row(
        "tenant-cel",
        "depeg_v2",
        json(r#"{
            "policies": [{
                "market_key": "USDC/USD",
                "peg_target": 1.0,
                "min_sources": 1,
                "quorum_pct": 0.0,
                "cooldown_sec": 0,
                "stale_timeout_ms": 60000,
                "severity_bands": { "medium": 0.5, "high": 1.0, "critical": 5.0 },
                "decision_expression": "quorum_met && deviation_pct >= 2.0"
            }]
        }"#),
    ));

    pattern.reload_config(rows);

    let policy = pattern
        .effective_policy("tenant-cel", "USDC/USD")
        .expect("policy should be loaded");
    assert!(
        policy.compiled_decision.is_some(),
        "valid expression must compile"
    );
}

#[test]
fn reload_config_mirrors_legacy_depeg_pattern_id() {
    let mut pattern = DepegPatternV2::default();
    let mut rows = Vec::new();
    rows.push(row(
        "tenant-mirror",
        "depeg",
        json(r#"{
            "policies": [{
                "market_key": "USDC/USD",
                "peg_target": 1.0,
                "min_sources": 1,
                "quorum_pct": 0.0,
                "cooldown_sec": 0,
                "stale_timeout_ms": 60000,
                "severity_bands": { "medium": 0.5, "high": 1.0, "critical": 5.0 },
                "decision_expression": "quorum_met && deviation_pct >= 1.0"
            }]
        }"#),
    ));

    pattern.reload_config(rows);

    let policy = pattern
        .effective_policy("tenant-mirror", "USDC/USD")
        .expect("v2 should pick up legacy depeg config rows");
    assert!(
        policy.compiled_decision.is_some(),
        "mirrored config should still get its CEL expression compiled"
    );
}

#[test]
fn reload_config_accepts_v2_specific_pattern_id() {
    let mut pattern = DepegPatternV2::default();
    let mut rows = Vec::new();
    rows.push(row(
        "tenant-v2-only",
        "depeg_v2",
        json(r#"{
            "policies": [{
                "market_key": "USDC/USD",
                "peg_target": 1.0,
                "min_sources": 1,
                "quorum_pct": 0.0,
                "cooldown_sec": 0,
                "stale_timeout_ms": 60000,
                "severity_bands": { "medium": 0.5, "high": 1.0, "critical": 5.0 }
            }]
        }"#),
    ));

    pattern.reload_config(rows);

    assert!(pattern
        .effective_policy("tenant-v2-only", "USDC/USD")
        .is_some());
}

#[test]
fn reload_config_ignores_unrelated_patterns() {
    let mut pattern = DepegPatternV2::default();
    let mut rows = Vec::new();
    rows.push(row(
        "tenant-unrelated",
        "flash_loan",
        json(r#"{
            "policies": [{
                "market_key": "USDC/USD",
                "peg_target": 1.0,
                "min_sources": 1,
                "quorum_pct": 0.0,
                "cooldown_sec": 0,
                "stale_timeout_ms": 60000,
                "severity_bands": { "medium": 0.5, "high": 1.0, "critical": 5.0 }
            }]
        }"#),
    ));

    pattern.reload_config(rows);

    assert!(pattern.policies.is_empty());
}

#[test]
fn weighted_median_parity_with_default_aggregation() {
    let points = points(&[(0.994, 1.0), (0.992, 1.5), (0.995, 1.0)]);
    let via_dispatch = aggregate_price(&points, None);
    let via_direct = weighted_median(&points);
    assert_eq!(
        via_dispatch, via_direct,
        "dispatch default must match direct weighted_median"
    );
}

#[test]
fn weighted_mean_computes_correctly() {
    let points = points(&[(10.0, 1.0), (20.0, 3.0)]);

    let result = f(weighted_mean(&points).expect("non-empty"));
    assert!((result - 17.5).abs() < 1e-9);
}

#[test]
fn trimmed_mean_excludes_extremes() {
    let points = points(&[
        (1.0, 1.0),
        (2.0, 1.0),
        (3.0, 1.0),
        (4.0, 1.0),
        (100.0, 1.0),
    ]);
    let result = f(trimmed_mean(&points, d(0.2)).expect("non-empty"));

    assert!((result - 3.0).abs() < 1e-9, "got {result}");
}

#[test]
fn trimmed_mean_with_zero_trim_is_weighted_mean() {
    let points = points(&[(10.0, 1.0), (20.0, 3.0)]);
    let mean = f(weighted_mean(&points).unwrap());
    let trimmed = f(trimmed_mean(&points, d(0.0)).unwrap());
    assert!((mean - trimmed).abs() < 1e-9);
}

#[test]
fn weighted_percentile_at_50_matches_weighted_median() {
    let points = points(&[(0.994, 1.0), (0.992, 1.5), (0.995, 1.0)]);
    let median = weighted_median(&points);
    let p50 = weighted_percentile(&points, d(0.5));
    assert_eq!(median, p50, "p=0.5 must equal weighted median");
}

#[test]
fn weighted_percentile_at_low_quantile_picks_low_price() {
    let points = points(&[(1.0, 1.0), (2.0, 1.0), (3.0, 1.0)]);

    let result = f(weighted_percentile(&points, d(0.01)).expect("non-empty"));
    assert!(
        (result - 1.0).abs() < 1e-9,
        "p≈0 should return lowest: {result}"
    );
}

#[test]
fn evaluate_policy_uses_configured_aggregation_strategy() {
    let now = Utc::now();
    let mut policy_median = base_policy();
    policy_median.toggles.oracle_confirmation = false;
    policy_median.aggregation = Some(MedianStrategy::WeightedMedian);

    let mut policy_mean = policy_median.clone();
    policy_mean.aggregation = Some(MedianStrategy::WeightedMean);

    let quotes = vec![
        quote("cex-a", "cex", 0.990, now),
        quote("cex-b", "cex", 0.995, now),
    ];

    let outcome_median = evaluate_policy(
        &policy_median,
        &quotes,
        &DepegAlertState::default(),
        now,
        ContextClassification::Isolated,
    )
    .expect("median");
    let outcome_mean = evaluate_policy(
        &policy_mean,
        &quotes,
        &DepegAlertState::default(),
        now,
        ContextClassification::Isolated,
    )
    .expect("mean");

    assert!(
        (f(outcome_median.snapshot.weighted_median_price)
            - f(outcome_mean.snapshot.weighted_median_price))
            .abs()
            > 1e-9
            || f(outcome_median.snapshot.divergence_pct) != f(outcome_mean.snapshot.divergence_pct),
        "different aggregation strategies must produce distinguishable outcomes on asymmetric quotes"
    );
}

fn with_severity_expression(mut policy: DepegPolicy, expr: &str) -> DepegPolicy {
    policy.severity_expression = Some(expr.to_string());
    policy.compiled_severity = Some(compile(expr).expect("severity expression should compile"));
    policy
}

#[test]
fn severity_expression_default_equivalent_matches_hardcoded() {
    let now = Utc::now();
    let mut policy = base_policy();
    policy.toggles.oracle_confirmation = false;
    let policy_with_cel = with_severity_expression(
        policy.clone(),
        r#"deviation_pct >= severity_bands_critical ? "critical" :
           deviation_pct >= severity_bands_high     ? "high"     :
           deviation_pct >= severity_bands_medium   ? "medium"   : """#,
    );

    let quotes = vec![
        quote("cex-a", "cex", 0.994, now),
        quote("cex-b", "cex", 0.994, now),
    ];

    let baseline = evaluate_policy(
        &policy,
        &quotes,
        &DepegAlertState::default(),
        now,
        ContextClassification::Isolated,
    )
    .expect("baseline");
    let overridden = evaluate_policy(
        &policy_with_cel,
        &quotes,
        &DepegAlertState::default(),
        now,
        ContextClassification::Isolated,
    )
    .expect("overridden");

    assert_eq!(
        baseline.snapshot.severity, overridden.snapshot.severity,
        "default-equivalent severity CEL must match hardcoded"
    );
    assert_eq!(baseline.snapshot.severity, Some(Severity::Medium));
}

#[test]
fn severity_expression_can_reclassify_to_higher() {
    let now = Utc::now();
    let mut policy = base_policy();
    policy.toggles.oracle_confirmation = false;
    let policy = with_severity_expression(policy, r#""critical""#);
    let quotes = vec![
        quote("cex-a", "cex", 0.994, now),
    ];

    let outcome = evaluate_policy(
        &policy,
        &quotes,
        &DepegAlertState::default(),
        now,
        ContextClassification::Isolated,
    )
    .expect("evaluation");

    assert_eq!(outcome.snapshot.severity, Some(Severity::Critical));
}

#[test]
fn severity_expression_empty_string_falls_back_to_default() {
    let now = Utc::now();
    let mut policy = base_policy();
    policy.toggles.oracle_confirmation = false;
    let policy = with_severity_expression(policy, r#""""#);
    let quotes = vec![
        quote("cex-a", "cex", 0.994, now),
    ];

    let outcome = evaluate_policy(
        &policy,
        &quotes,
        &DepegAlertState::default(),
        now,
        ContextClassification::Isolated,
    )
    .expect("evaluation");

    assert_eq!(outcome.snapshot.severity, Some(Severity::Medium));
}

#[test]
fn severity_expression_non_string_falls_back_to_default() {
    let now = Utc::now();
    let mut policy = base_policy();
    policy.toggles.oracle_confirmation = false;
    let policy = with_severity_expression(policy, "true");
    let quotes = vec![quote("cex-a", "cex", 0.994, now)];

    let outcome = evaluate_policy(
        &policy,
        &quotes,
        &DepegAlertState::default(),
        now,
        ContextClassification::Isolated,
    )
    .expect("evaluation");

    assert_eq!(outcome.snapshot.severity, Some(Severity::Medium));
}

#[test]
fn parse_policies_compiles_severity_expression() {
    let mut pattern = DepegPatternV2::default();
    let mut rows = Vec::new();
    rows.push(row(
        "tenant-sev",
        "depeg_v2",
        json(r#"{
            "policies": [{
                "market_key": "USDC/USD",
                "peg_target": 1.0,
                "min_sources": 1,
                "quorum_pct": 0.0,
                "cooldown_sec": 0,
                "stale_timeout_ms": 60000,
                "severity_bands": { "medium": 0.5, "high": 1.0, "critical": 5.0 },
                "severity_expression": "deviation_pct >= severity_bands_critical ? \"critical\" : \"medium\""
            }]
        }"#),
    ));

    pattern.reload_config(rows);

    let policy = pattern
        .effective_policy("tenant-sev", "USDC/USD")
        .expect("policy should be loaded");
    assert!(
        policy.compiled_severity.is_some(),
        "valid severity_expression must compile"
    );
}

fn with_oracle_expression(mut policy: DepegPolicy, expr: &str) -> DepegPolicy {
    policy.oracle_expression = Some(expr.to_string());
    policy.compiled_oracle = Some(compile(expr).expect("compile"));
    policy
}
fn with_confidence_expression(mut policy: DepegPolicy, expr: &str) -> DepegPolicy {
    policy.confidence_expression = Some(expr.to_string());
    policy.compiled_confidence = Some(compile(expr).expect("compile"));
    policy
}

#[test]
fn oracle_expression_override_can_always_confirm() {
    let now = Utc::now();
    let mut policy = base_policy();
    policy.toggles.oracle_confirmation = true;
    let policy = with_oracle_expression(policy, "true");

    let quotes = vec![
        quote("cex-a", "cex", 0.994, now),
        quote("cex-b", "cex", 0.994, now),
    ];

    let outcome = evaluate_policy(
        &policy,
        &quotes,
        &DepegAlertState::default(),
        now,
        ContextClassification::Isolated,
    )
    .expect("evaluation");

    assert!(
        outcome.snapshot.oracle_confirmed,
        "CEL override should force oracle_confirmed = true"
    );
    assert!(
        outcome.snapshot.breach_active,
        "with oracle confirmed, breach should fire"
    );
}

#[test]
fn oracle_expression_override_can_block_confirmation() {
    let now = Utc::now();
    let mut policy = base_policy();
    policy.toggles.oracle_confirmation = true;
    let policy = with_oracle_expression(policy, "false");
    let quotes = vec![
        quote("cex-a", "cex", 0.994, now),
        quote("chainlink", "oracle", 0.994, now),
    ];

    let outcome = evaluate_policy(
        &policy,
        &quotes,
        &DepegAlertState::default(),
        now,
        ContextClassification::Isolated,
    )
    .expect("evaluation");

    assert!(!outcome.snapshot.oracle_confirmed);
    assert!(!outcome.snapshot.breach_active);
}

#[test]
fn confidence_expression_override_clamps_to_range() {
    let now = Utc::now();
    let mut policy = base_policy();
    policy.toggles.oracle_confirmation = false;
    policy.min_confidence_to_fire = d(50.0);
    let policy = with_confidence_expression(policy, "42.0");
    let quotes = vec![
        quote("cex-a", "cex", 0.994, now),
        quote("cex-b", "cex", 0.994, now),
    ];

    let outcome = evaluate_policy(
        &policy,
        &quotes,
        &DepegAlertState::default(),
        now,
        ContextClassification::Isolated,
    )
    .expect("evaluation");

    assert!(
        !outcome.snapshot.breach_active,
        "42 < 50 → should not breach"
    );
}

#[test]
fn confidence_expression_override_allows_fire_above_gate() {
    let now = Utc::now();
    let mut policy = base_policy();
    policy.toggles.oracle_confirmation = false;
    policy.min_confidence_to_fire = d(50.0);
    let policy = with_confidence_expression(policy, "75.0");
    let quotes = vec![
        quote("cex-a", "cex", 0.994, now),
        quote("cex-b", "cex", 0.994, now),
    ];

    let outcome = evaluate_policy(
        &policy,
        &quotes,
        &DepegAlertState::default(),
        now,
        ContextClassification::Isolated,
    )
    .expect("evaluation");

    assert!(outcome.snapshot.breach_active, "75 >= 50 → should breach");
}

#[test]
fn parse_policies_compiles_phase7_expressions() {
    let mut pattern = DepegPatternV2::default();
    let mut rows = Vec::new();
    rows.push(row(
        "tenant-p7",
        "depeg_v2",
        json(r#"{
            "policies": [{
                "market_key": "USDC/USD",
                "peg_target": 1.0,
                "min_sources": 1,
                "quorum_pct": 0.0,
                "cooldown_sec": 0,
                "stale_timeout_ms": 60000,
                "severity_bands": { "medium": 0.5, "high": 1.0, "critical": 5.0 },
                "oracle_expression": "has_fresh_oracle && oracle_max_divergence_pct >= trigger_floor_pct",
                "confidence_expression": "source_agreement * 0.7 + oracle_score * 0.3",
                "contagion_expression": "systemic_market_count >= 3 ? \"systemic\" : \"isolated\""
            }]
        }"#),
    ));

    pattern.reload_config(rows);

    let policy = pattern
        .effective_policy("tenant-p7", "USDC/USD")
        .expect("policy loaded");
    assert!(
        policy.compiled_oracle.is_some(),
        "oracle_expression should compile"
    );
    assert!(
        policy.compiled_confidence.is_some(),
        "confidence_expression should compile"
    );
    assert!(
        policy.compiled_contagion.is_some(),
        "contagion_expression should compile"
    );
}

fn baseline_inputs() -> DecisionExpressionTestInputs {
    DecisionExpressionTestInputs {
        quorum_met: true,
        threshold_breach: true,
        oracle_confirmed: true,
        confidence_total: d(80.0),
        deviation_pct: d(0.6),
        median_price: d(0.994),
        source_count: 3,
        min_confidence_to_fire: d(0.0),
        oracle_confirmation_toggle: true,
        volume_confirmation_toggle: false,
        severity_bands_medium: d(0.5),
        severity_bands_high: d(1.0),
        severity_bands_critical: d(5.0),
    }
}

#[test]
fn run_decision_expression_test_compile_error_returns_no_results() {
    let response = run_decision_expression_test(DecisionExpressionTestRequest {
        decision_expression: "deviation_pct >> 5".to_string(),
        test_cases: vec![DecisionExpressionTestCase {
            name: "anything".to_string(),
            inputs: baseline_inputs(),
            expected: None,
        }],
    });
    assert!(
        response.compilation_error.is_some(),
        "broken expression must report a compile error"
    );
    assert!(
        response.results.is_empty(),
        "no test cases should run when compile fails"
    );
}

#[test]
fn run_decision_expression_test_empty_expression_rejected() {
    let response = run_decision_expression_test(DecisionExpressionTestRequest {
        decision_expression: "   ".to_string(),
        test_cases: vec![],
    });
    assert!(response.compilation_error.is_some());
    assert!(response.results.is_empty());
}

#[test]
fn run_decision_expression_test_default_predicate_fires_on_baseline() {
    let response = run_decision_expression_test(DecisionExpressionTestRequest {
        decision_expression: "quorum_met && threshold_breach \
                              && (!oracle_confirmation_toggle || oracle_confirmed) \
                              && confidence_total >= min_confidence_to_fire"
            .to_string(),
        test_cases: vec![DecisionExpressionTestCase {
            name: "baseline".to_string(),
            inputs: baseline_inputs(),
            expected: Some(true),
        }],
    });
    assert!(response.compilation_error.is_none());
    assert_eq!(response.results.len(), 1);
    let result = &response.results[0];
    assert_eq!(result.fired, Some(true));
    assert_eq!(result.passed, Some(true));
    assert!(result.error.is_none());
}

#[test]
fn run_decision_expression_test_runs_multiple_cases_independently() {
    let mut suppressed = baseline_inputs();
    suppressed.quorum_met = false;
    let mut sub_band = baseline_inputs();
    sub_band.deviation_pct = d(0.3);

    let response = run_decision_expression_test(DecisionExpressionTestRequest {
        decision_expression: "quorum_met && deviation_pct >= severity_bands_medium".to_string(),
        test_cases: vec![
            DecisionExpressionTestCase {
                name: "fires".to_string(),
                inputs: baseline_inputs(),
                expected: Some(true),
            },
            DecisionExpressionTestCase {
                name: "no quorum".to_string(),
                inputs: suppressed,
                expected: Some(false),
            },
            DecisionExpressionTestCase {
                name: "below medium band".to_string(),
                inputs: sub_band,
                expected: Some(false),
            },
        ],
    });
    assert!(response.compilation_error.is_none());
    assert_eq!(response.results.len(), 3);
    for result in &response.results {
        assert!(
            result.error.is_none(),
            "case {:?} should evaluate cleanly",
            result.name
        );
        assert_eq!(
            result.passed,
            Some(true),
            "case {:?} did not match expected outcome (fired={:?})",
            result.name,
            result.fired
        );
    }
}

#[test]
fn run_decision_expression_test_non_bool_result_reports_error() {
    let response = run_decision_expression_test(DecisionExpressionTestRequest {
        decision_expression: "deviation_pct + 1.0".to_string(),
        test_cases: vec![DecisionExpressionTestCase {
            name: "non-bool".to_string(),
            inputs: baseline_inputs(),
            expected: Some(true),
        }],
    });
    assert!(response.compilation_error.is_none());
    let result = &response.results[0];
    assert!(result.fired.is_none());
    assert!(
        result.error.is_some(),
        "non-bool eval result must surface a structured error to the user"
    );

    assert!(result.passed.is_none());
}

#[test]
fn decision_expression_non_bool_result_falls_back_to_default() {
    let now = Utc::now();
    let policy = with_decision_expression(base_policy(), "deviation_pct + 1.0");
    let quotes = fires_by_default_quotes(now);

    let outcome = evaluate_policy(
        &policy,
        &quotes,
        &DepegAlertState::default(),
        now,
        ContextClassification::Isolated,
    )
    .expect("evaluation");

    assert!(
        outcome.snapshot.breach_active,
        "non-bool CEL result should transparently fall back to default predicate"
    );
}

#[test]
fn depeg_v2_contagion_toggle_off_forces_isolated_classification() {
    let now = Utc::now();
    let mut pattern = DepegPatternV2::default();
    let mut policy = base_policy();
    policy.toggles.contagion_detection = false;
    pattern.install_policy(policy.clone());

    let classification = pattern.classify_context(&policy, &policy.tenant_id, "__test__", now);
    assert!(matches!(classification, ContextClassification::Isolated));
}

#[test]
fn depeg_v2_reload_config_keeps_tenant_policies_isolated_for_same_market() {
    let mut pattern = DepegPatternV2::default();
    let mut rows = Vec::new();

    rows.push(row(
        "tenant-a",
        "depeg_v2",
        json(r#"{
            "policies": [{
                "market_key": "USDC/USD",
                "peg_target": 1.0,
                "min_sources": 1,
                "quorum_pct": 0.0,
                "cooldown_sec": 0,
                "stale_timeout_ms": 60000,
                "severity_bands": { "medium": 0.5, "high": 1.0, "critical": 5.0 }
            }]
        }"#),
    ));
    rows.push(row(
        "tenant-b",
        "depeg_v2",
        json(r#"{
            "policies": [{
                "market_key": "USDC/USD",
                "peg_target": 0.98,
                "min_sources": 3,
                "quorum_pct": 0.8,
                "cooldown_sec": 600,
                "stale_timeout_ms": 120000,
                "severity_bands": { "medium": 2.0, "high": 4.0, "critical": 8.0 }
            }]
        }"#),
    ));

    pattern.reload_config(rows);

    let tenant_a = pattern
        .effective_policy("tenant-a", "USDC/USD")
        .expect("tenant-a policy");
    let tenant_b = pattern
        .effective_policy("tenant-b", "USDC/USD")
        .expect("tenant-b policy");

    assert_eq!(tenant_a.peg_target, d(1.0));
    assert_eq!(tenant_a.min_sources, 1);
    assert_eq!(tenant_b.peg_target, d(0.98));
    assert_eq!(tenant_b.min_sources, 3);
}

#[test]
fn parse_source_mapping_overrides_reads_gateway_stream_mappings() {
    let config = json(r#"{
        "source_bindings": [{
            "source_id": "pyth-eth-mainnet",
            "enabled": true,
            "binding_config": {
                "active_stream_ids": ["stream-1"],
                "streams": [{
                    "id": "stream-1",
                    "field_mappings": [{
                        "source_field": "$.custom_price",
                        "canonical_field": "price",
                        "transform": "to_f64"
                    }]
                }]
            }
        }]
    }"#);

    let overrides = parse_source_mapping_overrides(&config, &Vec::new());
    let pyth = &overrides
        .iter()
        .find(|(source_id, _)| source_id == "pyth-eth-mainnet")
        .expect("override")
        .1;
    assert_eq!(pyth.active_stream_ids, vec!["stream-1".to_string()]);
    assert_eq!(
        pyth.stream_field_mappings
            .iter()
            .find(|(stream_id, _)| stream_id == "stream-1")
            .map(|(_, mappings)| match mappings {
                Json::List(v) => v.len(),
                _ => 0,
            }),
        Some(1)
    );
}

#[test]
fn effective_event_fields_apply_gateway_mapping_override() {
    let mut pattern = DepegPatternV2::default();
    let mappings = json(r#"[
                    {
                        "source_field": "$.custom_market",
                        "canonical_field": "market_key",
                        "transform": "identity"
                    },
                    {
                        "source_field": "$.custom_price",
                        "canonical_field": "price",
                        "transform": "to_f64"
                    },
                    {
                        "source_field": "$.custom_ts",
                        "canonical_field": "timestamp",
                        "transform": "parse_ts_iso8601"
                    }
                ]"#);
    pattern.source_mapping_overrides.push(TenantOverrides {
        tenant_id: "tenant-a".to_string(),
        sources: vec![(
            "pyth-eth-mainnet".to_string(),
            SourceBindingRuntimeOverride {
                active_stream_ids: vec!["stream-1".to_string()],
                stream_field_mappings: vec![("stream-1".to_string(), mappings)],
            },
        )],
    });

    let event = UnifiedEvent {
        event_id: "evt-1".to_string(),
        tenant_id: "tenant-a".to_string(),
        source_id: "pyth-eth-mainnet".to_string(),
        source_type: SourceType::OracleApi,
        event_type: "oracle_update".to_string(),
        timestamp: Utc::now(),
        payload: json(r#"{
            "stream_config_id": "stream-1",
            "parser_name": "pyth_hermes_v2",
            "custom_market": "USDC/USD",
            "custom_price": "0.9987",
            "custom_ts": "2026-03-25T22:57:27Z"
        }"#),
        chain_id: None,
        block_number: None,
        tx_hash: None,
        market_key: Some("WRONG/USD".to_string()),
        price: Some(d(1.111)),
    };

    let chosen = mapping_for_event(&pattern.source_mapping_overrides, &event).expect("mappings");
    assert!(matches!(chosen, Json::List(v) if v.len() == 3));
    let mapped = Some(MappedFields {
        market_key: text(field(&event.payload, "custom_market")),
        price: text(field(&event.payload, "custom_price")).map(|s| d(s.parse().unwrap())),
        timestamp: text(field(&event.payload, "custom_ts")).map(|s| moment(&s)),
    });
    let fields = effective_event_fields(&event, &mapped);
    assert_eq!(fields.market_key.as_deref(), Some("USDC/USD"));
    assert_eq!(fields.price, Some(d(0.9987)));
    assert_eq!(fields.timestamp, moment("2026-03-25T22:57:27Z"));
}

#[test]
fn depeg_v2_parse_policies_accepts_legacy_single_policy_object() {
    let config = json(r#"{
        "market_key": "USDC/USD",
        "peg_target": 1.0,
        "min_sources": 2,
        "cooldown_sec": 300,
        "severity_bands": { "medium": 1.0, "high": 3.0, "critical": 5.0 }
    }"#);

    let policies = parse_policies("tenant-a", read_policies(&config));

    assert_eq!(policies.len(), 1);
    assert_eq!(policies[0].tenant_id, "tenant-a");
    assert_eq!(policies[0].market_key, "USDC/USD");
    assert_eq!(policies[0].quorum_pct, d(0.0));
    assert_eq!(policies[0].stale_timeout_ms, 30_000);
}

#[test]
fn depeg_v2_evaluate_policy_uses_tenant_specific_thresholds_independently() {
    let now = Utc::now();
    let quotes = vec![quote("cex-a", "cex", 0.99, now)];

    let mut tenant_a_policy = base_policy();
    tenant_a_policy.tenant_id = "tenant-a".to_string();
    tenant_a_policy.severity_bands.medium = d(0.5);
    tenant_a_policy.toggles.oracle_confirmation = false;
    tenant_a_policy.severity_bands_isolated = Some(DepegSeverityBands {
        medium: d(0.5),
        high: d(1.0),
        critical: d(5.0),
    });
    tenant_a_policy.min_confidence_to_fire = d(0.0);

    let mut tenant_b_policy = base_policy();
    tenant_b_policy.tenant_id = "tenant-b".to_string();
    tenant_b_policy.severity_bands.medium = d(2.0);
    tenant_b_policy.toggles.oracle_confirmation = false;
    tenant_b_policy.severity_bands_isolated = Some(DepegSeverityBands {
        medium: d(2.0),
        high: d(4.0),
        critical: d(8.0),
    });
    tenant_b_policy.min_confidence_to_fire = d(0.0);

    let tenant_a = evaluate_policy(
        &tenant_a_policy,
        &quotes,
        &DepegAlertState::default(),
        now,
        ContextClassification::Isolated,
    )
    .expect("tenant-a evaluation");
    let tenant_b = evaluate_policy(
        &tenant_b_policy,
        &quotes,
        &DepegAlertState::default(),
        now,
        ContextClassification::Isolated,
    )
    .expect("tenant-b evaluation");

    assert!(tenant_a.snapshot.severity.is_some());
    assert!(tenant_a.snapshot.breach_active);
    assert!(tenant_b.snapshot.severity.is_none());
    assert!(!tenant_b.snapshot.breach_active);
}

#[test]
fn depeg_v2_effective_policy_is_scoped_by_tenant_and_market() {
    let mut pattern = DepegPatternV2::default();
    let usdt_default = DepegPolicy {
        market_key: "USDT/USD".to_string(),
        ..base_policy()
    };
    pattern.install_policy(usdt_default);

    let usdc_policy = DepegPolicy {
        market_key: "USDC/USD".to_string(),
        ..base_policy()
    };
    pattern.install_policy(usdc_policy);

    assert!(pattern.effective_policy("tenant-a", "USDC/USD").is_some());
    assert!(pattern.effective_policy("tenant-a", "USDT/USD").is_some());
    assert!(pattern
        .effective_policy("other-tenant", "USDC/USD")
        .is_none());
}

#[test]
fn depeg_v2_deescalation_requires_configured_block_count() {
    let now = Utc::now();
    let mut policy = base_policy();
    policy.toggles.oracle_confirmation = false;
    let quotes = vec![quote("cex-a", "cex", 0.994, now)];
    let mut state = DepegAlertState {
        cooldown_until: None,
        last_alerted_at: Some(now),
        last_divergence_pct: Some(d(1.2)),
        last_severity: Some("high".to_string()),
        last_classification: Some("isolated".to_string()),
        trigger_floor_pct: Some(d(0.5)),
        below_severity_blocks: 0,
        below_trigger_blocks: 0,
        high_water_mark: None,
    };

    for i in 1..=policy.deescalation_blocks {
        let ts = now + Duration::seconds(i);
        let outcome = evaluate_policy(
            &policy,
            &quotes,
            &state,
            ts,
            ContextClassification::Isolated,
        )
        .expect("evaluation");
        if i < policy.deescalation_blocks {
            assert!(outcome.transition.is_none());
        } else {
            assert_lifecycle_transition(&outcome, IncidentTransition::Deescalate);
        }
        state = outcome.next_state;
    }
}

#[test]
fn depeg_v2_resolution_requires_configured_block_count() {
    let now = Utc::now();
    let policy = base_policy();
    let quotes = vec![quote("cex-a", "cex", 0.9998, now)];
    let mut state = DepegAlertState {
        cooldown_until: None,
        last_alerted_at: Some(now),
        last_divergence_pct: Some(d(0.8)),
        last_severity: Some("medium".to_string()),
        last_classification: Some("isolated".to_string()),
        trigger_floor_pct: Some(d(0.5)),
        below_severity_blocks: 0,
        below_trigger_blocks: 0,
        high_water_mark: None,
    };

    for i in 1..=policy.resolution_blocks {
        let ts = now + Duration::seconds(i);
        let outcome = evaluate_policy(
            &policy,
            &quotes,
            &state,
            ts,
            ContextClassification::Isolated,
        )
        .expect("evaluation");
        if i < policy.resolution_blocks {
            assert!(outcome.transition.is_none());
        } else {
            assert_lifecycle_transition(&outcome, IncidentTransition::Resolve);
        }
        state = outcome.next_state;
    }
}

#[test]
fn depeg_v2_escalation_respects_cooldown_before_emitting() {
    let now = Utc::now();
    let mut policy = base_policy();
    policy.cooldown_sec = 300;
    policy.min_confidence_to_fire = d(0.0);
    policy.stale_timeout_ms = 300_000;
    policy.toggles.oracle_confirmation = false;
    let quotes = vec![quote("cex-a", "cex", 0.989, now)];
    let state = DepegAlertState {
        cooldown_until: Some(now + Duration::seconds(120)),
        last_alerted_at: Some(now - Duration::seconds(10)),
        last_divergence_pct: Some(d(0.6)),
        last_severity: Some("medium".to_string()),
        last_classification: Some("isolated".to_string()),
        trigger_floor_pct: Some(d(0.5)),
        below_severity_blocks: 0,
        below_trigger_blocks: 0,
        high_water_mark: None,
    };

    let suppressed = evaluate_policy(
        &policy,
        &quotes,
        &state,
        now,
        ContextClassification::Isolated,
    )
    .expect("evaluation");
    assert!(!suppressed.should_emit_alert);
    assert!(suppressed.transition.is_none());
    assert_eq!(
        suppressed.next_state.last_severity.as_deref(),
        Some("medium")
    );

    let emitted = evaluate_policy(
        &policy,
        &quotes,
        &suppressed.next_state,
        now + Duration::seconds(121),
        ContextClassification::Isolated,
    )
    .expect("evaluation");
    assert!(emitted.should_emit_alert);
    assert!(matches!(
        emitted.transition,
        Some(IncidentTransition::Escalate)
    ));
    assert_eq!(emitted.next_state.last_severity.as_deref(), Some("high"));
}

#[test]
fn depeg_v2_deescalation_waits_for_cooldown_expiry() {
    let now = Utc::now();
    let mut policy = base_policy();
    policy.cooldown_sec = 300;
    policy.deescalation_blocks = 2;
    policy.min_confidence_to_fire = d(0.0);
    policy.stale_timeout_ms = 300_000;
    policy.toggles.oracle_confirmation = false;
    let quotes = vec![quote("cex-a", "cex", 0.994, now)];
    let state = DepegAlertState {
        cooldown_until: Some(now + Duration::seconds(60)),
        last_alerted_at: Some(now - Duration::seconds(10)),
        last_divergence_pct: Some(d(1.2)),
        last_severity: Some("high".to_string()),
        last_classification: Some("isolated".to_string()),
        trigger_floor_pct: Some(d(0.5)),
        below_severity_blocks: 1,
        below_trigger_blocks: 0,
        high_water_mark: None,
    };

    let suppressed = evaluate_policy(
        &policy,
        &quotes,
        &state,
        now,
        ContextClassification::Isolated,
    )
    .expect("evaluation");
    assert!(!suppressed.should_emit_alert);
    assert!(suppressed.transition.is_none());
    assert_eq!(suppressed.next_state.last_severity.as_deref(), Some("high"));
    assert_eq!(suppressed.next_state.below_severity_blocks, 2);

    let emitted = evaluate_policy(
        &policy,
        &quotes,
        &suppressed.next_state,
        now + Duration::seconds(61),
        ContextClassification::Isolated,
    )
    .expect("evaluation");
    assert_lifecycle_transition(&emitted, IncidentTransition::Deescalate);
    assert_eq!(emitted.next_state.last_severity.as_deref(), Some("medium"));
    assert_eq!(emitted.next_state.below_severity_blocks, 0);
}

fn price_from_deviation(peg_target: f64, deviation_pct: f64) -> f64 {
    peg_target * (1.0 - deviation_pct / 100.0)
}

fn make_quotes(
    median_price: f64,
    chainlink_price: Option<f64>,
    pyth_price: Option<f64>,
    cex_count: usize,
    now: Timestamp,
) -> Vec<QuoteInput> {
    let mut quotes = Vec::new();
    for i in 0..cex_count {
        quotes.push(quote(&format!("cex-{}", i), "cex", median_price, now));
    }
    if let Some(cl) = chainlink_price {
        quotes.push(quote("chainlink", "oracle", cl, now));
    }
    if let Some(py) = pyth_price {
        quotes.push(quote("pyth", "oracle", py, now));
    }
    quotes
}

fn oracle_policy() -> DepegPolicy {
    DepegPolicy {
        toggles: DepegToggles {
            oracle_confirmation: true,
            ..Default::default()
        },
        min_sources: 3,
        source_filter: DepegSourceFilter {
            min_healthy_sources: 3,
            ..Default::default()
        },

        min_confidence_to_fire: d(0.0),
        ..base_policy()
    }
}

fn eval_fresh(
    policy: &DepegPolicy,
    quotes: &[QuoteInput],
    now: Timestamp,
    classification: ContextClassification,
) -> EvaluationOutcome {
    evaluate_policy(
        policy,
        quotes,
        &DepegAlertState::default(),
        now,
        classification,
    )
    .expect("evaluate_policy should not fail")
}

fn assert_no_alert(outcome: &EvaluationOutcome) {
    assert!(
        !outcome.should_emit_alert,
        "Expected no alert, but got one (severity={:?}, transition={:?})",
        outcome.emitted_severity, outcome.transition
    );
}

fn assert_alert_with_severity(outcome: &EvaluationOutcome, expected: Severity) {
    assert!(
        outcome.should_emit_alert,
        "Expected alert with severity {:?}, but no alert emitted",
        expected
    );
    assert_eq!(
        outcome.emitted_severity,
        Some(expected.clone()),
        "Severity mismatch"
    );
}

fn assert_transition(outcome: &EvaluationOutcome, expected: IncidentTransition) {
    assert_eq!(outcome.transition, Some(expected), "Transition mismatch");
}

fn assert_lifecycle_transition(outcome: &EvaluationOutcome, expected: IncidentTransition) {
    assert!(
        !outcome.should_emit_alert,
        "Lifecycle transitions (resolve/deescalate) should not emit alerts"
    );
    assert_eq!(outcome.transition, Some(expected), "Transition mismatch");
}

fn assert_breach(outcome: &EvaluationOutcome, active: bool) {
    assert_eq!(
        outcome.snapshot.breach_active, active,
        "breach_active mismatch"
    );
}

#[test]
fn depeg_v2_tc_d_100_no_detection_normal_market() {
    let now = Utc::now();
    let p = price_from_deviation(1.0, 0.10);
    let quotes = make_quotes(p, Some(p), Some(p), 12, now);
    let outcome = eval_fresh(
        &oracle_policy(),
        &quotes,
        now,
        ContextClassification::Isolated,
    );
    assert_no_alert(&outcome);
    assert_breach(&outcome, false);
}

#[test]
fn depeg_v2_tc_d_101_no_detection_below_isolated_floor() {
    let now = Utc::now();
    let p = price_from_deviation(1.0, 0.40);
    let quotes = make_quotes(p, Some(p), Some(p), 12, now);
    let outcome = eval_fresh(
        &oracle_policy(),
        &quotes,
        now,
        ContextClassification::Isolated,
    );
    assert_no_alert(&outcome);
    assert_breach(&outcome, false);
}

#[test]
fn depeg_v2_tc_d_102_no_detection_insufficient_healthy_sources() {
    let now = Utc::now();
    let p = price_from_deviation(1.0, 1.50);

    let mut policy = oracle_policy();

    policy.toggles.oracle_confirmation = false;
    policy.source_filter.include_oracles = false;
    let quotes_no_oracle = vec![quote("cex-a", "cex", p, now), quote("cex-b", "cex", p, now)];
    let outcome = eval_fresh(
        &policy,
        &quotes_no_oracle,
        now,
        ContextClassification::Isolated,
    );
    assert_no_alert(&outcome);
    assert!(!outcome.snapshot.quorum_met);
}

#[test]
fn depeg_v2_tc_d_103_no_detection_median_breached_no_oracle() {
    let now = Utc::now();
    let cex_price = price_from_deviation(1.0, 1.50);
    let oracle_price = price_from_deviation(1.0, 0.20);
    let quotes = make_quotes(cex_price, Some(oracle_price), Some(oracle_price), 12, now);
    let outcome = eval_fresh(
        &oracle_policy(),
        &quotes,
        now,
        ContextClassification::Isolated,
    );
    assert_no_alert(&outcome);
    assert!(!outcome.snapshot.oracle_confirmed);
}

#[test]
fn depeg_v2_tc_d_104_no_detection_oracle_breached_median_below() {
    let now = Utc::now();
    let cex_price = price_from_deviation(1.0, 0.20);
    let oracle_price = price_from_deviation(1.0, 1.50);
    let quotes = make_quotes(cex_price, Some(oracle_price), Some(oracle_price), 12, now);
    let outcome = eval_fresh(
        &oracle_policy(),
        &quotes,
        now,
        ContextClassification::Isolated,
    );
    assert_no_alert(&outcome);
    assert_breach(&outcome, false);
}

#[test]
fn depeg_v2_tc_d_105_detection_chainlink_only_confirms() {
    let now = Utc::now();
    let breach_price = price_from_deviation(1.0, 1.50);
    let safe_price = price_from_deviation(1.0, 0.20);
    let quotes = make_quotes(breach_price, Some(breach_price), Some(safe_price), 12, now);
    let outcome = eval_fresh(
        &oracle_policy(),
        &quotes,
        now,
        ContextClassification::Isolated,
    );
    assert_breach(&outcome, true);
    assert_eq!(outcome.snapshot.severity, Some(Severity::High));
}

#[test]
fn depeg_v2_tc_d_106_detection_pyth_only_confirms() {
    let now = Utc::now();
    let breach_price = price_from_deviation(1.0, 1.50);
    let safe_price = price_from_deviation(1.0, 0.30);
    let quotes = make_quotes(breach_price, Some(safe_price), Some(breach_price), 12, now);
    let outcome = eval_fresh(
        &oracle_policy(),
        &quotes,
        now,
        ContextClassification::Isolated,
    );
    assert_breach(&outcome, true);
    assert_eq!(outcome.snapshot.severity, Some(Severity::High));
}

#[test]
fn depeg_v2_tc_d_107_detection_at_min_healthy_boundary() {
    let now = Utc::now();
    let p = price_from_deviation(1.0, 1.00);

    let quotes = make_quotes(p, Some(p), Some(p), 3, now);
    let outcome = eval_fresh(
        &oracle_policy(),
        &quotes,
        now,
        ContextClassification::Isolated,
    );
    assert!(outcome.snapshot.quorum_met);
    assert_breach(&outcome, true);
    assert_eq!(outcome.snapshot.severity, Some(Severity::High));
}

#[test]
fn depeg_v2_tc_d_108_no_detection_chainlink_absent_pyth_below() {
    let now = Utc::now();
    let cex_price = price_from_deviation(1.0, 1.50);
    let pyth_price = price_from_deviation(1.0, 0.20);
    let quotes = make_quotes(cex_price, None, Some(pyth_price), 12, now);
    let outcome = eval_fresh(
        &oracle_policy(),
        &quotes,
        now,
        ContextClassification::Isolated,
    );
    assert!(!outcome.snapshot.oracle_confirmed);
    assert_breach(&outcome, false);
}

#[test]
fn depeg_v2_tc_d_109_detection_chainlink_absent_pyth_breaches() {
    let now = Utc::now();
    let breach_price = price_from_deviation(1.0, 1.50);
    let quotes = make_quotes(breach_price, None, Some(breach_price), 12, now);
    let outcome = eval_fresh(
        &oracle_policy(),
        &quotes,
        now,
        ContextClassification::Isolated,
    );
    assert!(outcome.snapshot.oracle_confirmed);
    assert_breach(&outcome, true);
    assert_eq!(outcome.snapshot.severity, Some(Severity::High));
}

#[test]
fn depeg_v2_tc_d_110_no_detection_both_oracles_absent() {
    let now = Utc::now();
    let p = price_from_deviation(1.0, 5.50);
    let quotes = make_quotes(p, None, None, 12, now);
    let outcome = eval_fresh(
        &oracle_policy(),
        &quotes,
        now,
        ContextClassification::Isolated,
    );
    assert!(!outcome.snapshot.oracle_confirmed);
    assert_breach(&outcome, false);
}

#[test]
fn depeg_v2_tc_d_200_isolated_medium_at_floor() {
    let now = Utc::now();
    let p = price_from_deviation(1.0, 0.50);
    let quotes = make_quotes(p, Some(p), Some(p), 12, now);
    let outcome = eval_fresh(
        &oracle_policy(),
        &quotes,
        now,
        ContextClassification::Isolated,
    );
    assert_eq!(outcome.snapshot.severity, Some(Severity::Medium));
}

#[test]
fn depeg_v2_tc_d_201_isolated_medium_below_high() {
    let now = Utc::now();
    let p = price_from_deviation(1.0, 0.99);
    let quotes = make_quotes(p, Some(p), Some(p), 12, now);
    let outcome = eval_fresh(
        &oracle_policy(),
        &quotes,
        now,
        ContextClassification::Isolated,
    );
    assert_eq!(outcome.snapshot.severity, Some(Severity::Medium));
}

#[test]
fn depeg_v2_tc_d_202_isolated_high_at_threshold() {
    let now = Utc::now();
    let p = price_from_deviation(1.0, 1.00);
    let quotes = make_quotes(p, Some(p), Some(p), 12, now);
    let outcome = eval_fresh(
        &oracle_policy(),
        &quotes,
        now,
        ContextClassification::Isolated,
    );
    assert_eq!(outcome.snapshot.severity, Some(Severity::High));
}

#[test]
fn depeg_v2_tc_d_203_isolated_high_moderate() {
    let now = Utc::now();
    let p = price_from_deviation(1.0, 2.50);
    let quotes = make_quotes(p, Some(p), Some(p), 12, now);
    let outcome = eval_fresh(
        &oracle_policy(),
        &quotes,
        now,
        ContextClassification::Isolated,
    );
    assert_eq!(outcome.snapshot.severity, Some(Severity::High));
}

#[test]
fn depeg_v2_tc_d_204_isolated_high_below_critical() {
    let now = Utc::now();
    let p = price_from_deviation(1.0, 4.99);
    let quotes = make_quotes(p, Some(p), Some(p), 12, now);
    let outcome = eval_fresh(
        &oracle_policy(),
        &quotes,
        now,
        ContextClassification::Isolated,
    );
    assert_eq!(outcome.snapshot.severity, Some(Severity::High));
}

#[test]
fn depeg_v2_tc_d_205_isolated_critical_at_threshold() {
    let now = Utc::now();
    let p = price_from_deviation(1.0, 5.00);
    let quotes = make_quotes(p, Some(p), Some(p), 12, now);
    let outcome = eval_fresh(
        &oracle_policy(),
        &quotes,
        now,
        ContextClassification::Isolated,
    );
    assert_eq!(outcome.snapshot.severity, Some(Severity::Critical));
}

#[test]
fn depeg_v2_tc_d_206_isolated_critical_catastrophic() {
    let now = Utc::now();
    let p = price_from_deviation(1.0, 5.50);
    let quotes = make_quotes(p, Some(p), Some(p), 12, now);
    let outcome = eval_fresh(
        &oracle_policy(),
        &quotes,
        now,
        ContextClassification::Isolated,
    );
    assert_eq!(outcome.snapshot.severity, Some(Severity::Critical));
}

#[test]
fn depeg_v2_tc_d_300_systemic_medium_at_floor() {
    let now = Utc::now();
    let p = price_from_deviation(1.0, 0.015);
    let quotes = make_quotes(p, Some(p), Some(p), 12, now);
    let outcome = eval_fresh(
        &oracle_policy(),
        &quotes,
        now,
        ContextClassification::Systemic,
    );
    assert_eq!(outcome.snapshot.severity, Some(Severity::Medium));
}

#[test]
fn depeg_v2_tc_d_301_systemic_medium_between_floor_and_critical() {
    let now = Utc::now();
    let p = price_from_deviation(1.0, 0.10);
    let quotes = make_quotes(p, Some(p), Some(p), 12, now);
    let outcome = eval_fresh(
        &oracle_policy(),
        &quotes,
        now,
        ContextClassification::Systemic,
    );
    assert_eq!(outcome.snapshot.severity, Some(Severity::Medium));
}

#[test]
fn depeg_v2_tc_d_302_systemic_medium_below_critical() {
    let now = Utc::now();
    let p = price_from_deviation(1.0, 0.24);
    let quotes = make_quotes(p, Some(p), Some(p), 12, now);
    let outcome = eval_fresh(
        &oracle_policy(),
        &quotes,
        now,
        ContextClassification::Systemic,
    );
    assert_eq!(outcome.snapshot.severity, Some(Severity::Medium));
}

#[test]
fn depeg_v2_tc_d_303_systemic_at_025_pct() {
    let now = Utc::now();
    let p = price_from_deviation(1.0, 0.26);
    let quotes = make_quotes(p, Some(p), Some(p), 12, now);
    let outcome = eval_fresh(
        &oracle_policy(),
        &quotes,
        now,
        ContextClassification::Systemic,
    );
    assert_eq!(outcome.snapshot.severity, Some(Severity::Critical));
}

#[test]
fn depeg_v2_tc_d_304_systemic_critical_large() {
    let now = Utc::now();
    let p = price_from_deviation(1.0, 2.50);
    let quotes = make_quotes(p, Some(p), Some(p), 12, now);
    let outcome = eval_fresh(
        &oracle_policy(),
        &quotes,
        now,
        ContextClassification::Systemic,
    );
    assert_eq!(outcome.snapshot.severity, Some(Severity::Critical));
}

#[test]
fn depeg_v2_tc_d_305_systemic_vs_isolated_same_deviation() {
    let now = Utc::now();
    let p = price_from_deviation(1.0, 0.10);
    let quotes = make_quotes(p, Some(p), Some(p), 12, now);
    let policy = oracle_policy();

    let isolated = eval_fresh(&policy, &quotes, now, ContextClassification::Isolated);
    assert_eq!(isolated.snapshot.severity, None);
    assert_breach(&isolated, false);

    let systemic = eval_fresh(&policy, &quotes, now, ContextClassification::Systemic);
    assert_eq!(systemic.snapshot.severity, Some(Severity::Medium));
    assert_breach(&systemic, true);
}

#[test]
fn depeg_v2_tc_d_306_no_detection_systemic_below_floor() {
    let now = Utc::now();
    let p = price_from_deviation(1.0, 0.005);
    let quotes = make_quotes(p, Some(p), Some(p), 12, now);
    let outcome = eval_fresh(
        &oracle_policy(),
        &quotes,
        now,
        ContextClassification::Systemic,
    );
    assert_eq!(outcome.snapshot.severity, None);
    assert_breach(&outcome, false);
}

#[test]
fn depeg_v2_tc_d_307_unknown_contagion_treated_as_isolated() {
    let now = Utc::now();
    let p = price_from_deviation(1.0, 0.10);
    let quotes = make_quotes(p, Some(p), Some(p), 12, now);

    let outcome = eval_fresh(&oracle_policy(), &quotes, now, ContextClassification::Unclassified);

    assert_eq!(outcome.snapshot.severity, None);
    assert_breach(&outcome, false);
}

#[test]
fn depeg_v2_tc_d_400_contagion_flip_escalates_severity() {
    let now = Utc::now();
    let p = price_from_deviation(1.0, 0.60);
    let quotes = make_quotes(p, Some(p), Some(p), 12, now);
    let policy = oracle_policy();

    let step1 = eval_fresh(&policy, &quotes, now, ContextClassification::Isolated);
    assert_eq!(step1.snapshot.severity, Some(Severity::Medium));
    assert_transition(&step1, IncidentTransition::Trigger);

    let step2 = evaluate_policy(
        &policy,
        &quotes,
        &step1.next_state,
        now + Duration::seconds(1),
        ContextClassification::Systemic,
    )
    .expect("evaluation");
    assert_eq!(step2.snapshot.severity, Some(Severity::Critical));

    assert_transition(&step2, IncidentTransition::Escalate);
}

#[test]
fn depeg_v2_tc_d_401_contagion_flip_creates_new_alert() {
    let now = Utc::now();
    let p = price_from_deviation(1.0, 0.02);
    let quotes = make_quotes(p, Some(p), Some(p), 12, now);
    let policy = oracle_policy();

    let isolated = eval_fresh(&policy, &quotes, now, ContextClassification::Isolated);
    assert_breach(&isolated, false);

    let systemic = eval_fresh(&policy, &quotes, now, ContextClassification::Systemic);
    assert_eq!(systemic.snapshot.severity, Some(Severity::Medium));
    assert_breach(&systemic, true);
}

#[test]
fn depeg_v2_tc_d_402_contagion_reverts_no_immediate_deescalation() {
    let now = Utc::now();
    let p = price_from_deviation(1.0, 1.50);
    let quotes = make_quotes(p, Some(p), Some(p), 12, now);
    let policy = oracle_policy();

    let step1 = eval_fresh(&policy, &quotes, now, ContextClassification::Systemic);
    assert_eq!(step1.snapshot.severity, Some(Severity::Critical));
    assert_transition(&step1, IncidentTransition::Trigger);

    let step2 = evaluate_policy(
        &policy,
        &quotes,
        &step1.next_state,
        now + Duration::seconds(1),
        ContextClassification::Isolated,
    )
    .expect("evaluation");

    assert!(
        !step2.should_emit_alert
            || !matches!(step2.transition, Some(IncidentTransition::Deescalate))
    );
}

#[test]
fn depeg_v2_tc_d_500_resolution_all_below_threshold() {
    let now = Utc::now();
    let recovery_price = price_from_deviation(1.0, 0.10);
    let quotes = make_quotes(
        recovery_price,
        Some(recovery_price),
        Some(recovery_price),
        12,
        now,
    );
    let policy = oracle_policy();

    let state = DepegAlertState {
        cooldown_until: None,
        last_alerted_at: Some(now - Duration::seconds(120)),
        last_divergence_pct: Some(d(1.5)),
        last_severity: Some("high".to_string()),
        last_classification: Some("isolated".to_string()),
        trigger_floor_pct: Some(d(0.5)),
        below_severity_blocks: 0,
        below_trigger_blocks: 0,
        high_water_mark: None,
    };

    let outcome = evaluate_policy(
        &policy,
        &quotes,
        &state,
        now,
        ContextClassification::Isolated,
    )
    .expect("evaluation");

    assert!(outcome.next_state.below_trigger_blocks > 0);
}

#[test]
fn depeg_v2_tc_d_501_no_resolution_still_depegged() {
    let now = Utc::now();
    let depeg_price = price_from_deviation(1.0, 1.50);
    let quotes = make_quotes(depeg_price, Some(depeg_price), Some(depeg_price), 12, now);
    let policy = oracle_policy();

    let state = DepegAlertState {
        cooldown_until: None,
        last_alerted_at: Some(now - Duration::seconds(30)),
        last_divergence_pct: Some(d(1.5)),
        last_severity: Some("high".to_string()),
        last_classification: Some("isolated".to_string()),
        trigger_floor_pct: Some(d(0.5)),
        below_severity_blocks: 0,
        below_trigger_blocks: 0,
        high_water_mark: None,
    };

    let outcome = evaluate_policy(
        &policy,
        &quotes,
        &state,
        now,
        ContextClassification::Isolated,
    )
    .expect("evaluation");

    assert_eq!(outcome.next_state.below_trigger_blocks, 0);
    assert!(outcome.transition != Some(IncidentTransition::Resolve));
}

#[test]
fn depeg_v2_tc_d_502_resolution_uses_original_systemic_threshold() {
    let now = Utc::now();

    let recovery_price = price_from_deviation(1.0, 0.005);
    let quotes = make_quotes(
        recovery_price,
        Some(recovery_price),
        Some(recovery_price),
        12,
        now,
    );
    let mut policy = oracle_policy();
    policy.resolution_blocks = 1;

    let state = DepegAlertState {
        cooldown_until: None,
        last_alerted_at: Some(now - Duration::seconds(60)),
        last_divergence_pct: Some(d(0.05)),
        last_severity: Some("medium".to_string()),
        last_classification: Some("systemic".to_string()),
        trigger_floor_pct: Some(d(0.01)),
        below_severity_blocks: 0,
        below_trigger_blocks: 0,
        high_water_mark: None,
    };

    let outcome = evaluate_policy(
        &policy,
        &quotes,
        &state,
        now,
        ContextClassification::Isolated,
    )
    .expect("evaluation");

    assert_transition(&outcome, IncidentTransition::Resolve);
}

#[test]
fn depeg_v2_tc_d_503_no_resolution_above_systemic_floor() {
    let now = Utc::now();
    let p = price_from_deviation(1.0, 0.02);
    let quotes = make_quotes(p, Some(p), Some(p), 12, now);
    let mut policy = oracle_policy();
    policy.resolution_blocks = 1;

    let state = DepegAlertState {
        cooldown_until: None,
        last_alerted_at: Some(now - Duration::seconds(60)),
        last_divergence_pct: Some(d(0.05)),
        last_severity: Some("medium".to_string()),
        last_classification: Some("systemic".to_string()),
        trigger_floor_pct: Some(d(0.01)),
        below_severity_blocks: 0,
        below_trigger_blocks: 0,
        high_water_mark: None,
    };

    let outcome = evaluate_policy(
        &policy,
        &quotes,
        &state,
        now,
        ContextClassification::Isolated,
    )
    .expect("evaluation");

    assert_eq!(outcome.next_state.below_trigger_blocks, 0);
    assert!(outcome.transition != Some(IncidentTransition::Resolve));
}

#[test]
fn depeg_v2_tc_d_504_resolution_blocked_by_single_oracle() {
    let now = Utc::now();
    let median_recovery_price = price_from_deviation(1.0, 0.10);
    let blocking_oracle_price = price_from_deviation(1.0, 0.80);
    let quotes = vec![
        quote("cex-a", "cex", median_recovery_price, now),
        quote("cex-b", "cex", median_recovery_price, now),
        quote("chainlink", "oracle", median_recovery_price, now),
        quote("pyth", "oracle", blocking_oracle_price, now),
    ];
    let mut policy = oracle_policy();
    policy.resolution_blocks = 1;

    let state = DepegAlertState {
        cooldown_until: None,
        last_alerted_at: Some(now - Duration::seconds(60)),
        last_divergence_pct: Some(d(1.5)),
        last_severity: Some("high".to_string()),
        last_classification: Some("isolated".to_string()),
        trigger_floor_pct: Some(d(0.5)),
        below_severity_blocks: 0,
        below_trigger_blocks: 0,
        high_water_mark: None,
    };

    let outcome = evaluate_policy(
        &policy,
        &quotes,
        &state,
        now,
        ContextClassification::Isolated,
    )
    .expect("evaluation");

    assert_eq!(outcome.next_state.below_trigger_blocks, 0);
    assert!(outcome.transition != Some(IncidentTransition::Resolve));
}

#[test]
fn depeg_v2_tc_d_505_resolution_passes_with_absent_oracle() {
    let now = Utc::now();
    let recovery_price = price_from_deviation(1.0, 0.10);

    let quotes = make_quotes(recovery_price, None, None, 12, now);
    let mut policy = oracle_policy();
    policy.toggles.oracle_confirmation = false;
    policy.resolution_blocks = 1;

    let state = DepegAlertState {
        cooldown_until: None,
        last_alerted_at: Some(now - Duration::seconds(60)),
        last_divergence_pct: Some(d(1.5)),
        last_severity: Some("high".to_string()),
        last_classification: Some("isolated".to_string()),
        trigger_floor_pct: Some(d(0.5)),
        below_severity_blocks: 0,
        below_trigger_blocks: 0,
        high_water_mark: None,
    };

    let outcome = evaluate_policy(
        &policy,
        &quotes,
        &state,
        now,
        ContextClassification::Isolated,
    )
    .expect("evaluation");

    assert_transition(&outcome, IncidentTransition::Resolve);
}

#[test]
fn depeg_v2_tc_d_600_full_resolution_countdown() {
    let now = Utc::now();
    let recovery_price = price_from_deviation(1.0, 0.10);
    let mut policy = oracle_policy();
    policy.toggles.oracle_confirmation = false;
    policy.resolution_blocks = 30;

    let mut state = DepegAlertState {
        cooldown_until: None,
        last_alerted_at: Some(now - Duration::seconds(120)),
        last_divergence_pct: Some(d(1.5)),
        last_severity: Some("high".to_string()),
        last_classification: Some("isolated".to_string()),
        trigger_floor_pct: Some(d(0.5)),
        below_severity_blocks: 0,
        below_trigger_blocks: 0,
        high_water_mark: None,
    };

    for i in 1..=30 {
        let ts = now + Duration::seconds(i);
        let quotes = make_quotes(recovery_price, None, None, 12, ts);
        let outcome = evaluate_policy(
            &policy,
            &quotes,
            &state,
            ts,
            ContextClassification::Isolated,
        )
        .expect("evaluation");
        if i < 30 {
            assert!(
                outcome.transition.is_none(),
                "Should not transition at block {}",
                i
            );
            assert_eq!(outcome.next_state.below_trigger_blocks, i);
        } else {
            assert_lifecycle_transition(&outcome, IncidentTransition::Resolve);
        }
        state = outcome.next_state;
    }
}

#[test]
fn depeg_v2_tc_d_601_resolution_interrupted_resets() {
    let now = Utc::now();
    let breach_price = price_from_deviation(1.0, 1.50);
    let mut policy = oracle_policy();
    policy.toggles.oracle_confirmation = false;
    policy.resolution_blocks = 30;

    let state = DepegAlertState {
        cooldown_until: None,
        last_alerted_at: Some(now - Duration::seconds(120)),
        last_divergence_pct: Some(d(1.5)),
        last_severity: Some("high".to_string()),
        last_classification: Some("isolated".to_string()),
        trigger_floor_pct: Some(d(0.5)),
        below_severity_blocks: 0,
        below_trigger_blocks: 15,
        high_water_mark: None,
    };

    let quotes = make_quotes(breach_price, None, None, 12, now);
    let outcome = evaluate_policy(
        &policy,
        &quotes,
        &state,
        now,
        ContextClassification::Isolated,
    )
    .expect("evaluation");
    assert_eq!(outcome.next_state.below_trigger_blocks, 0);
}

#[test]
fn depeg_v2_tc_d_602_resolution_resumes_from_zero() {
    let now = Utc::now();
    let recovery_price = price_from_deviation(1.0, 0.10);
    let breach_price = price_from_deviation(1.0, 1.50);
    let mut policy = oracle_policy();
    policy.toggles.oracle_confirmation = false;
    policy.resolution_blocks = 30;

    let base_state = DepegAlertState {
        cooldown_until: None,
        last_alerted_at: Some(now - Duration::seconds(120)),
        last_divergence_pct: Some(d(1.5)),
        last_severity: Some("high".to_string()),
        last_classification: Some("isolated".to_string()),
        trigger_floor_pct: Some(d(0.5)),
        below_severity_blocks: 0,
        below_trigger_blocks: 0,
        high_water_mark: None,
    };

    let mut state = base_state;
    for i in 1..=15 {
        let ts = now + Duration::seconds(i);
        let quotes = make_quotes(recovery_price, None, None, 12, ts);
        let outcome = evaluate_policy(
            &policy,
            &quotes,
            &state,
            ts,
            ContextClassification::Isolated,
        )
        .expect("evaluation");
        state = outcome.next_state;
    }
    assert_eq!(state.below_trigger_blocks, 15);

    let ts = now + Duration::seconds(16);
    let quotes = make_quotes(breach_price, None, None, 12, ts);
    let outcome = evaluate_policy(
        &policy,
        &quotes,
        &state,
        ts,
        ContextClassification::Isolated,
    )
    .expect("evaluation");
    state = outcome.next_state;
    assert_eq!(state.below_trigger_blocks, 0);

    let ts = now + Duration::seconds(17);
    let quotes = make_quotes(recovery_price, None, None, 12, ts);
    let outcome = evaluate_policy(
        &policy,
        &quotes,
        &state,
        ts,
        ContextClassification::Isolated,
    )
    .expect("evaluation");
    assert_eq!(outcome.next_state.below_trigger_blocks, 1);
}

#[test]
fn depeg_v2_tc_d_603_resolution_payload_structure() {
    let now = Utc::now();
    let recovery_price = price_from_deviation(1.0, 0.10);
    let mut policy = oracle_policy();
    policy.toggles.oracle_confirmation = false;
    policy.resolution_blocks = 1;

    let state = DepegAlertState {
        cooldown_until: None,
        last_alerted_at: Some(now - Duration::seconds(60)),
        last_divergence_pct: Some(d(1.5)),
        last_severity: Some("high".to_string()),
        last_classification: Some("isolated".to_string()),
        trigger_floor_pct: Some(d(0.5)),
        below_severity_blocks: 0,
        below_trigger_blocks: 0,
        high_water_mark: None,
    };

    let quotes = make_quotes(recovery_price, None, None, 12, now);
    let outcome = evaluate_policy(
        &policy,
        &quotes,
        &state,
        now,
        ContextClassification::Isolated,
    )
    .expect("evaluation");

    assert_transition(&outcome, IncidentTransition::Resolve);

    assert_eq!(outcome.emitted_severity, Some(Severity::High));

    assert!(outcome.next_state.last_severity.is_none());
    assert!(outcome.next_state.last_classification.is_none());
    assert!(outcome.next_state.trigger_floor_pct.is_none());
    assert_eq!(outcome.next_state.below_trigger_blocks, 0);

    assert!(outcome.next_state.cooldown_until.is_some());
}

#[test]
fn depeg_v2_tc_d_700_duplicate_detection_suppressed() {
    let now = Utc::now();
    let p = price_from_deviation(1.0, 0.60);
    let quotes = make_quotes(p, Some(p), Some(p), 12, now);
    let policy = oracle_policy();

    let step1 = eval_fresh(&policy, &quotes, now, ContextClassification::Isolated);
    assert_transition(&step1, IncidentTransition::Trigger);

    let step2 = evaluate_policy(
        &policy,
        &quotes,
        &step1.next_state,
        now + Duration::seconds(1),
        ContextClassification::Isolated,
    )
    .expect("evaluation");
    assert_no_alert(&step2);
}

#[test]
fn depeg_v2_tc_d_701_escalation_higher_severity() {
    let now = Utc::now();
    let medium_price = price_from_deviation(1.0, 0.60);
    let critical_price = price_from_deviation(1.0, 5.50);
    let mut policy = oracle_policy();
    policy.cooldown_sec = 0;

    let quotes1 = make_quotes(
        medium_price,
        Some(medium_price),
        Some(medium_price),
        12,
        now,
    );
    let step1 = eval_fresh(&policy, &quotes1, now, ContextClassification::Isolated);
    assert_alert_with_severity(&step1, Severity::Medium);
    assert_transition(&step1, IncidentTransition::Trigger);

    let quotes2 = make_quotes(
        critical_price,
        Some(critical_price),
        Some(critical_price),
        12,
        now,
    );
    let step2 = evaluate_policy(
        &policy,
        &quotes2,
        &step1.next_state,
        now + Duration::seconds(1),
        ContextClassification::Isolated,
    )
    .expect("evaluation");
    assert_alert_with_severity(&step2, Severity::Critical);
    assert_transition(&step2, IncidentTransition::Escalate);
}

#[test]
fn depeg_v2_tc_d_702_escalation_equal_severity_noop() {
    let now = Utc::now();
    let p = price_from_deviation(1.0, 5.50);
    let lower_p = price_from_deviation(1.0, 0.60);
    let mut policy = oracle_policy();
    policy.cooldown_sec = 0;

    let quotes = make_quotes(p, Some(p), Some(p), 12, now);
    let step1 = eval_fresh(&policy, &quotes, now, ContextClassification::Isolated);
    assert_alert_with_severity(&step1, Severity::Critical);

    let step2 = evaluate_policy(
        &policy,
        &quotes,
        &step1.next_state,
        now + Duration::seconds(1),
        ContextClassification::Isolated,
    )
    .expect("evaluation");
    assert_no_alert(&step2);

    let quotes_low = make_quotes(lower_p, Some(lower_p), Some(lower_p), 12, now);
    let step3 = evaluate_policy(
        &policy,
        &quotes_low,
        &step2.next_state,
        now + Duration::seconds(2),
        ContextClassification::Isolated,
    )
    .expect("evaluation");

    assert!(
        !step3.should_emit_alert
            || !matches!(step3.transition, Some(IncidentTransition::Escalate))
    );
}

#[test]
fn depeg_v2_tc_d_703_cooldown_prevents_retrigger() {
    let now = Utc::now();
    let breach_price = price_from_deviation(1.0, 1.50);
    let mut policy = oracle_policy();
    policy.cooldown_sec = 300;

    let state = DepegAlertState {
        cooldown_until: Some(now + Duration::seconds(250)),
        last_alerted_at: Some(now - Duration::seconds(5)),
        last_divergence_pct: None,
        last_severity: None,
        last_classification: None,
        trigger_floor_pct: None,
        below_severity_blocks: 0,
        below_trigger_blocks: 0,
        high_water_mark: None,
    };

    let quotes = make_quotes(
        breach_price,
        Some(breach_price),
        Some(breach_price),
        12,
        now,
    );
    let outcome = evaluate_policy(
        &policy,
        &quotes,
        &state,
        now,
        ContextClassification::Isolated,
    )
    .expect("evaluation");

    assert_no_alert(&outcome);
}

#[test]
fn depeg_v2_tc_d_704_cooldown_expired_new_incident() {
    let now = Utc::now();
    let breach_price = price_from_deviation(1.0, 1.50);
    let mut policy = oracle_policy();
    policy.cooldown_sec = 300;

    let state = DepegAlertState {
        cooldown_until: Some(now - Duration::seconds(10)),
        last_alerted_at: Some(now - Duration::seconds(310)),
        last_divergence_pct: None,
        last_severity: None,
        last_classification: None,
        trigger_floor_pct: None,
        below_severity_blocks: 0,
        below_trigger_blocks: 0,
        high_water_mark: None,
    };

    let quotes = make_quotes(
        breach_price,
        Some(breach_price),
        Some(breach_price),
        12,
        now,
    );
    let outcome = evaluate_policy(
        &policy,
        &quotes,
        &state,
        now,
        ContextClassification::Isolated,
    )
    .expect("evaluation");
    assert_alert_with_severity(&outcome, Severity::High);
    assert_transition(&outcome, IncidentTransition::Trigger);
}

#[test]
fn depeg_v2_tc_d_705_resolved_cannot_transition_during_cooldown() {
    let now = Utc::now();
    let breach_price = price_from_deviation(1.0, 1.50);
    let mut policy = oracle_policy();
    policy.cooldown_sec = 300;

    let state = DepegAlertState {
        cooldown_until: Some(now + Duration::seconds(250)),
        last_alerted_at: Some(now - Duration::seconds(5)),
        last_divergence_pct: None,
        last_severity: None,
        last_classification: None,
        trigger_floor_pct: None,
        below_severity_blocks: 0,
        below_trigger_blocks: 0,
        high_water_mark: None,
    };

    let quotes = make_quotes(
        breach_price,
        Some(breach_price),
        Some(breach_price),
        12,
        now,
    );
    let outcome = evaluate_policy(
        &policy,
        &quotes,
        &state,
        now,
        ContextClassification::Isolated,
    )
    .expect("evaluation");

    assert_no_alert(&outcome);
    assert_eq!(outcome.transition, None);
}

#[test]
fn depeg_v2_tc_d_706_false_positive_state_blocks_retrigger() {
    let now = Utc::now();
    let critical_price = price_from_deviation(1.0, 5.50);
    let mut policy = oracle_policy();
    policy.cooldown_sec = 600;

    let state = DepegAlertState {
        cooldown_until: Some(now + Duration::seconds(500)),
        last_alerted_at: Some(now - Duration::seconds(10)),
        last_divergence_pct: None,
        last_severity: None,
        last_classification: None,
        trigger_floor_pct: None,
        below_severity_blocks: 0,
        below_trigger_blocks: 0,
        high_water_mark: None,
    };

    let quotes = make_quotes(
        critical_price,
        Some(critical_price),
        Some(critical_price),
        12,
        now,
    );
    let outcome = evaluate_policy(
        &policy,
        &quotes,
        &state,
        now,
        ContextClassification::Isolated,
    )
    .expect("evaluation");
    assert_no_alert(&outcome);
}

#[test]
fn depeg_v2_tc_d_707_deescalation_requires_block_count() {
    let now = Utc::now();
    let medium_price = price_from_deviation(1.0, 0.60);
    let mut policy = oracle_policy();
    policy.cooldown_sec = 0;
    policy.deescalation_blocks = 5;

    let state = DepegAlertState {
        cooldown_until: None,
        last_alerted_at: Some(now - Duration::seconds(60)),
        last_divergence_pct: Some(d(5.50)),
        last_severity: Some("critical".to_string()),
        last_classification: Some("isolated".to_string()),
        trigger_floor_pct: Some(d(0.5)),
        below_severity_blocks: 0,
        below_trigger_blocks: 0,
        high_water_mark: None,
    };

    let quotes = make_quotes(
        medium_price,
        Some(medium_price),
        Some(medium_price),
        12,
        now,
    );
    let step1 = evaluate_policy(
        &policy,
        &quotes,
        &state,
        now,
        ContextClassification::Isolated,
    )
    .expect("evaluation");

    assert_no_alert(&step1);
    assert_eq!(step1.next_state.below_severity_blocks, 1);

    let mut s = step1.next_state;
    for i in 1..4 {
        let ts = now + Duration::seconds(i);
        let q = make_quotes(medium_price, Some(medium_price), Some(medium_price), 12, ts);
        let out = evaluate_policy(&policy, &q, &s, ts, ContextClassification::Isolated)
            .expect("evaluation");
        assert_no_alert(&out);
        s = out.next_state;
    }
    assert_eq!(s.below_severity_blocks, 4);

    let ts = now + Duration::seconds(4);
    let q = make_quotes(medium_price, Some(medium_price), Some(medium_price), 12, ts);
    let final_out = evaluate_policy(&policy, &q, &s, ts, ContextClassification::Isolated)
        .expect("evaluation");
    assert_lifecycle_transition(&final_out, IncidentTransition::Deescalate);
    assert_eq!(final_out.emitted_severity, Some(Severity::Medium));
}

#[test]
fn depeg_v2_tc_d_708_stale_state_triggers_resolution_countdown() {
    let now = Utc::now();
    let recovery_price = price_from_deviation(1.0, 0.10);
    let mut policy = oracle_policy();
    policy.toggles.oracle_confirmation = false;
    policy.resolution_blocks = 3;

    let state = DepegAlertState {
        cooldown_until: None,
        last_alerted_at: Some(now - Duration::seconds(300)),
        last_divergence_pct: Some(d(1.50)),
        last_severity: Some("high".to_string()),
        last_classification: Some("isolated".to_string()),
        trigger_floor_pct: Some(d(0.5)),
        below_severity_blocks: 0,
        below_trigger_blocks: 0,
        high_water_mark: None,
    };

    let mut s = state;
    for i in 0..3 {
        let ts = now + Duration::seconds(i);
        let q = make_quotes(recovery_price, None, None, 12, ts);
        let out = evaluate_policy(&policy, &q, &s, ts, ContextClassification::Isolated)
            .expect("evaluation");
        if i < 2 {
            assert!(!out.should_emit_alert);
            assert_eq!(out.next_state.below_trigger_blocks, i + 1);
        } else {
            assert_transition(&out, IncidentTransition::Resolve);
        }
        s = out.next_state;
    }
}

#[test]
fn depeg_v2_tc_d_1301_recommended_actions_by_severity() {
    let critical_actions = recommended_actions_for_severity(&Severity::Critical);
    assert_eq!(critical_actions.len(), 3);
    assert!(critical_actions[0].contains("Immediate Rebalance"));
    assert!(critical_actions[1].contains("Exit all positions"));
    assert!(critical_actions[2].contains("Withdraw to Owner"));

    let high_actions = recommended_actions_for_severity(&Severity::High);
    assert_eq!(high_actions.len(), 3);
    assert!(high_actions[0].contains("Partial Exit"));
    assert!(high_actions[1].contains("Rebalance to ETH"));
    assert!(high_actions[2].contains("Hold and Monitor"));

    let medium_actions = recommended_actions_for_severity(&Severity::Medium);
    assert_eq!(medium_actions.len(), 2);
    assert!(medium_actions[0].contains("Hold and Monitor"));

    let info_actions = recommended_actions_for_severity(&Severity::Info);
    assert!(info_actions.is_empty());
}

#[test]
fn depeg_v2_tc_d_1400_detection_signal_detail_fields() {
    let now = Utc::now();
    let p = price_from_deviation(1.0, 5.50);
    let quotes = make_quotes(p, Some(p), Some(p), 12, now);
    let policy = oracle_policy();

    let outcome = eval_fresh(&policy, &quotes, now, ContextClassification::Isolated);
    assert_alert_with_severity(&outcome, Severity::Critical);

    let event = UnifiedEvent {
        event_id: uuid::Uuid::new_v4().to_string(),
        tenant_id: "test-tenant".to_string(),
        source_type: SourceType::CexWebsocket,
        source_id: "binance".to_string(),
        event_type: "quote".to_string(),
        timestamp: now,
        payload: Json::Null,
        chain_id: None,
        block_number: None,
        tx_hash: None,
        market_key: Some("USDC/USD".to_string()),
        price: Some(d(p)),
    };

    let detection = build_detection(
        &event,
        &policy,
        &outcome.snapshot,
        Severity::Critical,
        Some(IncidentTransition::Trigger),
        now,
    );

    assert_eq!(detection.pattern_id, "depeg_v2");
    assert_eq!(detection.severity, Severity::Critical);
    assert_eq!(detection.chain, Chain::Offchain);
    assert_eq!(detection.attack_family, AttackFamily::PegDeviation);
    assert!(detection.subject_type.as_deref() == Some("market"));
    assert!(detection.subject_key.is_some());
    assert!(detection.tenant_id.is_some());
    assert!(detection.event_key.is_some());
    assert_eq!(
        detection.incident_transition,
        Some(IncidentTransition::Trigger)
    );
    assert_eq!(
        detection.context_classification,
        Some(ContextClassification::Isolated)
    );
    assert!(!detection.signals.is_empty());
    assert_eq!(detection.signals[0].signal_type, SignalType::PriceDeviation);
    assert!(f(detection.signals[0].value) > 5.0);
    assert!(!detection.risk_score.rationale.is_empty());
    assert!(!detection.actions_recommended.is_empty());
    assert!(has(&detection.oracle_context, "oracle_confirmed"));
    assert!(has(&detection.oracle_context, "weighted_median_price"));
    assert!(has(&detection.oracle_context, "trigger_floor_pct"));
    assert!(has(&detection.oracle_context, "context_classification"));
    assert!(has(&detection.oracle_context, "contributing_sources"));
    assert!(!detection.confidence_breakdown.is_empty());
    assert!(detection.description.is_some());
}

#[test]
fn depeg_v2_tc_d_1401_oracle_breached_flag_matches_threshold() {
    let now = Utc::now();

    let median_price = price_from_deviation(1.0, 0.60);
    let chainlink_price = price_from_deviation(1.0, 0.60);
    let pyth_price = price_from_deviation(1.0, 0.30);
    let quotes = make_quotes(
        median_price,
        Some(chainlink_price),
        Some(pyth_price),
        12,
        now,
    );
    let policy = oracle_policy();

    let outcome = eval_fresh(&policy, &quotes, now, ContextClassification::Isolated);

    assert!(outcome.snapshot.oracle_confirmed);
    assert!(outcome.snapshot.breach_active);

    let low_chainlink = price_from_deviation(1.0, 0.20);
    let low_pyth = price_from_deviation(1.0, 0.30);
    let quotes2 = make_quotes(median_price, Some(low_chainlink), Some(low_pyth), 12, now);
    let outcome2 = eval_fresh(&policy, &quotes2, now, ContextClassification::Isolated);

    assert!(!outcome2.snapshot.oracle_confirmed);
    assert!(!outcome2.snapshot.breach_active);
}

#[test]
fn depeg_v2_tc_d_1402_severity_none_below_all_bands() {
    let bands = DepegSeverityBands {
        medium: d(0.5),
        high: d(1.0),
        critical: d(5.0),
    };
    assert_eq!(severity_for_divergence(d(0.0), &bands), None);
    assert_eq!(severity_for_divergence(d(0.49), &bands), None);
}

#[test]
fn depeg_v2_tc_d_1403_severity_boundaries() {
    let bands = DepegSeverityBands {
        medium: d(0.5),
        high: d(1.0),
        critical: d(5.0),
    };
    assert_eq!(severity_for_divergence(d(0.5), &bands), Some(Severity::Medium));
    assert_eq!(
        severity_for_divergence(d(0.99), &bands),
        Some(Severity::Medium)
    );
    assert_eq!(severity_for_divergence(d(1.0), &bands), Some(Severity::High));
    assert_eq!(severity_for_divergence(d(4.99), &bands), Some(Severity::High));
    assert_eq!(
        severity_for_divergence(d(5.0), &bands),
        Some(Severity::Critical)
    );
    assert_eq!(
        severity_for_divergence(d(99.0), &bands),
        Some(Severity::Critical)
    );
}

#[test]
fn depeg_v2_tc_d_1404_systemic_severity_boundaries() {
    let bands = DepegSeverityBands {
        medium: d(0.01),
        high: d(0.25),
        critical: d(0.25),
    };
    assert_eq!(severity_for_divergence(d(0.009), &bands), None);
    assert_eq!(
        severity_for_divergence(d(0.01), &bands),
        Some(Severity::Medium)
    );
    assert_eq!(
        severity_for_divergence(d(0.24), &bands),
        Some(Severity::Medium)
    );
    assert_eq!(
        severity_for_divergence(d(0.25), &bands),
        Some(Severity::Critical)
    );
    assert_eq!(
        severity_for_divergence(d(0.49), &bands),
        Some(Severity::Critical)
    );
    assert_eq!(
        severity_for_divergence(d(0.5), &bands),
        Some(Severity::Critical)
    );
}

#[test]
fn depeg_v2_tc_d_1405_context_classification_str_values() {
    assert_eq!(
        context_classification_str(&ContextClassification::Isolated),
        "isolated"
    );
    assert_eq!(
        context_classification_str(&ContextClassification::Systemic),
        "systemic"
    );
    assert_eq!(
        context_classification_str(&ContextClassification::Unclassified),
        "none"
    );
}

#[test]
fn depeg_v2_tc_d_1406_severity_from_str_roundtrip() {
    assert_eq!(
        severity_from_str(Some("critical")),
        Some(Severity::Critical)
    );
    assert_eq!(severity_from_str(Some("HIGH")), Some(Severity::High));
    assert_eq!(severity_from_str(Some("Medium")), Some(Severity::Medium));
    assert_eq!(severity_from_str(Some("low")), Some(Severity::Low));
    assert_eq!(severity_from_str(Some("info")), Some(Severity::Info));
    assert_eq!(severity_from_str(Some("unknown")), None);
    assert_eq!(severity_from_str(None), None);
}

#[test]
fn depeg_v2_tc_d_1407_severity_rank_ordering() {
    assert!(severity_rank(Some(&Severity::Critical)) > severity_rank(Some(&Severity::High)));
    assert!(severity_rank(Some(&Severity::High)) > severity_rank(Some(&Severity::Medium)));
    assert!(severity_rank(Some(&Severity::Medium)) > severity_rank(Some(&Severity::Low)));
    assert!(severity_rank(Some(&Severity::Low)) > severity_rank(Some(&Severity::Info)));
    assert!(severity_rank(Some(&Severity::Info)) > severity_rank(None));
    assert_eq!(severity_rank(None), 0);
}

#[test]
fn depeg_v2_tc_d_1408_oracles_within_resolution_floor() {
    let now = Utc::now();
    let good_oracle = quote("chainlink", "oracle", 0.998, now);
    let good_pyth = quote("pyth", "oracle", 0.999, now);
    let quotes = vec![good_oracle, good_pyth];

    assert!(available_oracles_within_resolution_floor(&quotes, d(0.5), d(1.0)));
}

#[test]
fn depeg_v2_tc_d_1409_oracle_above_resolution_floor() {
    let now = Utc::now();
    let good_oracle = quote("chainlink", "oracle", 0.998, now);
    let bad_pyth = quote("pyth", "oracle", 0.990, now);
    let quotes = vec![good_oracle, bad_pyth];

    assert!(!available_oracles_within_resolution_floor(
        &quotes, d(0.5), d(1.0)
    ));
}

#[test]
fn depeg_v2_tc_d_1410_no_oracles_resolution_passes() {
    let now = Utc::now();
    let quotes = vec![quote("binance", "cex", 0.998, now)];

    assert!(available_oracles_within_resolution_floor(&quotes, d(0.5), d(1.0)));
}

#[test]
fn depeg_v2_tc_d_1411_single_source_valid_median() {
    let now = Utc::now();
    let p = price_from_deviation(1.0, 1.50);
    let mut policy = oracle_policy();
    policy.min_sources = 1;
    policy.source_filter.min_healthy_sources = 1;
    policy.toggles.oracle_confirmation = false;

    let quotes = vec![quote("binance", "cex", p, now)];
    let outcome = eval_fresh(&policy, &quotes, now, ContextClassification::Isolated);
    assert_eq!(outcome.snapshot.source_count, 1);
    assert!(outcome.snapshot.breach_active);
}

#[test]
fn depeg_v2_tc_d_1412_zero_weight_source_excluded() {
    let now = Utc::now();
    let mut policy = oracle_policy();
    policy.toggles.oracle_confirmation = false;
    policy.min_sources = 1;
    policy.source_filter.min_healthy_sources = 1;
    policy.source_overrides.push((
        "bad-source".to_string(),
        DepegSourceOverride {
            source_id: "bad-source".to_string(),
            weight: d(0.0),
            enabled: true,
            stale_timeout_ms: None,
        },
    ));

    let good_price = price_from_deviation(1.0, 0.10);
    let bad_price = price_from_deviation(1.0, 5.0);
    let quotes = vec![
        quote("good-source", "cex", good_price, now),
        quote("bad-source", "cex", bad_price, now),
    ];

    let outcome = eval_fresh(&policy, &quotes, now, ContextClassification::Isolated);

    assert_eq!(outcome.snapshot.source_count, 1);
    assert!(!outcome.snapshot.breach_active);
}

#[test]
fn depeg_v2_tc_d_1413_disabled_source_excluded() {
    let now = Utc::now();
    let mut policy = oracle_policy();
    policy.toggles.oracle_confirmation = false;
    policy.min_sources = 1;
    policy.source_filter.min_healthy_sources = 1;
    policy.source_overrides.push((
        "disabled-cex".to_string(),
        DepegSourceOverride {
            source_id: "disabled-cex".to_string(),
            weight: d(1.0),
            enabled: false,
            stale_timeout_ms: None,
        },
    ));

    let good_price = price_from_deviation(1.0, 0.10);
    let breach_price = price_from_deviation(1.0, 5.0);
    let quotes = vec![
        quote("active-cex", "cex", good_price, now),
        quote("disabled-cex", "cex", breach_price, now),
    ];

    let outcome = eval_fresh(&policy, &quotes, now, ContextClassification::Isolated);
    assert_eq!(outcome.snapshot.source_count, 1);
    assert!(!outcome.snapshot.breach_active);
}

#[test]
fn depeg_v2_tc_d_1414_confidence_gate_blocks_alert() {
    let now = Utc::now();
    let p = price_from_deviation(1.0, 1.50);
    let mut policy = oracle_policy();
    policy.min_confidence_to_fire = d(100.1);
    policy.min_sources = 1;
    policy.source_filter.min_healthy_sources = 1;
    policy.toggles.oracle_confirmation = false;

    let quotes = vec![quote("binance", "cex", p, now)];
    let outcome = eval_fresh(&policy, &quotes, now, ContextClassification::Isolated);

    assert!(!outcome.snapshot.breach_active);
    assert_no_alert(&outcome);
}

#[test]
fn depeg_v2_tc_d_1415_full_escalation_deescalation_resolution_lifecycle() {
    let now = Utc::now();
    let mut policy = oracle_policy();
    policy.cooldown_sec = 0;
    policy.deescalation_blocks = 2;
    policy.resolution_blocks = 2;
    policy.toggles.oracle_confirmation = false;

    let medium_price = price_from_deviation(1.0, 0.60);
    let q1 = make_quotes(medium_price, None, None, 12, now);
    let s1 = eval_fresh(&policy, &q1, now, ContextClassification::Isolated);
    assert_transition(&s1, IncidentTransition::Trigger);
    assert_alert_with_severity(&s1, Severity::Medium);

    let critical_price = price_from_deviation(1.0, 5.50);
    let q2 = make_quotes(critical_price, None, None, 12, now + Duration::seconds(1));
    let s2 = evaluate_policy(
        &policy,
        &q2,
        &s1.next_state,
        now + Duration::seconds(1),
        ContextClassification::Isolated,
    )
    .expect("evaluation");
    assert_transition(&s2, IncidentTransition::Escalate);
    assert_alert_with_severity(&s2, Severity::Critical);

    let mut state = s2.next_state;
    for i in 2..4 {
        let ts = now + Duration::seconds(i);
        let q = make_quotes(medium_price, None, None, 12, ts);
        let out = evaluate_policy(&policy, &q, &state, ts, ContextClassification::Isolated)
            .expect("evaluation");
        if i == 3 {
            assert_lifecycle_transition(&out, IncidentTransition::Deescalate);
            assert_eq!(out.emitted_severity, Some(Severity::Medium));
        }
        state = out.next_state;
    }

    let recovery_price = price_from_deviation(1.0, 0.10);
    for i in 4..6 {
        let ts = now + Duration::seconds(i);
        let q = make_quotes(recovery_price, None, None, 12, ts);
        let out = evaluate_policy(&policy, &q, &state, ts, ContextClassification::Isolated)
            .expect("evaluation");
        if i == 5 {
            assert_lifecycle_transition(&out, IncidentTransition::Resolve);
        }
        state = out.next_state;
    }
}

#[test]
fn depeg_v2_tc_d_1416_policy_validation() {
    let mut p = base_policy();
    assert!(p.validate().is_ok());

    p.peg_target = d(0.0);
    assert!(p.validate().is_err());
    p.peg_target = d(1.0);

    p.min_sources = 0;
    assert!(p.validate().is_err());
    p.min_sources = 3;

    p.quorum_pct = d(1.5);
    assert!(p.validate().is_err());
    p.quorum_pct = d(0.5);

    p.resolution_blocks = 0;
    assert!(p.validate().is_err());
    p.resolution_blocks = 30;

    p.min_confidence_to_fire = d(101.0);
    assert!(p.validate().is_err());
}

#[test]
fn depeg_v2_tc_d_1417_stale_quotes_excluded() {
    let now = Utc::now();
    let mut policy = oracle_policy();
    policy.stale_timeout_ms = 30_000;
    policy.min_sources = 1;
    policy.source_filter.min_healthy_sources = 1;
    policy.toggles.oracle_confirmation = false;

    let stale_time = now - Duration::seconds(60);
    let breach_price = price_from_deviation(1.0, 5.0);
    let quotes = vec![quote("binance", "cex", breach_price, stale_time)];

    let outcome = eval_fresh(&policy, &quotes, now, ContextClassification::Isolated);

    assert_eq!(outcome.snapshot.source_count, 0);
    assert!(!outcome.snapshot.breach_active);
}

#[test]
fn depeg_v2_tc_d_1418_per_source_stale_override() {
    let now = Utc::now();
    let mut policy = oracle_policy();
    policy.stale_timeout_ms = 30_000;
    policy.min_sources = 1;
    policy.source_filter.min_healthy_sources = 1;
    policy.toggles.oracle_confirmation = false;
    policy.source_overrides.push((
        "slow-source".to_string(),
        DepegSourceOverride {
            source_id: "slow-source".to_string(),
            weight: d(1.0),
            enabled: true,
            stale_timeout_ms: Some(120_000),
        },
    ));

    let old_time = now - Duration::seconds(60);
    let breach_price = price_from_deviation(1.0, 1.50);

    let quotes_normal = vec![quote("normal-source", "cex", breach_price, old_time)];
    let out1 = eval_fresh(
        &policy,
        &quotes_normal,
        now,
        ContextClassification::Isolated,
    );
    assert_eq!(out1.snapshot.source_count, 0);

    let quotes_slow = vec![quote("slow-source", "cex", breach_price, old_time)];
    let out2 = eval_fresh(&policy, &quotes_slow, now, ContextClassification::Isolated);
    assert_eq!(out2.snapshot.source_count, 1);
    assert!(out2.snapshot.breach_active);
}

#[test]
fn tc_d_1419_custom_sources_are_out_of_scope_for_default_consensus() {
    let now = Utc::now();
    let policy = base_policy();
    let outcome = eval_fresh(
        &policy,
        &[quote("custom-feed", "custom", 0.92, now)],
        now,
        ContextClassification::Isolated,
    );

    assert_eq!(outcome.snapshot.source_count, 0);
    assert!(!outcome.snapshot.breach_active);
}

#[test]
fn tc_d_1420_detection_payload_exposes_spec_context_fields() {
    let now = Utc::now();
    let policy = oracle_policy();
    let outcome = eval_fresh(
        &policy,
        &[
            quote("coinbase-advanced", "cex", 0.9940, now),
            quote("kraken-spot", "cex", 0.9941, now),
            quote("okx-global", "cex", 0.9940, now),
            quote("chainlink-data-streams", "oracle", 0.9948, now),
            quote("pyth-eth-mainnet", "oracle", 0.9949, now),
        ],
        now,
        ContextClassification::Isolated,
    );
    let detection = build_detection(
        &UnifiedEvent {
            event_id: "evt-1".to_string(),
            tenant_id: policy.tenant_id.clone(),
            source_id: "coinbase-advanced".to_string(),
            source_type: SourceType::CexWebsocket,
            event_type: "ticker".to_string(),
            timestamp: now,
            payload: json(r#"{}"#),
            chain_id: None,
            block_number: None,
            tx_hash: None,
            market_key: Some(policy.market_key.clone()),
            price: Some(d(0.9940)),
        },
        &policy,
        &outcome.snapshot,
        Severity::Medium,
        Some(IncidentTransition::Trigger),
        now,
    );
    let oracle_context = shown(&detection.oracle_context);

    assert_eq!(
        oracle_context.get("healthy_source_count"),
        Some(&value(5))
    );
    assert_eq!(
        oracle_context.get("total_source_count"),
        Some(&value(5))
    );
    assert_eq!(
        oracle_context.get("contagion_status"),
        Some(&value("isolated"))
    );
    assert_eq!(
        oracle_context.get("peg_target"),
        Some(&value(1.0))
    );
    assert!(oracle_context.contains_key("chainlink_price"));
    assert!(oracle_context.contains_key("pyth_price"));
}

#[test]
fn exchange_pool_prices_do_not_count() {
    let policy = base_policy();
    assert!(!policy.source_enabled("uniswap", "dex"));
    assert!(!policy.source_enabled("uniswap", "DEX"));
}

fn settings_after(pattern: &mut DepegPatternV2, config: &str) -> (i64, usize, usize) {
    pattern.reload_config(vec![row("t1", "depeg", json(config))]);
    (
        pattern.quote_cache_ttl_minutes,
        pattern.quote_cache_max_keys,
        pattern.max_quote_history_per_source,
    )
}

#[test]
fn settings_that_are_not_configured_have_their_defaults() {
    let mut pattern = DepegPatternV2::default();
    let configured = r#"{"policies": [], "pattern_config": {"quote_cache_ttl_minutes": 5}}"#;
    assert_eq!(settings_after(&mut pattern, configured), (5, 2048, 16));
    assert_eq!(settings_after(&mut pattern, r#"{"policies": []}"#), (120, 2048, 16));
    let configured = r#"{"policies": [], "pattern_config": {"quote_cache_max_keys": 100}}"#;
    assert_eq!(settings_after(&mut pattern, configured), (120, 100, 16));
    let configured = r#"{"policies": [], "pattern_config": {"max_quote_history_per_source": 7}}"#;
    assert_eq!(settings_after(&mut pattern, configured), (120, 2048, 7));
    pattern.reload_config(Vec::new());
    assert_eq!(pattern.max_quote_history_per_source, 16);
}

#[test]
fn settings_have_least_values() {
    let mut pattern = DepegPatternV2::default();
    let low = r#"{"detection_config": {"policies": [], "pattern_config": {
        "quote_cache_ttl_minutes": -3, "quote_cache_max_keys": 2, "max_quote_history_per_source": 0}}}"#;
    assert_eq!(settings_after(&mut pattern, low), (1, 16, 2));
}

#[test]
fn settings_come_from_the_first_row_that_has_some() {
    let mut pattern = DepegPatternV2::default();
    pattern.reload_config(vec![
        row("t0", "flash_loan", json(r#"{"pattern_config": {"quote_cache_ttl_minutes": 1}}"#)),
        row("t1", "depeg", json(r#"{"policies": []}"#)),
        row("t2", "depeg", json(r#"{"policies": [], "pattern_config": {"quote_cache_ttl_minutes": 30}}"#)),
        row("t3", "depeg", json(r#"{"policies": [], "pattern_config": {"quote_cache_ttl_minutes": 60}}"#)),
    ]);
    assert_eq!(pattern.quote_cache_ttl_minutes, 30);
}
