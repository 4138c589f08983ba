use detector::depeg_v2::evaluation::DepegAlertState;
use detector::depeg_v2::mapping::effective_event_fields;
use detector::depeg_v2::pattern::DepegPatternV2;
use detector::depeg_v2::policy::DepegConfidenceWeights;
use detector::depeg_v2::policy::DepegPolicy;
use detector::depeg_v2::policy::DepegSeverityBands;
use detector::depeg_v2::policy::DepegSourceFilter;
use detector::depeg_v2::policy::DepegSourceOverride;
use detector::depeg_v2::policy::DepegToggles;
use detector::double::Double;
use detector::dpeg::evaluation::DpegAlertState;
use detector::dpeg::pattern::DpegPattern;
use detector::dpeg::policy::DpegConfidenceWeights;
use detector::dpeg::policy::DpegPolicy;
use detector::dpeg::policy::DpegSeverityBands;
use detector::dpeg::policy::DpegSourceFilter;
use detector::dpeg::policy::DpegSourceOverride;
use detector::dpeg::policy::DpegToggles;
use detector::event::append_snapshot_meta;
use detector::event::needs_raw_insert;
use detector::event::simulation_metadata_from_event;
use detector::event::ContextClassification;
use detector::event::IncidentTransition;
use detector::event::Severity;
use detector::event::SourceType;
use detector::event::UnifiedEvent;
use detector::expression::compile;
use detector::expression::describe_flaws;
use detector::expression::evaluate;
use detector::expression::input;
use detector::expression::Answer;
use detector::expression::Datum;
use detector::expression::Reply;
use detector::expression::SyntaxFlaw;
use detector::json::Json;
use detector::outside::current_time;
use detector::outside::rfc3339;
use detector::outside::timestamp_to_json;
use detector::quotes::remember_quote;
use detector::quotes::round_to_6dp;
use detector::quotes::CachedMarket;
use detector::quotes::MarketScope;
use detector::quotes::QuoteInput;
use detector::settings::extract_bound_source_ids;
use detector::settings::extract_detection_config;
use detector::settings::ConfigEntry;
use detector::time::Timestamp;
use detector::tvl_drop::pattern::CachedState;
use detector::tvl_drop::pattern::TvlDropPattern;
use detector::tvl_drop::pattern::TvlWork;
use detector::tvl_drop::rule::default_tvl_drop_rule;
use detector::tvl_drop::rule::value_to_f64;
use detector::tvl_drop::rule::value_window_minutes;
use detector::tvl_drop::rule::RuleError;
use detector::tvl_drop::state::TvlRuleState;
use detector::tvl_drop::window::analyze_window;
use detector::tvl_drop::window::max_one_minute_drop_pct;
use detector::tvl_drop::window::TvlSamplePoint;

fn d(x: f64) -> Double {
    Double { bits: x.to_bits() }
}

fn f(x: Double) -> f64 {
    f64::from_bits(x.bits)
}

fn from_value(v: &serde_json::Value) -> Json {
    match v {
        serde_json::Value::Null => Json::Null,
        serde_json::Value::Bool(b) => Json::Bool(*b),
        serde_json::Value::Number(n) => match (n.as_u64(), n.as_i64()) {
            (Some(n), _) => Json::UInt(n),
            (None, Some(n)) => Json::Int(n),
            (None, None) => Json::Float(d(n.as_f64().unwrap())),
        },
        serde_json::Value::String(s) => Json::Text(s.clone()),
        serde_json::Value::Array(v) => Json::List(v.iter().map(from_value).collect()),
        serde_json::Value::Object(m) => Json::Object(
            m.iter().map(|(k, v)| (k.clone(), from_value(v))).collect(),
        ),
    }
}

fn json(text: &str) -> Json {
    from_value(&serde_json::from_str(text).expect("a document"))
}

fn to_value(v: &Json) -> serde_json::Value {
    match v {
        Json::Null => serde_json::Value::Null,
        Json::Bool(b) => serde_json::Value::from(*b),
        Json::UInt(n) => serde_json::Value::from(*n),
        Json::Int(n) => serde_json::Value::from(*n),
        Json::Float(x) => serde_json::Value::from(f(*x)),
        Json::Text(s) => serde_json::Value::from(s.as_str()),
        Json::List(v) => serde_json::Value::Array(v.iter().map(to_value).collect()),
        Json::Object(m) => serde_json::Value::Object(
            m.iter().map(|(k, v)| (k.clone(), to_value(v))).collect(),
        ),
    }
}

fn document(text: &str) -> serde_json::Value {
    serde_json::from_str(text).expect("a document")
}

fn at(seconds: i128) -> Timestamp {
    Timestamp { nanos: seconds * 1_000_000_000 }
}

fn event(tenant_id: &str, payload: &str) -> UnifiedEvent {
    UnifiedEvent {
        event_id: "evt-1".to_string(),
        tenant_id: tenant_id.to_string(),
        source_id: "source-1".to_string(),
        source_type: SourceType::EvmChain,
        event_type: "transaction".to_string(),
        timestamp: at(1_000),
        payload: json(payload),
        chain_id: Some(8453),
        block_number: Some(77),
        tx_hash: Some("0xabc".to_string()),
        market_key: None,
        price: None,
    }
}

fn priced(tenant_id: &str, source_id: &str, market: &str, price: f64, seconds: i128) -> UnifiedEvent {
    UnifiedEvent {
        source_id: source_id.to_string(),
        source_type: SourceType::CexWebsocket,
        timestamp: at(seconds),
        market_key: Some(market.to_string()),
        price: Some(d(price)),
        ..event(tenant_id, "{}")
    }
}

fn dpeg_policy(market: &str) -> DpegPolicy {
    DpegPolicy {
        tenant_id: "tenant-a".to_string(),
        market_key: market.to_string(),
        peg_target: d(1.0),
        min_sources: 1,
        quorum_pct: d(0.0),
        sustained_window_ms: 1,
        cooldown_sec: 0,
        stale_timeout_ms: 60_000,
        severity_bands: DpegSeverityBands { medium: d(0.5), high: d(1.0), critical: d(5.0) },
        severity_bands_isolated: None,
        severity_bands_systemic: None,
        isolated_floor_pct: d(0.5),
        systemic_floor_pct: d(0.01),
        deescalation_blocks: 5,
        resolution_blocks: 30,
        source_filter: DpegSourceFilter { min_healthy_sources: 1, ..DpegSourceFilter::default() },
        toggles: DpegToggles { contagion_detection: true, ..DpegToggles::default() },
        confidence_weights: DpegConfidenceWeights::default(),
        min_confidence_to_fire: d(0.0),
        source_overrides: Vec::new(),
    }
}

fn depeg_policy(market: &str) -> DepegPolicy {
    DepegPolicy {
        tenant_id: "tenant-a".to_string(),
        market_key: market.to_string(),
        peg_target: d(1.0),
        min_sources: 1,
        quorum_pct: d(0.0),
        cooldown_sec: 0,
        stale_timeout_ms: 60_000,
        severity_bands: DepegSeverityBands { medium: d(0.5), high: d(1.0), critical: d(5.0) },
        severity_bands_isolated: None,
        severity_bands_systemic: None,
        isolated_floor_pct: d(0.5),
        systemic_floor_pct: d(0.01),
        deescalation_blocks: 5,
        resolution_blocks: 30,
        source_filter: DepegSourceFilter { min_healthy_sources: 1, ..DepegSourceFilter::default() },
        toggles: DepegToggles { oracle_confirmation: false, ..DepegToggles::default() },
        confidence_weights: DepegConfidenceWeights::default(),
        min_confidence_to_fire: d(0.0),
        source_overrides: Vec::new(),
        aggregation: None,
        decision_expression: None,
        compiled_decision: None,
        severity_expression: None,
        compiled_severity: None,
        oracle_expression: None,
        compiled_oracle: None,
        confidence_expression: None,
        compiled_confidence: None,
        contagion_expression: None,
        compiled_contagion: None,
    }
}

// ---------------------------------------------------------------------------
// The two depeg patterns
// ---------------------------------------------------------------------------

#[test]
fn a_breach_has_to_last_before_it_is_reported() {
    let mut pattern = DpegPattern::default();
    let mut policy = dpeg_policy("USDC/USD");
    policy.sustained_window_ms = 10_000;
    pattern.install_policy(policy);
    let first = priced("tenant-a", "cex-a", "USDC/USD", 0.98, 1_000);
    let admission = pattern.take_in(&first).expect("admitted");
    assert_eq!(admission.scope.replay_scope, "__live__");
    let r = pattern.judge(&first, &admission, &DpegAlertState::default()).unwrap().unwrap();
    assert!(r.detection.is_none());
    assert_eq!(r.severity.as_deref(), Some("high"));
    assert!((f(r.score) - 2.0).abs() < 1e-9);
    let later = priced("tenant-a", "cex-a", "USDC/USD", 0.98, 1_010);
    let admission = pattern.take_in(&later).expect("admitted");
    let r = pattern.judge(&later, &admission, &r.next_state).unwrap().unwrap();
    let detection = r.detection.expect("reported");
    assert_eq!(detection.severity, Severity::High);
    assert_eq!(detection.incident_transition, Some(IncidentTransition::Trigger));
    let snapshot = to_value(&r.snapshot);
    assert_eq!(snapshot["_meta"]["event_timestamp"], "1970-01-01T00:16:50+00:00");
}

#[test]
fn events_that_do_not_count_are_not_taken_in() {
    let mut pattern = DpegPattern::default();
    pattern.install_policy(dpeg_policy("USDC/USD"));
    assert!(pattern.take_in(&priced("tenant-b", "cex-a", "USDC/USD", 0.98, 1)).is_none());
    assert!(pattern.take_in(&priced("tenant-a", "cex-a", "DAI/USD", 0.98, 1)).is_none());
    assert!(pattern.take_in(&priced("tenant-a", "cex-a", "USDC/USD", 0.0, 1)).is_none());
    assert!(pattern.take_in(&priced("tenant-a", "cex-a", "USDC/USD", f64::NAN, 1)).is_none());
    let mut unpriced = priced("tenant-a", "cex-a", "USDC/USD", 0.98, 1);
    unpriced.price = None;
    assert!(pattern.take_in(&unpriced).is_none());
    assert!(pattern.quote_cache.is_empty());
}

#[test]
fn two_deviating_markets_are_systemic() {
    let mut pattern = DpegPattern::default();
    pattern.install_policy(dpeg_policy("USDC/USD"));
    pattern.install_policy(dpeg_policy("DAI/USD"));
    pattern.take_in(&priced("tenant-a", "cex-a", "USDC/USD", 0.999, 1_000)).unwrap();
    let policy = dpeg_policy("USDC/USD");
    let one = pattern.classify_context(&policy, "tenant-a", "__live__", at(1_000));
    assert_eq!(one, ContextClassification::Isolated);
    pattern.take_in(&priced("tenant-a", "cex-a", "DAI/USD", 0.999, 1_000)).unwrap();
    let two = pattern.classify_context(&policy, "tenant-a", "__live__", at(1_000));
    assert_eq!(two, ContextClassification::Systemic);
    let elsewhere = pattern.classify_context(&policy, "tenant-a", "run-1", at(1_000));
    assert_eq!(elsewhere, ContextClassification::Isolated);
}

#[test]
fn a_run_forgets_the_others() {
    let mut pattern = DpegPattern::default();
    pattern.install_policy(dpeg_policy("USDC/USD"));
    let mut simulated = priced("tenant-a", "cex-a", "USDC/USD", 0.98, 1_000);
    simulated.payload = json(r#"{"simulation": {"run_id": "run-1"}}"#);
    pattern.take_in(&simulated).unwrap();
    simulated.payload = json(r#"{"simulation": {"run_id": "run-2"}}"#);
    let admission = pattern.take_in(&simulated).unwrap();
    assert_eq!(admission.scope.replay_scope, "run-2");
    let scopes: Vec<&str> =
        pattern.quote_cache.iter().map(|m| m.scope.replay_scope.as_str()).collect();
    assert_eq!(scopes, vec!["run-2"]);
}

#[test]
fn depeg_reports_at_once_and_ignores_late_events() {
    let mut pattern = DepegPatternV2::default();
    pattern.install_policy(depeg_policy("USDC/USD"));
    let first = priced("tenant-a", "cex-a", "USDC/USD", 0.98, 1_000);
    let fields = effective_event_fields(&first, &None);
    let admission = pattern.take_in(&first, &fields).expect("admitted");
    assert_eq!(admission.state_key, "USDC/USD");
    let r = pattern.judge(&first, &admission, &DepegAlertState::default()).unwrap().unwrap();
    assert_eq!(r.detection.expect("reported").severity, Severity::High);
    assert_eq!(r.next_state.high_water_mark, Some(at(1_000)));
    let late = priced("tenant-a", "cex-a", "USDC/USD", 0.5, 999);
    let fields = effective_event_fields(&late, &None);
    let admission = pattern.take_in(&late, &fields).expect("admitted");
    assert!(pattern.judge(&late, &admission, &r.next_state).unwrap().is_none());
}

#[test]
fn the_quote_cache_is_bounded() {
    let mut pattern = DepegPatternV2::default();
    pattern.quote_cache_max_keys = 2;
    for (n, market) in ["A/USD", "B/USD", "C/USD"].iter().enumerate() {
        pattern.install_policy(depeg_policy(market));
        let e = priced("tenant-a", "cex-a", market, 1.0, 1_000 + n as i128);
        let fields = effective_event_fields(&e, &None);
        pattern.take_in(&e, &fields).expect("admitted");
    }
    let held: Vec<&str> = pattern.quote_cache.iter().map(|m| m.scope.market_key.as_str()).collect();
    assert_eq!(held, vec!["B/USD", "C/USD"]);
    let e = priced("tenant-a", "cex-a", "A/USD", 1.0, 1_000 + 3 * 3_600);
    let fields = effective_event_fields(&e, &None);
    pattern.take_in(&e, &fields).expect("admitted");
    assert_eq!(pattern.quote_cache.len(), 1);
}

#[test]
fn histories_keep_the_newest_quotes_of_a_source() {
    let mut quotes = Vec::new();
    for n in [3, 1, 2, 5, 4] {
        let quote = QuoteInput {
            source_id: "cex-a".to_string(),
            source_kind: "cex".to_string(),
            price: d(n as f64),
            observed_at: at(n),
        };
        remember_quote(&mut quotes, quote, 3);
    }
    assert_eq!(quotes.len(), 1);
    let prices: Vec<f64> = quotes[0].history.iter().map(|q| f(q.price)).collect();
    assert_eq!(prices, vec![3.0, 4.0, 5.0]);
}

#[test]
fn policies_are_checked_in_order() {
    let flawed: [(fn(&mut DpegPolicy), &str); 13] = [
        (|p| p.peg_target = d(0.0), "peg_target must be > 0"),
        (|p| p.min_sources = 0, "min_sources must be > 0"),
        (|p| p.quorum_pct = d(1.5), "quorum_pct must be between 0 and 1"),
        (|p| p.sustained_window_ms = 0, "sustained_window_ms must be > 0"),
        (|p| p.cooldown_sec = -1, "cooldown_sec must be >= 0"),
        (|p| p.stale_timeout_ms = 0, "stale_timeout_ms must be > 0"),
        (|p| p.isolated_floor_pct = d(0.0), "isolated_floor_pct must be > 0"),
        (|p| p.systemic_floor_pct = d(0.0), "systemic_floor_pct must be > 0"),
        (|p| p.deescalation_blocks = 0, "deescalation_blocks must be > 0"),
        (|p| p.resolution_blocks = 0, "resolution_blocks must be > 0"),
        (
            |p| p.min_confidence_to_fire = d(100.5),
            "min_confidence_to_fire must be between 0 and 100",
        ),
        (
            |p| p.confidence_weights.source_agreement = d(-0.1),
            "confidence_weights must be non-negative",
        ),
        (
            |p| {
                p.confidence_weights.source_agreement = d(0.0);
                p.confidence_weights.oracle_confirmation = d(0.0);
                p.confidence_weights.volume_confirmation = d(0.0);
            },
            "confidence_weights total must be > 0",
        ),
    ];
    assert!(dpeg_policy("USDC/USD").validate().is_ok());
    let mut all = dpeg_policy("USDC/USD");
    for (break_it, message) in flawed.iter().rev() {
        let mut policy = dpeg_policy("USDC/USD");
        break_it(&mut policy);
        assert_eq!(policy.validate().unwrap_err().message(), *message);
        if *message != "confidence_weights total must be > 0" {
            break_it(&mut all);
            assert_eq!(all.validate().unwrap_err().message(), *message);
        }
    }
}

#[test]
fn quotes_without_a_median_are_an_error() {
    let mut pattern = DpegPattern::default();
    let mut policy = dpeg_policy("USDC/USD");
    for source_id in ["cex-a", "cex-b"] {
        policy.source_overrides.push((
            source_id.to_string(),
            DpegSourceOverride {
                source_id: source_id.to_string(),
                weight: d(f64::MAX),
                enabled: true,
                stale_timeout_ms: None,
            },
        ));
    }
    pattern.install_policy(policy);
    let first = priced("tenant-a", "cex-a", "USDC/USD", 0.98, 1_000);
    let second = priced("tenant-a", "cex-b", "USDC/USD", 0.98, 1_000);
    pattern.take_in(&first).expect("admitted");
    let admission = pattern.take_in(&second).expect("admitted");
    let error = pattern.judge(&second, &admission, &DpegAlertState::default()).unwrap_err();
    assert_eq!(error.message(), "weighted median failed");
}

#[test]
fn quotes_without_a_consensus_are_an_error() {
    let mut pattern = DepegPatternV2::default();
    let mut policy = depeg_policy("USDC/USD");
    for source_id in ["cex-a", "cex-b"] {
        policy.source_overrides.push((
            source_id.to_string(),
            DepegSourceOverride {
                source_id: source_id.to_string(),
                weight: d(f64::MAX),
                enabled: true,
                stale_timeout_ms: None,
            },
        ));
    }
    pattern.install_policy(policy);
    let first = priced("tenant-a", "cex-a", "USDC/USD", 0.98, 1_000);
    let second = priced("tenant-a", "cex-b", "USDC/USD", 0.98, 1_000);
    pattern.take_in(&first, &effective_event_fields(&first, &None)).expect("admitted");
    let fields = effective_event_fields(&second, &None);
    let admission = pattern.take_in(&second, &fields).expect("admitted");
    let error = pattern.judge(&second, &admission, &DepegAlertState::default()).unwrap_err();
    assert_eq!(error.message(), "price aggregation failed");
}

// ---------------------------------------------------------------------------
// Falls of the value locked in a protocol
// ---------------------------------------------------------------------------

fn tvl_pattern() -> TvlDropPattern {
    let mut pattern = TvlDropPattern::default();
    pattern.reload_config(&vec![ConfigEntry {
        tenant_id: "tenant-a".to_string(),
        pattern_id: "tvl_drop".to_string(),
        config: json(
            r#"{"rules": [{"rule_id": "r1", "scope": {"chain_slug": "base", "protocol_id": "aave_v3"}}]}"#,
        ),
    }]);
    pattern
}

fn tvl_event(tvl: f64, seconds: i128) -> UnifiedEvent {
    UnifiedEvent {
        timestamp: at(seconds),
        event_type: "protocol_state".to_string(),
        ..event(
            "tenant-a",
            &format!(r#"{{"protocol_id": "aave_v3", "chain_slug": "base", "tvl_usd": {tvl:?}}}"#),
        )
    }
}

#[test]
fn falls_are_reported_once_and_remembered() {
    let mut pattern = tvl_pattern();
    let mut state = TvlRuleState::default();
    let mut seen = Vec::new();
    for (n, tvl) in [100e6, 70e6, 70e6].iter().enumerate() {
        let e = tvl_event(*tvl, 10_000 + 60 * n as i128);
        let TvlWork::Sample(sample, tasks) = pattern.plan(&e) else {
            panic!("no work");
        };
        assert_eq!(tasks.len(), 1);
        assert_eq!(tasks[0].state_key, "r1:aave_v3:base");
        assert_eq!(tasks[0].cache_key, "tenant-a:r1:aave_v3:base");
        let outcome = pattern.process_sample(&e, &sample, &tasks[0], state, e.timestamp);
        seen.push(outcome.detection.map(|found| found.incident_transition.unwrap()));
        state = outcome.state;
    }
    assert_eq!(seen, vec![None, Some(IncidentTransition::Trigger), None]);
    assert_eq!(state.last_severity.as_deref(), Some("critical"));
    assert_eq!(state.samples.len(), 3);
    assert_eq!(pattern.state_cache.len(), 1);
}

#[test]
fn there_is_no_work_for_others() {
    let pattern = tvl_pattern();
    let mut e = tvl_event(1e6, 10_000);
    e.tenant_id = "tenant-b".to_string();
    assert!(matches!(pattern.plan(&e), TvlWork::Nothing));
    let mut e = tvl_event(1e6, 10_000);
    e.payload = json(r#"{"protocol_id": "euler", "chain_slug": "base", "tvl_usd": 5.0}"#);
    assert!(!matches!(pattern.plan(&e), TvlWork::Sample(_, tasks) if tasks.len() > 0));
}

#[test]
fn old_states_leave_the_cache() {
    let mut pattern = TvlDropPattern::default();
    for (key, seconds) in [("old", 0), ("current", 1), ("new", 1_500 * 60)] {
        pattern.state_cache.push(CachedState {
            key: key.to_string(),
            state: TvlRuleState { last_breach_at: Some(at(seconds)), ..Default::default() },
        });
    }
    pattern.prune_state_cache(at(1_500 * 60), "current");
    let keys: Vec<&str> = pattern.state_cache.iter().map(|c| c.key.as_str()).collect();
    assert_eq!(keys, vec!["current", "new"]);
}

#[test]
fn rules_are_checked_in_order() {
    let rule = default_tvl_drop_rule("r");
    let mut r = rule.copy();
    r.rule_id = " ".to_string();
    assert_eq!(r.validate(), Err(RuleError::RuleId));
    let mut r = rule.copy();
    r.protocol_id = String::new();
    assert_eq!(r.validate(), Err(RuleError::ProtocolId));
    let mut r = rule.copy();
    r.protocol_id = "aave".to_string();
    r.chain_slug = String::new();
    assert_eq!(r.validate(), Err(RuleError::ChainSlug));
    r.chain_slug = "base".to_string();
    assert_eq!(r.validate(), Ok(()));
    r.slow_drop_pct = d(0.0);
    assert_eq!(r.validate(), Err(RuleError::DropThreshold));
    r.slow_drop_pct = d(1.0);
    r.fast_window_minutes = 0;
    assert_eq!(r.validate(), Err(RuleError::WindowMinutes));
    r.fast_window_minutes = 1;
    r.min_tvl_floor_usd = d(-1.0);
    assert_eq!(r.validate(), Err(RuleError::TvlFloor));
    r.min_tvl_floor_usd = d(0.0);
    r.scope = "market".to_string();
    r.market_id = Some(" ".to_string());
    assert_eq!(r.validate(), Err(RuleError::MarketId));
    assert_eq!(RuleError::MarketId.message(), "market scope requires market_id");
}

#[test]
fn windows_are_measured_from_their_first_point() {
    let samples: Vec<TvlSamplePoint> = [(0, 80.0), (60, 100.0), (120, 90.0), (240, 60.0)]
        .iter()
        .map(|(t, tvl)| TvlSamplePoint { observed_at: at(*t), tvl_usd: d(*tvl) })
        .collect();
    let w = analyze_window(&samples, at(240), 10);
    assert_eq!(w.reference_tvl_usd.map(f), Some(80.0));
    assert_eq!(w.current_tvl_usd.map(f), Some(60.0));
    assert_eq!(f(w.drop_pct), 25.0);
    assert_eq!(w.time_to_reach_current_drop_minutes.map(f), Some(4.0));
    assert!((f(max_one_minute_drop_pct(&samples, at(240), 10)) - 10.0).abs() < 1e-9);
}

#[test]
fn settings_of_rules_are_read_leniently() {
    assert_eq!(value_to_f64(&json("\"2.5\"")).map(f), Some(2.5));
    assert_eq!(value_to_f64(&json("7")).map(f), Some(7.0));
    assert!(value_to_f64(&json("\"x\"")).is_none());
    assert_eq!(value_window_minutes(None, Some(&json("61")), 9), 2);
    assert_eq!(value_window_minutes(Some(&json("4")), Some(&json("61")), 9), 4);
    assert_eq!(value_window_minutes(None, None, 9), 9);
}

// ---------------------------------------------------------------------------
// Events and configuration
// ---------------------------------------------------------------------------

#[test]
fn snapshots_say_when_and_for_which_run() {
    let mut e = event("tenant-a", r#"{"simulation": {"run_id": "run-1"}}"#);
    e.timestamp = at(0);
    let r = append_snapshot_meta(&e, &json(r#"{"a": 1, "_meta": {"kept": true}}"#));
    assert_eq!(
        to_value(&r),
        document(
            r#"{"a": 1, "_meta": {"kept": true, "event_timestamp": "1970-01-01T00:00:00+00:00",
                "simulation": {"run_id": "run-1"}}}"#
        )
    );
    e.payload = json("{}");
    let r = append_snapshot_meta(&e, &json("5"));
    assert_eq!(
        to_value(&r),
        document(r#"{"value": 5, "_meta": {"event_timestamp": "1970-01-01T00:00:00+00:00"}}"#)
    );
}

#[test]
fn simulations_are_recognised() {
    let e = event(
        "tenant-a",
        r#"{"simulation": {"simulation_run_id": " run-1 ", "operating_mode": " replay "}}"#,
    );
    let m = simulation_metadata_from_event(&e);
    assert!(m.is_simulated);
    assert_eq!(m.run_id.as_deref(), Some("run-1"));
    assert_eq!(m.operating_mode.as_deref(), Some("replay"));
    let m = simulation_metadata_from_event(&event("tenant-a", r#"{"is_simulated": true}"#));
    assert!(m.is_simulated);
    assert!(m.run_id.is_none());
    let m = simulation_metadata_from_event(&event("tenant-a", r#"{"simulation": {"run_id": " "}}"#));
    assert!(!m.is_simulated);
    assert!(needs_raw_insert(&event("tenant-a", "{}")));
    assert!(!needs_raw_insert(&event("tenant-a", r#"{"raw_persisted": true}"#)));
}

#[test]
fn bound_sources_are_those_that_are_enabled() {
    let config = json(
        r#"{"source_bindings": [{"source_id": " a "}, {"source_id": "b", "enabled": false},
            {"source_id": " "}, {"enabled": true}, {"source_id": "c", "enabled": true}]}"#,
    );
    assert_eq!(
        extract_bound_source_ids(&config),
        Some(vec!["a".to_string(), "c".to_string()])
    );
    assert_eq!(extract_bound_source_ids(&json("{}")), None);
    let nested = json(r#"{"detection_config": {"x": 1}}"#);
    let plain = json(r#"{"x": 1}"#);
    assert_eq!(to_value(extract_detection_config(&nested)), document(r#"{"x": 1}"#));
    assert_eq!(to_value(extract_detection_config(&plain)), document(r#"{"x": 1}"#));
}

// ---------------------------------------------------------------------------
// Outside calls
// ---------------------------------------------------------------------------

#[test]
fn times_are_written_as_in_rfc_3339() {
    let t = Timestamp { nanos: 1_700_000_000_123_000_000 };
    assert_eq!(rfc3339(t), "2023-11-14T22:13:20.123+00:00");
    assert!(matches!(timestamp_to_json(t), Json::Text(s) if s == "2023-11-14T22:13:20.123Z"));
    let before = Timestamp { nanos: -1 };
    assert_eq!(rfc3339(before), "1969-12-31T23:59:59.999999999+00:00");
    let never = Timestamp { nanos: i128::MAX };
    assert!(!never.is_calendar());
    assert!(matches!(timestamp_to_json(never), Json::Null));
}

#[test]
fn the_ends_of_the_calendar_are_written() {
    let first = chrono::DateTime::<chrono::Utc>::MIN_UTC;
    let last = chrono::DateTime::<chrono::Utc>::MAX_UTC;
    for date in [first, last] {
        let t = Timestamp {
            nanos: date.timestamp() as i128 * 1_000_000_000 + date.timestamp_subsec_nanos() as i128,
        };
        assert!(t.is_calendar());
        assert_eq!(rfc3339(t), date.to_rfc3339());
    }
    let past = Timestamp { nanos: (last.timestamp() as i128 + 1) * 1_000_000_000 };
    assert!(!past.is_calendar());
    let early = Timestamp { nanos: first.timestamp() as i128 * 1_000_000_000 - 1 };
    assert!(!early.is_calendar());
}

#[test]
fn times_add_up_and_stop_at_the_ends() {
    assert_eq!(at(5).plus_seconds(-7), at(-2));
    assert_eq!(at(600).minus_minutes(3), at(420));
    assert_eq!(at(5).millis_since(at(2)), 3_000);
    assert_eq!(at(2).secs_since(at(5)), -3);
    assert!(at(1).is_before(at(2)));
    assert!(!at(2).is_before(at(2)));
    assert!(!at(0).plus_seconds(i64::MAX).is_before(at(0)));
}

#[test]
fn the_clock_goes_forward() {
    let then = current_time();
    let now = current_time();
    assert!(!now.is_before(then));
    assert!(at(1_600_000_000).is_before(now));
}

#[test]
fn points_in_time_are_made_of_seconds_and_nanoseconds() {
    assert_eq!(Timestamp::joined(0, 0).nanos, 0);
    assert_eq!(Timestamp::joined(1_700_000_000, 5).nanos, 1_700_000_000_000_000_005);
    assert_eq!(Timestamp::joined(-1, 999_999_999).nanos, -1);
    assert_eq!(Timestamp::joined(-3, 250).split(), (-3, 250));
}

#[test]
fn expressions_see_their_variables() {
    let program = compile("flag && count + 2 == 5 && ratio * 2.0 > 1.0").expect("an expression");
    let inputs = vec![
        input("flag", Datum::Bool(true)),
        input("count", Datum::Int(3)),
        input("ratio", Datum::Number(d(0.6))),
    ];
    assert!(matches!(
        evaluate(&program, &inputs),
        Reply::Value { answer: Answer::Bool(true), .. }
    ));
    let program = compile("ratio").expect("an expression");
    match evaluate(&program, &inputs) {
        Reply::Value { answer: Answer::Number(x), .. } => assert_eq!(f(x), 0.6),
        other => panic!("{other:?}"),
    }
    assert!(matches!(
        evaluate(&program, &Vec::new()),
        Reply::Failure { .. }
    ));
}

#[test]
fn expressions_give_values_of_all_kinds() {
    let value_of = |source: &str| match evaluate(&compile(source).unwrap(), &Vec::new()) {
        Reply::Value { answer, .. } => answer,
        Reply::Failure { message } => panic!("{message}"),
    };
    assert!(matches!(value_of("1 + 2"), Answer::Int(3)));
    assert!(matches!(value_of("\"a\" + \"b\""), Answer::Text(s) if s == "ab"));
    assert!(matches!(value_of("null"), Answer::Null));
    assert!(matches!(value_of("[1, 2]"), Answer::Other));
    assert!(compile("1 +").is_err());
}

#[test]
fn prices_are_rounded_to_six_places() {
    assert_eq!(f(round_to_6dp(d(0.1234565))), (0.1234565f64 * 1_000_000.0).round() / 1_000_000.0);
    assert_eq!(f(round_to_6dp(d(2.0))), 2.0);
}

#[test]
fn the_same_quote_counts_once() {
    let quote = |source: &str, price: f64, n: i128| QuoteInput {
        source_id: source.to_string(),
        source_kind: "cex".to_string(),
        price: d(price),
        observed_at: at(n),
    };
    let mut quotes = Vec::new();
    for n in [10, 20, 30] {
        remember_quote(&mut quotes, quote("cex-a", n as f64, n), 3);
    }
    for q in [quote("cex-a", 20.0, 20), quote("cex-a", 5.0, 5), quote("cex-b", 1.0, 1)] {
        remember_quote(&mut quotes, q.copy(), 3);
        let once = format!("{quotes:?}");
        remember_quote(&mut quotes, q, 3);
        assert_eq!(format!("{quotes:?}"), once);
    }
    assert_eq!(quotes[0].history.len(), 3);
    assert_eq!(quotes[1].history.len(), 1);
}

#[test]
fn a_price_that_is_no_number_repeats_none() {
    let mut quotes = Vec::new();
    for _ in 0..2 {
        let quote = QuoteInput {
            source_id: "cex-a".to_string(),
            source_kind: "cex".to_string(),
            price: d(f64::NAN),
            observed_at: at(1),
        };
        remember_quote(&mut quotes, quote, 3);
    }
    assert_eq!(quotes[0].history.len(), 2);
}

#[test]
fn markets_seen_longest_ago_go() {
    let scope = |market: &str| MarketScope {
        tenant_id: "tenant-a".to_string(),
        market_key: market.to_string(),
        replay_scope: "__live__".to_string(),
    };
    let filled = || {
        let mut pattern = DepegPatternV2::default();
        pattern.quote_cache_max_keys = 3;
        for n in 1..6 {
            let mut quotes = Vec::new();
            let quote = QuoteInput {
                source_id: "cex-a".to_string(),
                source_kind: "cex".to_string(),
                price: d(1.0),
                observed_at: at(n),
            };
            remember_quote(&mut quotes, quote, 3);
            pattern.quote_cache.push(CachedMarket { scope: scope(&format!("M{n}")), quotes });
        }
        pattern
    };
    let left = |pattern: &DepegPatternV2| -> Vec<String> {
        pattern.quote_cache.iter().map(|m| m.scope.market_key.clone()).collect()
    };
    let mut pattern = filled();
    pattern.prune_quote_cache(at(10), &scope("M1"));
    assert_eq!(left(&pattern), vec!["M1", "M4", "M5"]);
    let mut pattern = filled();
    pattern.prune_quote_cache(at(10), &scope("elsewhere"));
    assert_eq!(left(&pattern), vec!["M3", "M4", "M5"]);
    let mut pattern = filled();
    pattern.prune_quote_cache(at(120 * 60 + 5), &scope("M2"));
    assert_eq!(left(&pattern), vec!["M2", "M5"]);
}

#[test]
fn flaws_are_told_with_their_lines() {
    let flaw = |line: i64, column: i64| SyntaxFlaw { line, column, message: "oops".to_string() };
    let source = "a +\r\nb\n";
    assert_eq!(describe_flaws(source, &Vec::new()), "");
    assert_eq!(
        describe_flaws(source, &vec![flaw(1, 3), flaw(2, 1)]),
        "ERROR: <input>:1:3: oops\n| a +\n| ..^\nERROR: <input>:2:1: oops\n| b\n| ^"
    );
    assert_eq!(describe_flaws(source, &vec![flaw(3, 1)]), "ERROR: <input>:3:1: oops");
    assert_eq!(describe_flaws(source, &vec![flaw(0, 0)]), "ERROR: <input>:0:0: oops");
    assert_eq!(describe_flaws(source, &vec![flaw(-1, -20)]), "ERROR: <input>:-1:-20: oops");
    assert_eq!(describe_flaws("b\r", &vec![flaw(1, 0)]), "ERROR: <input>:1:0: oops\n| b\r\n| ^");
    assert_eq!(describe_flaws("", &vec![flaw(1, 1)]), "ERROR: <input>:1:1: oops");
}

#[test]
fn what_is_no_expression_is_told_why() {
    for source in [
        "", "1 +", "deviation_pct >> 5", "a &&\r\n  b )", "(", "[1, 2", "x ? 1", "\"open", "a\n\nb\n",
        "a.b.", "{1: }", "'\\q'", "has(a)", "[1].map(x)", "\u{e9} + 1", "1 + + 2\n3 3",
    ] {
        let told = compile(source).expect_err("no expression");
        let said = cel::Program::compile(source).expect_err("no expression").to_string();
        assert_eq!(told, said);
        assert!(told.starts_with("ERROR: <input>:"));
    }
}

#[test]
fn a_flaw_far_to_the_right_is_told_too() {
    let source = format!("{}1 )", " ".repeat(70_000));
    let told = compile(&source).expect_err("no expression");
    assert!(told.starts_with("ERROR: <input>:1:70003: "));
    assert!(told.ends_with(&format!("\n| {}\n| {}^", source, ".".repeat(70_002))));
}
