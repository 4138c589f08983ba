use detector::double::Double;
use detector::event::AttackFamily;
use detector::event::Chain;
use detector::event::Severity;
use detector::event::SignalType;
use detector::event::SourceType;
use detector::event::UnifiedEvent;
use detector::generic_rule::parse_compiled_rules;
use detector::generic_rule::report_of_response;
use detector::generic_rule::report_of_status;
use detector::generic_rule::request_at;
use detector::generic_rule::GenericRulePattern;
use detector::generic_rule::RuntimeAlert;
use detector::generic_rule::RuntimeExecuteResponse;
use detector::generic_rule::RuntimeMetrics;
use detector::generic_rule::RuntimeReport;
use detector::generic_rule::RuntimeStep;
use detector::json::Json;
use detector::settings::ConfigEntry;
use detector::time::Timestamp;

fn d(x: f64) -> Double {
    Double { bits: x.to_bits() }
}

fn f(x: Double) -> f64 {
    f64::from_bits(x.bits)
}

fn from_value(v: &serde_json::Value) -> Json {
    match v {
        serde_json::Value::Null => Json::Null,
        serde_json::Value::Bool(b) => Json::Bool(*b),
        serde_json::Value::Number(n) => match (n.as_u64(), n.as_i64()) {
            (Some(n), _) => Json::UInt(n),
            (None, Some(n)) => Json::Int(n),
            (None, None) => Json::Float(d(n.as_f64().unwrap())),
        },
        serde_json::Value::String(s) => Json::Text(s.clone()),
        serde_json::Value::Array(v) => Json::List(v.iter().map(from_value).collect()),
        serde_json::Value::Object(m) => Json::Object(
            m.iter().map(|(k, v)| (k.clone(), from_value(v))).collect(),
        ),
    }
}

fn json(text: &str) -> Json {
    from_value(&serde_json::from_str(text).expect("a document"))
}

fn to_value(v: &Json) -> serde_json::Value {
    match v {
        Json::Null => serde_json::Value::Null,
        Json::Bool(b) => serde_json::Value::from(*b),
        Json::UInt(n) => serde_json::Value::from(*n),
        Json::Int(n) => serde_json::Value::from(*n),
        Json::Float(x) => serde_json::Value::from(f(*x)),
        Json::Text(s) => serde_json::Value::from(s.as_str()),
        Json::List(v) => serde_json::Value::Array(v.iter().map(to_value).collect()),
        Json::Object(m) => serde_json::Value::Object(
            m.iter().map(|(k, v)| (k.clone(), to_value(v))).collect(),
        ),
    }
}

fn document(text: &str) -> serde_json::Value {
    serde_json::from_str(text).expect("a document")
}

fn at(seconds: i128) -> Timestamp {
    Timestamp { nanos: seconds * 1_000_000_000 }
}

fn event(tenant_id: &str, payload: &str) -> UnifiedEvent {
    UnifiedEvent {
        event_id: "evt-1".to_string(),
        tenant_id: tenant_id.to_string(),
        source_id: "source-1".to_string(),
        source_type: SourceType::EvmChain,
        event_type: "transaction".to_string(),
        timestamp: at(1_000),
        payload: json(payload),
        chain_id: Some(8453),
        block_number: Some(77),
        tx_hash: Some("0xabc".to_string()),
        market_key: None,
        price: None,
    }
}

const RULES: &str = r#"{"rules": [
    {"rule_id": " r1 ", "rule_version": 3, "language": "python",
     "compiled_artifact": {"engine": "python-sandbox-v1", "code": "x"}, "authoring_model": {"a": 1}},
    {"rule_id": "", "compiled_artifact": {"engine": "js-sandbox-v1"}},
    {"rule_id": "r2", "compiled_artifact": {"engine": "native"}},
    {"rule_id": "r3"},
    "r4",
    {"rule_id": "r5", "compiled_artifact": {"engine": "js-sandbox-v1"}}
]}"#;

fn entry(tenant_id: &str, pattern_id: &str) -> ConfigEntry {
    ConfigEntry {
        tenant_id: tenant_id.to_string(),
        pattern_id: pattern_id.to_string(),
        config: json(RULES),
    }
}

fn report(ok: bool, alerts: Vec<RuntimeAlert>) -> RuntimeReport {
    RuntimeReport {
        ok,
        matched_alerts: alerts,
        state: json(r#"{"seen": 1}"#),
        trace: vec!["step".to_string()],
        metrics: RuntimeMetrics { execution_ms: 4, ops_count: 9 },
        error_code: None,
    }
}

fn alert(severity: &str) -> RuntimeAlert {
    RuntimeAlert {
        severity: severity.to_string(),
        title: "title".to_string(),
        reason: "reason".to_string(),
        payload: json(r#"{"k": 2}"#),
    }
}

#[test]
fn only_named_sandboxed_rules_are_kept() {
    let rules = parse_compiled_rules(&json(RULES));
    assert_eq!(rules.len(), 2);
    assert_eq!(rules[0].rule_id, "r1");
    assert_eq!(rules[0].version, Some(3));
    assert_eq!(rules[0].language, "python");
    assert_eq!(rules[0].engine, "python-sandbox-v1");
    assert_eq!(to_value(&rules[0].params), document(r#"{"a": 1}"#));
    assert_eq!(rules[1].rule_id, "r5");
    assert_eq!(rules[1].version, None);
    assert_eq!(rules[1].language, "cel");
    assert_eq!(to_value(&rules[1].params), document("{}"));
    assert!(parse_compiled_rules(&json("{}")).is_empty());
}

#[test]
fn addresses_and_tokens_are_cleaned() {
    let p = GenericRulePattern::with_runtime(Some(" http://runtime// "), Some("token-1"));
    assert_eq!(p.runtime_url.as_deref(), Some("http://runtime"));
    assert_eq!(p.runtime_token.as_deref(), Some("token-1"));
    let p = GenericRulePattern::with_runtime(Some(" / "), Some("  "));
    assert_eq!(p.runtime_url, None);
    assert_eq!(p.runtime_token, None);
}

#[test]
fn keys_name_their_parts() {
    assert_eq!(GenericRulePattern::state_key("p", "r"), "runtime:p:r");
    assert_eq!(GenericRulePattern::health_key("t", "p", "r"), "t:p:r");
}

#[test]
fn severities_and_scores_of_the_runtime() {
    for (text, severity, score) in [
        ("CRITICAL", Severity::Critical, 95.0),
        ("High", Severity::High, 80.0),
        ("medium", Severity::Medium, 60.0),
        ("low", Severity::Low, 35.0),
        ("info", Severity::Info, 10.0),
        ("odd", Severity::Medium, 60.0),
    ] {
        let s = GenericRulePattern::severity_from_runtime(text);
        assert_eq!(s, severity);
        assert_eq!(f(GenericRulePattern::risk_score_for_severity(&s)), score);
    }
}

#[test]
fn patterns_and_chains_are_named() {
    for (id, signal, family) in [
        ("dpeg", SignalType::PegDeviation, AttackFamily::PegDeviation),
        ("tvl_drop", SignalType::PriceDeviation, AttackFamily::LiquidationCascade),
        ("flash_loan", SignalType::NearMissPattern, AttackFamily::FlashLoan),
        ("custom", SignalType::NearMissPattern, AttackFamily::Unknown),
    ] {
        assert_eq!(GenericRulePattern::signal_type_for_pattern(id), signal);
        assert_eq!(GenericRulePattern::attack_family_for_pattern(id), family);
    }
    for (id, chain, slug) in [
        (Some(1), Chain::Ethereum, "ethereum"),
        (Some(42161), Chain::Arbitrum, "arbitrum"),
        (Some(10), Chain::Optimism, "optimism"),
        (Some(8453), Chain::Base, "base"),
        (Some(137), Chain::Polygon, "polygon"),
        (Some(43114), Chain::Avalanche, "avalanche"),
        (Some(56), Chain::BSC, "bsc"),
        (Some(5), Chain::Unknown, "unknown"),
        (None, Chain::Unknown, "unknown"),
    ] {
        let mut e = event("tenant-a", "{}");
        e.chain_id = id;
        let c = GenericRulePattern::chain_from_event(&e);
        assert_eq!(c, chain);
        assert_eq!(GenericRulePattern::chain_slug(&c), slug);
    }
}

#[test]
fn built_in_patterns_are_not_taken_in() {
    let mut p = GenericRulePattern::with_runtime(Some("http://runtime"), None);
    p.reload_config(&vec![
        entry("tenant-a", "dpeg"),
        entry("tenant-a", "flash_loan"),
        entry("tenant-a", "tvl_drop"),
        entry("tenant-a", "custom"),
        entry("tenant-b", "custom"),
    ]);
    let found = p.candidates(&event("tenant-a", "{}"));
    assert_eq!(found.len(), 2);
    assert!(found.iter().all(|c| c.pattern_id == "custom"));
    assert_eq!(found[0].rule.rule_id, "r1");
    assert_eq!(found[1].rule.rule_id, "r5");
    assert!(p.candidates(&event("tenant-c", "{}")).is_empty());
}

#[test]
fn requests_carry_the_event() {
    let mut p = GenericRulePattern::with_runtime(Some("http://runtime/"), Some("token-1"));
    p.reload_config(&vec![entry("tenant-a", "custom")]);
    let mut e = event("tenant-a", r#"{"x": 1, "price": "old"}"#);
    e.price = Some(d(0.5));
    let c = &p.candidates(&e)[0];
    let call = p.runtime_call(&c.pattern_id, &c.rule, &e, json("{}")).expect("a call");
    assert_eq!(call.url, "http://runtime/execute");
    assert_eq!(call.token.as_deref(), Some("token-1"));
    assert!(chrono::DateTime::parse_from_rfc3339(&call.request.now).is_ok());
    let r = request_at(&c.pattern_id, &c.rule, &e, json(r#"{"s": 1}"#), at(1_700_000_000));
    assert_eq!(r.now, "2023-11-14T22:13:20+00:00");
    assert_eq!(r.rule_version, Some(3));
    assert_eq!(to_value(&r.state), document(r#"{"s": 1}"#));
    assert_eq!(
        to_value(&r.event),
        document(
            r#"{"x": 1, "price": 0.5, "event_id": "evt-1", "event_type": "transaction",
                "source_id": "source-1", "block_number": 77, "tx_hash": "0xabc"}"#
        )
    );
}

#[test]
fn without_a_runtime_nothing_is_called() {
    let mut p = GenericRulePattern::with_runtime(None, None);
    p.reload_config(&vec![entry("tenant-a", "custom")]);
    let e = event("tenant-a", "{}");
    assert!(p.candidates(&e).is_empty());
    let rules = parse_compiled_rules(&json(RULES));
    let failure = p.runtime_call("custom", &rules[0], &e, json(r#"{"s": 1}"#)).unwrap_err();
    assert!(!failure.ok);
    assert_eq!(failure.error_code.as_deref(), Some("runtime_url_not_configured"));
    assert_eq!(failure.trace, vec!["runtime_url_not_configured".to_string()]);
    assert_eq!(to_value(&failure.state), document(r#"{"s": 1}"#));
}

#[test]
fn bad_replies_are_failures() {
    let r = report_of_status(503);
    assert!(!r.ok);
    assert_eq!(r.trace, vec!["http_status=503".to_string()]);
    assert_eq!(r.error_code.as_deref(), Some("runtime_http_error"));
    let r = report_of_response(RuntimeExecuteResponse { ok: false, runtime: report(true, vec![]) });
    assert!(!r.ok);
    assert_eq!(r.error_code.as_deref(), Some("runtime_response_not_ok"));
    let r = report_of_response(RuntimeExecuteResponse { ok: true, runtime: report(true, vec![]) });
    assert!(r.ok);
    assert_eq!(r.metrics.ops_count, 9);
}

#[test]
fn failures_are_news_only_the_first_time() {
    let mut p = GenericRulePattern::with_runtime(Some("http://runtime"), None);
    p.reload_config(&vec![entry("tenant-a", "custom")]);
    let e = event("tenant-a", "{}");
    let c = p.candidates(&e).remove(0);
    assert!(matches!(p.after_run(&e, &c, report(false, vec![])), RuntimeStep::Failed(true)));
    assert!(matches!(p.after_run(&e, &c, report(false, vec![])), RuntimeStep::Failed(false)));
    assert!(matches!(p.after_run(&e, &c, report(true, vec![])), RuntimeStep::Kept(_)));
    assert!(matches!(p.after_run(&e, &c, report(false, vec![])), RuntimeStep::Failed(true)));
}

#[test]
fn the_first_alert_is_reported() {
    let mut p = GenericRulePattern::with_runtime(Some("http://runtime"), None);
    p.reload_config(&vec![entry("tenant-a", "custom")]);
    let e = event("tenant-a", "{}");
    let c = p.candidates(&e).remove(0);
    let step = p.after_run(&e, &c, report(true, vec![alert("HIGH"), alert("low")]));
    let RuntimeStep::Reported(found) = step else {
        panic!("nothing reported");
    };
    assert_eq!(found.severity, "high");
    assert_eq!(f(found.score), 80.0);
    assert_eq!(found.snapshot_key, "r1:evt-1");
    assert_eq!(to_value(&found.state), document(r#"{"seen": 1}"#));
    assert_eq!(
        to_value(&found.snapshot),
        document(
            r#"{"rule_id": "r1", "engine": "python-sandbox-v1", "language": "python",
                "runtime_trace": ["step"], "runtime_metrics": {"execution_ms": 4, "ops_count": 9},
                "matched_alerts": [
                    {"severity": "HIGH", "title": "title", "reason": "reason", "payload": {"k": 2}},
                    {"severity": "low", "title": "title", "reason": "reason", "payload": {"k": 2}}
                ]}"#
        )
    );
    let detection = found.detection;
    assert_eq!(detection.pattern_id, "custom");
    assert_eq!(detection.severity, Severity::High);
    assert_eq!(detection.chain_slug, "base");
    assert_eq!(detection.description.as_deref(), Some("reason"));
    assert_eq!(f(detection.risk_score.confidence), 0.72);
    assert_eq!(detection.tx_hash, "0xabc");
    assert_eq!(detection.actions_recommended.len(), 2);
}
