use detector::double::Double;
use detector::event::AttackFamily;
use detector::event::Chain;
use detector::event::Severity;
use detector::event::SignalType;
use detector::event::SourceType;
use detector::event::UnifiedEvent;
use detector::flash_loan::build_detection;
use detector::flash_loan::detection_with_ids;
use detector::flash_loan::extract_flash_loan_indicators;
use detector::flash_loan::Cooldown;
use detector::flash_loan::FlashLoanConfig;
use detector::flash_loan::FlashLoanPattern;
use detector::flash_loan::FlashLoanRow;
use detector::flash_loan::FlashLoanState;
use detector::json::Json;
use detector::time::Timestamp;

fn d(x: f64) -> Double {
    Double { bits: x.to_bits() }
}

fn f(x: Double) -> f64 {
    f64::from_bits(x.bits)
}

fn from_value(v: &serde_json::Value) -> Json {
    match v {
        serde_json::Value::Null => Json::Null,
        serde_json::Value::Bool(b) => Json::Bool(*b),
        serde_json::Value::Number(n) => match (n.as_u64(), n.as_i64()) {
            (Some(n), _) => Json::UInt(n),
            (None, Some(n)) => Json::Int(n),
            (None, None) => Json::Float(d(n.as_f64().unwrap())),
        },
        serde_json::Value::String(s) => Json::Text(s.clone()),
        serde_json::Value::Array(v) => Json::List(v.iter().map(from_value).collect()),
        serde_json::Value::Object(m) => Json::Object(
            m.iter().map(|(k, v)| (k.clone(), from_value(v))).collect(),
        ),
    }
}

fn json(text: &str) -> Json {
    from_value(&serde_json::from_str(text).expect("a document"))
}

fn to_value(v: &Json) -> serde_json::Value {
    match v {
        Json::Null => serde_json::Value::Null,
        Json::Bool(b) => serde_json::Value::from(*b),
        Json::UInt(n) => serde_json::Value::from(*n),
        Json::Int(n) => serde_json::Value::from(*n),
        Json::Float(x) => serde_json::Value::from(f(*x)),
        Json::Text(s) => serde_json::Value::from(s.as_str()),
        Json::List(v) => serde_json::Value::Array(v.iter().map(to_value).collect()),
        Json::Object(m) => serde_json::Value::Object(
            m.iter().map(|(k, v)| (k.clone(), to_value(v))).collect(),
        ),
    }
}

fn document(text: &str) -> serde_json::Value {
    serde_json::from_str(text).expect("a document")
}

fn at(seconds: i128) -> Timestamp {
    Timestamp { nanos: seconds * 1_000_000_000 }
}

fn event(tenant_id: &str, payload: &str) -> UnifiedEvent {
    UnifiedEvent {
        event_id: "evt-1".to_string(),
        tenant_id: tenant_id.to_string(),
        source_id: "source-1".to_string(),
        source_type: SourceType::EvmChain,
        event_type: "transaction".to_string(),
        timestamp: at(1_000),
        payload: json(payload),
        chain_id: Some(8453),
        block_number: Some(77),
        tx_hash: Some("0xabc".to_string()),
        market_key: None,
        price: None,
    }
}

const LOAN: &str = r#"{
    "chain_slug": "base",
    "from": "0xsender",
    "flash_loan": {
        "loan_amount_usd": 250000,
        "profit_usd": 12345.5,
        "attacker_address": "0xattacker",
        "protocol": "aave-v3"
    }
}"#;

fn config(tenant_id: &str, min_loan: f64, profit: f64) -> FlashLoanRow {
    FlashLoanRow {
        tenant_id: tenant_id.to_string(),
        pattern_id: "flash_loan".to_string(),
        parsed: Some(FlashLoanConfig {
            tenant_id: String::new(),
            min_loan_amount_usd: d(min_loan),
            profit_threshold_usd: d(profit),
            cooldown_sec: 60,
            enabled: true,
        }),
    }
}

#[test]
fn indicators_are_read_from_the_sub_object() {
    let fl = extract_flash_loan_indicators(&json(LOAN)).expect("indicators");
    assert_eq!(f(fl.loan_amount_usd), 250_000.0);
    assert_eq!(f(fl.profit_usd), 12_345.5);
    assert_eq!(fl.attacker_address, "0xattacker");
    assert_eq!(fl.protocol, "aave-v3");
    assert_eq!(fl.chain, Chain::Base);
    assert_eq!(fl.chain_slug, "base");
}

#[test]
fn indicators_fall_back_to_the_payload() {
    let fl = extract_flash_loan_indicators(&json(
        r#"{"loan_amount_usd": 5, "from": "0xsender", "protocol": "euler"}"#,
    ))
    .expect("indicators");
    assert_eq!(f(fl.profit_usd), 0.0);
    assert_eq!(fl.attacker_address, "0xsender");
    assert_eq!(fl.protocol, "euler");
    assert_eq!(fl.chain, Chain::Unknown);
    assert_eq!(fl.chain_slug, "unknown");
    assert!(extract_flash_loan_indicators(&json(r#"{"profit_usd": 5}"#)).is_none());
    assert!(extract_flash_loan_indicators(&json(r#"{"loan_amount_usd": "5"}"#)).is_none());
}

#[test]
fn detection_describes_the_loan() {
    let fl = extract_flash_loan_indicators(&json(LOAN)).expect("indicators");
    let r = detection_with_ids(&event("tenant-a", LOAN), &fl, at(5), "id".to_string(), "nonce");
    assert_eq!(r.detection_id, "id");
    assert_eq!(r.event_key.as_deref(), Some("flash_loan:tenant-a:0xabc"));
    assert_eq!(
        r.description.as_deref(),
        Some(
            "Flash loan attack detected: $250000 borrowed from aave-v3, $12346 profit extracted by \
             0xattacker on base."
        )
    );
    assert_eq!(r.severity, Severity::High);
    assert_eq!(r.attack_family, AttackFamily::FlashLoan);
    assert_eq!(r.signals.len(), 2);
    assert_eq!(r.signals[0].signal_type, SignalType::LoanVolumeSpike);
    assert_eq!(r.signals[0].label.as_deref(), Some("loan $250000"));
    assert_eq!(r.signals[1].label.as_deref(), Some("profit $12346"));
    assert_eq!(r.block_number, 77);
    assert_eq!(r.created_at, at(5));
}

#[test]
fn detection_ids_are_fresh() {
    let fl = extract_flash_loan_indicators(&json(LOAN)).expect("indicators");
    let mut unnamed = event("tenant-a", LOAN);
    unnamed.tx_hash = None;
    let one = build_detection(&unnamed, &fl, at(5));
    let two = build_detection(&unnamed, &fl, at(5));
    assert!(uuid::Uuid::parse_str(&one.detection_id).is_ok());
    assert!(uuid::Uuid::parse_str(&one.tx_hash).is_ok());
    assert_ne!(one.detection_id, two.detection_id);
    assert_ne!(one.tx_hash, two.tx_hash);
}

#[test]
fn small_loans_and_profits_are_let_pass() {
    let mut pattern = FlashLoanPattern::default();
    pattern.reload_config(&vec![
        config("tenant-a", 250_000.0, 12_345.5),
        config("tenant-b", 250_000.5, 0.0),
        config("tenant-c", 0.0, 12_345.75),
    ]);
    assert!(pattern.screen(&event("tenant-a", LOAN)).is_some());
    assert!(pattern.screen(&event("tenant-b", LOAN)).is_none());
    assert!(pattern.screen(&event("tenant-c", LOAN)).is_none());
    assert!(pattern.screen(&event("tenant-d", LOAN)).is_none());
    let mut other = event("tenant-a", LOAN);
    other.source_type = SourceType::OracleApi;
    assert!(pattern.screen(&other).is_none());
}

#[test]
fn unreadable_configuration_gets_the_defaults() {
    let mut pattern = FlashLoanPattern::default();
    pattern.reload_config(&vec![
        FlashLoanRow {
            tenant_id: "tenant-a".to_string(),
            pattern_id: "flash_loan".to_string(),
            parsed: None,
        },
        FlashLoanRow {
            tenant_id: "tenant-b".to_string(),
            pattern_id: "dpeg".to_string(),
            parsed: None,
        },
    ]);
    assert_eq!(pattern.configs.len(), 1);
    let c = &pattern.configs[0].config;
    assert_eq!(c.tenant_id, "tenant-a");
    assert_eq!(f(c.min_loan_amount_usd), 100_000.0);
    assert_eq!(f(c.profit_threshold_usd), 1_000.0);
    assert_eq!(c.cooldown_sec, 300);
    assert!(c.enabled);
}

#[test]
fn disabled_tenants_are_not_watched() {
    let mut pattern = FlashLoanPattern::default();
    let mut row = config("tenant-a", 0.0, 0.0);
    row.parsed.as_mut().unwrap().enabled = false;
    pattern.reload_config(&vec![row]);
    assert!(pattern.screen(&event("tenant-a", LOAN)).is_none());
}

#[test]
fn an_address_cools_down() {
    let mut pattern = FlashLoanPattern::default();
    pattern.reload_config(&vec![config("tenant-a", 0.0, 0.0)]);
    let e = event("tenant-a", LOAN);
    let admission = pattern.screen(&e).expect("admitted");
    assert!(pattern.needs_state("tenant-a"));
    let first = pattern.judge(&e, &admission, None, at(0)).expect("reported");
    assert!(!pattern.needs_state("tenant-a"));
    assert_eq!(first.state.cooldowns.len(), 1);
    assert_eq!(first.state.cooldowns[0].until, at(60));
    assert_eq!(f(first.score), 12_345.5);
    assert_eq!(
        to_value(&first.snapshot),
        document(
            r#"{"loan_amount_usd": 250000.0, "profit_usd": 12345.5, "attacker_address": "0xattacker",
                "protocol": "aave-v3", "tx_hash": "0xabc"}"#
        )
    );
    assert!(pattern.judge(&e, &admission, None, at(59)).is_none());
    assert!(pattern.judge(&e, &admission, None, at(60)).is_some());
}

#[test]
fn remembered_cooldowns_hold() {
    let mut pattern = FlashLoanPattern::default();
    pattern.reload_config(&vec![config("tenant-a", 0.0, 0.0)]);
    let e = event("tenant-a", LOAN);
    let admission = pattern.screen(&e).expect("admitted");
    let loaded = FlashLoanState {
        cooldowns: vec![Cooldown { address: "0xattacker".to_string(), until: at(10) }],
    };
    assert!(pattern.judge(&e, &admission, Some(loaded), at(9)).is_none());
    assert!(pattern.judge(&e, &admission, None, at(10)).is_some());
}
