use detector::double::Double;
use detector::event::AttackFamily;
use detector::event::Chain;
use detector::event::DetectionResult;
use detector::event::LifecycleState;
use detector::event::RiskScore;
use detector::event::Severity;
use detector::json::Json;
use detector::time::Timestamp;
use detector::worker::adapters::choose_adapter;
use detector::worker::adapters::legacy_base;
use detector::worker::adapters::legacy_ethereum;
use detector::worker::adapters::legacy_is_live;
use detector::worker::adapters::needs_legacy_adapters;
use detector::worker::adapters::plan_chain;
use detector::worker::adapters::AdapterDefaults;
use detector::worker::adapters::AdapterKind;
use detector::worker::adapters::ChainConfig;
use detector::worker::adapters::LegacyValues;
use detector::worker::adapters::ProtocolConfig;
use detector::worker::adapters::ProtocolEntry;
use detector::worker::alerts::alert_to_send;
use detector::worker::alerts::alert_with_id;
use detector::worker::options::after_batch;
use detector::worker::options::confirmation_depth_for_chain;
use detector::worker::options::confirmation_depth_setting;
use detector::worker::options::default_mock_prices;
use detector::worker::options::resolve_chain_ws_urls;
use detector::worker::options::resolve_legacy_ws_urls;
use detector::worker::options::run_mode;
use detector::worker::options::should_use_stream_mode;
use detector::worker::options::stream_options;
use detector::worker::options::RunMode;
use detector::worker::options::StreamMove;
use detector::worker::options::StreamValues;
use detector::worker::reference::default_oracle_pair_map;
use detector::worker::reference::enrich_reference_price;
use detector::worker::reference::load_oracle_pair_overrides;
use detector::worker::reference::normalize_address_key;
use detector::worker::reference::pair_to_look_up;
use detector::worker::reference::parse_reference_uniswap_pools;
use detector::worker::reference::plan_reference_price_provider;
use detector::worker::reference::resolve_reference_pair;
use detector::worker::reference::NormalizedEvent;
use detector::worker::reference::OraclePair;
use detector::worker::reference::ProviderValues;
use detector::worker::rules::chains_to_load;
use detector::worker::rules::discover_rule_files;
use detector::worker::rules::fallback_rule;
use detector::worker::rules::find_rules_repo_root;
use detector::worker::rules::load_rule_engine;
use detector::worker::rules::order_chains;
use detector::worker::rules::rules_root_candidates;
use detector::worker::rules::ChainDir;
use detector::worker::rules::DirContent;
use detector::worker::rules::DirEntry;
use detector::worker::rules::LoadedChain;
use detector::worker::rules::RuleFile;
use detector::worker::rules::RuleSource;

fn d(x: f64) -> Double {
    Double { bits: x.to_bits() }
}

fn f(x: Double) -> f64 {
    f64::from_bits(x.bits)
}

fn pair_of<'a>(pairs: &'a Vec<OraclePair>, oracle: &str) -> Option<&'a str> {
    pairs.iter().find(|p| p.oracle == oracle).map(|p| p.pair.as_str())
}

fn file(name: &str) -> DirEntry {
    DirEntry { name: name.to_string(), content: DirContent::File }
}

fn dir(name: &str, entries: Vec<DirEntry>) -> DirEntry {
    DirEntry { name: name.to_string(), content: DirContent::Dir(entries) }
}

#[test]
fn stream_options_have_defaults() {
    let unset = StreamValues {
        batch_size: None,
        block_ms: Some("soon"),
        run_once: None,
        use_consumer_group: None,
        group: None,
        consumer: None,
        start_id: None,
        hostname: None,
    };
    let o = stream_options(&unset);
    assert_eq!(o.batch_size, 100);
    assert_eq!(o.block_ms, 1000);
    assert!(!o.run_once);
    assert!(o.use_consumer_group);
    assert_eq!(o.group, "detector-workers");
    assert_eq!(o.consumer, "detector-local");
    assert_eq!(o.start_id, "0-0");
}

#[test]
fn stream_options_follow_the_settings() {
    let set = StreamValues {
        batch_size: Some("7"),
        block_ms: Some("+250"),
        run_once: Some("TRUE"),
        use_consumer_group: Some("yes"),
        group: Some("g"),
        consumer: None,
        start_id: Some("5-1"),
        hostname: Some("host"),
    };
    let o = stream_options(&set);
    assert_eq!(o.batch_size, 7);
    assert_eq!(o.block_ms, 250);
    assert!(o.run_once);
    assert!(!o.use_consumer_group);
    assert_eq!(o.group, "g");
    assert_eq!(o.consumer, "detector-host");
    assert_eq!(o.start_id, "5-1");
}

#[test]
fn streams_are_read_until_they_need_not_be() {
    assert_eq!(after_batch(0, true), StreamMove::Stop);
    assert_eq!(after_batch(0, false), StreamMove::Wait);
    assert_eq!(after_batch(3, true), StreamMove::Stop);
    assert_eq!(after_batch(3, false), StreamMove::Continue);
    assert!(should_use_stream_mode(None));
    assert!(should_use_stream_mode(Some("1")));
    assert!(!should_use_stream_mode(Some("0")));
    assert_eq!(run_mode(true, true), RunMode::Stream);
    assert_eq!(run_mode(true, false), RunMode::AdaptersInstead);
    assert_eq!(run_mode(false, true), RunMode::Adapters);
}

#[test]
fn confirmation_depth_is_at_least_one() {
    assert_eq!(confirmation_depth_setting("ethereum"), "ETH_CONFIRMATION_DEPTH");
    assert_eq!(confirmation_depth_setting("base"), "BASE_CONFIRMATION_DEPTH");
    assert_eq!(confirmation_depth_setting("polygon"), "CONFIRMATION_DEPTH");
    assert_eq!(confirmation_depth_for_chain("ethereum", None), 3);
    assert_eq!(confirmation_depth_for_chain("base", Some("x")), 64);
    assert_eq!(confirmation_depth_for_chain("base", Some("0")), 1);
    assert_eq!(confirmation_depth_for_chain("polygon", Some("12")), 12);
}

#[test]
fn mock_prices_go_by_chain() {
    let shown = |slug| {
        let (a, b) = default_mock_prices(slug);
        (f(a), f(b))
    };
    assert_eq!(shown("ethereum"), (3280.0, 3120.0));
    assert_eq!(shown("base"), (3010.0, 3000.0));
    assert_eq!(shown("polygon"), (100.0, 99.0));
}

#[test]
fn addresses_are_listed_once() {
    assert_eq!(
        resolve_chain_ws_urls(&vec![
            Some(" ws://a ".to_string()),
            None,
            Some("  ".to_string()),
            Some("ws://b".to_string()),
            Some("ws://a".to_string()),
        ]),
        vec!["ws://a".to_string(), "ws://b".to_string()]
    );
    assert_eq!(
        resolve_legacy_ws_urls(Some("ws://a, ,ws://b,ws://a"), Some(" ws://c ")),
        vec!["ws://a".to_string(), "ws://b".to_string(), "ws://c".to_string()]
    );
    assert_eq!(resolve_legacy_ws_urls(None, Some("ws://c")), vec!["ws://c".to_string()]);
    assert!(resolve_legacy_ws_urls(None, None).is_empty());
}

#[test]
fn overrides_go_over_the_usual_pairs() {
    let usual = default_oracle_pair_map();
    assert_eq!(usual.len(), 3);
    let key = "0x5f4ec3df9cbd43714fe2740f5e3616155c5b8419";
    assert_eq!(pair_of(&usual, key), Some("ETH/USD"));
    let pairs = load_oracle_pair_overrides(Some(
        " \"0x5F4eC3Df9cbd43714FE2740f5E3616155c5b8419\" = stETH/USD ,,bad, 0xAB=X/USD,0xab= Y/USD ",
    ));
    assert_eq!(pair_of(&pairs, key), Some("stETH/USD"));
    assert_eq!(pair_of(&pairs, "0xab"), Some("Y/USD"));
    assert_eq!(pairs.len(), 4);
    assert_eq!(load_oracle_pair_overrides(None).len(), 3);
    assert_eq!(normalize_address_key(" \"0xAB\" "), "0xab");
}

#[test]
fn a_named_pair_goes_before_the_oracle() {
    let pairs = load_oracle_pair_overrides(Some("0xab=X/USD"));
    let mut event = NormalizedEvent {
        reference_price: None,
        metadata: vec![("oracle_address".to_string(), Json::Text(" 0xAB ".to_string()))],
    };
    assert_eq!(resolve_reference_pair(&event, &pairs).as_deref(), Some("X/USD"));
    event.metadata.push(("oracle_pair".to_string(), Json::Text("Z/USD".to_string())));
    assert_eq!(resolve_reference_pair(&event, &pairs).as_deref(), Some("Z/USD"));
    assert_eq!(pair_to_look_up(&event, true, &pairs).as_deref(), Some("Z/USD"));
    assert_eq!(pair_to_look_up(&event, false, &pairs), None);
    event.reference_price = Some(d(1.0));
    assert_eq!(pair_to_look_up(&event, true, &pairs), None);
}

#[test]
fn only_proper_prices_are_taken_over() {
    for bad in [0.0, -1.0, f64::NAN, f64::INFINITY] {
        let mut event = NormalizedEvent { reference_price: None, metadata: Vec::new() };
        assert!(!enrich_reference_price(&mut event, "ETH/USD", d(bad)));
        assert!(event.reference_price.is_none());
        assert!(event.metadata.is_empty());
    }
    let mut event = NormalizedEvent { reference_price: None, metadata: Vec::new() };
    assert!(enrich_reference_price(&mut event, "ETH/USD", d(3000.5)));
    assert_eq!(event.reference_price.map(f), Some(3000.5));
    assert_eq!(event.metadata.len(), 2);
    assert!(matches!(&event.metadata[0].1, Json::Text(s) if s == "ETH/USD"));
    assert!(matches!(&event.metadata[1].1, Json::Text(s) if s == "live_reference_price_provider"));
}

#[test]
fn pools_are_read_by_pair() {
    let a = "0x88e6a0c2ddd26feeb64f039a2c41296fcb3f5640";
    let raw = format!(" ETH/USD = {a} ,, bad, X/USD=0x12, BTC/USD={}", &a[2..]);
    let pools = parse_reference_uniswap_pools(Some(&raw));
    assert_eq!(pools.len(), 2);
    assert_eq!(pools[0].pair, "ETH/USD");
    let address: ethers::types::Address = a.parse().unwrap();
    assert_eq!(pools[0].address, address.as_bytes().to_vec());
    assert_eq!(pools[0].address[0], 0x88);
    assert_eq!(pools[1].pair, "BTC/USD");
    assert_eq!(pools[1].address, pools[0].address);
    assert!(parse_reference_uniswap_pools(None).is_empty());
}

#[test]
fn addresses_are_read_as_by_their_parser() {
    let digits = "88e6a0c2ddd26feeb64f039a2c41296fcb3f5640";
    let texts = [
        digits.to_string(),
        format!("0x{digits}"),
        format!("0X{digits}"),
        digits.to_uppercase(),
        format!("0x0x{digits}"),
        digits[2..].to_string(),
        format!("{digits}00"),
        digits.replace('e', "g"),
        format!("{} {}", &digits[..20], &digits[20..]),
        "0x".to_string(),
        String::new(),
    ];
    for text in texts {
        let pools = parse_reference_uniswap_pools(Some(&format!("P={text}")));
        match text.trim().parse::<ethers::types::Address>() {
            Ok(address) => {
                assert_eq!(pools.len(), 1, "{text:?}");
                assert_eq!(pools[0].address, address.as_bytes().to_vec(), "{text:?}");
            }
            Err(_) => assert!(pools.is_empty(), "{text:?}"),
        }
    }
}

#[test]
fn the_reference_provider_is_planned() {
    let unset = ProviderValues {
        enabled: None,
        binance: None,
        uniswap: None,
        reference_rpc_url: None,
        eth_rpc_url: Some("http://eth"),
        alchemy_url: Some("http://alchemy"),
        pools: None,
    };
    let plan = plan_reference_price_provider(&unset).expect("enabled");
    assert!(plan.binance_enabled);
    assert!(!plan.uniswap_enabled);
    assert_eq!(plan.http_rpc_url.as_deref(), Some("http://eth"));
    let off = ProviderValues { enabled: Some("0"), ..unset };
    assert!(plan_reference_price_provider(&off).is_none());
}

#[test]
fn rule_files_lie_under_protocols() {
    let root = vec![
        dir(
            "base",
            vec![
                dir("Protocols", vec![file("b.yml"), file("A.YAML"), file("notes.txt"), file(".yaml")]),
                file("chain_config.yaml"),
            ],
        ),
        dir("arbitrum", vec![dir("protocols", vec![dir("x", vec![file("r.yaml")])])]),
        file("top.yaml"),
    ];
    let paths: Vec<String> =
        discover_rule_files(Some(&root)).iter().map(|r| r.path.join("/")).collect();
    assert_eq!(
        paths,
        vec![
            "arbitrum/protocols/x/r.yaml".to_string(),
            "base/Protocols/A.YAML".to_string(),
            "base/Protocols/b.yml".to_string(),
        ]
    );
    assert!(discover_rule_files(None).is_empty());
}

#[test]
fn complete_chains_are_loaded_in_order() {
    let dirs = vec![
        ChainDir { is_dir: true, has_chain_config: true, has_protocol_config: true },
        ChainDir { is_dir: true, has_chain_config: true, has_protocol_config: false },
        ChainDir { is_dir: false, has_chain_config: true, has_protocol_config: true },
        ChainDir { is_dir: true, has_chain_config: false, has_protocol_config: true },
        ChainDir { is_dir: true, has_chain_config: true, has_protocol_config: true },
    ];
    assert_eq!(chains_to_load(&dirs), vec![0, 4]);
    let ordered = order_chains(vec![
        LoadedChain { chain_slug: "ethereum".to_string(), place: 0 },
        LoadedChain { chain_slug: "base".to_string(), place: 1 },
    ]);
    assert_eq!(ordered[0].chain_slug, "base");
    assert_eq!(ordered[1].place, 0);
}

#[test]
fn the_rules_repository_is_looked_for() {
    assert_eq!(
        rules_root_candidates(Some("/rules")),
        vec![
            "/rules".to_string(),
            "../defi-surv-rules".to_string(),
            "../../defi-surv-rules".to_string(),
            "../../../defi-surv-rules".to_string(),
        ]
    );
    assert_eq!(rules_root_candidates(None).len(), 3);
    assert_eq!(find_rules_repo_root(&vec![false, true, true]), Some(1));
    assert_eq!(find_rules_repo_root(&vec![false]), None);
}

#[test]
fn without_rule_files_there_is_a_rule() {
    let RuleSource::Fallback(rule) = load_rule_engine(Vec::new()) else {
        panic!("files out of nowhere");
    };
    assert_eq!(rule.id, "oracle-divergence-default");
    assert_eq!(rule.conditions.len(), 1);
    assert_eq!(f(rule.conditions[0].1), 5.0);
    assert_eq!(rule.window_ms, 60_000);
    assert_eq!(rule.id, fallback_rule().id);
    let files = vec![RuleFile { path: vec!["protocols".to_string(), "a.yaml".to_string()] }];
    assert!(matches!(load_rule_engine(files), RuleSource::Files(v) if v.len() == 1));
}

fn chain(slug: &str, family: &str) -> ChainConfig {
    ChainConfig {
        chain_slug: slug.to_string(),
        family: family.to_string(),
        ws_url_env: "WS".to_string(),
        lookback_blocks: Some(20),
        default_oracle_decimals: None,
    }
}

fn protocol(name: &str, enabled: bool, oracles: Vec<String>) -> ProtocolEntry {
    ProtocolEntry {
        protocol: name.to_string(),
        enabled,
        ws_url_env: Some("OTHER".to_string()),
        oracle_decimals: None,
        oracle_addresses: oracles,
    }
}

#[test]
fn enabled_protocols_are_bound() {
    let defaults = AdapterDefaults { lookback_blocks: 5, oracle_decimals: 8 };
    let protocols = ProtocolConfig {
        lookback_blocks: Some(30),
        default_oracle_decimals: Some(6),
        protocols: vec![
            protocol("aave", true, Vec::new()),
            protocol("off", false, vec!["0x1".to_string()]),
            protocol("euler", true, vec!["0x1".to_string()]),
        ],
    };
    let plan = plan_chain(&chain("ethereum", "EVM"), &protocols, None, None, defaults).expect("a plan");
    assert_eq!(plan.lookback_blocks, 20);
    assert_eq!(plan.protocols.len(), 2);
    assert_eq!(plan.protocols[0].place, 0);
    assert_eq!(plan.protocols[0].oracle_decimals, 6);
    assert!(plan.protocols[0].usual_oracles);
    assert!(plan.protocols[0].ignored_setting);
    assert_eq!(plan.protocols[1].place, 2);
    assert!(!plan.protocols[1].usual_oracles);
    let plan = plan_chain(&chain("ethereum", "evm"), &protocols, Some(9), Some(2), defaults).unwrap();
    assert_eq!(plan.lookback_blocks, 9);
    assert_eq!(plan.protocols[1].oracle_decimals, 2);
    assert!(plan_chain(&chain("solana", "svm"), &protocols, None, None, defaults).is_none());
}

#[test]
fn adapters_go_by_what_is_there() {
    assert_eq!(choose_adapter(0, 3), AdapterKind::Absent);
    assert_eq!(choose_adapter(2, 0), AdapterKind::Mock);
    assert_eq!(choose_adapter(2, 1), AdapterKind::Live);
    assert!(needs_legacy_adapters(0));
    assert!(!needs_legacy_adapters(1));
}

#[test]
fn legacy_adapters_have_defaults() {
    let unset = LegacyValues { protocol: None, confirmation_depth: None, ws_urls: None, ws_url: None };
    let eth = legacy_ethereum(&unset);
    assert_eq!((eth.chain_slug, eth.chain_id, eth.protocol.as_str()), ("ethereum", 1, "aave-v3"));
    assert_eq!(eth.confirmation_depth, 3);
    assert_eq!((f(eth.oracle_price), f(eth.reference_price)), (3280.0, 3120.0));
    assert!(!legacy_is_live(&eth, 3, true));
    let set = LegacyValues {
        protocol: Some("perps"),
        confirmation_depth: Some("5"),
        ws_urls: Some("ws://a"),
        ws_url: None,
    };
    let base = legacy_base(&set);
    assert_eq!((base.chain_slug, base.chain_id, base.protocol.as_str()), ("base", 8453, "perps"));
    assert_eq!(base.confirmation_depth, 5);
    assert!(legacy_is_live(&base, 1, false));
    assert!(!legacy_is_live(&base, 0, false));
}

fn detection(rules: Vec<String>) -> DetectionResult {
    DetectionResult {
        detection_id: "d-1".to_string(),
        pattern_id: "p".to_string(),
        event_key: Some("key".to_string()),
        subject_type: None,
        subject_key: None,
        tenant_id: Some("tenant-a".to_string()),
        chain: Chain::Base,
        chain_slug: "base".to_string(),
        protocol: "aave".to_string(),
        lifecycle_state: LifecycleState::Confirmed,
        requires_confirmation: false,
        attack_family: AttackFamily::Unknown,
        severity: Severity::High,
        tx_hash: "0xabc".to_string(),
        block_number: 9,
        triggered_rule_ids: rules,
        description: None,
        signals: Vec::new(),
        risk_score: RiskScore {
            score: d(80.0),
            confidence: d(0.5),
            rationale: Vec::new(),
            attribution: vec!["who".to_string()],
        },
        incident_transition: None,
        context_classification: None,
        confidence_breakdown: Vec::new(),
        oracle_context: vec![("k".to_string(), Json::Bool(true))],
        actions_recommended: vec!["act".to_string()],
        is_simulated: false,
        simulation_run_id: None,
        detected_at: None,
        created_at: Timestamp { nanos: 0 },
    }
}

#[test]
fn alerts_carry_the_detection() {
    let found = detection(vec!["r1".to_string()]);
    let a = alert_with_id(&found, "a-1".to_string(), Timestamp { nanos: 7 });
    assert_eq!(a.alert_id, "a-1");
    assert_eq!(a.event_key.as_deref(), Some("key"));
    assert_eq!(a.dedup_key.as_deref(), Some("key"));
    assert_eq!(a.incident_id, None);
    assert_eq!(f(a.risk_score), 80.0);
    assert_eq!(f(a.confidence), 0.5);
    assert_eq!(a.rule_ids, vec!["r1".to_string()]);
    assert_eq!(a.channel_routes.join(","), "webhook,slack,telegram,discord");
    assert_eq!(a.attribution, vec!["who".to_string()]);
    assert!(a.blast_radius.is_empty());
    assert_eq!(a.created_at, Timestamp { nanos: 7 });
}

#[test]
fn alerts_are_sent_only_for_triggered_rules() {
    assert!(alert_to_send(&detection(Vec::new()), true).is_none());
    assert!(alert_to_send(&detection(vec!["r1".to_string()]), false).is_none());
    let sent = alert_to_send(&detection(vec!["r1".to_string()]), true).expect("an alert");
    assert!(uuid::Uuid::parse_str(&sent.alert_id).is_ok());
    assert_eq!(sent.alert_id.len(), 36);
    assert_eq!(sent.alert_id.chars().nth(14), Some('4'));
}
