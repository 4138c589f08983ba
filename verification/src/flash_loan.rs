//! Detection of profit taken by flash loans.

use vstd::prelude::*;
use vstd::string::StringExecFns;

use crate::aggregation::double;
use crate::assoc::is_place;
use crate::assoc::lemma_lookup;
use crate::assoc::lemma_put;
use crate::assoc::lookup;
use crate::assoc::put;
use crate::digits::fixed;
use crate::digits::fixed_text;
use crate::double::Double;
use crate::event::chain_from_slug;
use crate::event::chain_of_slug;
use crate::event::numbers_view;
use crate::event::signals_view;
use crate::event::AttackFamily;
use crate::event::Chain;
use crate::event::DetectionResult;
use crate::event::DetectionSignal;
use crate::event::DetectionView;
use crate::event::LifecycleState;
use crate::event::RiskScore;
use crate::event::RiskView;
use crate::event::Severity;
use crate::event::SignalType;
use crate::event::SignalView;
use crate::event::SourceType;
use crate::event::UnifiedEvent;
use crate::json::add_member;
use crate::json::either;
use crate::json::either_of;
use crate::json::member_number;
use crate::json::member_text;
use crate::json::members_view;
use crate::json::number_in;
use crate::json::number_json;
use crate::json::optional_text_json;
use crate::json::text_in;
use crate::json::Json;
use crate::json::JsonView;
use crate::outside::fresh_id;
use crate::outside::is_id;
use crate::text::join;
use crate::text::one_text;
use crate::text::same;
use crate::text::text_option;
use crate::text::texts;
use crate::time::Timestamp;

verus! {

/// The bits of 100000.0 and 1000.0.
pub const DEFAULT_MIN_LOAN_BITS: u64 = 0x40f8_6a00_0000_0000;

pub const DEFAULT_PROFIT_BITS: u64 = 0x408f_4000_0000_0000;

pub const DEFAULT_COOLDOWN_SEC: i64 = 300;

/// From which amounts on a tenant wants to hear of flash loans.
#[derive(Clone, Debug)]
pub struct FlashLoanConfig {
    pub tenant_id: String,
    pub min_loan_amount_usd: Double,
    pub profit_threshold_usd: Double,
    pub cooldown_sec: i64,
    pub enabled: bool,
}

pub struct ConfigView {
    pub tenant_id: Seq<char>,
    pub min_loan_amount_usd: Double,
    pub profit_threshold_usd: Double,
    pub cooldown_sec: i64,
    pub enabled: bool,
}

impl View for FlashLoanConfig {
    type V = ConfigView;

    open spec fn view(&self) -> ConfigView {
        ConfigView {
            tenant_id: self.tenant_id@,
            min_loan_amount_usd: self.min_loan_amount_usd,
            profit_threshold_usd: self.profit_threshold_usd,
            cooldown_sec: self.cooldown_sec,
            enabled: self.enabled,
        }
    }
}

pub fn default_true() -> (r: bool)
    ensures
        r,
{
    true
}

/// The configuration of a tenant whose own cannot be read.
pub open spec fn default_config(tenant: Seq<char>) -> ConfigView {
    ConfigView {
        tenant_id: tenant,
        min_loan_amount_usd: double(DEFAULT_MIN_LOAN_BITS),
        profit_threshold_usd: double(DEFAULT_PROFIT_BITS),
        cooldown_sec: DEFAULT_COOLDOWN_SEC,
        enabled: true,
    }
}

/// The configuration of a tenant for a pattern, with what was read from it.
#[derive(Debug)]
pub struct FlashLoanRow {
    pub tenant_id: String,
    pub pattern_id: String,
    pub parsed: Option<FlashLoanConfig>,
}

/// The configuration that a row stands for, under the name of its tenant.
pub open spec fn config_of(r: FlashLoanRow) -> ConfigView {
    match r.parsed {
        Some(c) => ConfigView { tenant_id: r.tenant_id@, ..c@ },
        None => default_config(r.tenant_id@),
    }
}

/// The configurations of the tenants of the first `n` rows.
pub open spec fn configs_after(rows: Seq<FlashLoanRow>, n: nat) -> Seq<(Seq<char>, ConfigView)>
    decreases n,
{
    if n == 0 {
        Seq::<(Seq<char>, ConfigView)>::empty()
    } else {
        let before = configs_after(rows, (n - 1) as nat);
        let r = rows[n - 1];
        if r.pattern_id@ == "flash_loan"@ {
            put(before, r.tenant_id@, config_of(r))
        } else {
            before
        }
    }
}

/// Until when nothing more is reported of an address.
#[derive(Debug)]
pub struct Cooldown {
    pub address: String,
    pub until: Timestamp,
}

/// What is remembered of a tenant's attackers.
#[derive(Debug)]
pub struct FlashLoanState {
    pub cooldowns: Vec<Cooldown>,
}

/// Addresses and until when nothing more is reported of them.
pub type Cooldowns = Seq<(Seq<char>, Timestamp)>;

impl View for FlashLoanState {
    type V = Cooldowns;

    open spec fn view(&self) -> Cooldowns {
        cooldowns_view(self.cooldowns@)
    }
}

/// The contents of a list of cooldowns.
pub open spec fn cooldowns_view(v: Seq<Cooldown>) -> Cooldowns {
    v.map_values(|c: Cooldown| (c.address@, c.until))
}

impl Default for FlashLoanState {
    fn default() -> (r: Self)
        ensures
            r@ == Seq::<(Seq<char>, Timestamp)>::empty(),
    {
        let r = FlashLoanState { cooldowns: Vec::new() };
        assert(r@ =~= Seq::<(Seq<char>, Timestamp)>::empty());
        r
    }
}

/// Whether nothing is reported of an address for now.
pub open spec fn cooling(s: Cooldowns, address: Seq<char>, now: Timestamp) -> bool {
    lookup(s, address) matches Some(until) && now.before(until)
}

impl FlashLoanState {
    fn find(&self, address: &str) -> (i: usize)
        ensures
            is_place(self@, address@, i as int),
    {
        let mut i: usize = 0;
        while i < self.cooldowns.len() && !same(self.cooldowns[i].address.as_str(), address)
            invariant
                i <= self.cooldowns.len(),
                forall|k: int| 0 <= k < i ==> (#[trigger] self@[k]).0 != address@,
            decreases self.cooldowns.len() - i,
        {
            i = i + 1;
        }
        i
    }

    pub fn copy(&self) -> (r: FlashLoanState)
        ensures
            r@ == self@,
    {
        let mut cooldowns: Vec<Cooldown> = Vec::new();
        let mut i: usize = 0;
        assert(cooldowns_view(cooldowns@) =~= self@.take(0));
        while i < self.cooldowns.len()
            invariant
                i <= self.cooldowns.len(),
                cooldowns_view(cooldowns@) == self@.take(i as int),
            decreases self.cooldowns.len() - i,
        {
            let ghost before = cooldowns@;
            let c: &Cooldown = &self.cooldowns[i];
            cooldowns.push(Cooldown { address: c.address.clone(), until: c.until });
            assert(cooldowns_view(cooldowns@) =~= cooldowns_view(before).push(self@[i as int]));
            assert(self@.take(i + 1) =~= self@.take(i as int).push(self@[i as int]));
            i = i + 1;
        }
        assert(self@.take(i as int) =~= self@);
        FlashLoanState { cooldowns }
    }

    /// Whether nothing is reported of an address for now.
    pub fn is_cooling(&self, address: &str, now: Timestamp) -> (r: bool)
        ensures
            r == cooling(self@, address@, now),
    {
        let i: usize = self.find(address);
        proof {
            lemma_lookup(self@, address@, i as int);
        }
        i < self.cooldowns.len() && now.is_before(self.cooldowns[i].until)
    }

    /// Reports nothing more of an address until the given time.
    pub fn cool(&mut self, address: &str, until: Timestamp)
        ensures
            final(self)@ == put(old(self)@, address@, until),
    {
        let ghost before = self@;
        let i: usize = self.find(address);
        proof {
            lemma_put(before, address@, until, i as int);
        }
        let c = Cooldown { address: address.to_owned(), until };
        if i < self.cooldowns.len() {
            self.cooldowns.set(i, c);
            assert(self@ =~= before.update(i as int, (address@, until)));
        } else {
            self.cooldowns.push(c);
            assert(self@ =~= before.push((address@, until)));
        }
    }
}

// ---------------------------------------------------------------------------
// Indicators
// ---------------------------------------------------------------------------

/// What a transaction shows of a flash loan.
#[derive(Debug)]
pub struct FlashLoanIndicators {
    pub loan_amount_usd: Double,
    pub profit_usd: Double,
    pub attacker_address: String,
    pub protocol: String,
    pub chain: Chain,
    pub chain_slug: String,
}

pub struct IndicatorsView {
    pub loan_amount_usd: Double,
    pub profit_usd: Double,
    pub attacker_address: Seq<char>,
    pub protocol: Seq<char>,
    pub chain: Chain,
    pub chain_slug: Seq<char>,
}

impl View for FlashLoanIndicators {
    type V = IndicatorsView;

    open spec fn view(&self) -> IndicatorsView {
        IndicatorsView {
            loan_amount_usd: self.loan_amount_usd,
            profit_usd: self.profit_usd,
            attacker_address: self.attacker_address@,
            protocol: self.protocol@,
            chain: self.chain,
            chain_slug: self.chain_slug@,
        }
    }
}

/// A text, or `unknown` where there is none.
pub open spec fn known_text(v: Option<JsonView>) -> Seq<char> {
    match text_in(v) {
        Some(s) => s,
        None => "unknown"@,
    }
}

fn read_known(v: Option<&Json>) -> (r: String)
    ensures
        r@ == known_text(crate::json::found(v)),
{
    match member_text(v) {
        Some(s) => s.to_owned(),
        None => "unknown".to_owned(),
    }
}

/// The part of a payload that tells of the loan.
pub open spec fn loan_part(payload: JsonView) -> JsonView {
    match payload.get("flash_loan"@) {
        Some(part) => part,
        None => payload,
    }
}

/// What a payload shows of a flash loan, if it names the amount of one.
pub open spec fn indicators(payload: JsonView) -> Option<IndicatorsView> {
    let loan = loan_part(payload);
    match number_in(loan.get("loan_amount_usd"@)) {
        Some(amount) => Some(
            IndicatorsView {
                loan_amount_usd: amount,
                profit_usd: match number_in(loan.get("profit_usd"@)) {
                    Some(x) => x,
                    None => double(0),
                },
                attacker_address: known_text(
                    either(loan.get("attacker_address"@), payload.get("from"@)),
                ),
                protocol: known_text(either(loan.get("protocol"@), payload.get("protocol"@))),
                chain: chain_of_slug(known_text(payload.get("chain_slug"@))),
                chain_slug: known_text(payload.get("chain_slug"@)),
            },
        ),
        None => None,
    }
}

/// The contents of optional indicators.
pub open spec fn indicators_option(r: Option<FlashLoanIndicators>) -> Option<IndicatorsView> {
    match r {
        Some(r) => Some(r@),
        None => None,
    }
}

pub fn extract_flash_loan_indicators(payload: &Json) -> (r: Option<FlashLoanIndicators>)
    ensures
        indicators_option(r) == indicators(payload@),
{
    let loan: &Json = match payload.get("flash_loan") {
        Some(part) => part,
        None => payload,
    };
    let loan_amount_usd: Double = match member_number(loan.get("loan_amount_usd")) {
        Some(x) => x,
        None => {
            return None;
        },
    };
    let profit_usd: Double = match member_number(loan.get("profit_usd")) {
        Some(x) => x,
        None => Double { bits: 0 },
    };
    let chain_slug: String = read_known(payload.get("chain_slug"));
    Some(
        FlashLoanIndicators {
            loan_amount_usd,
            profit_usd,
            attacker_address: read_known(
                either_of(loan.get("attacker_address"), payload.get("from")),
            ),
            protocol: read_known(either_of(loan.get("protocol"), payload.get("protocol"))),
            chain: chain_from_slug(chain_slug.as_str()),
            chain_slug,
        },
    )
}

// ---------------------------------------------------------------------------
// Detections
// ---------------------------------------------------------------------------

/// What is said of a flash loan.
pub open spec fn description_of(f: IndicatorsView) -> Seq<char> {
    "Flash loan attack detected: $"@ + fixed(f.loan_amount_usd, 0) + " borrowed from "@ + f.protocol
        + ", $"@ + fixed(f.profit_usd, 0) + " profit extracted by "@ + f.attacker_address + " on "@
        + f.chain_slug + "."@
}

fn describe(f: &FlashLoanIndicators) -> (r: String)
    ensures
        r@ == description_of(f@),
{
    let mut r = "Flash loan attack detected: $".to_owned();
    r.append(fixed_text(f.loan_amount_usd, 0).as_str());
    r.append(" borrowed from ");
    r.append(f.protocol.as_str());
    r.append(", $");
    r.append(fixed_text(f.profit_usd, 0).as_str());
    r.append(" profit extracted by ");
    r.append(f.attacker_address.as_str());
    r.append(" on ");
    r.append(f.chain_slug.as_str());
    r.append(".");
    r
}

/// The transaction of an event, or a nonce where it has none.
pub open spec fn transaction_or(event: UnifiedEvent, nonce: Seq<char>) -> Seq<char> {
    match event.tx_hash {
        Some(s) => s@,
        None => nonce,
    }
}

/// The detection of a flash loan, with its identifier and the nonce of its transaction.
#[verifier::opaque]
pub open spec fn detection_of(
    event: UnifiedEvent,
    f: IndicatorsView,
    now: Timestamp,
    id: Seq<char>,
    nonce: Seq<char>,
) -> DetectionView {
    DetectionView {
        detection_id: id,
        pattern_id: "flash_loan"@,
        event_key: Some(
            "flash_loan:"@ + event.tenant_id@ + ":"@ + transaction_or(event, nonce),
        ),
        subject_type: Some("address"@),
        subject_key: Some(f.attacker_address),
        tenant_id: Some(event.tenant_id@),
        chain: f.chain,
        chain_slug: f.chain_slug,
        protocol: f.protocol,
        lifecycle_state: LifecycleState::Confirmed,
        requires_confirmation: false,
        attack_family: AttackFamily::FlashLoan,
        severity: Severity::High,
        tx_hash: transaction_or(event, nonce),
        block_number: match event.block_number {
            Some(n) => n,
            None => 0,
        },
        triggered_rule_ids: seq!["flash_loan.profit_threshold_exceeded"@],
        description: Some(description_of(f)),
        signals: seq![
            SignalView {
                signal_type: SignalType::LoanVolumeSpike,
                value: f.loan_amount_usd,
                label: Some("loan $"@ + fixed(f.loan_amount_usd, 0)),
                source_id: None,
            },
            SignalView {
                signal_type: SignalType::ProfitExtracted,
                value: f.profit_usd,
                label: Some("profit $"@ + fixed(f.profit_usd, 0)),
                source_id: None,
            },
        ],
        risk_score: RiskView {
            score: double(0),
            confidence: double(0),
            rationale: Seq::<Seq<char>>::empty(),
            attribution: Seq::<Seq<char>>::empty(),
        },
        incident_transition: None,
        context_classification: None,
        confidence_breakdown: Seq::<(Seq<char>, Double)>::empty(),
        oracle_context: Seq::<(Seq<char>, JsonView)>::empty(),
        actions_recommended: seq![
            "Pause affected protocol pools immediately."@,
            "Notify protocol team and security researchers."@,
        ],
        is_simulated: false,
        simulation_run_id: None,
        detected_at: None,
        created_at: now,
    }
}

/// Reports a flash loan under the given identifier and nonce.
pub fn detection_with_ids(
    event: &UnifiedEvent,
    f: &FlashLoanIndicators,
    now: Timestamp,
    id: String,
    nonce: &str,
) -> (r: DetectionResult)
    ensures
        r@ == detection_of(*event, f@, now, id@, nonce@),
{
    reveal(detection_of);
    let tx_hash: String = match &event.tx_hash {
        Some(s) => s.clone(),
        None => nonce.to_owned(),
    };
    let mut key = "flash_loan:".to_owned();
    key.append(event.tenant_id.as_str());
    key.append(":");
    key.append(tx_hash.as_str());
    let mut signals: Vec<DetectionSignal> = Vec::new();
    signals.push(
        DetectionSignal {
            signal_type: SignalType::LoanVolumeSpike,
            value: f.loan_amount_usd,
            label: Some(join("loan $", fixed_text(f.loan_amount_usd, 0).as_str())),
            source_id: None,
        },
    );
    signals.push(
        DetectionSignal {
            signal_type: SignalType::ProfitExtracted,
            value: f.profit_usd,
            label: Some(join("profit $", fixed_text(f.profit_usd, 0).as_str())),
            source_id: None,
        },
    );
    let mut actions: Vec<String> = Vec::new();
    actions.push("Pause affected protocol pools immediately.".to_owned());
    actions.push("Notify protocol team and security researchers.".to_owned());
    let r = DetectionResult {
        detection_id: id,
        pattern_id: "flash_loan".to_owned(),
        event_key: Some(key),
        subject_type: Some("address".to_owned()),
        subject_key: Some(f.attacker_address.clone()),
        tenant_id: Some(event.tenant_id.clone()),
        chain: f.chain,
        chain_slug: f.chain_slug.clone(),
        protocol: f.protocol.clone(),
        lifecycle_state: LifecycleState::Confirmed,
        requires_confirmation: false,
        attack_family: AttackFamily::FlashLoan,
        severity: Severity::High,
        tx_hash,
        block_number: event.block_number.unwrap_or(0),
        triggered_rule_ids: one_text("flash_loan.profit_threshold_exceeded".to_owned()),
        description: Some(describe(f)),
        signals,
        risk_score: RiskScore {
            score: Double { bits: 0 },
            confidence: Double { bits: 0 },
            rationale: Vec::new(),
            attribution: Vec::new(),
        },
        incident_transition: None,
        context_classification: None,
        confidence_breakdown: Vec::new(),
        oracle_context: Vec::new(),
        actions_recommended: actions,
        is_simulated: false,
        simulation_run_id: None,
        detected_at: None,
        created_at: now,
    };
    proof {
        let d = detection_of(*event, f@, now, id@, nonce@);
        assert(signals_view(r.signals@) =~= d.signals);
        assert(numbers_view(r.confidence_breakdown@) =~= d.confidence_breakdown);
        assert(members_view(r.oracle_context@) =~= d.oracle_context);
        assert(texts(r.actions_recommended@) =~= d.actions_recommended);
        assert(texts(r.risk_score.attribution@) =~= Seq::<Seq<char>>::empty());
        assert(texts(r.risk_score.rationale@) =~= Seq::<Seq<char>>::empty());
    }
    r
}

/// Reports a flash loan.
pub fn build_detection(event: &UnifiedEvent, f: &FlashLoanIndicators, now: Timestamp) -> (r:
    DetectionResult)
    ensures
        exists|id: Seq<char>, nonce: Seq<char>|
            is_id(id) && is_id(nonce) && r@ == #[trigger] detection_of(*event, f@, now, id, nonce),
{
    let id: String = fresh_id();
    let nonce: String = fresh_id();
    detection_with_ids(event, f, now, id, nonce.as_str())
}

/// The snapshot of a flash loan.
pub open spec fn snapshot_of(event: UnifiedEvent, f: IndicatorsView) -> JsonView {
    JsonView::Object(
        seq![
            ("loan_amount_usd"@, number_json(f.loan_amount_usd)),
            ("profit_usd"@, number_json(f.profit_usd)),
            ("attacker_address"@, JsonView::Text(f.attacker_address)),
            ("protocol"@, JsonView::Text(f.protocol)),
            ("tx_hash"@, optional_text_json(text_option(event.tx_hash))),
        ],
    )
}

pub fn snapshot_document(event: &UnifiedEvent, f: &FlashLoanIndicators) -> (r: Json)
    ensures
        r@ == snapshot_of(*event, f@),
{
    let mut m: Vec<(String, Json)> = Vec::new();
    add_member(&mut m, "loan_amount_usd", Json::number(f.loan_amount_usd));
    add_member(&mut m, "profit_usd", Json::number(f.profit_usd));
    add_member(&mut m, "attacker_address", Json::text(f.attacker_address.as_str()));
    add_member(&mut m, "protocol", Json::text(f.protocol.as_str()));
    add_member(&mut m, "tx_hash", Json::optional_text(&event.tx_hash));
    assert(members_view(m@) =~= snapshot_of(*event, f@)->Object_0);
    Json::object(m)
}

// ---------------------------------------------------------------------------
// The pattern
// ---------------------------------------------------------------------------

/// What is remembered of a tenant.
#[derive(Debug)]
pub struct TenantState {
    pub tenant_id: String,
    pub state: FlashLoanState,
}

/// The configuration of a tenant, under its name.
#[derive(Debug)]
pub struct TenantConfig {
    pub tenant_id: String,
    pub config: FlashLoanConfig,
}

/// The pattern that looks for flash loans.
#[derive(Debug)]
pub struct FlashLoanPattern {
    pub configs: Vec<TenantConfig>,
    pub state_cache: Vec<TenantState>,
}

impl Default for FlashLoanPattern {
    fn default() -> (r: Self)
        ensures
            r.configs@.len() == 0,
            r.state_cache@.len() == 0,
    {
        FlashLoanPattern { configs: Vec::new(), state_cache: Vec::new() }
    }
}

/// Tenants and their configurations.
pub open spec fn configs_view(v: Seq<TenantConfig>) -> Seq<(Seq<char>, ConfigView)> {
    v.map_values(|t: TenantConfig| (t.tenant_id@, t.config@))
}

/// Tenants and what is remembered of them.
pub open spec fn states_view(v: Seq<TenantState>) -> Seq<(Seq<char>, Cooldowns)> {
    v.map_values(|t: TenantState| (t.tenant_id@, t.state@))
}

/// A flash loan that a tenant wants to hear of, unless the address cools down.
#[derive(Debug)]
pub struct Admission {
    pub indicators: FlashLoanIndicators,
    pub cooldown_sec: i64,
}

/// The flash loan in an event, and the tenant's cooldown, if the tenant wants to hear of it:
/// the event comes from a chain, detection is switched on, and the amounts are not too small.
pub open spec fn admitted(
    configs: Seq<(Seq<char>, ConfigView)>,
    event: UnifiedEvent,
) -> Option<(IndicatorsView, i64)> {
    match (lookup(configs, event.tenant_id@), indicators(event.payload@)) {
        (Some(c), Some(f)) => if event.source_type == SourceType::EvmChain && c.enabled
            && !f.loan_amount_usd.below(c.min_loan_amount_usd) && !f.profit_usd.below(
            c.profit_threshold_usd,
        ) {
            Some((f, c.cooldown_sec))
        } else {
            None
        },
        _ => None,
    }
}

/// The contents of an optional admission.
pub open spec fn admission_option(a: Option<Admission>) -> Option<(IndicatorsView, i64)> {
    match a {
        Some(a) => Some((a.indicators@, a.cooldown_sec)),
        None => None,
    }
}

/// What a flash loan leads to: a state and a snapshot to keep, and a detection to report.
#[derive(Debug)]
pub struct FlashLoanOutcome {
    pub state: FlashLoanState,
    pub snapshot: Json,
    pub score: Double,
    pub detection: DetectionResult,
}

/// What is remembered of a tenant, or else what was kept of it, or else nothing.
pub open spec fn known_cooldowns(
    states: Seq<(Seq<char>, Cooldowns)>,
    tenant: Seq<char>,
    loaded: Option<Cooldowns>,
) -> Cooldowns {
    match either(lookup(states, tenant), loaded) {
        Some(s) => s,
        None => Seq::<(Seq<char>, Timestamp)>::empty(),
    }
}

/// The contents of an optional state.
pub open spec fn state_option(s: Option<FlashLoanState>) -> Option<Cooldowns> {
    match s {
        Some(s) => Some(s@),
        None => None,
    }
}

/// Whether `r` is what a flash loan may lead to, given what is known of the tenant.
pub open spec fn may_follow(
    event: UnifiedEvent,
    f: IndicatorsView,
    cooldown_sec: i64,
    known: Cooldowns,
    now: Timestamp,
    r: Option<FlashLoanOutcome>,
) -> bool {
    if cooling(known, f.attacker_address, now) {
        r is None
    } else {
        &&& r is Some
        &&& r->0.state@ == put(known, f.attacker_address, now.after_seconds(cooldown_sec as int))
        &&& r->0.snapshot@ == snapshot_of(event, f)
        &&& r->0.score == f.profit_usd
        &&& exists|id: Seq<char>, nonce: Seq<char>|
            is_id(id) && is_id(nonce) && r->0.detection@ == #[trigger] detection_of(event, f, now, id, nonce)
    }
}

impl FlashLoanPattern {
    pub fn pattern_id(&self) -> (r: &'static str)
        ensures
            r@ == "flash_loan"@,
    {
        "flash_loan"
    }

    fn find_config(v: &Vec<TenantConfig>, tenant: &str) -> (i: usize)
        ensures
            is_place(configs_view(v@), tenant@, i as int),
    {
        let mut i: usize = 0;
        while i < v.len() && !same(v[i].tenant_id.as_str(), tenant)
            invariant
                i <= v.len(),
                forall|k: int| 0 <= k < i ==> (#[trigger] configs_view(v@)[k]).0 != tenant@,
            decreases v.len() - i,
        {
            i = i + 1;
        }
        i
    }

    fn find_state(&self, tenant: &str) -> (i: usize)
        ensures
            is_place(states_view(self.state_cache@), tenant@, i as int),
    {
        let v: &Vec<TenantState> = &self.state_cache;
        let mut i: usize = 0;
        while i < v.len() && !same(v[i].tenant_id.as_str(), tenant)
            invariant
                i <= v.len(),
                forall|k: int| 0 <= k < i ==> (#[trigger] states_view(v@)[k]).0 != tenant@,
            decreases v.len() - i,
        {
            i = i + 1;
        }
        i
    }

    fn set_config(v: &mut Vec<TenantConfig>, tenant_id: &str, config: FlashLoanConfig)
        ensures
            configs_view(final(v)@) == put(configs_view(old(v)@), tenant_id@, config@),
    {
        let ghost before = configs_view(v@);
        let i: usize = Self::find_config(v, tenant_id);
        proof {
            lemma_put(before, tenant_id@, config@, i as int);
        }
        let ghost shown = (tenant_id@, config@);
        let entry = TenantConfig { tenant_id: tenant_id.to_owned(), config };
        if i < v.len() {
            v.set(i, entry);
            assert(configs_view(v@) =~= before.update(i as int, shown));
        } else {
            v.push(entry);
            assert(configs_view(v@) =~= before.push(shown));
        }
    }

    /// Takes over the configuration of the tenants.
    pub fn reload_config(&mut self, rows: &Vec<FlashLoanRow>)
        ensures
            configs_view(final(self).configs@) == configs_after(rows@, rows@.len()),
            final(self).state_cache == old(self).state_cache,
    {
        let mut configs: Vec<TenantConfig> = Vec::new();
        let mut i: usize = 0;
        assert(configs_view(configs@) =~= Seq::<(Seq<char>, ConfigView)>::empty());
        while i < rows.len()
            invariant
                i <= rows.len(),
                configs_view(configs@) == configs_after(rows@, i as nat),
            decreases rows.len() - i,
        {
            let row: &FlashLoanRow = &rows[i];
            if same(row.pattern_id.as_str(), "flash_loan") {
                let config: FlashLoanConfig = match &row.parsed {
                    Some(c) => FlashLoanConfig {
                        tenant_id: row.tenant_id.clone(),
                        min_loan_amount_usd: c.min_loan_amount_usd,
                        profit_threshold_usd: c.profit_threshold_usd,
                        cooldown_sec: c.cooldown_sec,
                        enabled: c.enabled,
                    },
                    None => FlashLoanConfig {
                        tenant_id: row.tenant_id.clone(),
                        min_loan_amount_usd: Double { bits: DEFAULT_MIN_LOAN_BITS },
                        profit_threshold_usd: Double { bits: DEFAULT_PROFIT_BITS },
                        cooldown_sec: DEFAULT_COOLDOWN_SEC,
                        enabled: true,
                    },
                };
                Self::set_config(&mut configs, row.tenant_id.as_str(), config);
            }
            i = i + 1;
        }
        self.configs = configs;
    }

    /// The flash loan in an event, if its tenant wants to hear of it.
    pub fn screen(&self, event: &UnifiedEvent) -> (r: Option<Admission>)
        ensures
            admission_option(r) == admitted(configs_view(self.configs@), *event),
    {
        if event.source_type != SourceType::EvmChain {
            return None;
        }
        let i: usize = Self::find_config(&self.configs, event.tenant_id.as_str());
        proof {
            lemma_lookup(configs_view(self.configs@), event.tenant_id@, i as int);
        }
        if i >= self.configs.len() {
            return None;
        }
        let config: &FlashLoanConfig = &self.configs[i].config;
        if !config.enabled {
            return None;
        }
        match extract_flash_loan_indicators(&event.payload) {
            Some(f) => {
                if f.loan_amount_usd.lt(config.min_loan_amount_usd) || f.profit_usd.lt(
                    config.profit_threshold_usd,
                ) {
                    None
                } else {
                    Some(Admission { indicators: f, cooldown_sec: config.cooldown_sec })
                }
            },
            None => None,
        }
    }

    /// Whether nothing is remembered of a tenant yet, so that what was kept of it has to be
    /// loaded.
    pub fn needs_state(&self, tenant_id: &str) -> (r: bool)
        ensures
            r == (lookup(states_view(self.state_cache@), tenant_id@) is None),
    {
        let i: usize = self.find_state(tenant_id);
        proof {
            lemma_lookup(states_view(self.state_cache@), tenant_id@, i as int);
        }
        i >= self.state_cache.len()
    }

    /// Judges a flash loan that a tenant wants to hear of, with what was kept of the tenant
    /// where nothing is remembered yet.
    pub fn judge(
        &mut self,
        event: &UnifiedEvent,
        admission: &Admission,
        loaded: Option<FlashLoanState>,
        now: Timestamp,
    ) -> (r: Option<FlashLoanOutcome>)
        ensures
            ({
                let states = states_view(old(self).state_cache@);
                let tenant = event.tenant_id@;
                let known = known_cooldowns(states, tenant, state_option(loaded));
                &&& may_follow(
                    *event,
                    admission.indicators@,
                    admission.cooldown_sec,
                    known,
                    now,
                    r,
                )
                &&& states_view(final(self).state_cache@) == put(
                    states,
                    tenant,
                    match r {
                        Some(o) => o.state@,
                        None => known,
                    },
                )
            }),
            final(self).configs == old(self).configs,
    {
        let ghost states = states_view(self.state_cache@);
        let ghost tenant = event.tenant_id@;
        let f: &FlashLoanIndicators = &admission.indicators;
        let i: usize = self.find_state(event.tenant_id.as_str());
        proof {
            lemma_lookup(states, tenant, i as int);
        }
        let mut state: FlashLoanState = if i < self.state_cache.len() {
            self.state_cache[i].state.copy()
        } else {
            match loaded {
                Some(s) => s,
                None => FlashLoanState::default(),
            }
        };
        let ghost known = state@;
        assert(known == known_cooldowns(states, tenant, state_option(loaded)));
        let cools: bool = state.is_cooling(f.attacker_address.as_str(), now);
        if !cools {
            state.cool(
                f.attacker_address.as_str(),
                now.plus_seconds(admission.cooldown_sec),
            );
        }
        let ghost next = state@;
        proof {
            lemma_put(states, tenant, next, i as int);
        }
        let kept: FlashLoanState = state.copy();
        let entry = TenantState { tenant_id: event.tenant_id.clone(), state };
        if i < self.state_cache.len() {
            self.state_cache.set(i, entry);
            assert(states_view(self.state_cache@) =~= states.update(i as int, (tenant, next)));
        } else {
            self.state_cache.push(entry);
            assert(states_view(self.state_cache@) =~= states.push((tenant, next)));
        }
        if cools {
            return None;
        }
        Some(
            FlashLoanOutcome {
                state: kept,
                snapshot: snapshot_document(event, f),
                score: f.profit_usd,
                detection: build_detection(event, f, now),
            },
        )
    }
}

// ---------------------------------------------------------------------------
// Laws
// ---------------------------------------------------------------------------

/// Once a flash loan of an address is reported, nothing more is reported of the address until
/// the cooldown is over; other addresses are not held back by it.
pub proof fn law_cooldown_holds_back_one_address(
    known: Cooldowns,
    address: Seq<char>,
    other: Seq<char>,
    until: Timestamp,
    now: Timestamp,
)
    ensures
        cooling(put(known, address, until), address, now) == now.before(until),
        other != address ==> cooling(put(known, address, until), other, now) == cooling(
            known,
            other,
            now,
        ),
{
    crate::assoc::law_lookup_after_put(known, address, until, other);
}

/// Only configured tenants that switched detection on hear of flash loans, and only of those
/// that reach both of their thresholds.
pub proof fn law_thresholds_gate_detections(
    configs: Seq<(Seq<char>, ConfigView)>,
    event: UnifiedEvent,
)
    ensures
        admitted(configs, event) matches Some(a) ==> {
            &&& event.source_type == SourceType::EvmChain
            &&& lookup(configs, event.tenant_id@) matches Some(c) && {
                &&& c.enabled
                &&& !a.0.loan_amount_usd.below(c.min_loan_amount_usd)
                &&& !a.0.profit_usd.below(c.profit_threshold_usd)
            }
        },
{
}

/// What is remembered of one tenant is not touched by what another tenant's events lead to.
pub proof fn law_tenants_are_remembered_apart(
    states: Seq<(Seq<char>, Cooldowns)>,
    tenant: Seq<char>,
    other: Seq<char>,
    s: Cooldowns,
)
    requires
        other != tenant,
    ensures
        lookup(put(states, tenant, s), other) == lookup(states, other),
{
    crate::assoc::law_lookup_after_put(states, tenant, s, other);
}

/// Whether `part` is where a payload tells of its loan: in the member of that name, or in the
/// payload itself where there is none.
pub open spec fn tells_of_loan(payload: JsonView, part: JsonView) -> bool {
    payload.get("flash_loan"@) == Some(part) || (payload.get("flash_loan"@) is None && part
        == payload)
}

/// A flash loan is seen exactly where the loan's part of a payload gives its amount as a
/// number; that is its amount, and its profit is the number given there, or zero.
pub proof fn law_amounts_are_those_of_the_loan(payload: JsonView, part: JsonView, n: int, x: Double)
    requires
        tells_of_loan(payload, part),
    ensures
        part.get("loan_amount_usd"@) is None ==> indicators(payload) is None,
        part.get("loan_amount_usd"@) == Some(JsonView::Null) ==> indicators(payload) is None,
        part.get("loan_amount_usd"@) matches Some(JsonView::Text(s)) ==> indicators(payload) is None,
        part.get("loan_amount_usd"@) == Some(JsonView::Float(x)) ==> (indicators(
            payload,
        ) matches Some(f) && f.loan_amount_usd == x),
        part.get("loan_amount_usd"@) == Some(JsonView::Whole(n)) ==> (indicators(
            payload,
        ) matches Some(f) && f.loan_amount_usd == crate::double::of_int(n)),
        indicators(payload) matches Some(f) ==> {
            &&& part.get("profit_usd"@) is None ==> f.profit_usd == double(0)
            &&& part.get("profit_usd"@) == Some(JsonView::Float(x)) ==> f.profit_usd == x
            &&& part.get("profit_usd"@) == Some(JsonView::Whole(n)) ==> f.profit_usd
                == crate::double::of_int(n)
        },
{
}

/// The attacker is the address that the loan's part of a payload names, or else the sender of
/// the transaction, wherever the loan is told of. It is unknown only where the one that
/// counts is no text, or where neither is there.
pub proof fn law_attacker_is_named_or_the_sender(
    payload: JsonView,
    part: JsonView,
    address: Seq<char>,
)
    requires
        tells_of_loan(payload, part),
        indicators(payload) is Some,
    ensures
        part.get("attacker_address"@) == Some(JsonView::Text(address)) ==> indicators(
            payload,
        )->0.attacker_address == address,
        part.get("attacker_address"@) is None && payload.get("from"@) == Some(
            JsonView::Text(address),
        ) ==> indicators(payload)->0.attacker_address == address,
        indicators(payload)->0.attacker_address != "unknown"@ ==> {
            let told = JsonView::Text(indicators(payload)->0.attacker_address);
            ||| part.get("attacker_address"@) == Some(told)
            ||| part.get("attacker_address"@) is None && payload.get("from"@) == Some(told)
        },
        part.get("attacker_address"@) is None && payload.get("from"@) is None ==> indicators(
            payload,
        )->0.attacker_address == "unknown"@,
{
}

/// The protocol is the one that the loan's part of a payload names, or else the one that the
/// payload names, and the chain is the one that the payload names.
pub proof fn law_protocol_and_chain_are_named(payload: JsonView, part: JsonView, name: Seq<char>)
    requires
        tells_of_loan(payload, part),
        indicators(payload) is Some,
    ensures
        part.get("protocol"@) == Some(JsonView::Text(name)) ==> indicators(payload)->0.protocol
            == name,
        part.get("protocol"@) is None && payload.get("protocol"@) == Some(JsonView::Text(name))
            ==> indicators(payload)->0.protocol == name,
        part.get("protocol"@) is None && payload.get("protocol"@) is None ==> indicators(
            payload,
        )->0.protocol == "unknown"@,
        payload.get("chain_slug"@) == Some(JsonView::Text(name)) ==> indicators(
            payload,
        )->0.chain_slug == name && indicators(payload)->0.chain == chain_of_slug(name),
        payload.get("chain_slug"@) is None ==> indicators(payload)->0.chain_slug == "unknown"@,
{
}

/// A configured tenant that switched detection on hears of every flash loan on a chain that
/// reaches both of its thresholds, with its own cooldown.
pub proof fn law_reaching_both_thresholds_is_enough(
    configs: Seq<(Seq<char>, ConfigView)>,
    event: UnifiedEvent,
    c: ConfigView,
    f: IndicatorsView,
)
    requires
        event.source_type == SourceType::EvmChain,
        lookup(configs, event.tenant_id@) == Some(c),
        c.enabled,
        indicators(event.payload@) == Some(f),
        c.min_loan_amount_usd.at_most(f.loan_amount_usd),
        c.profit_threshold_usd.at_most(f.profit_usd),
    ensures
        admitted(configs, event) == Some((f, c.cooldown_sec)),
{
}

/// After a report, nothing more is reported of the attacker before the cooldown is over, and
/// the next attack after it is reported again. What is known of other addresses stays.
pub proof fn law_a_report_starts_the_cooldown(
    event: UnifiedEvent,
    f: IndicatorsView,
    cooldown_sec: i64,
    known: Cooldowns,
    now: Timestamp,
    first: FlashLoanOutcome,
    again: UnifiedEvent,
    g: IndicatorsView,
    later: Timestamp,
    r: Option<FlashLoanOutcome>,
)
    requires
        may_follow(event, f, cooldown_sec, known, now, Some(first)),
        may_follow(again, g, cooldown_sec, first.state@, later, r),
        i128::MIN <= now.nanos + cooldown_sec * 1_000_000_000 <= i128::MAX,
    ensures
        g.attacker_address == f.attacker_address ==> (r is None <==> later.nanos < now.nanos
            + cooldown_sec * 1_000_000_000),
        g.attacker_address != f.attacker_address ==> (r is None <==> cooling(
            known,
            g.attacker_address,
            later,
        )),
{
    let until = now.after_seconds(cooldown_sec as int);
    crate::assoc::law_lookup_after_put(known, f.attacker_address, until, g.attacker_address);
}

/// A detection is about the attacker and says what was borrowed and gained; those of one
/// transaction of a tenant have one key, and those of others another.
pub proof fn law_detections_are_told_apart_by_transaction(
    event: UnifiedEvent,
    other: UnifiedEvent,
    f: IndicatorsView,
    g: IndicatorsView,
    now: Timestamp,
    later: Timestamp,
    id: Seq<char>,
    id2: Seq<char>,
    nonce: Seq<char>,
    nonce2: Seq<char>,
)
    requires
        event.tenant_id@ == other.tenant_id@,
        event.tx_hash is Some,
        other.tx_hash is Some,
    ensures
        ({
            let a = detection_of(event, f, now, id, nonce);
            let b = detection_of(other, g, later, id2, nonce2);
            &&& a.event_key == b.event_key <==> event.tx_hash->0@ == other.tx_hash->0@
            &&& a.subject_key == Some(f.attacker_address)
            &&& a.tenant_id == Some(event.tenant_id@)
            &&& a.chain == f.chain
            &&& a.protocol == f.protocol
            &&& a.tx_hash == event.tx_hash->0@
            &&& a.severity == Severity::High
            &&& a.signals.len() == 2
            &&& a.signals[0].value == f.loan_amount_usd
            &&& a.signals[1].value == f.profit_usd
            &&& a.created_at == now
            &&& a.detection_id == id
            &&& event.block_number matches Some(n) ==> a.block_number == n
        }),
{
    reveal(detection_of);
    let head = "flash_loan:"@ + event.tenant_id@ + ":"@;
    let (x, y) = (event.tx_hash->0@, other.tx_hash->0@);
    assert((head + x).skip(head.len() as int) =~= x);
    assert((head + y).skip(head.len() as int) =~= y);
}

proof fn lemma_configs_prefix(rows: Seq<FlashLoanRow>, row: FlashLoanRow, n: nat)
    requires
        n <= rows.len(),
    ensures
        configs_after(rows.push(row), n) == configs_after(rows, n),
    decreases n,
{
    if n > 0 {
        lemma_configs_prefix(rows, row, (n - 1) as nat);
        assert(rows.push(row)[n - 1] == rows[n - 1]);
    }
}

/// A tenant's last row for the pattern counts, with the tenant's own name, and with the
/// defaults where it could not be read; rows of others change nothing of it.
pub proof fn law_the_last_row_of_a_tenant_counts(
    rows: Seq<FlashLoanRow>,
    row: FlashLoanRow,
    tenant: Seq<char>,
)
    ensures
        ({
            let before = configs_after(rows, rows.len());
            let after = configs_after(rows.push(row), rows.push(row).len());
            &&& row.pattern_id@ == "flash_loan"@ && row.tenant_id@ == tenant ==> {
                &&& lookup(after, tenant) is Some
                &&& lookup(after, tenant)->0.tenant_id == tenant
                &&& row.parsed matches Some(c) ==> {
                    let there = lookup(after, tenant)->0;
                    &&& there.enabled == c.enabled
                    &&& there.cooldown_sec == c.cooldown_sec
                    &&& there.min_loan_amount_usd == c.min_loan_amount_usd
                    &&& there.profit_threshold_usd == c.profit_threshold_usd
                }
                &&& row.parsed is None ==> lookup(after, tenant)->0.enabled && lookup(
                    after,
                    tenant,
                )->0.cooldown_sec == 300
            }
            &&& row.pattern_id@ != "flash_loan"@ || row.tenant_id@ != tenant ==> lookup(
                after,
                tenant,
            ) == lookup(before, tenant)
        }),
{
    let n = rows.len();
    lemma_configs_prefix(rows, row, n);
    assert(rows.push(row)[n as int] == row);
    crate::assoc::law_lookup_after_put(
        configs_after(rows, n),
        row.tenant_id@,
        config_of(row),
        tenant,
    );
}

/// A detection tells of the loan, the profit and the one who took it, and of the event that
/// shows it.
pub proof fn law_detections_tell_of_the_loan(
    event: UnifiedEvent,
    f: IndicatorsView,
    now: Timestamp,
    id: Seq<char>,
    nonce: Seq<char>,
)
    ensures
        ({
            let d = detection_of(event, f, now, id, nonce);
            &&& d.detection_id == id
            &&& d.tenant_id == Some(event.tenant_id@)
            &&& d.subject_key == Some(f.attacker_address)
            &&& d.chain == f.chain
            &&& d.chain_slug == f.chain_slug
            &&& d.protocol == f.protocol
            &&& d.severity == Severity::High
            &&& d.attack_family == AttackFamily::FlashLoan
            &&& d.signals.len() == 2
            &&& d.signals[0].value == f.loan_amount_usd
            &&& d.signals[0].signal_type == SignalType::LoanVolumeSpike
            &&& d.signals[1].value == f.profit_usd
            &&& d.signals[1].signal_type == SignalType::ProfitExtracted
            &&& event.tx_hash is Some ==> d.tx_hash == event.tx_hash->0@
            &&& event.tx_hash is None ==> d.tx_hash == nonce
            &&& event.block_number is Some ==> d.block_number == event.block_number->0
            &&& event.block_number is None ==> d.block_number == 0
            &&& d.created_at == now
        }),
{
    reveal(detection_of);
}

/// A snapshot tells of the loan, the profit, the one who took it, and the transaction.
pub proof fn law_snapshots_tell_of_the_loan(event: UnifiedEvent, f: IndicatorsView)
    ensures
        ({
            let told = snapshot_of(event, f)->Object_0;
            &&& told.contains(("loan_amount_usd"@, number_json(f.loan_amount_usd)))
            &&& told.contains(("profit_usd"@, number_json(f.profit_usd)))
            &&& told.contains(("attacker_address"@, JsonView::Text(f.attacker_address)))
            &&& told.contains(("protocol"@, JsonView::Text(f.protocol)))
            &&& told.contains(("tx_hash"@, optional_text_json(text_option(event.tx_hash))))
        }),
{
    let told = snapshot_of(event, f)->Object_0;
    assert(told[0].0 == "loan_amount_usd"@);
    assert(told[1].0 == "profit_usd"@);
    assert(told[2].0 == "attacker_address"@);
    assert(told[3].0 == "protocol"@);
    assert(told[4].0 == "tx_hash"@);
}

/// What is remembered of a tenant goes before what was kept of it.
pub proof fn law_remembered_cooldowns_go_first(
    states: Seq<(Seq<char>, Cooldowns)>,
    tenant: Seq<char>,
    known: Cooldowns,
    loaded: Option<Cooldowns>,
)
    ensures
        lookup(states, tenant) == Some(known) ==> known_cooldowns(states, tenant, loaded) == known,
        lookup(states, tenant) is None && loaded is Some ==> known_cooldowns(states, tenant, loaded)
            == loaded->0,
        lookup(states, tenant) is None && loaded is None ==> known_cooldowns(
            states,
            tenant,
            loaded,
        ).len() == 0,
{
}

/// A row that can be read stands for what it says, under the name of its tenant; one that cannot
/// for the usual configuration.
pub proof fn law_rows_stand_for_what_they_say(r: FlashLoanRow)
    ensures
        config_of(r).tenant_id == r.tenant_id@,
        r.parsed is Some ==> config_of(r).min_loan_amount_usd == r.parsed->0.min_loan_amount_usd
            && config_of(r).profit_threshold_usd == r.parsed->0.profit_threshold_usd && config_of(
            r,
        ).cooldown_sec == r.parsed->0.cooldown_sec && config_of(r).enabled == r.parsed->0.enabled,
        r.parsed is None ==> config_of(r) == default_config(r.tenant_id@),
        default_config(r.tenant_id@).enabled,
{
}

/// The usual configuration asks for a loan of a hundred thousand and a profit of a thousand, and
/// reports an address every five minutes at most.
pub proof fn law_the_usual_configuration(tenant: Seq<char>)
    ensures
        default_config(tenant).tenant_id == tenant,
        default_config(tenant).min_loan_amount_usd == double(0x40f8_6a00_0000_0000),
        default_config(tenant).profit_threshold_usd == double(0x408f_4000_0000_0000),
        default_config(tenant).cooldown_sec == 300,
{
}

} // verus!
