//! Which adapters the worker reads chains through.

use vstd::prelude::*;

use crate::double::Double;
use crate::event::str_option;
use crate::json::either;
use crate::text::alike;
use crate::text::same;
use crate::text::same_ignoring_case;
use crate::text::texts;
use crate::worker::options::confirmation_depth_for_chain;
use crate::worker::options::default_mock_prices;
use crate::worker::options::depth_of;
use crate::worker::options::listed_addresses;
use crate::worker::options::mock_prices_of;
use crate::worker::options::resolve_legacy_ws_urls;
use crate::worker::options::setting_or;
use crate::worker::options::text_or;

verus! {

/// What the configuration of a chain says.
#[derive(Debug)]
pub struct ChainConfig {
    pub chain_slug: String,
    pub family: String,
    pub ws_url_env: String,
    pub lookback_blocks: Option<u64>,
    pub default_oracle_decimals: Option<u8>,
}

/// What the configuration of a protocol says.
#[derive(Debug)]
pub struct ProtocolEntry {
    pub protocol: String,
    pub enabled: bool,
    pub ws_url_env: Option<String>,
    pub oracle_decimals: Option<u8>,
    pub oracle_addresses: Vec<String>,
}

/// What the configuration of a chain's protocols says.
#[derive(Debug)]
pub struct ProtocolConfig {
    pub lookback_blocks: Option<u64>,
    pub default_oracle_decimals: Option<u8>,
    pub protocols: Vec<ProtocolEntry>,
}

/// What holds where nothing is configured.
#[derive(Clone, Copy, Debug, PartialEq, Eq, Structural)]
pub struct AdapterDefaults {
    pub lookback_blocks: u64,
    pub oracle_decimals: u8,
}

/// How a protocol is bound.
#[derive(Clone, Copy, Debug, PartialEq, Eq, Structural)]
pub struct ProtocolPlan {
    /// The place of the protocol in the configuration.
    pub place: usize,
    pub oracle_decimals: u8,
    /// Whether its oracles are the usual ones of the chain, for want of others.
    pub usual_oracles: bool,
    /// Whether it names a setting of its own for the service's address, which is not used.
    pub ignored_setting: bool,
}

/// How a chain is read.
#[derive(Debug)]
pub struct ChainPlan {
    pub lookback_blocks: u64,
    pub protocols: Vec<ProtocolPlan>,
}

/// The first of three values that is there, or the default.
pub open spec fn first_of<T>(a: Option<T>, b: Option<T>, c: Option<T>, default: T) -> T {
    match either(a, either(b, c)) {
        Some(x) => x,
        None => default,
    }
}

/// How the protocol at a place is bound.
pub open spec fn protocol_plan(
    chain: ChainConfig,
    p: ProtocolEntry,
    place: int,
    decimals: u8,
) -> ProtocolPlan {
    ProtocolPlan {
        place: place as usize,
        oracle_decimals: match p.oracle_decimals {
            Some(n) => n,
            None => decimals,
        },
        usual_oracles: p.oracle_addresses@.len() == 0 && chain.chain_slug@ == "ethereum"@,
        ignored_setting: p.ws_url_env matches Some(s) && s@ != chain.ws_url_env@,
    }
}

/// How the first `n` protocols are bound that are switched on.
pub open spec fn protocol_plans(
    chain: ChainConfig,
    s: Seq<ProtocolEntry>,
    decimals: u8,
    n: nat,
) -> Seq<ProtocolPlan>
    decreases n,
{
    if n == 0 {
        Seq::<ProtocolPlan>::empty()
    } else {
        let before = protocol_plans(chain, s, decimals, (n - 1) as nat);
        if s[n - 1].enabled {
            before.push(protocol_plan(chain, s[n - 1], n - 1, decimals))
        } else {
            before
        }
    }
}

/// How a chain is read: not at all where it is of an unknown family. What the environment says
/// goes before the chain's configuration, and that before the protocols'.
pub fn plan_chain(
    chain: &ChainConfig,
    protocols: &ProtocolConfig,
    env_lookback_override: Option<u64>,
    env_decimals_override: Option<u8>,
    defaults: AdapterDefaults,
) -> (r: Option<ChainPlan>)
    ensures
        r is Some <==> alike(chain.family@, "evm"@),
        r matches Some(p) ==> {
            &&& p.lookback_blocks == first_of(
                env_lookback_override,
                chain.lookback_blocks,
                protocols.lookback_blocks,
                defaults.lookback_blocks,
            )
            &&& p.protocols@ == protocol_plans(
                *chain,
                protocols.protocols@,
                first_of(
                    env_decimals_override,
                    chain.default_oracle_decimals,
                    protocols.default_oracle_decimals,
                    defaults.oracle_decimals,
                ),
                protocols.protocols@.len(),
            )
        },
{
    if !same_ignoring_case(chain.family.as_str(), "evm") {
        return None;
    }
    let lookback_blocks: u64 = match env_lookback_override {
        Some(n) => n,
        None => match chain.lookback_blocks {
            Some(n) => n,
            None => protocols.lookback_blocks.unwrap_or(defaults.lookback_blocks),
        },
    };
    let decimals: u8 = match env_decimals_override {
        Some(n) => n,
        None => match chain.default_oracle_decimals {
            Some(n) => n,
            None => protocols.default_oracle_decimals.unwrap_or(defaults.oracle_decimals),
        },
    };
    let entries: &Vec<ProtocolEntry> = &protocols.protocols;
    let mut plans: Vec<ProtocolPlan> = Vec::new();
    let mut i: usize = 0;
    while i < entries.len()
        invariant
            i <= entries.len(),
            plans@ == protocol_plans(*chain, entries@, decimals, i as nat),
        decreases entries.len() - i,
    {
        let p: &ProtocolEntry = &entries[i];
        if p.enabled {
            let ignored: bool = match &p.ws_url_env {
                Some(s) => !same(s.as_str(), chain.ws_url_env.as_str()),
                None => false,
            };
            plans.push(
                ProtocolPlan {
                    place: i,
                    oracle_decimals: p.oracle_decimals.unwrap_or(decimals),
                    usual_oracles: p.oracle_addresses.len() == 0 && same(
                        chain.chain_slug.as_str(),
                        "ethereum",
                    ),
                    ignored_setting: ignored,
                },
            );
        }
        i = i + 1;
    }
    Some(ChainPlan { lookback_blocks, protocols: plans })
}

/// The adapter through which a chain is read.
#[derive(Clone, Copy, Debug, PartialEq, Eq, Structural)]
pub enum AdapterKind {
    /// None: no protocol has an oracle.
    Absent,
    Mock,
    Live,
}

/// The adapter through which a chain is read, given how many of its protocols have oracles
/// and how many addresses there are for its service.
pub fn choose_adapter(bound_protocols: usize, ws_urls: usize) -> (r: AdapterKind)
    ensures
        r == (if bound_protocols == 0 {
            AdapterKind::Absent
        } else if ws_urls == 0 {
            AdapterKind::Mock
        } else {
            AdapterKind::Live
        }),
{
    if bound_protocols == 0 {
        AdapterKind::Absent
    } else if ws_urls == 0 {
        AdapterKind::Mock
    } else {
        AdapterKind::Live
    }
}

// ---------------------------------------------------------------------------
// Without configurations
// ---------------------------------------------------------------------------

/// The settings of a chain that is read without a configuration.
#[derive(Debug)]
pub struct LegacyValues<'a> {
    pub protocol: Option<&'a str>,
    pub confirmation_depth: Option<&'a str>,
    pub ws_urls: Option<&'a str>,
    pub ws_url: Option<&'a str>,
}

/// How a chain is read without a configuration.
#[derive(Debug)]
pub struct LegacyPlan {
    pub chain_slug: &'static str,
    pub chain_id: u64,
    pub protocol: String,
    pub confirmation_depth: u64,
    pub ws_urls: Vec<String>,
    pub oracle_price: Double,
    pub reference_price: Double,
}

/// Whether a plan is that of a chain with the given defaults and settings.
pub open spec fn is_legacy_plan(
    p: LegacyPlan,
    chain_slug: Seq<char>,
    chain_id: u64,
    default_protocol: Seq<char>,
    v: LegacyValues,
) -> bool {
    &&& p.chain_slug@ == chain_slug
    &&& p.chain_id == chain_id
    &&& p.protocol@ == text_or(str_option(v.protocol), default_protocol)
    &&& p.confirmation_depth == depth_of(chain_slug, str_option(v.confirmation_depth))
    &&& texts(p.ws_urls@) == listed_addresses(str_option(v.ws_urls), str_option(v.ws_url))
    &&& (p.oracle_price, p.reference_price) == mock_prices_of(chain_slug)
}

fn legacy_plan(
    chain_slug: &'static str,
    chain_id: u64,
    default_protocol: &str,
    v: &LegacyValues,
) -> (r: LegacyPlan)
    ensures
        is_legacy_plan(r, chain_slug@, chain_id, default_protocol@, *v),
{
    let (oracle_price, reference_price): (Double, Double) = default_mock_prices(chain_slug);
    LegacyPlan {
        chain_slug,
        chain_id,
        protocol: setting_or(v.protocol, default_protocol),
        confirmation_depth: confirmation_depth_for_chain(chain_slug, v.confirmation_depth),
        ws_urls: resolve_legacy_ws_urls(v.ws_urls, v.ws_url),
        oracle_price,
        reference_price,
    }
}

/// How Ethereum is read without a configuration.
pub fn legacy_ethereum(v: &LegacyValues) -> (r: LegacyPlan)
    ensures
        is_legacy_plan(r, "ethereum"@, 1, "aave-v3"@, *v),
{
    legacy_plan("ethereum", 1, "aave-v3", v)
}

/// How Base is read without a configuration.
pub fn legacy_base(v: &LegacyValues) -> (r: LegacyPlan)
    ensures
        is_legacy_plan(r, "base"@, 8453, "perp-protocol-base"@, *v),
{
    legacy_plan("base", 8453, "perp-protocol-base", v)
}

/// Whether a chain is read live without a configuration: there are addresses for its service,
/// and oracles where it has no usual ones.
pub fn legacy_is_live(plan: &LegacyPlan, oracles: usize, has_usual_oracles: bool) -> (r: bool)
    ensures
        r == (plan.ws_urls@.len() > 0 && (has_usual_oracles || oracles > 0)),
{
    plan.ws_urls.len() > 0 && (has_usual_oracles || oracles > 0)
}

/// Whether adapters are built without configurations: none came of those that were found.
pub fn needs_legacy_adapters(built: usize) -> (r: bool)
    ensures
        r == (built == 0),
{
    built == 0
}

// ---------------------------------------------------------------------------
// Laws
// ---------------------------------------------------------------------------

/// Protocols that are switched off are not bound, and those that are bound keep their order.
pub proof fn law_only_enabled_protocols_are_bound(
    chain: ChainConfig,
    s: Seq<ProtocolEntry>,
    decimals: u8,
    n: nat,
)
    requires
        n <= s.len() <= usize::MAX,
    ensures
        forall|i: int|
            0 <= i < protocol_plans(chain, s, decimals, n).len() ==> {
                let p = #[trigger] protocol_plans(chain, s, decimals, n)[i];
                p.place < n && s[p.place as int].enabled
            },
        forall|i: int, j: int|
            0 <= i < j < protocol_plans(chain, s, decimals, n).len() ==> (
            #[trigger] protocol_plans(chain, s, decimals, n)[i]).place < (
            #[trigger] protocol_plans(chain, s, decimals, n)[j]).place,
    decreases n,
{
    if n > 0 {
        law_only_enabled_protocols_are_bound(chain, s, decimals, (n - 1) as nat);
    }
}

/// Every protocol that is switched on is bound at its place, with its own decimals or those of
/// the chain.
pub proof fn law_every_enabled_protocol_is_bound(
    chain: ChainConfig,
    s: Seq<ProtocolEntry>,
    decimals: u8,
    n: nat,
    i: int,
)
    requires
        0 <= i < n <= s.len() <= usize::MAX,
        s[i].enabled,
    ensures
        exists|k: int|
            0 <= k < protocol_plans(chain, s, decimals, n).len() && {
                let p = #[trigger] protocol_plans(chain, s, decimals, n)[k];
                &&& p.place == i
                &&& s[i].oracle_decimals is Some ==> Some(p.oracle_decimals)
                    == s[i].oracle_decimals
                &&& s[i].oracle_decimals is None ==> p.oracle_decimals == decimals
                &&& p.usual_oracles <==> s[i].oracle_addresses@.len() == 0 && chain.chain_slug@
                    == "ethereum"@
                &&& p.ignored_setting <==> s[i].ws_url_env is Some && s[i].ws_url_env->0@
                    != chain.ws_url_env@
            },
    decreases n,
{
    let before = protocol_plans(chain, s, decimals, (n - 1) as nat);
    let after = protocol_plans(chain, s, decimals, n);
    if i == n - 1 {
        let p = after[before.len() as int];
        assert(p == protocol_plan(chain, s[i], i, decimals));
        assert(p.place == i);
    } else {
        law_every_enabled_protocol_is_bound(chain, s, decimals, (n - 1) as nat, i);
        let k = choose|k: int|
            0 <= k < before.len() && {
                let p = #[trigger] before[k];
                &&& p.place == i
                &&& s[i].oracle_decimals is Some ==> Some(p.oracle_decimals)
                    == s[i].oracle_decimals
                &&& s[i].oracle_decimals is None ==> p.oracle_decimals == decimals
                &&& p.usual_oracles <==> s[i].oracle_addresses@.len() == 0 && chain.chain_slug@
                    == "ethereum"@
                &&& p.ignored_setting <==> s[i].ws_url_env is Some && s[i].ws_url_env->0@
                    != chain.ws_url_env@
            };
        assert(after[k] == before[k]);
    }
}

/// Of several values the first that is there is taken.
pub proof fn law_the_first_value_is_taken<T>(b: Option<T>, c: Option<T>, x: T, default: T)
    ensures
        first_of(Some(x), b, c, default) == x,
        first_of(None, Some(x), c, default) == x,
        first_of(None, None, Some(x), default) == x,
        first_of(None::<T>, None, None, default) == default,
{
}

} // verus!
