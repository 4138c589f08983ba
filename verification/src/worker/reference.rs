//! Reference prices: which pair an event is about, and where its price comes from.

use vstd::prelude::*;

use crate::assoc::is_place;
use crate::assoc::lemma_lookup;
use crate::assoc::lemma_put;
use crate::assoc::lookup;
use crate::assoc::put;
use crate::double::Double;
use crate::event::str_option;
use crate::json::either;
use crate::json::member;
use crate::json::member_of;
use crate::json::member_text;
use crate::json::members_view;
use crate::json::put_member;
use crate::json::text_in;
use crate::json::with_member;
use crate::json::Json;
use crate::json::JsonView;
use crate::json::Members;
use crate::text::cut_back;
use crate::text::cut_front;
use crate::text::first_place;
use crate::text::lowercase;
use crate::text::lowered;
use crate::text::pieces;
use crate::text::same;
use crate::text::split;
use crate::text::split_once;
use crate::text::stands_at;
use crate::text::strip;
use crate::text::text_option;
use crate::text::texts;
use crate::text::trim;
use crate::text::trimmed;
use crate::text::Margin;
use crate::worker::options::flag;
use crate::worker::options::flag_of;

verus! {

// ---------------------------------------------------------------------------
// Pairs
// ---------------------------------------------------------------------------

/// An oracle and the pair that it prices.
#[derive(Debug)]
pub struct OraclePair {
    pub oracle: String,
    pub pair: String,
}

/// Oracles and the pairs that they price.
pub type Pairs = Seq<(Seq<char>, Seq<char>)>;

/// The contents of a list of oracles.
pub open spec fn pairs_view(v: Seq<OraclePair>) -> Pairs {
    v.map_values(|p: OraclePair| (p.oracle@, p.pair@))
}

/// The pairs that are known without settings.
pub open spec fn known_pairs() -> Pairs {
    seq![
        ("0x5f4ec3df9cbd43714fe2740f5e3616155c5b8419"@, "ETH/USD"@),
        ("0xf4030086522a5beea4988f8ca5b36dbc97bee88c"@, "BTC/USD"@),
        ("0x8fffffd4afb6115b954bd326cbe7b4ba576818f6"@, "USDC/USD"@),
    ]
}

pub fn default_oracle_pair_map() -> (r: Vec<OraclePair>)
    ensures
        pairs_view(r@) == known_pairs(),
{
    let mut r: Vec<OraclePair> = Vec::new();
    r.push(
        OraclePair {
            oracle: "0x5f4ec3df9cbd43714fe2740f5e3616155c5b8419".to_owned(),
            pair: "ETH/USD".to_owned(),
        },
    );
    r.push(
        OraclePair {
            oracle: "0xf4030086522a5beea4988f8ca5b36dbc97bee88c".to_owned(),
            pair: "BTC/USD".to_owned(),
        },
    );
    r.push(
        OraclePair {
            oracle: "0x8fffffd4afb6115b954bd326cbe7b4ba576818f6".to_owned(),
            pair: "USDC/USD".to_owned(),
        },
    );
    assert(pairs_view(r@) =~= known_pairs());
    r
}

/// An address as a key: without white space and then quotes around it, in lower case.
pub open spec fn address_key(raw: Seq<char>) -> Seq<char> {
    lowered(cut_back(Margin::Quote, cut_front(Margin::Quote, trimmed(raw))))
}

pub fn normalize_address_key(raw: &str) -> (r: String)
    ensures
        r@ == address_key(raw@),
{
    lowercase(strip(Margin::Quote, trim(raw).as_str()).as_str())
}

/// The two sides of the first equals sign of an entry, if it has one.
pub open spec fn sides(entry: Seq<char>) -> Option<(Seq<char>, Seq<char>)> {
    let t = trimmed(entry);
    let i = first_place(t, '=');
    if i < t.len() {
        Some((t.take(i), t.skip(i + 1)))
    } else {
        None
    }
}

/// The two sides of an optional entry.
pub open spec fn sides_view(r: Option<(String, String)>) -> Option<(Seq<char>, Seq<char>)> {
    match r {
        Some(r) => Some((r.0@, r.1@)),
        None => None,
    }
}

fn read_sides(entry: &str) -> (r: Option<(String, String)>)
    ensures
        sides_view(r) == sides(entry@),
{
    split_once(trim(entry).as_str(), '=')
}

/// Pairs with the first `n` entries of a list; an entry without an equals sign is passed over.
pub open spec fn with_pairs(m: Pairs, entries: Seq<Seq<char>>, n: nat) -> Pairs
    decreases n,
{
    if n == 0 {
        m
    } else {
        let before = with_pairs(m, entries, (n - 1) as nat);
        match sides(entries[n - 1]) {
            Some(s) => put(before, address_key(s.0), trimmed(s.1)),
            None => before,
        }
    }
}

/// The pairs that are known with the settings.
pub open spec fn configured_pairs(raw: Option<Seq<char>>) -> Pairs {
    match raw {
        Some(raw) => with_pairs(known_pairs(), pieces(raw, ','), pieces(raw, ',').len()),
        None => known_pairs(),
    }
}

fn find_pair(v: &Vec<OraclePair>, oracle: &str) -> (i: usize)
    ensures
        is_place(pairs_view(v@), oracle@, i as int),
{
    let mut i: usize = 0;
    while i < v.len() && !same(v[i].oracle.as_str(), oracle)
        invariant
            i <= v.len(),
            forall|k: int| 0 <= k < i ==> (#[trigger] pairs_view(v@)[k]).0 != oracle@,
        decreases v.len() - i,
    {
        i = i + 1;
    }
    i
}

fn set_pair(v: &mut Vec<OraclePair>, oracle: String, pair: String)
    ensures
        pairs_view(final(v)@) == put(pairs_view(old(v)@), oracle@, pair@),
{
    let ghost before = pairs_view(v@);
    let i: usize = find_pair(v, oracle.as_str());
    proof {
        lemma_put(before, oracle@, pair@, i as int);
    }
    let ghost shown = (oracle@, pair@);
    let entry = OraclePair { oracle, pair };
    if i < v.len() {
        v.set(i, entry);
        assert(pairs_view(v@) =~= before.update(i as int, shown));
    } else {
        v.push(entry);
        assert(pairs_view(v@) =~= before.push(shown));
    }
}

/// The pairs that are known, with those of a setting such as `0xabc=ETH/USD,0xdef=BTC/USD`.
pub fn load_oracle_pair_overrides(raw: Option<&str>) -> (r: Vec<OraclePair>)
    ensures
        pairs_view(r@) == configured_pairs(str_option(raw)),
{
    let mut r: Vec<OraclePair> = default_oracle_pair_map();
    let raw: &str = match raw {
        Some(raw) => raw,
        None => {
            return r;
        },
    };
    let items: Vec<String> = split(raw, ',');
    let ghost all = pieces(raw@, ',');
    let mut i: usize = 0;
    while i < items.len()
        invariant
            i <= items.len(),
            texts(items@) == all,
            pairs_view(r@) == with_pairs(known_pairs(), all, i as nat),
        decreases items.len() - i,
    {
        assert(texts(items@)[i as int] == items@[i as int]@);
        match read_sides(items[i].as_str()) {
            Some((oracle, pair)) => {
                set_pair(&mut r, normalize_address_key(oracle.as_str()), trim(pair.as_str()));
            },
            None => {},
        }
        i = i + 1;
    }
    assert(texts(items@).len() == items@.len());
    r
}

// ---------------------------------------------------------------------------
// Events
// ---------------------------------------------------------------------------

/// What the worker reads and adds to of a chain event.
#[derive(Debug)]
pub struct NormalizedEvent {
    pub reference_price: Option<Double>,
    pub metadata: Vec<(String, Json)>,
}

/// The pair that an event is about: as it says, or as its oracle prices.
pub open spec fn pair_of(metadata: Members, pairs: Pairs) -> Option<Seq<char>> {
    match text_in(member(metadata, "oracle_pair"@)) {
        Some(pair) => Some(pair),
        None => match text_in(member(metadata, "oracle_address"@)) {
            Some(address) => lookup(pairs, address_key(address)),
            None => None,
        },
    }
}

pub fn resolve_reference_pair(event: &NormalizedEvent, pairs: &Vec<OraclePair>) -> (r: Option<
    String,
>)
    ensures
        text_option(r) == pair_of(members_view(event.metadata@), pairs_view(pairs@)),
{
    match member_text(member_of(&event.metadata, "oracle_pair")) {
        Some(pair) => {
            return Some(pair.to_owned());
        },
        None => {},
    }
    let key: String = match member_text(member_of(&event.metadata, "oracle_address")) {
        Some(address) => normalize_address_key(address),
        None => {
            return None;
        },
    };
    let i: usize = find_pair(pairs, key.as_str());
    proof {
        lemma_lookup(pairs_view(pairs@), key@, i as int);
    }
    if i < pairs.len() {
        Some(pairs[i].pair.clone())
    } else {
        None
    }
}

/// The pair whose price is looked up for an event: none where it has a price already, or
/// where there is nobody to ask.
pub fn pair_to_look_up(event: &NormalizedEvent, has_provider: bool, pairs: &Vec<OraclePair>) -> (r:
    Option<String>)
    ensures
        text_option(r) == (if event.reference_price is Some || !has_provider {
            None
        } else {
            pair_of(members_view(event.metadata@), pairs_view(pairs@))
        }),
{
    if event.reference_price.is_some() || !has_provider {
        return None;
    }
    resolve_reference_pair(event, pairs)
}

/// What is noted of a price that was looked up.
pub open spec fn noted_price(metadata: Members, pair: Seq<char>) -> Members {
    with_member(
        with_member(metadata, "reference_price_pair"@, JsonView::Text(pair)),
        "reference_price_source"@,
        JsonView::Text("live_reference_price_provider"@),
    )
}

/// Takes a price that was looked up into an event, if it is finite and above zero; says
/// whether it is.
pub fn enrich_reference_price(event: &mut NormalizedEvent, pair: &str, price: Double) -> (r: bool)
    ensures
        r == price.positive(),
        r ==> final(event).reference_price == Some(price) && members_view(final(event).metadata@)
            == noted_price(members_view(old(event).metadata@), pair@),
        !r ==> *final(event) == *old(event),
{
    if !price.is_positive() {
        return false;
    }
    event.reference_price = Some(price);
    put_member(&mut event.metadata, "reference_price_pair", Json::text(pair));
    put_member(
        &mut event.metadata,
        "reference_price_source",
        Json::text("live_reference_price_provider"),
    );
    true
}

// ---------------------------------------------------------------------------
// The provider
// ---------------------------------------------------------------------------

/// The value of a hexadecimal digit.
pub open spec fn hex_value(c: char) -> Option<nat> {
    if '0' <= c <= '9' {
        Some((c as nat - '0' as nat) as nat)
    } else if 'a' <= c <= 'f' {
        Some((c as nat - 'a' as nat + 10) as nat)
    } else if 'A' <= c <= 'F' {
        Some((c as nat - 'A' as nat + 10) as nat)
    } else {
        None
    }
}

/// The characters of an address that count: not `0x` in front, nor blanks and line ends.
pub open spec fn address_digits(s: Seq<char>) -> Seq<char> {
    let t = if stands_at(s, "0x"@, 0) {
        s.skip(2)
    } else {
        s
    };
    t.filter(|c: char| c != ' ' && c != '\r' && c != '\n' && c != '\t')
}

/// Whether a text is an address: forty hexadecimal digits.
pub open spec fn is_address(s: Seq<char>) -> bool {
    let d = address_digits(s);
    d.len() == 40 && forall|i: int| 0 <= i < 40 ==> hex_value(#[trigger] d[i]) is Some
}

/// The twenty bytes of an address.
pub open spec fn address_bytes(s: Seq<char>) -> Seq<u8> {
    let d = address_digits(s);
    Seq::new(20, |i: int| (16 * hex_value(d[2 * i])->0 + hex_value(d[2 * i + 1])->0) as u8)
}

/// `ethers::types::Address::from_str`: reads forty hexadecimal digits, of either case, as
/// twenty bytes. `0x` may stand in front, and blanks, tabulators and line ends are passed over.
/// Anything else is no address.
#[verifier::external_body]
fn read_address(text: &str) -> (r: Option<Vec<u8>>)
    ensures
        r is Some <==> is_address(text@),
        r matches Some(v) ==> v@ == address_bytes(text@),
{
    match text.parse::<ethers::types::Address>() {
        Ok(address) => Some(address.as_bytes().to_vec()),
        Err(_) => None,
    }
}

/// A pair and the address of the pool that prices it.
#[derive(Debug)]
pub struct PairPool {
    pub pair: String,
    pub address: Vec<u8>,
}

/// The contents of a list of pools.
pub open spec fn pools_view(v: Seq<PairPool>) -> Seq<(Seq<char>, Seq<u8>)> {
    v.map_values(|p: PairPool| (p.pair@, p.address@))
}

/// The pools of the first `n` entries of a list; an entry without an equals sign, or with
/// something else than an address behind it, is passed over.
pub open spec fn pools_in(entries: Seq<Seq<char>>, n: nat) -> Seq<(Seq<char>, Seq<u8>)>
    decreases n,
{
    if n == 0 {
        Seq::<(Seq<char>, Seq<u8>)>::empty()
    } else {
        let before = pools_in(entries, (n - 1) as nat);
        match sides(entries[n - 1]) {
            Some(s) => if is_address(trimmed(s.1)) {
                put(before, trimmed(s.0), address_bytes(trimmed(s.1)))
            } else {
                before
            },
            None => before,
        }
    }
}

/// The pools of a setting.
pub open spec fn configured_pools(raw: Option<Seq<char>>) -> Seq<(Seq<char>, Seq<u8>)> {
    match raw {
        Some(raw) => pools_in(pieces(raw, ','), pieces(raw, ',').len()),
        None => Seq::<(Seq<char>, Seq<u8>)>::empty(),
    }
}

fn set_pool(v: &mut Vec<PairPool>, pair: String, address: Vec<u8>)
    ensures
        pools_view(final(v)@) == put(pools_view(old(v)@), pair@, address@),
{
    let ghost before = pools_view(v@);
    let mut i: usize = 0;
    while i < v.len() && !same(v[i].pair.as_str(), pair.as_str())
        invariant
            i <= v.len(),
            before == pools_view(v@),
            v@ == old(v)@,
            forall|k: int| 0 <= k < i ==> (#[trigger] before[k]).0 != pair@,
        decreases v.len() - i,
    {
        i = i + 1;
    }
    proof {
        lemma_put(before, pair@, address@, i as int);
    }
    let ghost shown = (pair@, address@);
    let entry = PairPool { pair, address };
    if i < v.len() {
        v.set(i, entry);
        assert(pools_view(v@) =~= before.update(i as int, shown));
    } else {
        v.push(entry);
        assert(pools_view(v@) =~= before.push(shown));
    }
}

/// The pools of a setting such as `ETH/USD=0x88e6...`.
pub fn parse_reference_uniswap_pools(raw: Option<&str>) -> (r: Vec<PairPool>)
    ensures
        pools_view(r@) == configured_pools(str_option(raw)),
{
    let mut r: Vec<PairPool> = Vec::new();
    assert(pools_view(r@) =~= Seq::<(Seq<char>, Seq<u8>)>::empty());
    let raw: &str = match raw {
        Some(raw) => raw,
        None => {
            return r;
        },
    };
    let items: Vec<String> = split(raw, ',');
    let ghost all = pieces(raw@, ',');
    let mut i: usize = 0;
    while i < items.len()
        invariant
            i <= items.len(),
            texts(items@) == all,
            pools_view(r@) == pools_in(all, i as nat),
        decreases items.len() - i,
    {
        assert(texts(items@)[i as int] == items@[i as int]@);
        match read_sides(items[i].as_str()) {
            Some((pair, address)) => match read_address(trim(address.as_str()).as_str()) {
                Some(bytes) => {
                    set_pool(&mut r, trim(pair.as_str()), bytes);
                },
                None => {},
            },
            None => {},
        }
        i = i + 1;
    }
    assert(texts(items@).len() == items@.len());
    r
}

/// The settings of the provider as they stand in the environment.
#[derive(Debug)]
pub struct ProviderValues<'a> {
    pub enabled: Option<&'a str>,
    pub binance: Option<&'a str>,
    pub uniswap: Option<&'a str>,
    pub reference_rpc_url: Option<&'a str>,
    pub eth_rpc_url: Option<&'a str>,
    pub alchemy_url: Option<&'a str>,
    pub pools: Option<&'a str>,
}

/// How the provider of reference prices is made.
#[derive(Debug)]
pub struct ProviderPlan {
    pub http_rpc_url: Option<String>,
    pub uniswap_pools: Vec<PairPool>,
    pub binance_enabled: bool,
    pub uniswap_enabled: bool,
}

/// How the provider of reference prices is made; `None` where there is to be none.
pub fn plan_reference_price_provider(v: &ProviderValues) -> (r: Option<ProviderPlan>)
    ensures
        r is Some <==> flag_of(str_option(v.enabled), true),
        r matches Some(p) ==> {
            &&& text_option(p.http_rpc_url) == either(
                str_option(v.reference_rpc_url),
                either(str_option(v.eth_rpc_url), str_option(v.alchemy_url)),
            )
            &&& pools_view(p.uniswap_pools@) == configured_pools(str_option(v.pools))
            &&& p.binance_enabled == flag_of(str_option(v.binance), true)
            &&& p.uniswap_enabled == flag_of(str_option(v.uniswap), false)
        },
{
    if !flag(v.enabled, true) {
        return None;
    }
    let url: Option<&str> = match v.reference_rpc_url {
        Some(s) => Some(s),
        None => match v.eth_rpc_url {
            Some(s) => Some(s),
            None => v.alchemy_url,
        },
    };
    Some(
        ProviderPlan {
            http_rpc_url: match url {
                Some(s) => Some(s.to_owned()),
                None => None,
            },
            uniswap_pools: parse_reference_uniswap_pools(v.pools),
            binance_enabled: flag(v.binance, true),
            uniswap_enabled: flag(v.uniswap, false),
        },
    )
}

// ---------------------------------------------------------------------------
// Laws
// ---------------------------------------------------------------------------

/// What an event says of its pair goes before what is known of its oracle.
pub proof fn law_named_pair_goes_first(metadata: Members, pairs: Pairs, pair: Seq<char>)
    requires
        text_in(member(metadata, "oracle_pair"@)) == Some(pair),
    ensures
        pair_of(metadata, pairs) == Some(pair),
{
}

/// A pair that the settings give for an oracle goes before the known one, and the other
/// oracles keep theirs.
pub proof fn law_last_override_wins(
    m: Pairs,
    entries: Seq<Seq<char>>,
    n: nat,
    oracle: Seq<char>,
    pair: Seq<char>,
    other: Seq<char>,
)
    requires
        0 < n <= entries.len(),
        sides(entries[n - 1]) == Some((oracle, pair)),
    ensures
        lookup(with_pairs(m, entries, n), address_key(oracle)) == Some(trimmed(pair)),
        other != address_key(oracle) ==> lookup(with_pairs(m, entries, n), other) == lookup(
            with_pairs(m, entries, (n - 1) as nat),
            other,
        ),
{
    crate::assoc::law_lookup_after_put(
        with_pairs(m, entries, (n - 1) as nat),
        address_key(oracle),
        trimmed(pair),
        other,
    );
}

/// The two sides of an entry are what stands before and behind its first equals sign.
pub proof fn law_sides_lie_around_the_sign(entry: Seq<char>, left: Seq<char>, right: Seq<char>)
    ensures
        sides(entry) == Some((left, right)) <==> trimmed(entry) == left.push('=') + right
            && !left.contains('='),
        sides(entry) is None <==> !trimmed(entry).contains('='),
{
    let t = trimmed(entry);
    crate::text::law_the_first_place_is_the_first(t, '=');
    let i = first_place(t, '=');
    if i < t.len() {
        assert(t =~= t.take(i).push('=') + t.skip(i + 1));
        assert forall|k: int| 0 <= k < i implies t.take(i)[k] != '=' by {
            assert(t[k] != '=');
        }
    } else {
        assert forall|k: int| 0 <= k < t.len() implies t[k] != '=' by {}
    }
    if t == left.push('=') + right && !left.contains('=') {
        assert(t[left.len() as int] == '=');
        if i < left.len() {
            assert(left[i] == t[i]);
        }
        assert(i == left.len());
        assert(t.take(i) =~= left);
        assert(t.skip(i + 1) =~= right);
    }
}

/// An event that names no pair is about that which its oracle prices; one that names neither is
/// about none.
pub proof fn law_oracles_stand_for_their_pair(metadata: Members, pairs: Pairs, address: Seq<char>)
    requires
        text_in(member(metadata, "oracle_pair"@)) is None,
    ensures
        text_in(member(metadata, "oracle_address"@)) == Some(address) ==> pair_of(metadata, pairs)
            == lookup(pairs, address_key(address)),
        text_in(member(metadata, "oracle_address"@)) is None ==> pair_of(metadata, pairs) is None,
{
}

/// The case of an oracle's address does not matter, nor do margins and quotes around it.
pub proof fn law_addresses_are_known_in_any_case(a: Seq<char>)
    requires
        a.len() > 0,
        !crate::text::white(a[0]) && !crate::text::white(a.last()),
        a[0] != '"' && a.last() != '"',
    ensures
        address_key(a) == lowered(a),
{
    assert(cut_front(Margin::White, a) == a);
    assert(cut_back(Margin::White, a) == a);
    assert(cut_front(Margin::Quote, a) == a);
    assert(cut_back(Margin::Quote, a) == a);
}

/// A price that was looked up is noted with its pair and where it is from; what else is noted
/// stays.
pub proof fn law_looked_up_prices_are_noted(metadata: Members, pair: Seq<char>, key: Seq<char>)
    ensures
        member(noted_price(metadata, pair), "reference_price_pair"@) == Some(JsonView::Text(pair)),
        member(noted_price(metadata, pair), "reference_price_source"@) == Some(
            JsonView::Text("live_reference_price_provider"@),
        ),
        key != "reference_price_pair"@ && key != "reference_price_source"@ ==> member(
            noted_price(metadata, pair),
            key,
        ) == member(metadata, key),
{
    reveal_strlit("reference_price_pair");
    reveal_strlit("reference_price_source");
    assert("reference_price_pair"@[16] != "reference_price_source"@[16]);
    let first = with_member(metadata, "reference_price_pair"@, JsonView::Text(pair));
    let from = JsonView::Text("live_reference_price_provider"@);
    crate::assoc::law_lookup_after_put(
        metadata,
        "reference_price_pair"@,
        JsonView::Text(pair),
        key,
    );
    crate::assoc::law_lookup_after_put(first, "reference_price_source"@, from, key);
    crate::assoc::law_lookup_after_put(
        first,
        "reference_price_source"@,
        from,
        "reference_price_pair"@,
    );
}

/// The pool of a pair is that of the last entry for it with an address; entries without one are
/// passed over.
pub proof fn law_the_last_pool_of_a_pair_counts(
    entries: Seq<Seq<char>>,
    n: nat,
    pair: Seq<char>,
    address: Seq<char>,
    other: Seq<char>,
)
    requires
        0 < n <= entries.len(),
        sides(entries[n - 1]) == Some((pair, address)),
    ensures
        is_address(trimmed(address)) ==> lookup(pools_in(entries, n), trimmed(pair)) == Some(
            address_bytes(trimmed(address)),
        ),
        is_address(trimmed(address)) && other != trimmed(pair) ==> lookup(
            pools_in(entries, n),
            other,
        ) == lookup(pools_in(entries, (n - 1) as nat), other),
        !is_address(trimmed(address)) ==> pools_in(entries, n) == pools_in(
            entries,
            (n - 1) as nat,
        ),
{
    crate::assoc::law_lookup_after_put(
        pools_in(entries, (n - 1) as nat),
        trimmed(pair),
        address_bytes(trimmed(address)),
        other,
    );
}

/// Without settings the known pairs are all there are.
pub proof fn law_known_pairs_need_no_settings()
    ensures
        configured_pairs(None) == known_pairs(),
        configured_pools(None).len() == 0,
{
}

} // verus!
