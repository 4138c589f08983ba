//! What the settings of the worker's environment mean.

use vstd::prelude::*;

use crate::double::Double;
use crate::event::filled;
use crate::event::filled_text;
use crate::event::str_option;
use crate::text::alike;
use crate::text::contains_text;
use crate::text::join3;
use crate::text::listed;
use crate::text::parse_u64;
use crate::text::pieces;
use crate::text::read_decimal;
use crate::text::same;
use crate::text::same_ignoring_case;
use crate::text::split;
use crate::text::text_option;
use crate::text::texts;

verus! {

pub const DEFAULT_STREAM_BATCH_SIZE: usize = 100;

pub const DEFAULT_STREAM_BLOCK_MS: usize = 1000;

/// The bits of 3280.0, 3120.0, 3010.0, 3000.0, 100.0 and 99.0.
pub const ETHEREUM_ORACLE_BITS: u64 = 0x40a9_a000_0000_0000;

pub const ETHEREUM_REFERENCE_BITS: u64 = 0x40a8_6000_0000_0000;

pub const BASE_ORACLE_BITS: u64 = 0x40a7_8400_0000_0000;

pub const BASE_REFERENCE_BITS: u64 = 0x40a7_7000_0000_0000;

pub const OTHER_ORACLE_BITS: u64 = 0x4059_0000_0000_0000;

pub const OTHER_REFERENCE_BITS: u64 = 0x4058_c000_0000_0000;

/// Whether a flag is set: by `1` or `true`, or as it is by default.
pub open spec fn flag_of(value: Option<Seq<char>>, default: bool) -> bool {
    match value {
        Some(s) => s == "1"@ || alike(s, "true"@),
        None => default,
    }
}

/// Whether a flag is set: by `1` or `true`, or as it is by default.
pub fn flag(value: Option<&str>, default: bool) -> (r: bool)
    ensures
        r == flag_of(str_option(value), default),
{
    match value {
        Some(s) => same(s, "1") || same_ignoring_case(s, "true"),
        None => default,
    }
}

/// A number of a setting, or the default where it is none.
pub open spec fn count_of(value: Option<Seq<char>>, default: usize) -> usize {
    match value {
        Some(s) => match read_decimal(s, (usize::MAX + 1) as nat) {
            Some(n) => n as usize,
            None => default,
        },
        None => default,
    }
}

fn count(value: Option<&str>, default: usize) -> (r: usize)
    ensures
        r == count_of(str_option(value), default),
{
    match value {
        Some(s) => match parse_u64(s) {
            Some(n) => if n <= usize::MAX as u64 {
                n as usize
            } else {
                default
            },
            None => default,
        },
        None => default,
    }
}

/// A setting of 64 bits, where it is a number.
pub open spec fn number_of(value: Option<Seq<char>>) -> Option<u64> {
    match value {
        Some(s) => match read_decimal(s, (u64::MAX + 1) as nat) {
            Some(n) => Some(n as u64),
            None => None,
        },
        None => None,
    }
}

/// A setting of 64 bits, where it is a number.
pub fn number(value: Option<&str>) -> (r: Option<u64>)
    ensures
        r == number_of(str_option(value)),
{
    match value {
        Some(s) => parse_u64(s),
        None => None,
    }
}

/// A setting of 8 bits, where it is a number that small.
pub open spec fn small_number_of(value: Option<Seq<char>>) -> Option<u8> {
    match value {
        Some(s) => match read_decimal(s, (u8::MAX + 1) as nat) {
            Some(n) => Some(n as u8),
            None => None,
        },
        None => None,
    }
}

/// A setting of 8 bits, where it is a number that small.
pub fn small_number(value: Option<&str>) -> (r: Option<u8>)
    ensures
        r == small_number_of(str_option(value)),
{
    match value {
        Some(s) => match parse_u64(s) {
            Some(n) => if n <= u8::MAX as u64 {
                Some(n as u8)
            } else {
                None
            },
            None => None,
        },
        None => None,
    }
}

/// A text of a setting, or the default.
pub open spec fn text_or(value: Option<Seq<char>>, default: Seq<char>) -> Seq<char> {
    match value {
        Some(s) => s,
        None => default,
    }
}

/// A text of a setting, or the default.
pub fn setting_or(value: Option<&str>, default: &str) -> (r: String)
    ensures
        r@ == text_or(str_option(value), default@),
{
    match value {
        Some(s) => s.to_owned(),
        None => default.to_owned(),
    }
}

/// The name of a consumer on a host.
pub open spec fn consumer_name(prefix: Seq<char>, hostname: Option<Seq<char>>) -> Seq<char> {
    prefix + "-"@ + text_or(hostname, "local"@)
}

pub fn default_consumer_name(prefix: &str, hostname: Option<&str>) -> (r: String)
    ensures
        r@ == consumer_name(prefix@, str_option(hostname)),
{
    join3(prefix, "-", setting_or(hostname, "local").as_str())
}

// ---------------------------------------------------------------------------
// The stream
// ---------------------------------------------------------------------------

/// The settings of the stream as they stand in the environment.
#[derive(Debug)]
pub struct StreamValues<'a> {
    pub batch_size: Option<&'a str>,
    pub block_ms: Option<&'a str>,
    pub run_once: Option<&'a str>,
    pub use_consumer_group: Option<&'a str>,
    pub group: Option<&'a str>,
    pub consumer: Option<&'a str>,
    pub start_id: Option<&'a str>,
    pub hostname: Option<&'a str>,
}

/// How the stream is read.
#[derive(Debug)]
pub struct StreamOptions {
    pub batch_size: usize,
    pub block_ms: usize,
    pub run_once: bool,
    pub use_consumer_group: bool,
    pub group: String,
    pub consumer: String,
    pub start_id: String,
}

/// How the stream is read.
pub fn stream_options(v: &StreamValues) -> (r: StreamOptions)
    ensures
        r.batch_size == count_of(str_option(v.batch_size), DEFAULT_STREAM_BATCH_SIZE),
        r.block_ms == count_of(str_option(v.block_ms), DEFAULT_STREAM_BLOCK_MS),
        r.run_once == flag_of(str_option(v.run_once), false),
        r.use_consumer_group == flag_of(str_option(v.use_consumer_group), true),
        r.group@ == text_or(str_option(v.group), "detector-workers"@),
        r.consumer@ == text_or(
            str_option(v.consumer),
            consumer_name("detector"@, str_option(v.hostname)),
        ),
        r.start_id@ == text_or(str_option(v.start_id), "0-0"@),
{
    StreamOptions {
        batch_size: count(v.batch_size, DEFAULT_STREAM_BATCH_SIZE),
        block_ms: count(v.block_ms, DEFAULT_STREAM_BLOCK_MS),
        run_once: flag(v.run_once, false),
        use_consumer_group: flag(v.use_consumer_group, true),
        group: setting_or(v.group, "detector-workers"),
        consumer: match v.consumer {
            Some(s) => s.to_owned(),
            None => default_consumer_name("detector", v.hostname),
        },
        start_id: setting_or(v.start_id, "0-0"),
    }
}

/// What is done once a batch was read and worked off.
#[derive(Clone, Copy, Debug, PartialEq, Eq, Structural)]
pub enum StreamMove {
    /// The worker is done.
    Stop,
    /// The worker waits before it reads on.
    Wait,
    /// The worker reads on at once.
    Continue,
}

/// What is done once a batch was read and worked off.
pub fn after_batch(entries: usize, run_once: bool) -> (r: StreamMove)
    ensures
        r == (if run_once {
            StreamMove::Stop
        } else if entries == 0 {
            StreamMove::Wait
        } else {
            StreamMove::Continue
        }),
{
    if run_once {
        StreamMove::Stop
    } else if entries == 0 {
        StreamMove::Wait
    } else {
        StreamMove::Continue
    }
}

/// Whether the worker is meant to read a stream.
pub fn should_use_stream_mode(value: Option<&str>) -> (r: bool)
    ensures
        r == flag_of(str_option(value), true),
{
    flag(value, true)
}

/// Where the worker takes its events from.
#[derive(Clone, Copy, Debug, PartialEq, Eq, Structural)]
pub enum RunMode {
    Stream,
    /// From the chains, though a stream is wanted: there is none.
    AdaptersInstead,
    Adapters,
}

/// Where the worker takes its events from.
pub fn run_mode(stream_wanted: bool, stream_available: bool) -> (r: RunMode)
    ensures
        r == (if !stream_wanted {
            RunMode::Adapters
        } else if stream_available {
            RunMode::Stream
        } else {
            RunMode::AdaptersInstead
        }),
{
    if !stream_wanted {
        RunMode::Adapters
    } else if stream_available {
        RunMode::Stream
    } else {
        RunMode::AdaptersInstead
    }
}

// ---------------------------------------------------------------------------
// Chains
// ---------------------------------------------------------------------------

/// The name of the setting for the confirmation depth of a chain.
pub open spec fn depth_setting_of(chain_slug: Seq<char>) -> Seq<char> {
    if chain_slug == "ethereum"@ {
        "ETH_CONFIRMATION_DEPTH"@
    } else if chain_slug == "base"@ {
        "BASE_CONFIRMATION_DEPTH"@
    } else {
        "CONFIRMATION_DEPTH"@
    }
}

pub fn confirmation_depth_setting(chain_slug: &str) -> (r: &'static str)
    ensures
        r@ == depth_setting_of(chain_slug@),
{
    if same(chain_slug, "ethereum") {
        "ETH_CONFIRMATION_DEPTH"
    } else if same(chain_slug, "base") {
        "BASE_CONFIRMATION_DEPTH"
    } else {
        "CONFIRMATION_DEPTH"
    }
}

/// How many blocks a block of a chain has to lie back, at least one.
pub open spec fn depth_of(chain_slug: Seq<char>, value: Option<Seq<char>>) -> u64 {
    let n: u64 = match number_of(value) {
        Some(n) => n,
        None => if chain_slug == "base"@ {
            64
        } else {
            3
        },
    };
    if n < 1 {
        1
    } else {
        n
    }
}

pub fn confirmation_depth_for_chain(chain_slug: &str, value: Option<&str>) -> (r: u64)
    ensures
        r == depth_of(chain_slug@, str_option(value)),
        r >= 1,
{
    let n: u64 = match number(value) {
        Some(n) => n,
        None => if same(chain_slug, "base") {
            64
        } else {
            3
        },
    };
    if n < 1 {
        1
    } else {
        n
    }
}

/// The oracle price and the reference price that a chain's mock adapter gives.
pub open spec fn mock_prices_of(chain_slug: Seq<char>) -> (Double, Double) {
    if chain_slug == "ethereum"@ {
        (Double { bits: ETHEREUM_ORACLE_BITS }, Double { bits: ETHEREUM_REFERENCE_BITS })
    } else if chain_slug == "base"@ {
        (Double { bits: BASE_ORACLE_BITS }, Double { bits: BASE_REFERENCE_BITS })
    } else {
        (Double { bits: OTHER_ORACLE_BITS }, Double { bits: OTHER_REFERENCE_BITS })
    }
}

pub fn default_mock_prices(chain_slug: &str) -> (r: (Double, Double))
    ensures
        r == mock_prices_of(chain_slug@),
{
    if same(chain_slug, "ethereum") {
        (Double { bits: ETHEREUM_ORACLE_BITS }, Double { bits: ETHEREUM_REFERENCE_BITS })
    } else if same(chain_slug, "base") {
        (Double { bits: BASE_ORACLE_BITS }, Double { bits: BASE_REFERENCE_BITS })
    } else {
        (Double { bits: OTHER_ORACLE_BITS }, Double { bits: OTHER_REFERENCE_BITS })
    }
}

// ---------------------------------------------------------------------------
// Addresses of services
// ---------------------------------------------------------------------------

/// Addresses with one more, without white space around it, unless it is blank or there
/// already.
pub open spec fn with_address(s: Seq<Seq<char>>, a: Option<Seq<char>>) -> Seq<Seq<char>> {
    match filled(a) {
        Some(a) => if s.contains(a) {
            s
        } else {
            s.push(a)
        },
        None => s,
    }
}

/// The first `n` addresses, each once.
pub open spec fn addresses(s: Seq<Option<Seq<char>>>, n: nat) -> Seq<Seq<char>>
    decreases n,
{
    if n == 0 {
        Seq::<Seq<char>>::empty()
    } else {
        with_address(addresses(s, (n - 1) as nat), s[n - 1])
    }
}

fn add_address(v: &mut Vec<String>, a: Option<&str>)
    ensures
        texts(final(v)@) == with_address(texts(old(v)@), str_option(a)),
{
    let ghost before = v@;
    match filled_text(a) {
        Some(a) => {
            let there: bool = contains_text(v, a.as_str());
            proof {
                lemma_listed(before, a@);
            }
            if !there {
                v.push(a);
                assert(texts(v@) =~= texts(before).push(a@));
            }
        },
        None => {},
    }
}

proof fn lemma_listed(v: Seq<String>, s: Seq<char>)
    ensures
        listed(v, s) == texts(v).contains(s),
{
    if listed(v, s) {
        let i = choose|i: int| 0 <= i < v.len() && (#[trigger] v[i])@ == s;
        assert(texts(v)[i] == s);
    }
    if texts(v).contains(s) {
        let i = choose|i: int| 0 <= i < texts(v).len() && texts(v)[i] == s;
        assert(v[i]@ == s);
    }
}

/// The contents of a list of settings.
pub open spec fn settings_view(v: Seq<Option<String>>) -> Seq<Option<Seq<char>>> {
    v.map_values(|s: Option<String>| text_option(s))
}

/// The addresses that a chain's settings give, each once.
pub fn resolve_chain_ws_urls(values: &Vec<Option<String>>) -> (r: Vec<String>)
    ensures
        texts(r@) == addresses(settings_view(values@), values@.len()),
{
    let ghost all = settings_view(values@);
    let mut r: Vec<String> = Vec::new();
    let mut i: usize = 0;
    assert(texts(r@) =~= Seq::<Seq<char>>::empty());
    while i < values.len()
        invariant
            i <= values.len(),
            all == settings_view(values@),
            texts(r@) == addresses(all, i as nat),
        decreases values.len() - i,
    {
        let value: Option<&str> = match &values[i] {
            Some(s) => Some(s.as_str()),
            None => None,
        };
        assert(all[i as int] == str_option(value));
        add_address(&mut r, value);
        i = i + 1;
    }
    r
}

/// Texts as settings that are there.
pub open spec fn given(s: Seq<Seq<char>>) -> Seq<Option<Seq<char>>> {
    Seq::new(s.len(), |i: int| Some(s[i]))
}

/// The addresses of a list with commas, and then a single one, each once.
pub open spec fn listed_addresses(csv: Option<Seq<char>>, single: Option<Seq<char>>) -> Seq<
    Seq<char>,
> {
    let many = match csv {
        Some(s) => addresses(given(pieces(s, ',')), pieces(s, ',').len()),
        None => Seq::<Seq<char>>::empty(),
    };
    with_address(many, single)
}

/// The addresses of a list with commas, and then a single one, each once.
pub fn resolve_legacy_ws_urls(csv: Option<&str>, single: Option<&str>) -> (r: Vec<String>)
    ensures
        texts(r@) == listed_addresses(str_option(csv), str_option(single)),
{
    let mut r: Vec<String> = Vec::new();
    assert(texts(r@) =~= Seq::<Seq<char>>::empty());
    match csv {
        Some(s) => {
            let items: Vec<String> = split(s, ',');
            let ghost all = given(pieces(s@, ','));
            let mut i: usize = 0;
            while i < items.len()
                invariant
                    i <= items.len(),
                    texts(items@) == pieces(s@, ','),
                    all == given(pieces(s@, ',')),
                    texts(r@) == addresses(all, i as nat),
                decreases items.len() - i,
            {
                assert(texts(items@)[i as int] == items@[i as int]@);
                add_address(&mut r, Some(items[i].as_str()));
                i = i + 1;
            }
            assert(items@.len() == texts(items@).len());
        },
        None => {},
    }
    add_address(&mut r, single);
    r
}

// ---------------------------------------------------------------------------
// Laws
// ---------------------------------------------------------------------------

/// No address is there twice, and none is blank.
pub proof fn law_addresses_are_distinct(s: Seq<Option<Seq<char>>>, n: nat)
    requires
        n <= s.len(),
    ensures
        addresses(s, n).no_duplicates(),
        forall|i: int| 0 <= i < addresses(s, n).len() ==> (#[trigger] addresses(s, n)[i]).len() > 0,
    decreases n,
{
    if n > 0 {
        law_addresses_are_distinct(s, (n - 1) as nat);
        let before = addresses(s, (n - 1) as nat);
        match filled(s[n - 1]) {
            Some(a) => {
                if !before.contains(a) {
                    assert forall|i: int, j: int|
                        0 <= i < before.push(a).len() && 0 <= j < before.push(a).len() && i
                            != j implies before.push(a)[i] != before.push(a)[j] by {
                        if i < before.len() && j == before.len() {
                            assert(before.contains(before[i]));
                        }
                        if j < before.len() && i == before.len() {
                            assert(before.contains(before[j]));
                        }
                    }
                }
            },
            None => {},
        }
    }
}

/// A block is never taken before it has a confirmation.
pub proof fn law_depth_is_at_least_one(chain_slug: Seq<char>, value: Option<Seq<char>>)
    ensures
        depth_of(chain_slug, value) >= 1,
{
}

/// A flag is set by one or by the word for it in any case of letters, unset by anything else,
/// and as usual where nothing is said.
pub proof fn law_flags_are_set_by_one_or_true(s: Seq<char>, default: bool)
    ensures
        flag_of(Some(s), default) <==> s == "1"@ || crate::text::lowered(s)
            == crate::text::lowered("true"@),
        flag_of(None, default) == default,
{
}

/// A number is read back from its digits; what is none, or too large, leaves the default.
pub proof fn law_numbers_are_read_from_digits(n: nat, default: usize)
    ensures
        n <= usize::MAX ==> count_of(Some(crate::text::decimal(n)), default) == n,
        n > usize::MAX ==> count_of(Some(crate::text::decimal(n)), default) == default,
        count_of(None, default) == default,
        n <= u64::MAX ==> number_of(Some(crate::text::decimal(n))) == Some(n as u64),
        n > u64::MAX ==> number_of(Some(crate::text::decimal(n))) is None,
        n <= u8::MAX ==> small_number_of(Some(crate::text::decimal(n))) == Some(n as u8),
        n > u8::MAX ==> small_number_of(Some(crate::text::decimal(n))) is None,
        number_of(None) is None,
        small_number_of(None) is None,
{
    crate::text::law_decimals_are_read_back(n, (usize::MAX + 1) as nat);
    crate::text::law_decimals_are_read_back(n, (u64::MAX + 1) as nat);
    crate::text::law_decimals_are_read_back(n, (u8::MAX + 1) as nat);
}

/// A consumer is named after its host, where that is known.
pub proof fn law_consumers_are_named_after_their_host(prefix: Seq<char>, host: Seq<char>)
    ensures
        consumer_name(prefix, Some(host)) == prefix + "-"@ + host,
        consumer_name(prefix, None) == prefix + "-"@ + "local"@,
        text_or(Some(host), prefix) == host,
        text_or(None, prefix) == prefix,
{
}

/// The depth of a chain is as set, where that is a number above zero.
pub proof fn law_depth_is_as_set(chain_slug: Seq<char>, n: u64)
    requires
        n >= 1,
    ensures
        depth_of(chain_slug, Some(crate::text::decimal(n as nat))) == n,
        chain_slug != "base"@ ==> depth_of(chain_slug, None) < depth_of("base"@, None),
{
    crate::text::law_decimals_are_read_back(n as nat, (u64::MAX + 1) as nat);
}

/// Every address that is given is there, without its margins, unless it is blank; and no other
/// is.
pub proof fn law_no_address_is_lost(s: Seq<Option<Seq<char>>>, n: nat, a: Seq<char>)
    requires
        n <= s.len(),
    ensures
        addresses(s, n).contains(a) <==> exists|i: int|
            0 <= i < n && filled(#[trigger] s[i]) == Some(a),
    decreases n,
{
    if n > 0 {
        let before = addresses(s, (n - 1) as nat);
        let after = addresses(s, n);
        law_no_address_is_lost(s, (n - 1) as nat, a);
        if before.contains(a) {
            let k = choose|k: int| 0 <= k < before.len() && before[k] == a;
            assert(after[k] == a);
        }
        if filled(s[n - 1]) == Some(a) && !before.contains(a) {
            assert(after[before.len() as int] == a);
        }
        if after.contains(a) && !before.contains(a) {
            let k = choose|k: int| 0 <= k < after.len() && after[k] == a;
            assert(k == before.len());
            assert(filled(s[n - 1]) == Some(a));
        }
    }
}

/// The addresses of a list and a single one are all there, the single one too.
pub proof fn law_the_single_address_is_there(csv: Option<Seq<char>>, single: Seq<char>)
    requires
        crate::text::trimmed(single).len() > 0,
    ensures
        listed_addresses(csv, Some(single)).contains(crate::text::trimmed(single)),
        listed_addresses(None, Some(single)) == seq![crate::text::trimmed(single)],
{
    let many = match csv {
        Some(s) => addresses(given(pieces(s, ',')), pieces(s, ',').len()),
        None => Seq::<Seq<char>>::empty(),
    };
    let t = crate::text::trimmed(single);
    if !many.contains(t) {
        assert(many.push(t)[many.len() as int] == t);
    }
    assert(Seq::<Seq<char>>::empty().push(t) =~= seq![t]);
}

/// Each chain has its own setting for the depth, and prices of its own in mock operation, where
/// the oracle is above the reference.
pub proof fn law_chains_have_their_own_settings(chain_slug: Seq<char>)
    ensures
        chain_slug == "ethereum"@ ==> depth_setting_of(chain_slug) == "ETH_CONFIRMATION_DEPTH"@,
        chain_slug == "base"@ ==> depth_setting_of(chain_slug) == "BASE_CONFIRMATION_DEPTH"@,
        chain_slug != "ethereum"@ && chain_slug != "base"@ ==> depth_setting_of(chain_slug)
            == "CONFIRMATION_DEPTH"@,
        mock_prices_of(chain_slug).1.below(mock_prices_of(chain_slug).0),
        depth_of("base"@, None) == 64,
        chain_slug != "base"@ ==> depth_of(chain_slug, None) == 3,
{
    reveal_strlit("ethereum");
    reveal_strlit("base");
    assert("ethereum"@[0] != "base"@[0]);
}

} // verus!
