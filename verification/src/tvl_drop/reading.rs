//! What events say of the value locked in a protocol, and of pauses.

use vstd::prelude::*;

use crate::double::Double;
use crate::event::filled;
use crate::event::filled_text;
use crate::event::UnifiedEvent;
use crate::json::boolean_in;
use crate::json::either;
use crate::json::either_of;
use crate::json::integer_in;
use crate::json::member_bool;
use crate::json::member_i64;
use crate::json::member_text;
use crate::json::text_in;
use crate::json::JsonView;
use crate::text::alike;
use crate::text::copy_option;
use crate::text::lowercase;
use crate::text::lowered;
use crate::text::same;
use crate::text::same_ignoring_case;
use crate::text::text_option;
use crate::text::trim;
use crate::text::trimmed;
use crate::tvl_drop::rule::number_of;
use crate::tvl_drop::rule::value_to_f64;

verus! {

/// A sample of the value locked in a protocol or market.
#[derive(Debug)]
pub struct TvlStateEvent {
    pub protocol_id: String,
    pub chain_slug: String,
    pub market_id: Option<String>,
    pub tvl_usd: Double,
    pub block_number: i64,
    pub tx_hash: Option<String>,
}

pub struct SampleView {
    pub protocol_id: Seq<char>,
    pub chain_slug: Seq<char>,
    pub market_id: Option<Seq<char>>,
    pub tvl_usd: Double,
    pub block_number: i64,
    pub tx_hash: Option<Seq<char>>,
}

impl View for TvlStateEvent {
    type V = SampleView;

    open spec fn view(&self) -> SampleView {
        SampleView {
            protocol_id: self.protocol_id@,
            chain_slug: self.chain_slug@,
            market_id: text_option(self.market_id),
            tvl_usd: self.tvl_usd,
            block_number: self.block_number,
            tx_hash: text_option(self.tx_hash),
        }
    }
}

/// News that a protocol or market was paused, or goes on.
#[derive(Debug)]
pub struct TvlPauseEvent {
    pub protocol_id: String,
    pub chain_slug: String,
    pub market_id: Option<String>,
    pub paused: bool,
    pub block_number: i64,
    pub tx_hash: Option<String>,
}

pub struct PauseView {
    pub protocol_id: Seq<char>,
    pub chain_slug: Seq<char>,
    pub market_id: Option<Seq<char>>,
    pub paused: bool,
    pub block_number: i64,
    pub tx_hash: Option<Seq<char>>,
}

impl View for TvlPauseEvent {
    type V = PauseView;

    open spec fn view(&self) -> PauseView {
        PauseView {
            protocol_id: self.protocol_id@,
            chain_slug: self.chain_slug@,
            market_id: text_option(self.market_id),
            paused: self.paused,
            block_number: self.block_number,
            tx_hash: text_option(self.tx_hash),
        }
    }
}

/// The slug of the chain with a number.
pub open spec fn slug_of_chain(id: Option<i64>) -> Option<Seq<char>> {
    if id == Some(1i64) {
        Some("ethereum"@)
    } else if id == Some(42161i64) {
        Some("arbitrum"@)
    } else if id == Some(10i64) {
        Some("optimism"@)
    } else if id == Some(8453i64) {
        Some("base"@)
    } else if id == Some(137i64) {
        Some("polygon"@)
    } else if id == Some(43114i64) {
        Some("avalanche"@)
    } else if id == Some(56i64) {
        Some("bsc"@)
    } else {
        None
    }
}

pub fn chain_slug_from_chain_id(chain_id: Option<i64>) -> (r: Option<String>)
    ensures
        text_option(r) == slug_of_chain(chain_id),
{
    let id: i64 = match chain_id {
        Some(id) => id,
        None => {
            return None;
        },
    };
    let slug: &str = if id == 1 {
        "ethereum"
    } else if id == 42161 {
        "arbitrum"
    } else if id == 10 {
        "optimism"
    } else if id == 8453 {
        "base"
    } else if id == 137 {
        "polygon"
    } else if id == 43114 {
        "avalanche"
    } else if id == 56 {
        "bsc"
    } else {
        return None;
    };
    Some(slug.to_owned())
}

/// The protocol that a payload names.
pub open spec fn protocol_in(payload: JsonView) -> Option<Seq<char>> {
    match text_in(either(payload.get("protocol_id"@), payload.get("protocol"@))) {
        Some(s) => Some(lowered(trimmed(s))),
        None => None,
    }
}

/// The chain that an event names, by its slug or its number.
pub open spec fn chain_in(payload: JsonView, chain_id: Option<i64>) -> Seq<char> {
    match filled(text_in(payload.get("chain_slug"@))) {
        Some(s) => lowered(s),
        None => match slug_of_chain(chain_id) {
            Some(s) => s,
            None => "unknown"@,
        },
    }
}

/// The market that a payload names, if it names one and not all of them.
pub open spec fn market_named(payload: JsonView) -> Option<Seq<char>> {
    match filled(text_in(payload.get("market_id"@))) {
        Some(s) => if alike(s, "all"@) {
            None
        } else {
            Some(lowered(s))
        },
        None => None,
    }
}

/// The block of an event, zero where it names none.
pub open spec fn block_of(event: UnifiedEvent) -> i64 {
    match either(event.block_number, integer_in(event.payload@.get("block_number"@))) {
        Some(n) => n,
        None => 0,
    }
}

/// The transaction of an event.
pub open spec fn transaction_of(event: UnifiedEvent) -> Option<Seq<char>> {
    either(text_option(event.tx_hash), text_in(event.payload@.get("tx_hash"@)))
}

/// Whether a type of event is that of samples.
pub open spec fn is_sample(event_type: Seq<char>) -> bool {
    event_type == "protocol_state"@ || event_type == "protocol_tvl"@
}

/// The sample in an event: one of a protocol, of a value above zero.
pub open spec fn sample_in(event: UnifiedEvent) -> Option<SampleView> {
    let payload = event.payload@;
    let value = match either(payload.get("tvl_usd"@), payload.get("tvl"@)) {
        Some(v) => number_of(v),
        None => None,
    };
    match (protocol_in(payload), value) {
        (Some(protocol_id), Some(tvl_usd)) => if is_sample(event.event_type@) && tvl_usd.finite()
            && tvl_usd.positive() {
            Some(
                SampleView {
                    protocol_id,
                    chain_slug: chain_in(payload, event.chain_id),
                    market_id: market_named(payload),
                    tvl_usd,
                    block_number: block_of(event),
                    tx_hash: transaction_of(event),
                },
            )
        } else {
            None
        },
        _ => None,
    }
}

/// Whether an event says that there is a pause, by its type or its payload.
pub open spec fn pause_state_in(event: UnifiedEvent) -> Option<bool> {
    let t = event.event_type@;
    if t == "protocol_pause"@ || t == "protocol_paused"@ {
        Some(true)
    } else if t == "protocol_unpause"@ || t == "protocol_unpaused"@ {
        Some(false)
    } else {
        either(
            boolean_in(event.payload@.get("paused"@)),
            boolean_in(event.payload@.get("is_paused"@)),
        )
    }
}

/// The news of a pause in an event.
pub open spec fn pause_in(event: UnifiedEvent) -> Option<PauseView> {
    let payload = event.payload@;
    match (protocol_in(payload), pause_state_in(event)) {
        (Some(protocol_id), Some(paused)) => Some(
            PauseView {
                protocol_id,
                chain_slug: chain_in(payload, event.chain_id),
                market_id: market_named(payload),
                paused,
                block_number: block_of(event),
                tx_hash: transaction_of(event),
            },
        ),
        _ => None,
    }
}

/// The contents of an optional sample.
pub open spec fn sample_option(s: Option<TvlStateEvent>) -> Option<SampleView> {
    match s {
        Some(s) => Some(s@),
        None => None,
    }
}

/// The contents of optional news.
pub open spec fn pause_option(s: Option<TvlPauseEvent>) -> Option<PauseView> {
    match s {
        Some(s) => Some(s@),
        None => None,
    }
}

fn read_protocol(event: &UnifiedEvent) -> (r: Option<String>)
    ensures
        text_option(r) == protocol_in(event.payload@),
{
    match member_text(
        either_of(event.payload.get("protocol_id"), event.payload.get("protocol")),
    ) {
        Some(s) => Some(lowercase(trim(s).as_str())),
        None => None,
    }
}

fn read_chain(event: &UnifiedEvent) -> (r: String)
    ensures
        r@ == chain_in(event.payload@, event.chain_id),
{
    match filled_text(member_text(event.payload.get("chain_slug"))) {
        Some(s) => lowercase(s.as_str()),
        None => match chain_slug_from_chain_id(event.chain_id) {
            Some(s) => s,
            None => "unknown".to_owned(),
        },
    }
}

fn read_market(event: &UnifiedEvent) -> (r: Option<String>)
    ensures
        text_option(r) == market_named(event.payload@),
{
    match filled_text(member_text(event.payload.get("market_id"))) {
        Some(s) => if same_ignoring_case(s.as_str(), "all") {
            None
        } else {
            Some(lowercase(s.as_str()))
        },
        None => None,
    }
}

fn read_block(event: &UnifiedEvent) -> (r: i64)
    ensures
        r == block_of(*event),
{
    match event.block_number {
        Some(n) => n,
        None => member_i64(event.payload.get("block_number")).unwrap_or(0),
    }
}

fn read_transaction(event: &UnifiedEvent) -> (r: Option<String>)
    ensures
        text_option(r) == transaction_of(*event),
{
    if event.tx_hash.is_some() {
        return copy_option(&event.tx_hash);
    }
    match member_text(event.payload.get("tx_hash")) {
        Some(s) => Some(s.to_owned()),
        None => None,
    }
}

/// The sample in an event.
pub fn parse_tvl_state_event(event: &UnifiedEvent) -> (r: Option<TvlStateEvent>)
    ensures
        sample_option(r) == sample_in(*event),
{
    let t: &str = event.event_type.as_str();
    if !same(t, "protocol_state") && !same(t, "protocol_tvl") {
        return None;
    }
    let protocol_id: String = match read_protocol(event) {
        Some(s) => s,
        None => {
            return None;
        },
    };
    let value: Option<Double> = match either_of(
        event.payload.get("tvl_usd"),
        event.payload.get("tvl"),
    ) {
        Some(v) => value_to_f64(v),
        None => None,
    };
    let tvl_usd: Double = match value {
        Some(x) => x,
        None => {
            return None;
        },
    };
    if !(tvl_usd.is_finite() && tvl_usd.is_positive()) {
        return None;
    }
    Some(
        TvlStateEvent {
            protocol_id,
            chain_slug: read_chain(event),
            market_id: read_market(event),
            tvl_usd,
            block_number: read_block(event),
            tx_hash: read_transaction(event),
        },
    )
}

/// The news of a pause in an event.
pub fn parse_tvl_pause_event(event: &UnifiedEvent) -> (r: Option<TvlPauseEvent>)
    ensures
        pause_option(r) == pause_in(*event),
{
    let protocol_id: String = match read_protocol(event) {
        Some(s) => s,
        None => {
            return None;
        },
    };
    let t: &str = event.event_type.as_str();
    let state: Option<bool> = if same(t, "protocol_pause") || same(t, "protocol_paused") {
        Some(true)
    } else if same(t, "protocol_unpause") || same(t, "protocol_unpaused") {
        Some(false)
    } else {
        match member_bool(event.payload.get("paused")) {
            Some(b) => Some(b),
            None => member_bool(event.payload.get("is_paused")),
        }
    };
    match state {
        Some(paused) => Some(
            TvlPauseEvent {
                protocol_id,
                chain_slug: read_chain(event),
                market_id: read_market(event),
                paused,
                block_number: read_block(event),
                tx_hash: read_transaction(event),
            },
        ),
        None => None,
    }
}

// ---------------------------------------------------------------------------
// Laws
// ---------------------------------------------------------------------------

/// A payload names its protocol as such, or for short; case and margins do not matter.
pub proof fn law_protocols_are_named(payload: JsonView, name: Seq<char>)
    ensures
        payload.get("protocol_id"@) == Some(JsonView::Text(name)) ==> protocol_in(payload) == Some(
            lowered(trimmed(name)),
        ),
        payload.get("protocol_id"@) is None && payload.get("protocol"@) == Some(
            JsonView::Text(name),
        ) ==> protocol_in(payload) == Some(lowered(trimmed(name))),
        payload.get("protocol_id"@) is None && payload.get("protocol"@) is None ==> protocol_in(
            payload,
        ) is None,
{
}

/// An event names its chain by a slug, or else by a number; a number that is not known stands
/// for no chain that is.
pub proof fn law_chains_are_named_by_slug_or_number(payload: JsonView, slug: Seq<char>, id: Option<i64>)
    ensures
        payload.get("chain_slug"@) == Some(JsonView::Text(slug)) && trimmed(slug).len() > 0
            ==> chain_in(payload, id) == lowered(trimmed(slug)),
        payload.get("chain_slug"@) is None && slug_of_chain(id) is Some ==> Some(
            chain_in(payload, id),
        ) == slug_of_chain(id),
        payload.get("chain_slug"@) is None && slug_of_chain(id) is None ==> chain_in(payload, id)
            == "unknown"@,
        payload.get("chain_slug"@) == Some(JsonView::Text(slug)) && trimmed(slug).len() == 0
            ==> chain_in(payload, id) == chain_in(JsonView::Null, id),
        slug_of_chain(Some(1)) == Some("ethereum"@),
        slug_of_chain(Some(10)) == Some("optimism"@),
        slug_of_chain(Some(56)) == Some("bsc"@),
        slug_of_chain(Some(137)) == Some("polygon"@),
        slug_of_chain(Some(8453)) == Some("base"@),
        slug_of_chain(Some(42161)) == Some("arbitrum"@),
        slug_of_chain(Some(43114)) == Some("avalanche"@),
        slug_of_chain(id) is Some ==> id is Some && ([1i64, 10, 56, 137, 8453, 42161, 43114])@
            .contains(id->0),
{
}

/// A payload is about the market that it names, and about the protocol as a whole where it
/// names none or all of them.
pub proof fn law_all_markets_are_no_market(payload: JsonView, name: Seq<char>)
    requires
        payload.get("market_id"@) == Some(JsonView::Text(name)),
    ensures
        market_named(payload) is None <==> trimmed(name).len() == 0 || lowered(trimmed(name))
            == lowered("all"@),
        market_named(payload) is Some ==> market_named(payload) == Some(lowered(trimmed(name))),
{
}

/// The block and the transaction of an event are its own, or else those of its payload.
pub proof fn law_blocks_and_transactions_are_of_the_event(event: UnifiedEvent, n: i64)
    ensures
        event.block_number is Some ==> block_of(event) == event.block_number->0,
        event.block_number is None && event.payload@.get("block_number"@) == Some(
            JsonView::Whole(n as int),
        ) ==> block_of(event) == n,
        event.block_number is None && event.payload@.get("block_number"@) is None ==> block_of(event)
            == 0,
        event.tx_hash is Some ==> transaction_of(event) == Some(event.tx_hash->0@),
        event.tx_hash is None ==> transaction_of(event) == text_in(
            event.payload@.get("tx_hash"@),
        ),
{
}

/// An event has a sample exactly where it is of the kind that has one, names a protocol, and
/// gives a value above zero, under either of two names.
pub proof fn law_samples_are_values_above_zero(event: UnifiedEvent)
    ensures
        ({
            let long = event.payload@.get("tvl_usd"@);
            let short = event.payload@.get("tvl"@);
            let value = if long is Some {
                number_of(long->0)
            } else if short is Some {
                number_of(short->0)
            } else {
                None
            };
            let r = sample_in(event);
            &&& r is Some <==> (event.event_type@ == "protocol_state"@ || event.event_type@
                == "protocol_tvl"@) && protocol_in(event.payload@) is Some && value is Some
                && value->0.positive() && value->0.finite()
            &&& r is Some ==> {
                &&& r->0.tvl_usd == value->0
                &&& Some(r->0.protocol_id) == protocol_in(event.payload@)
                &&& r->0.chain_slug == chain_in(event.payload@, event.chain_id)
                &&& r->0.market_id == market_named(event.payload@)
                &&& r->0.block_number == block_of(event)
                &&& r->0.tx_hash == transaction_of(event)
            }
        }),
{
}

/// The type of an event tells of a pause, whatever its payload says; an event of another type
/// does where its payload says so.
pub proof fn law_pauses_are_told_by_type_or_payload(event: UnifiedEvent, said: bool)
    ensures
        ({
            let t = event.event_type@;
            let begins = t == "protocol_pause"@ || t == "protocol_paused"@;
            let ends = t == "protocol_unpause"@ || t == "protocol_unpaused"@;
            let first = event.payload@.get("paused"@);
            let second = event.payload@.get("is_paused"@);
            &&& begins ==> pause_state_in(event) == Some(true)
            &&& ends ==> pause_state_in(event) == Some(false)
            &&& !begins && !ends && first == Some(JsonView::Bool(said)) ==> pause_state_in(event)
                == Some(said)
            &&& !begins && !ends && first is None && second == Some(JsonView::Bool(said))
                ==> pause_state_in(event) == Some(said)
            &&& !begins && !ends && first is None && second is None ==> pause_in(event) is None
        }),
        pause_in(event) is Some <==> protocol_in(event.payload@) is Some && pause_state_in(
            event,
        ) is Some,
        pause_in(event) is Some ==> {
            let r = pause_in(event)->0;
            &&& Some(r.paused) == pause_state_in(event)
            &&& Some(r.protocol_id) == protocol_in(event.payload@)
            &&& r.chain_slug == chain_in(event.payload@, event.chain_id)
            &&& r.market_id == market_named(event.payload@)
            &&& r.block_number == block_of(event)
            &&& r.tx_hash == transaction_of(event)
        },
{
    reveal_strlit("protocol_pause");
    reveal_strlit("protocol_paused");
    reveal_strlit("protocol_unpause");
    reveal_strlit("protocol_unpaused");
    assert("protocol_pause"@[9] != "protocol_unpause"@[9]);
    assert("protocol_paused"@[9] != "protocol_unpause"@[9]);
    assert("protocol_pause"@[9] != "protocol_unpaused"@[9]);
    assert("protocol_paused"@[9] != "protocol_unpaused"@[9]);
}

} // verus!
