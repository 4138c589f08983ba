//! The prices that sources quoted for a market, and which of them held at a time.

use vstd::arithmetic::power2::*;
use vstd::prelude::*;

use crate::aggregation::double;
use crate::cache::Aging;
use crate::double::difference;
use crate::double::of_int;
use crate::double::product;
use crate::double::quotient;
use crate::double::Double;
use crate::order::arrange;
use crate::order::arranged;
use crate::order::in_order;
use crate::order::inserted;
use crate::order::lemma_arranged;
use crate::order::lemma_arranged_items;
use crate::order::Ranked;
use crate::text::same;
use crate::time::Timestamp;

verus! {

/// The price that a source quoted.
#[derive(Clone, Debug)]
pub struct QuoteInput {
    pub source_id: String,
    pub source_kind: String,
    pub price: Double,
    pub observed_at: Timestamp,
}

impl QuoteInput {
    pub fn copy(&self) -> (r: QuoteInput)
        ensures
            r == *self,
    {
        QuoteInput {
            source_id: self.source_id.clone(),
            source_kind: self.source_kind.clone(),
            price: self.price,
            observed_at: self.observed_at,
        }
    }
}

impl Ranked for QuoteInput {
    open spec fn outranks(&self, other: &Self) -> bool {
        self.observed_at.before(other.observed_at)
    }

    fn is_before(&self, other: &Self) -> (r: bool) {
        self.observed_at.is_before(other.observed_at)
    }
}

/// What one source quoted lately, in the order of time.
#[derive(Debug)]
pub struct SourceQuotes {
    pub source_id: String,
    pub history: Vec<QuoteInput>,
}

/// Sources and what they quoted lately.
pub type Histories = Seq<(Seq<char>, Seq<QuoteInput>)>;

/// The contents of a market's quotes.
pub open spec fn histories(v: Seq<SourceQuotes>) -> Histories {
    v.map_values(|s: SourceQuotes| (s.source_id@, s.history@))
}

/// The bits of 100.0 and of 1000000.0.
pub const HUNDRED_BITS: u64 = 0x4059_0000_0000_0000;

pub const MILLION_BITS: u64 = 0x412e_8480_0000_0000;

/// How far a price is from the target, in percent of the target.
pub open spec fn deviation(price: Double, target: Double) -> Double {
    product(quotient(difference(price, target).absolute(), target), double(HUNDRED_BITS))
}

/// A number rounded to six decimal places.
pub open spec fn six_places(x: Double) -> Double {
    quotient(
        crate::double::nearest_whole(product(x, double(MILLION_BITS))),
        double(MILLION_BITS),
    )
}

/// How far a price is from the target, in percent of the target.
pub fn deviation_pct(price: Double, target: Double) -> (r: Double)
    ensures
        r == deviation(price, target),
{
    price.minus(target).abs().over(target).times(Double { bits: HUNDRED_BITS })
}

/// A number rounded to six decimal places, so that the noise of the arithmetic does not
/// decide a comparison with a threshold.
pub fn round_to_6dp(value: Double) -> (r: Double)
    ensures
        r == six_places(value),
{
    let million = Double { bits: MILLION_BITS };
    value.times(million).round().over(million)
}

/// Whether two quotes say the same thing at the same time.
pub open spec fn repeats(a: QuoteInput, b: QuoteInput) -> bool {
    &&& a.observed_at == b.observed_at
    &&& a.price.same(b.price)
    &&& a.source_kind@ == b.source_kind@
    &&& a.source_id@ == b.source_id@
}

fn is_repeat(a: &QuoteInput, b: &QuoteInput) -> (r: bool)
    ensures
        r == repeats(*a, *b),
{
    a.observed_at.nanos == b.observed_at.nanos && a.price.equals(b.price) && same(
        a.source_kind.as_str(),
        b.source_kind.as_str(),
    ) && same(a.source_id.as_str(), b.source_id.as_str())
}

/// A history without the quotes that repeat the one kept before them.
pub open spec fn without_repeats(s: Seq<QuoteInput>) -> Seq<QuoteInput>
    decreases s.len(),
{
    if s.len() == 0 {
        s
    } else {
        let front = without_repeats(s.drop_last());
        if front.len() > 0 && repeats(s.last(), front.last()) {
            front
        } else {
            front.push(s.last())
        }
    }
}

/// The last `n` quotes.
pub open spec fn latest_part(s: Seq<QuoteInput>, n: nat) -> Seq<QuoteInput> {
    if s.len() > n {
        s.skip(s.len() - n)
    } else {
        s
    }
}

/// A history with one more quote: in the order of time, without repeats, and with the
/// oldest quotes gone as far as there are more than `limit`.
pub open spec fn history_with(s: Seq<QuoteInput>, q: QuoteInput, limit: nat) -> Seq<QuoteInput> {
    latest_part(without_repeats(arranged(s.push(q))), limit)
}

/// The place of a source's history, the number of histories where it has none.
pub open spec fn source_place(m: Histories, source: Seq<char>) -> int
    decreases m.len(),
{
    if m.len() == 0 || m[0].0 == source {
        0
    } else {
        1 + source_place(m.skip(1), source)
    }
}

/// The quotes of a market with one more.
pub open spec fn remembered(m: Histories, q: QuoteInput, limit: nat) -> Histories {
    let i = source_place(m, q.source_id@);
    if i < m.len() {
        m.update(i, (m[i].0, history_with(m[i].1, q, limit)))
    } else {
        m.push((q.source_id@, history_with(Seq::<QuoteInput>::empty(), q, limit)))
    }
}

/// The last quote of a history that was there at `now`.
pub open spec fn quote_at(s: Seq<QuoteInput>, now: Timestamp) -> Option<QuoteInput>
    decreases s.len(),
{
    if s.len() == 0 {
        None
    } else if !now.before(s.last().observed_at) {
        Some(s.last())
    } else {
        quote_at(s.drop_last(), now)
    }
}

/// For each source that had quoted by `now`, its last quote then.
pub open spec fn quotes_at(m: Histories, now: Timestamp) -> Seq<QuoteInput>
    decreases m.len(),
{
    if m.len() == 0 {
        Seq::<QuoteInput>::empty()
    } else {
        let front = quotes_at(m.drop_last(), now);
        match quote_at(m.last().1, now) {
            Some(q) => front.push(q),
            None => front,
        }
    }
}

/// The later of two times.
pub open spec fn later(a: Option<Timestamp>, b: Option<Timestamp>) -> Option<Timestamp> {
    match (a, b) {
        (Some(x), Some(y)) => if x.before(y) {
            b
        } else {
            a
        },
        (None, _) => b,
        (_, None) => a,
    }
}

pub fn later_of(a: Option<Timestamp>, b: Option<Timestamp>) -> (r: Option<Timestamp>)
    ensures
        r == later(a, b),
{
    match (a, b) {
        (Some(x), Some(y)) => if x.is_before(y) {
            b
        } else {
            a
        },
        (None, _) => b,
        (_, None) => a,
    }
}

/// The latest time at which any source ended its history.
pub open spec fn last_quote_time(m: Histories) -> Option<Timestamp>
    decreases m.len(),
{
    if m.len() == 0 {
        None
    } else {
        later(
            last_quote_time(m.drop_last()),
            if m.last().1.len() > 0 {
                Some(m.last().1.last().observed_at)
            } else {
                None
            },
        )
    }
}

fn find_source(v: &Vec<SourceQuotes>, source: &str) -> (i: usize)
    ensures
        i <= v.len(),
        i == source_place(histories(v@), source@),
{
    let ghost m = histories(v@);
    let mut i: usize = 0;
    assert(m.skip(0) =~= m);
    while i < v.len()
        invariant
            i <= v.len(),
            m == histories(v@),
            source_place(m, source@) == i + source_place(m.skip(i as int), source@),
        decreases v.len() - i,
    {
        if same(v[i].source_id.as_str(), source) {
            return i;
        }
        assert(m.skip(i as int).skip(1) =~= m.skip(i + 1));
        i = i + 1;
    }
    i
}

fn drop_repeats(v: Vec<QuoteInput>) -> (r: Vec<QuoteInput>)
    ensures
        r@ == without_repeats(v@),
{
    let mut r: Vec<QuoteInput> = Vec::new();
    let mut i: usize = 0;
    assert(v@.take(0) =~= Seq::<QuoteInput>::empty());
    while i < v.len()
        invariant
            i <= v.len(),
            r@ == without_repeats(v@.take(i as int)),
        decreases v.len() - i,
    {
        assert(v@.take(i + 1).drop_last() =~= v@.take(i as int));
        if !(r.len() > 0 && is_repeat(&v[i], &r[r.len() - 1])) {
            r.push(v[i].copy());
        }
        i = i + 1;
    }
    assert(v@.take(v@.len() as int) =~= v@);
    r
}

fn keep_latest(v: Vec<QuoteInput>, limit: usize) -> (r: Vec<QuoteInput>)
    ensures
        r@ == latest_part(v@, limit as nat),
{
    if v.len() <= limit {
        return v;
    }
    let from: usize = v.len() - limit;
    let mut r: Vec<QuoteInput> = Vec::new();
    let mut i: usize = from;
    while i < v.len()
        invariant
            from <= i <= v.len(),
            r@ == v@.subrange(from as int, i as int),
        decreases v.len() - i,
    {
        r.push(v[i].copy());
        i = i + 1;
        assert(v@.subrange(from as int, i as int) =~= v@.subrange(from as int, i - 1).push(
            v@[i - 1],
        ));
    }
    assert(r@ =~= v@.skip(from as int));
    r
}

/// Adds a quote to the history of its source.
pub fn remember_quote(market_quotes: &mut Vec<SourceQuotes>, quote: QuoteInput, max_history: usize)
    ensures
        histories(final(market_quotes)@) == remembered(
            histories(old(market_quotes)@),
            quote,
            max_history as nat,
        ),
{
    let ghost before = market_quotes@;
    let i: usize = find_source(market_quotes, quote.source_id.as_str());
    let source: String = quote.source_id.clone();
    let mut history: Vec<QuoteInput> = Vec::new();
    if i < market_quotes.len() {
        let mut k: usize = 0;
        while k < market_quotes[i].history.len()
            invariant
                i < market_quotes.len(),
                market_quotes@ == before,
                k <= market_quotes[i as int].history.len(),
                history@ == market_quotes[i as int].history@.take(k as int),
            decreases market_quotes[i as int].history.len() - k,
        {
            history.push(market_quotes[i].history[k].copy());
            k = k + 1;
            assert(market_quotes[i as int].history@.take(k as int) =~= market_quotes[i as int].history@.take(
            k - 1).push(market_quotes[i as int].history@[k - 1]));
        }
        assert(market_quotes[i as int].history@.take(k as int) =~= market_quotes[i as int].history@);
    }
    history.push(quote);
    let next: Vec<QuoteInput> = keep_latest(drop_repeats(arrange(history)), max_history);
    if i < market_quotes.len() {
        let name: String = market_quotes[i].source_id.clone();
        market_quotes.set(i, SourceQuotes { source_id: name, history: next });
        assert(histories(market_quotes@) =~= histories(before).update(
            i as int,
            (histories(before)[i as int].0, next@),
        ));
    } else {
        market_quotes.push(SourceQuotes { source_id: source, history: next });
        assert(histories(market_quotes@) =~= histories(before).push((source@, next@)));
    }
}

fn last_by(v: &Vec<QuoteInput>, now: Timestamp) -> (r: Option<usize>)
    ensures
        match r {
            Some(i) => i < v.len() && quote_at(v@, now) == Some(v@[i as int]),
            None => quote_at(v@, now) is None,
        },
{
    let mut n: usize = v.len();
    assert(v@.take(n as int) =~= v@);
    while n > 0
        invariant
            n <= v.len(),
            quote_at(v@, now) == quote_at(v@.take(n as int), now),
        decreases n,
    {
        if !now.is_before(v[n - 1].observed_at) {
            return Some(n - 1);
        }
        assert(v@.take(n as int).drop_last() =~= v@.take(n - 1));
        n = n - 1;
    }
    None
}

/// For each source that had quoted by `now`, its last quote then.
pub fn latest_quotes_for_time(market_quotes: &Vec<SourceQuotes>, now: Timestamp) -> (r: Vec<
    QuoteInput,
>)
    ensures
        r@ == quotes_at(histories(market_quotes@), now),
{
    let ghost m = histories(market_quotes@);
    let mut r: Vec<QuoteInput> = Vec::new();
    let mut i: usize = 0;
    while i < market_quotes.len()
        invariant
            i <= market_quotes.len(),
            m == histories(market_quotes@),
            r@ == quotes_at(m.take(i as int), now),
        decreases market_quotes.len() - i,
    {
        assert(m.take(i + 1).drop_last() =~= m.take(i as int));
        match last_by(&market_quotes[i].history, now) {
            Some(k) => {
                r.push(market_quotes[i].history[k].copy());
            },
            None => {},
        }
        i = i + 1;
    }
    assert(m.take(m.len() as int) =~= m);
    r
}

/// The latest time at which any source ended its history.
pub fn latest_quote_timestamp(market_quotes: &Vec<SourceQuotes>) -> (r: Option<Timestamp>)
    ensures
        r == last_quote_time(histories(market_quotes@)),
{
    let ghost m = histories(market_quotes@);
    let mut r: Option<Timestamp> = None;
    let mut i: usize = 0;
    while i < market_quotes.len()
        invariant
            i <= market_quotes.len(),
            m == histories(market_quotes@),
            r == last_quote_time(m.take(i as int)),
        decreases market_quotes.len() - i,
    {
        assert(m.take(i + 1).drop_last() =~= m.take(i as int));
        let n: usize = market_quotes[i].history.len();
        let end: Option<Timestamp> = if n > 0 {
            Some(market_quotes[i].history[n - 1].observed_at)
        } else {
            None
        };
        r = later_of(r, end);
        i = i + 1;
    }
    assert(m.take(m.len() as int) =~= m);
    r
}

// ---------------------------------------------------------------------------
// Markets in a cache
// ---------------------------------------------------------------------------

/// A tenant's market, in live operation or in one replay.
#[derive(Clone, Debug)]
pub struct MarketScope {
    pub tenant_id: String,
    pub market_key: String,
    pub replay_scope: String,
}

pub struct ScopeView {
    pub tenant_id: Seq<char>,
    pub market_key: Seq<char>,
    pub replay_scope: Seq<char>,
}

impl View for MarketScope {
    type V = ScopeView;

    open spec fn view(&self) -> ScopeView {
        ScopeView {
            tenant_id: self.tenant_id@,
            market_key: self.market_key@,
            replay_scope: self.replay_scope@,
        }
    }
}

impl MarketScope {
    pub fn copy(&self) -> (r: MarketScope)
        ensures
            r == *self,
    {
        MarketScope {
            tenant_id: self.tenant_id.clone(),
            market_key: self.market_key.clone(),
            replay_scope: self.replay_scope.clone(),
        }
    }

    pub fn is(&self, tenant_id: &str, market_key: &str, replay_scope: &str) -> (r: bool)
        ensures
            r == (self@ == (ScopeView {
                tenant_id: tenant_id@,
                market_key: market_key@,
                replay_scope: replay_scope@,
            })),
    {
        same(self.tenant_id.as_str(), tenant_id) && same(self.market_key.as_str(), market_key)
            && same(self.replay_scope.as_str(), replay_scope)
    }
}

/// The quotes of a tenant's market.
#[derive(Debug)]
pub struct CachedMarket {
    pub scope: MarketScope,
    pub quotes: Vec<SourceQuotes>,
}

impl Aging for CachedMarket {
    open spec fn seen(&self) -> Option<Timestamp> {
        last_quote_time(histories(self.quotes@))
    }

    fn last_seen(&self) -> (r: Option<Timestamp>) {
        latest_quote_timestamp(&self.quotes)
    }
}

/// Markets and their quotes.
pub type Markets = Seq<(ScopeView, Histories)>;

/// The contents of a cache of markets.
pub open spec fn markets(v: Seq<CachedMarket>) -> Markets {
    v.map_values(|m: CachedMarket| (m.scope@, histories(m.quotes@)))
}

/// The place of a market, the number of markets where it is not there.
pub open spec fn market_place(m: Markets, scope: ScopeView) -> int
    decreases m.len(),
{
    if m.len() == 0 || m[0].0 == scope {
        0
    } else {
        1 + market_place(m.skip(1), scope)
    }
}

/// The quotes of a market.
pub open spec fn market_quotes(m: Markets, scope: ScopeView) -> Option<Histories> {
    let i = market_place(m, scope);
    if i < m.len() {
        Some(m[i].1)
    } else {
        None
    }
}

/// Where a market stands in the cache; the number of markets where it is not there.
pub fn find_market(v: &Vec<CachedMarket>, scope: &MarketScope) -> (i: usize)
    ensures
        i <= v.len(),
        i == market_place(markets(v@), scope@),
        i < v.len() ==> v@[i as int].scope@ == scope@,
{
    let ghost m = markets(v@);
    let mut i: usize = 0;
    assert(m.skip(0) =~= m);
    while i < v.len()
        invariant
            i <= v.len(),
            m == markets(v@),
            market_place(m, scope@) == i + market_place(m.skip(i as int), scope@),
        decreases v.len() - i,
    {
        if v[i].scope.is(
            scope.tenant_id.as_str(),
            scope.market_key.as_str(),
            scope.replay_scope.as_str(),
        ) {
            return i;
        }
        assert(m.skip(i as int).skip(1) =~= m.skip(i + 1));
        i = i + 1;
    }
    i
}

/// Markets with one more quote for one of them.
pub open spec fn markets_with(m: Markets, scope: ScopeView, q: QuoteInput, limit: nat) -> Markets {
    let i = market_place(m, scope);
    if i < m.len() {
        m.update(i, (m[i].0, remembered(m[i].1, q, limit)))
    } else {
        m.push((scope, remembered(Seq::<(Seq<char>, Seq<QuoteInput>)>::empty(), q, limit)))
    }
}

/// The place of a market in the cache, if it is there.
pub open spec fn place_in(m: Markets, scope: ScopeView) -> Option<int> {
    if market_place(m, scope) < m.len() {
        Some(market_place(m, scope))
    } else {
        None
    }
}

/// Adds a quote to a market of the cache.
pub fn remember_in_market(
    cache: Vec<CachedMarket>,
    scope: &MarketScope,
    quote: QuoteInput,
    limit: usize,
) -> (r: Vec<CachedMarket>)
    ensures
        markets(r@) == markets_with(markets(cache@), scope@, quote, limit as nat),
{
    let i: usize = find_market(&cache, scope);
    let ghost m = markets(cache@);
    let mut rest: Vec<CachedMarket> = cache;
    if i < rest.len() {
        let CachedMarket { scope: name, quotes } = rest.remove(i);
        let mut quotes: Vec<SourceQuotes> = quotes;
        remember_quote(&mut quotes, quote, limit);
        rest.insert(i, CachedMarket { scope: name, quotes });
        assert(markets(rest@) =~= m.update(
            i as int,
            (m[i as int].0, remembered(m[i as int].1, quote, limit as nat)),
        ));
    } else {
        let mut quotes: Vec<SourceQuotes> = Vec::new();
        assert(histories(quotes@) =~= Seq::<(Seq<char>, Seq<QuoteInput>)>::empty());
        remember_quote(&mut quotes, quote, limit);
        rest.push(CachedMarket { scope: scope.copy(), quotes });
        assert(markets(rest@) =~= m.push((scope@, histories(quotes@))));
    }
    rest
}

/// The name of the scope of live operation.
pub open spec fn live_scope() -> Seq<char> {
    "__live__"@
}

/// Whether a market's quotes stay when an event of the run `scope` comes in: they belong to
/// another market, to that run, or to live operation.
pub open spec fn stays_for_run(m: ScopeView, scope: ScopeView) -> bool {
    ||| m.tenant_id != scope.tenant_id
    ||| m.market_key != scope.market_key
    ||| m.replay_scope == scope.replay_scope
    ||| m.replay_scope == live_scope()
}

/// Which markets' quotes stay when an event of the run `scope` comes in.
pub open spec fn run_flags(m: Markets, scope: ScopeView) -> Seq<bool> {
    Seq::new(m.len(), |i: int| stays_for_run(m[i].0, scope))
}

/// Forgets the quotes of the market in other runs.
pub fn forget_other_runs(cache: Vec<CachedMarket>, scope: &MarketScope) -> (r: Vec<CachedMarket>)
    ensures
        r@ == crate::cache::kept(cache@, run_flags(markets(cache@), scope@)),
{
    let ghost m = markets(cache@);
    let mut flags: Vec<bool> = Vec::new();
    let mut i: usize = 0;
    while i < cache.len()
        invariant
            i <= cache.len(),
            m == markets(cache@),
            flags@ == run_flags(m, scope@).take(i as int),
        decreases cache.len() - i,
    {
        let there: &MarketScope = &cache[i].scope;
        let flag: bool = !same(there.tenant_id.as_str(), scope.tenant_id.as_str()) || !same(
            there.market_key.as_str(),
            scope.market_key.as_str(),
        ) || same(there.replay_scope.as_str(), scope.replay_scope.as_str()) || same(
            there.replay_scope.as_str(),
            "__live__",
        );
        assert(flag == run_flags(m, scope@)[i as int]);
        flags.push(flag);
        i = i + 1;
        assert(run_flags(m, scope@).take(i as int) =~= run_flags(m, scope@).take(i - 1).push(flag));
    }
    assert(flags@ =~= run_flags(m, scope@));
    crate::cache::keep(cache, &flags)
}

// ---------------------------------------------------------------------------
// Laws
// ---------------------------------------------------------------------------

proof fn lemma_without_repeats(s: Seq<QuoteInput>)
    requires
        in_order(s),
    ensures
        in_order(without_repeats(s)),
        without_repeats(s).len() <= s.len(),
        forall|i: int|
            0 <= i < without_repeats(s).len() ==> s.contains(#[trigger] without_repeats(s)[i]),
        s.len() > 0 ==> without_repeats(s).len() > 0,
    decreases s.len(),
{
    if s.len() > 0 {
        let t = s.drop_last();
        assert forall|i: int, j: int| 0 <= i < j < t.len() implies !(#[trigger] t[j].outranks(
            &t[i],
        )) by {
            assert(!s[j].outranks(&s[i]));
        }
        lemma_without_repeats(t);
        let f = without_repeats(t);
        let r = without_repeats(s);
        assert forall|i: int| 0 <= i < r.len() implies s.contains(#[trigger] r[i]) by {
            if i < f.len() {
                assert(t.contains(f[i]));
                let k = choose|k: int| 0 <= k < t.len() && t[k] == f[i];
                assert(s[k] == r[i]);
            } else {
                assert(s[s.len() - 1] == r[i]);
            }
        }
        assert forall|i: int, j: int| 0 <= i < j < r.len() implies !(#[trigger] r[j].outranks(
            &r[i],
        )) by {
            if j < f.len() {
                assert(!f[j].outranks(&f[i]));
            } else {
                assert(t.contains(f[i]));
                let k = choose|k: int| 0 <= k < t.len() && t[k] == f[i];
                assert(!s[s.len() - 1].outranks(&s[k]));
            }
        }
    }
}

/// A history is never longer than it may be, stands in the order of time, and holds
/// nothing but the quotes that were there and the new one.
pub proof fn law_history_is_bounded_and_in_order(s: Seq<QuoteInput>, q: QuoteInput, limit: nat)
    ensures
        history_with(s, q, limit).len() <= limit,
        in_order(history_with(s, q, limit)),
        forall|i: int|
            0 <= i < history_with(s, q, limit).len() ==> s.push(q).contains(
                #[trigger] history_with(s, q, limit)[i],
            ),
{
    let all = arranged(s.push(q));
    lemma_arranged(s.push(q), |x: QuoteInput| true);
    lemma_arranged_items(s.push(q));
    lemma_without_repeats(all);
    let d = without_repeats(all);
    let h = history_with(s, q, limit);
    let off = if d.len() > limit {
        d.len() - limit
    } else {
        0
    };
    assert forall|i: int| 0 <= i < h.len() implies s.push(q).contains(#[trigger] h[i]) by {
        assert(h[i] == d[i + off]);
        assert(all.contains(d[i + off]));
    }
    assert forall|i: int, j: int| 0 <= i < j < h.len() implies !(#[trigger] h[j].outranks(
        &h[i],
    )) by {
        assert(!d[j + off].outranks(&d[i + off]));
    }
}

/// Of a history with one more quote, what goes for want of room is not later than anything
/// that stays; and nothing goes as long as there is room.
pub proof fn law_the_oldest_quotes_go(s: Seq<QuoteInput>, q: QuoteInput, limit: nat)
    ensures
        ({
            let all = without_repeats(arranged(s.push(q)));
            let h = history_with(s, q, limit);
            let gone = all.len() - h.len();
            &&& gone >= 0
            &&& h == all.skip(gone)
            &&& gone > 0 ==> h.len() == limit
            &&& forall|i: int, j: int|
                0 <= i < h.len() && 0 <= j < gone ==> !(#[trigger] h[i].outranks(
                    &#[trigger] all[j],
                ))
        }),
{
    lemma_arranged(s.push(q), |x: QuoteInput| true);
    lemma_without_repeats(arranged(s.push(q)));
    let all = without_repeats(arranged(s.push(q)));
    let h = history_with(s, q, limit);
    let gone = all.len() - h.len();
    assert(all.skip(gone) =~= h);
    assert forall|i: int, j: int| 0 <= i < h.len() && 0 <= j < gone implies !(
    #[trigger] h[i].outranks(&#[trigger] all[j])) by {
        assert(h[i] == all[i + gone]);
        assert(!all[i + gone].outranks(&all[j]));
    }
}

/// Whether no quote repeats the one before it.
spec fn varied(s: Seq<QuoteInput>) -> bool {
    forall|i: int| 0 < i < s.len() ==> !repeats(#[trigger] s[i], s[i - 1])
}

proof fn lemma_becomes_varied(s: Seq<QuoteInput>)
    ensures
        varied(without_repeats(s)),
    decreases s.len(),
{
    if s.len() > 0 {
        lemma_becomes_varied(s.drop_last());
    }
}

proof fn lemma_stays_varied(s: Seq<QuoteInput>)
    requires
        varied(s),
    ensures
        without_repeats(s) == s,
    decreases s.len(),
{
    if s.len() > 0 {
        let t = s.drop_last();
        assert forall|i: int| 0 < i < t.len() implies !repeats(#[trigger] t[i], t[i - 1]) by {
            assert(!repeats(s[i], s[i - 1]));
        }
        lemma_stays_varied(t);
        if t.len() > 0 {
            assert(!repeats(s[s.len() - 1], s[s.len() - 2]));
        }
        assert(t.push(s.last()) =~= s);
    }
}

/// Where all quotes of one list are later than those of another, repeats are found in each
/// of them for itself.
proof fn lemma_repeats_apart(a: Seq<QuoteInput>, b: Seq<QuoteInput>)
    requires
        in_order(a),
        forall|i: int, j: int|
            0 <= i < a.len() && 0 <= j < b.len() ==> #[trigger] a[i].outranks(&#[trigger] b[j]),
    ensures
        without_repeats(a + b) == without_repeats(a) + without_repeats(b),
    decreases b.len(),
{
    let w = without_repeats(a);
    if b.len() == 0 {
        assert(a + b =~= a);
        assert(w + without_repeats(b) =~= w);
    } else {
        let t = b.drop_last();
        assert((a + b).drop_last() =~= a + t);
        assert forall|i: int, j: int|
            0 <= i < a.len() && 0 <= j < t.len() implies #[trigger] a[i].outranks(
            &#[trigger] t[j],
        ) by {
            assert(a[i].outranks(&b[j]));
        }
        lemma_repeats_apart(a, t);
        lemma_without_repeats(a);
        let f = without_repeats(t);
        let x = b.last();
        assert((a + b).last() == x);
        if f.len() > 0 {
            assert((w + f).last() == f.last());
        } else {
            assert(w + f =~= w);
            if w.len() > 0 {
                assert(a.contains(w[w.len() - 1]));
                let k = choose|k: int| 0 <= k < a.len() && a[k] == w[w.len() - 1];
                assert(a[k].outranks(&b[b.len() - 1]));
            }
        }
        assert((w + f).push(x) =~= w + f.push(x));
    }
}

proof fn lemma_inserted_apart(a: Seq<QuoteInput>, b: Seq<QuoteInput>, q: QuoteInput)
    requires
        forall|j: int| 0 <= j < b.len() ==> q.outranks(#[trigger] &b[j]),
    ensures
        inserted(a + b, q) == inserted(a, q) + b,
    decreases b.len(),
{
    if b.len() == 0 {
        assert(a + b =~= a);
        assert(inserted(a, q) + b =~= inserted(a, q));
    } else {
        let t = b.drop_last();
        assert((a + b).drop_last() =~= a + t);
        assert((a + b).last() == b[b.len() - 1]);
        assert forall|j: int| 0 <= j < t.len() implies q.outranks(#[trigger] &t[j]) by {
            assert(q.outranks(&b[j]));
        }
        lemma_inserted_apart(a, t, q);
        assert((inserted(a, q) + t).push(b.last()) =~= inserted(a, q) + b);
    }
}

/// The place where a quote is put in: everything behind it is later, and it is not earlier
/// than what stands right before it.
proof fn lemma_inserted_place(s: Seq<QuoteInput>, q: QuoteInput) -> (p: int)
    ensures
        0 <= p <= s.len(),
        inserted(s, q) == s.take(p).push(q) + s.skip(p),
        forall|j: int| p <= j < s.len() ==> q.outranks(#[trigger] &s[j]),
    decreases s.len(),
{
    if s.len() > 0 && q.outranks(&s.last()) {
        let t = s.drop_last();
        let p = lemma_inserted_place(t, q);
        assert(s.take(p) =~= t.take(p));
        assert((t.take(p).push(q) + t.skip(p)).push(s.last()) =~= s.take(p).push(q) + s.skip(p));
        assert forall|j: int| p <= j < s.len() implies q.outranks(#[trigger] &s[j]) by {
            if j < t.len() {
                assert(q.outranks(&t[j]));
            }
        }
        p
    } else {
        assert(s.take(s.len() as int) =~= s);
        assert(s.push(q) + s.skip(s.len() as int) =~= s.push(q));
        s.len() as int
    }
}

proof fn lemma_arranged_already(s: Seq<QuoteInput>)
    requires
        in_order(s),
    ensures
        arranged(s) == s,
    decreases s.len(),
{
    if s.len() > 0 {
        let t = s.drop_last();
        assert forall|i: int, j: int| 0 <= i < j < t.len() implies !(#[trigger] t[j].outranks(
            &t[i],
        )) by {
            assert(!s[j].outranks(&s[i]));
        }
        lemma_arranged_already(t);
        if t.len() > 0 {
            assert(!s[s.len() - 1].outranks(&s[s.len() - 2]));
        }
        assert(t.push(s.last()) =~= s);
    }
}

/// A history with one more quote, as the part up to the quote's time and the later part.
/// The first part ends with the quote or with one that it repeats.
proof fn lemma_history_parts(s: Seq<QuoteInput>, q: QuoteInput) -> (r: (
    Seq<QuoteInput>,
    Seq<QuoteInput>,
))
    ensures
        without_repeats(arranged(s.push(q))) == r.0 + r.1,
        r.0.len() > 0,
        r.0.last() == q || repeats(q, r.0.last()),
        forall|i: int| 0 <= i < r.0.len() ==> !q.outranks(#[trigger] &r.0[i]),
        forall|j: int| 0 <= j < r.1.len() ==> q.outranks(#[trigger] &r.1[j]),
{
    let u = arranged(s);
    assert(s.push(q).drop_last() =~= s);
    let all = arranged(s.push(q));
    let p = lemma_inserted_place(u, q);
    let a = u.take(p).push(q);
    let b = u.skip(p);
    assert(all == a + b);
    lemma_arranged(s.push(q), |x: QuoteInput| true);
    assert forall|i: int, j: int| 0 <= i < j < a.len() implies !(#[trigger] a[j].outranks(
        &a[i],
    )) by {
        assert(!all[j].outranks(&all[i]));
    }
    assert forall|i: int| 0 <= i < a.len() implies !q.outranks(#[trigger] &a[i]) by {
        if i < p {
            assert(!a[p].outranks(&a[i]));
        }
    }
    assert forall|i: int, j: int|
        0 <= i < a.len() && 0 <= j < b.len() implies #[trigger] a[i].outranks(&#[trigger] b[j]) by {
        assert(!q.outranks(&a[i]));
        assert(q.outranks(&u[j + p]));
    }
    lemma_repeats_apart(a, b);
    lemma_without_repeats(a);
    assert(in_order(b)) by {
        assert forall|i: int, j: int| 0 <= i < j < b.len() implies !(#[trigger] b[j].outranks(
            &b[i],
        )) by {
            assert(!all[j + p + 1].outranks(&all[i + p + 1]));
        }
    }
    lemma_without_repeats(b);
    let first = without_repeats(a);
    let second = without_repeats(b);
    assert(a.drop_last() =~= u.take(p));
    assert forall|i: int| 0 <= i < first.len() implies !q.outranks(#[trigger] &first[i]) by {
        assert(a.contains(first[i]));
        let k = choose|k: int| 0 <= k < a.len() && a[k] == first[i];
        assert(!q.outranks(&a[k]));
    }
    assert forall|j: int| 0 <= j < second.len() implies q.outranks(#[trigger] &second[j]) by {
        assert(b.contains(second[j]));
        let k = choose|k: int| 0 <= k < b.len() && b[k] == second[j];
        assert(q.outranks(&u[k + p]));
    }
    (first, second)
}

/// A quote that repeats the last one up to its time adds nothing.
proof fn lemma_repeated_quote(a: Seq<QuoteInput>, b: Seq<QuoteInput>, q: QuoteInput)
    requires
        in_order(a + b),
        varied(a + b),
        a.len() > 0,
        repeats(q, a.last()),
        forall|i: int| 0 <= i < a.len() ==> !q.outranks(#[trigger] &a[i]),
        forall|j: int| 0 <= j < b.len() ==> q.outranks(#[trigger] &b[j]),
    ensures
        without_repeats(arranged((a + b).push(q))) == a + b,
{
    let h = a + b;
    let x = a.push(q);
    assert forall|i: int| 0 < i < a.len() implies !repeats(#[trigger] a[i], a[i - 1]) by {
        assert(!repeats(h[i], h[i - 1]));
    }
    lemma_stays_varied(a);
    assert forall|i: int| 0 < i < b.len() implies !repeats(#[trigger] b[i], b[i - 1]) by {
        assert(!repeats(h[i + a.len()], h[i + a.len() - 1]));
    }
    lemma_stays_varied(b);
    lemma_arranged_already(h);
    assert(h.push(q).drop_last() =~= h);
    lemma_inserted_apart(a, b, q);
    assert(!q.outranks(&a[a.len() - 1]));
    assert(arranged(h.push(q)) == x + b);
    assert forall|i: int, j: int| 0 <= i < j < x.len() implies !(#[trigger] x[j].outranks(
        &x[i],
    )) by {
        if j < a.len() {
            assert(!h[j].outranks(&h[i]));
        } else {
            assert(!q.outranks(&a[i]));
        }
    }
    assert forall|i: int, j: int|
        0 <= i < x.len() && 0 <= j < b.len() implies #[trigger] x[i].outranks(&#[trigger] b[j]) by {
        if i < a.len() {
            assert(!q.outranks(&a[i]));
        }
        assert(q.outranks(&b[j]));
    }
    lemma_repeats_apart(x, b);
    assert(x.drop_last() =~= a);
    assert(without_repeats(x) == a);
}

/// A quote that is earlier than all others goes first.
proof fn lemma_early_quote(h: Seq<QuoteInput>, q: QuoteInput)
    requires
        in_order(h),
        varied(h),
        forall|j: int| 0 <= j < h.len() ==> q.outranks(#[trigger] &h[j]),
    ensures
        without_repeats(arranged(h.push(q))) == seq![q] + h,
{
    let none = Seq::<QuoteInput>::empty();
    let x = seq![q];
    lemma_stays_varied(h);
    lemma_arranged_already(h);
    assert(h.push(q).drop_last() =~= h);
    assert(none + h =~= h);
    lemma_inserted_apart(none, h, q);
    assert(none.push(q) =~= x);
    assert forall|i: int, j: int|
        0 <= i < x.len() && 0 <= j < h.len() implies #[trigger] x[i].outranks(&#[trigger] h[j]) by {
        assert(q.outranks(&h[j]));
    }
    lemma_repeats_apart(x, h);
    assert(x.drop_last() =~= none);
    assert(without_repeats(none) == none);
    assert(without_repeats(x) =~= x);
}

/// A history that a quote was just put into stays as it is when the same quote comes again.
/// The price has to be a number: one that is none repeats no other.
pub proof fn law_the_same_quote_counts_once(s: Seq<QuoteInput>, q: QuoteInput, limit: nat)
    requires
        !q.price.nan(),
    ensures
        history_with(history_with(s, q, limit), q, limit) == history_with(s, q, limit),
{
    let h = history_with(s, q, limit);
    let d = without_repeats(arranged(s.push(q)));
    let (a, b) = lemma_history_parts(s, q);
    law_history_is_bounded_and_in_order(s, q, limit);
    lemma_becomes_varied(arranged(s.push(q)));
    let off = d.len() - h.len();
    assert(h =~= d.skip(off));
    assert forall|i: int| 0 < i < h.len() implies !repeats(#[trigger] h[i], h[i - 1]) by {
        assert(!repeats(d[i + off], d[i + off - 1]));
    }
    if limit > b.len() {
        let front = a.skip(off);
        assert(h =~= front + b);
        assert(front.last() == a.last());
        assert forall|i: int| 0 <= i < front.len() implies !q.outranks(#[trigger] &front[i]) by {
            assert(!q.outranks(&a[i + off]));
        }
        lemma_repeated_quote(front, b, q);
    } else {
        assert forall|j: int| 0 <= j < h.len() implies q.outranks(#[trigger] &h[j]) by {
            assert(h[j] == b[j + off - a.len()]);
        }
        lemma_early_quote(h, q);
        assert((seq![q] + h).skip(1) =~= h);
    }
}

proof fn lemma_source_place(m: Histories, source: Seq<char>)
    ensures
        0 <= source_place(m, source) <= m.len(),
        source_place(m, source) < m.len() ==> m[source_place(m, source)].0 == source,
    decreases m.len(),
{
    if m.len() > 0 && m[0].0 != source {
        lemma_source_place(m.skip(1), source);
    }
}

/// The history of a source, if it has one.
pub open spec fn history_of(m: Histories, source: Seq<char>) -> Option<Seq<QuoteInput>> {
    let i = source_place(m, source);
    if i < m.len() {
        Some(m[i].1)
    } else {
        None
    }
}

/// A quote goes to the history of its own source, and the histories of all others stay what
/// they were.
pub proof fn law_quotes_go_to_their_source(
    m: Histories,
    q: QuoteInput,
    limit: nat,
    other: Seq<char>,
)
    ensures
        history_of(remembered(m, q, limit), other) == (if other == q.source_id@ {
            Some(
                history_with(
                    match history_of(m, other) {
                        Some(h) => h,
                        None => Seq::<QuoteInput>::empty(),
                    },
                    q,
                    limit,
                ),
            )
        } else {
            history_of(m, other)
        }),
    decreases m.len(),
{
    let r = remembered(m, q, limit);
    let source = q.source_id@;
    lemma_source_place(m, source);
    if m.len() == 0 {
        assert(r.skip(1) =~= m);
        assert(source_place(r.skip(1), other) == 0);
    } else if m[0].0 == source {
        assert(r.skip(1) =~= m.skip(1));
        lemma_source_place(m.skip(1), other);
    } else {
        law_quotes_go_to_their_source(m.skip(1), q, limit, other);
        lemma_source_place(m.skip(1), source);
        assert(r.skip(1) =~= remembered(m.skip(1), q, limit));
        lemma_source_place(m.skip(1), other);
        lemma_source_place(r.skip(1), other);
    }
}

/// The quotes of a market stay as they are when a quote comes again that was just
/// remembered, as long as its price is a number.
pub proof fn law_remembering_again_changes_nothing(m: Histories, q: QuoteInput, limit: nat)
    requires
        !q.price.nan(),
    ensures
        remembered(remembered(m, q, limit), q, limit) == remembered(m, q, limit),
    decreases m.len(),
{
    let r = remembered(m, q, limit);
    let source = q.source_id@;
    lemma_source_place(m, source);
    if m.len() == 0 {
        law_the_same_quote_counts_once(Seq::<QuoteInput>::empty(), q, limit);
        assert(remembered(r, q, limit) =~= r);
    } else if m[0].0 == source {
        law_the_same_quote_counts_once(m[0].1, q, limit);
        assert(remembered(r, q, limit) =~= r);
    } else {
        let t = m.skip(1);
        law_remembering_again_changes_nothing(t, q, limit);
        lemma_source_place(t, source);
        let rt = remembered(t, q, limit);
        assert(r.skip(1) =~= rt);
        lemma_source_place(rt, source);
        let rr = remembered(r, q, limit);
        let k = source_place(rt, source);
        assert(source_place(r, source) == 1 + k);
        assert(rr.skip(1) =~= remembered(rt, q, limit));
        assert(rr[0] == r[0]);
        assert forall|i: int| 0 <= i < rr.len() implies rr[i] == r[i] by {
            if i > 0 {
                assert(rr.skip(1)[i - 1] == rt[i - 1]);
            }
        }
        assert(rr.skip(1).len() == rt.len());
        assert(rr =~= r);
    }
}

/// The quote that held at a time was not made later, and no quote of the history that was
/// made by then is later than it.
pub proof fn law_quote_at_is_the_latest_by_then(s: Seq<QuoteInput>, now: Timestamp)
    requires
        in_order(s),
    ensures
        quote_at(s, now) matches Some(q) ==> s.contains(q) && !now.before(q.observed_at)
            && forall|i: int|
            0 <= i < s.len() && !now.before((#[trigger] s[i]).observed_at) ==> !q.observed_at.before(
                s[i].observed_at,
            ),
        quote_at(s, now) is None ==> forall|i: int|
            0 <= i < s.len() ==> now.before((#[trigger] s[i]).observed_at),
    decreases s.len(),
{
    if s.len() > 0 {
        let t = s.drop_last();
        if !now.before(s.last().observed_at) {
            assert(s[s.len() - 1] == s.last());
            assert forall|i: int|
                0 <= i < s.len() && !now.before(
                    (#[trigger] s[i]).observed_at,
                ) implies !s.last().observed_at.before(s[i].observed_at) by {
                if i < s.len() - 1 {
                    assert(!s[s.len() - 1].outranks(&s[i]));
                }
            }
        } else {
            assert forall|i: int, j: int| 0 <= i < j < t.len() implies !(#[trigger] t[j].outranks(
                &t[i],
            )) by {
                assert(!s[j].outranks(&s[i]));
            }
            law_quote_at_is_the_latest_by_then(t, now);
            assert forall|i: int| 0 <= i < s.len() - 1 implies (#[trigger] s[i]) == t[i] by {}
            if quote_at(t, now) is Some {
                let q = quote_at(t, now)->0;
                let k = choose|k: int| 0 <= k < t.len() && t[k] == q;
                assert(s[k] == q);
            }
        }
    }
}

/// A quote made after `now` is not among those that held at `now`.
pub proof fn law_later_quotes_do_not_hold_yet(m: Histories, now: Timestamp)
    ensures
        forall|i: int|
            0 <= i < quotes_at(m, now).len() ==> !now.before(
                (#[trigger] quotes_at(m, now)[i]).observed_at,
            ),
        quotes_at(m, now).len() <= m.len(),
    decreases m.len(),
{
    if m.len() > 0 {
        law_later_quotes_do_not_hold_yet(m.drop_last(), now);
        lemma_quote_at(m.last().1, now);
    }
}

proof fn lemma_quote_at(s: Seq<QuoteInput>, now: Timestamp)
    ensures
        quote_at(s, now) matches Some(q) ==> !now.before(q.observed_at),
    decreases s.len(),
{
    if s.len() > 0 {
        lemma_quote_at(s.drop_last(), now);
    }
}

proof fn lemma_market_place(m: Markets, scope: ScopeView)
    ensures
        0 <= market_place(m, scope) <= m.len(),
    decreases m.len(),
{
    if m.len() > 0 && m[0].0 != scope {
        lemma_market_place(m.skip(1), scope);
    }
}

/// A market stands where it stood once a quote was added to it, and is there.
pub proof fn lemma_market_stands(m: Markets, scope: ScopeView, q: QuoteInput, limit: nat)
    ensures
        market_place(markets_with(m, scope, q, limit), scope) == market_place(m, scope),
        market_place(m, scope) < markets_with(m, scope, q, limit).len(),
    decreases m.len(),
{
    let r = markets_with(m, scope, q, limit);
    lemma_market_place(m, scope);
    if m.len() > 0 && m[0].0 != scope {
        lemma_market_stands(m.skip(1), scope, q, limit);
        lemma_market_place(m.skip(1), scope);
        assert(r.skip(1) =~= markets_with(m.skip(1), scope, q, limit));
    }
}

/// A quote goes to its own market of its own run, and the quotes of every other market, run
/// or tenant stay what they were.
pub proof fn law_quotes_go_to_their_market(
    m: Markets,
    scope: ScopeView,
    q: QuoteInput,
    limit: nat,
    other: ScopeView,
)
    ensures
        market_quotes(markets_with(m, scope, q, limit), other) == (if other == scope {
            Some(
                remembered(
                    match market_quotes(m, scope) {
                        Some(h) => h,
                        None => Seq::<(Seq<char>, Seq<QuoteInput>)>::empty(),
                    },
                    q,
                    limit,
                ),
            )
        } else {
            market_quotes(m, other)
        }),
    decreases m.len(),
{
    let r = markets_with(m, scope, q, limit);
    lemma_market_place(m, scope);
    if m.len() == 0 {
        assert(r.skip(1) =~= m);
        assert(market_place(r.skip(1), other) == 0);
    } else if m[0].0 == scope {
        assert(r.skip(1) =~= m.skip(1));
        lemma_market_place(m.skip(1), other);
    } else {
        law_quotes_go_to_their_market(m.skip(1), scope, q, limit, other);
        lemma_market_place(m.skip(1), scope);
        assert(r.skip(1) =~= markets_with(m.skip(1), scope, q, limit));
        lemma_market_place(m.skip(1), other);
        lemma_market_place(r.skip(1), other);
    }
}

proof fn lemma_market_pushed(m: Markets, x: (ScopeView, Histories), other: ScopeView)
    ensures
        market_quotes(m.push(x), other) == (match market_quotes(m, other) {
            Some(h) => Some(h),
            None => if x.0 == other {
                Some(x.1)
            } else {
                None
            },
        }),
    decreases m.len(),
{
    let r = m.push(x);
    if m.len() == 0 {
        assert(r.skip(1) =~= m);
    } else {
        lemma_market_pushed(m.skip(1), x, other);
        assert(r.skip(1) =~= m.skip(1).push(x));
        lemma_market_place(m.skip(1), other);
        lemma_market_place(r.skip(1), other);
    }
}

proof fn lemma_kept_markets(
    v: Seq<CachedMarket>,
    flags: Seq<bool>,
    scope: ScopeView,
    other: ScopeView,
)
    requires
        flags.len() >= v.len(),
        forall|i: int|
            0 <= i < v.len() ==> #[trigger] flags[i] == stays_for_run(v[i].scope@, scope),
    ensures
        market_quotes(markets(crate::cache::kept(v, flags)), other) == (if stays_for_run(
            other,
            scope,
        ) {
            market_quotes(markets(v), other)
        } else {
            None
        }),
    decreases v.len(),
{
    if v.len() == 0 {
        assert(markets(v) =~= Seq::<(ScopeView, Histories)>::empty());
    } else {
        let t = v.drop_last();
        let x = (v.last().scope@, histories(v.last().quotes@));
        lemma_kept_markets(t, flags, scope, other);
        assert(markets(v) =~= markets(t).push(x));
        lemma_market_pushed(markets(t), x, other);
        let front = crate::cache::kept(t, flags);
        if flags[v.len() - 1] {
            assert(markets(front.push(v.last())) =~= markets(front).push(x));
            lemma_market_pushed(markets(front), x, other);
        }
    }
}

/// When an event of a run comes in, the quotes that its market had in other runs are
/// forgotten; those of live operation, of other markets and of other tenants stay.
pub proof fn law_a_run_forgets_the_others(
    v: Seq<CachedMarket>,
    scope: ScopeView,
    other: ScopeView,
)
    ensures
        market_quotes(
            markets(crate::cache::kept(v, run_flags(markets(v), scope))),
            other,
        ) == (if stays_for_run(other, scope) {
            market_quotes(markets(v), other)
        } else {
            None
        }),
{
    lemma_kept_markets(v, run_flags(markets(v), scope), scope, other);
}

/// How far two finite numbers are from each other, in units of the smallest positive one.
pub open spec fn distance(a: Double, b: Double) -> nat {
    crate::double::size(a.value() - b.value())
}

/// The bits of a distance.
proof fn lemma_distance(price: Double, target: Double)
    requires
        price.finite(),
        target.finite(),
    ensures
        ({
            let d = difference(price, target).absolute();
            &&& !d.nan()
            &&& d.key() == crate::double::rounded(distance(price, target), 1)
            &&& d.magnitude() == crate::double::rounded(distance(price, target), 1)
            &&& !d.negative()
        }),
{
    crate::double::lemma_negated(target);
    crate::double::lemma_finite_sum(price, target.negated());
    crate::double::lemma_rounded_range(distance(price, target), 1);
}

pub(crate) proof fn lemma_hundred()
    ensures
        double(HUNDRED_BITS).positive(),
        double(HUNDRED_BITS).units() == 100 * pow2(1074),
        double(HUNDRED_BITS).value() == 100 * pow2(1074),
{
    let x = double(HUNDRED_BITS);
    lemma2_to64();
    lemma2_to64_rest();
    assert(x.magnitude() == 0x4059_0000_0000_0000nat);
    assert(0x4059_0000_0000_0000nat / 0x0010_0000_0000_0000nat == 0x405nat);
    assert(0x4059_0000_0000_0000nat % 0x0010_0000_0000_0000nat == 0x0009_0000_0000_0000nat);
    assert(x.scale() == 1028);
    assert(x.significand() == 0x0019_0000_0000_0000nat);
    lemma_pow2_adds(46, 1028);
    assert(0x0019_0000_0000_0000nat == 100 * pow2(46)) by {
        assert(pow2(46) == 0x4000_0000_0000);
    }
    assert(x.units() == 100 * pow2(1074)) by (nonlinear_arith)
        requires
            x.units() == (100 * pow2(46)) * pow2(1028),
            pow2(1074) == pow2(46) * pow2(1028),
    ;
}

/// A price above the target deviates as much as one that is as far below it: only the
/// distance counts. The farther a price is from the target, on either side, the larger is its
/// deviation.
pub proof fn law_deviation_is_by_distance(a: Double, b: Double, target: Double)
    requires
        a.finite(),
        b.finite(),
        target.positive(),
    ensures
        distance(a, target) == distance(b, target) ==> deviation(a, target) == deviation(b, target),
        distance(a, target) <= distance(b, target) ==> deviation(a, target).at_most(
            deviation(b, target),
        ),
        double(0).at_most(deviation(a, target)),
{
    lemma_distance(a, target);
    lemma_distance(b, target);
    lemma_hundred();
    let (x, y) = (difference(a, target).absolute(), difference(b, target).absolute());
    if distance(a, target) == distance(b, target) {
        assert(x == y);
    }
    crate::double::law_quotient_grows(x, x, target);
    crate::double::lemma_product_grows_up(
        quotient(x, target),
        quotient(x, target),
        double(HUNDRED_BITS),
    );
    if distance(a, target) <= distance(b, target) {
        crate::double::lemma_rounded_monotone(distance(a, target), distance(b, target), 1);
        crate::double::law_quotient_grows(x, y, target);
        crate::double::lemma_product_grows_up(
            quotient(x, target),
            quotient(y, target),
            double(HUNDRED_BITS),
        );
    }
}

/// A price deviates unless it is the target.
pub proof fn law_only_the_target_does_not_deviate(price: Double, target: Double)
    requires
        price.finite(),
        target.positive(),
    ensures
        deviation(price, target).same(double(0)) <==> price.same(target),
        !price.same(target) ==> double(0).below(deviation(price, target)),
{
    law_deviation_is_by_distance(price, price, target);
    crate::double::law_order_is_by_value(price, target);
    lemma_distance(price, target);
    lemma_hundred();
    lemma_pow2_pos(1074);
    let d = difference(price, target).absolute();
    let q = quotient(d, target);
    let hundred = double(HUNDRED_BITS);
    if price.same(target) {
        crate::double::lemma_zero_rounds_to_zero(1);
        crate::double::lemma_finite_quotient(d, target);
        assert(d.units() == 0) by {
            assert(d.magnitude() == 0);
            assert(0 * pow2(0) == 0);
        }
        assert(d.units() * pow2(1074) == 0) by (nonlinear_arith)
            requires
                d.units() == 0,
        ;
        crate::double::lemma_zero_rounds_to_zero(target.units());
        crate::double::lemma_finite_product(q, hundred);
        assert(q.units() == 0) by {
            assert(q.magnitude() == 0);
            assert(0 * pow2(0) == 0);
        }
        assert(q.units() * hundred.units() == 0) by (nonlinear_arith)
            requires
                q.units() == 0,
        ;
        crate::double::lemma_zero_rounds_to_zero(pow2(1074));
    } else if d.finite() {
        let k = crate::double::lemma_gap(price, target);
        let g: nat = pow2(k);
        crate::double::lemma_exact_units_of_power(k);
        let x = crate::double::signed(false, crate::double::rounded(g, 1));
        crate::double::lemma_rounded_monotone(g, distance(price, target), 1);
        crate::double::law_order_is_by_value(x, d);
        crate::double::lemma_finite_quotient(d, target);
        lemma_pow2_adds(k, 1074);
        crate::double::lemma_pow2_at_most(54 + k, k + 1074);
        assert(d.units() * pow2(1074) >= target.units()) by (nonlinear_arith)
            requires
                d.units() >= pow2(k),
                pow2(k + 1074) == pow2(k) * pow2(1074),
                target.units() < pow2(54 + k),
                pow2(54 + k) <= pow2(k + 1074),
        ;
        lemma_at_least_one(d.units() * pow2(1074), target.units());
        if q.finite() {
            crate::double::lemma_finite_product(q, hundred);
            lemma_some_units(q);
            assert(q.units() * hundred.units() >= pow2(1074)) by (nonlinear_arith)
                requires
                    q.units() >= 1,
                    hundred.units() == 100 * pow2(1074),
                    pow2(1074) > 0,
            ;
            lemma_at_least_one(q.units() * hundred.units(), pow2(1074));
        }
    }
}

proof fn lemma_at_least_one(n: nat, d: nat)
    requires
        n >= d,
        d > 0,
    ensures
        crate::double::rounded(n, d) >= 1,
{
    let one = Double { bits: 1 };
    lemma2_to64();
    assert(one.units() == 1) by {
        assert(one.significand() == 1 && one.scale() == 0);
        assert(1 * pow2(0) == 1);
    }
    crate::double::lemma_rounding_keeps_doubles(one);
    crate::double::lemma_rounded_scaled(d, 1, 1);
    assert(d * 1 == d);
    crate::double::lemma_rounded_monotone(d, n, d);
}

proof fn lemma_some_units(x: Double)
    requires
        x.finite(),
        x.magnitude() > 0,
    ensures
        x.units() >= 1,
{
    let zero = double(0);
    crate::double::law_order_is_by_value(zero, x.absolute());
    assert(zero.units() == 0) by {
        assert(zero.magnitude() == 0);
        assert(0 * pow2(0) == 0);
    }
    assert(x.absolute().units() == x.units());
}

/// The deviation is the distance from the target in percent of the target: where it is `k` of
/// `2^j` parts of the target, it is `k` times a hundred of `2^j` parts, exactly.
pub proof fn law_deviation_is_a_percentage(
    price: Double,
    target: Double,
    apart: Double,
    k: nat,
    j: nat,
)
    requires
        price.finite(),
        target.positive(),
        apart.finite(),
        apart.value() == distance(price, target),
        distance(price, target) * pow2(j) == k * target.value(),
        k <= 0x1000_0000_0000,
        j <= 1074,
    ensures
        deviation(price, target).finite(),
        deviation(price, target).value() * pow2(j) == k * double(HUNDRED_BITS).value(),
{
    lemma_distance(price, target);
    lemma_hundred();
    let d = difference(price, target).absolute();
    let q = quotient(d, target);
    let hundred = double(HUNDRED_BITS);
    let n = distance(price, target);
    let u = target.units();
    crate::double::lemma_rounding_keeps_doubles(apart);
    assert(apart.units() == n);
    assert(d.magnitude() == apart.magnitude());
    assert(d.units() == n);
    crate::double::lemma_finite_quotient(d, target);
    lemma_pow2_pos(1074);
    lemma_pow2_pos(j);
    let e: nat = (1074 - j) as nat;
    lemma_pow2_adds(e, j);
    // n * 2^1074 / u rounds as k * 2^e does.
    let (p, r): (nat, nat) = (pow2(j), pow2(e));
    crate::double::lemma_rounded_scaled(p, n * pow2(1074), u);
    assert(p * u > 0) by (nonlinear_arith)
        requires
            p > 0,
            u > 0,
    ;
    crate::double::lemma_rounded_scaled(p * u, k * r, 1);
    assert(p * (n * pow2(1074)) == (p * u) * (k * r)) by (nonlinear_arith)
        requires
            n * p == k * u,
            pow2(1074) == r * p,
    ;
    assert((p * u) * 1 == p * u);
    crate::double::lemma_exact_units(k, e);
    assert(q.magnitude() == crate::double::rounded(k * r, 1));
    assert(q.finite() && q.units() == k * r && q.key() >= 0);
    crate::double::lemma_finite_product(q, hundred);
    crate::double::lemma_rounded_scaled(pow2(1074), (100 * k) * r, 1);
    assert(q.units() * hundred.units() == pow2(1074) * ((100 * k) * r)) by (nonlinear_arith)
        requires
            q.units() == k * r,
            hundred.units() == 100 * pow2(1074),
    ;
    assert(pow2(1074) * 1 == pow2(1074));
    crate::double::lemma_exact_units(100 * k, e);
    let result = deviation(price, target);
    assert(result.magnitude() == crate::double::rounded((100 * k) * r, 1));
    assert(result.key() >= 0);
    lemma_not_negative(result);
    assert(result.value() == (100 * k) * r);
    assert(((100 * k) * r) * p == k * (100 * pow2(1074))) by (nonlinear_arith)
        requires
            pow2(1074) == r * p,
    ;
}

proof fn lemma_not_negative(x: Double)
    requires
        x.finite(),
        0 <= x.key(),
    ensures
        x.value() == x.units(),
        x.units() == crate::double::signed(false, x.magnitude()).units(),
{
    if x.negative() {
        assert(x.magnitude() == 0);
        assert(0 * pow2(0) == 0);
    }
}

/// Every source that had quoted by a time is heard at that time, with its last quote then.
pub proof fn law_every_source_is_heard(m: Histories, now: Timestamp, i: int)
    requires
        0 <= i < m.len(),
        quote_at(m[i].1, now) is Some,
    ensures
        quotes_at(m, now).contains(quote_at(m[i].1, now)->0),
    decreases m.len(),
{
    let front = quotes_at(m.drop_last(), now);
    let q = quote_at(m[i].1, now)->0;
    if i == m.len() - 1 {
        assert(quotes_at(m, now)[front.len() as int] == q);
    } else {
        law_every_source_is_heard(m.drop_last(), now, i);
        let k = choose|k: int| 0 <= k < front.len() && front[k] == q;
        assert(quotes_at(m, now)[k] == q);
    }
}

/// The last quote of a market is not before the last quote of any source, and is that of one.
pub proof fn law_the_last_quote_is_the_latest(m: Histories, i: int)
    requires
        0 <= i < m.len(),
        m[i].1.len() > 0,
    ensures
        last_quote_time(m) is Some,
        m[i].1.last().observed_at.nanos <= last_quote_time(m)->0.nanos,
        exists|k: int|
            0 <= k < m.len() && (#[trigger] m[k]).1.len() > 0 && last_quote_time(m) == Some(
                m[k].1.last().observed_at,
            ),
    decreases m.len(),
{
    let front = m.drop_last();
    if i < front.len() {
        assert(front[i] == m[i]);
        law_the_last_quote_is_the_latest(front, i);
        let k = choose|k: int|
            0 <= k < front.len() && (#[trigger] front[k]).1.len() > 0 && last_quote_time(front)
                == Some(front[k].1.last().observed_at);
        assert(m[k].1.len() > 0);
        assert(m[m.len() - 1] == m.last());
    } else {
        assert(m[i] == m.last());
        if exists|j: int| 0 <= j < front.len() && (#[trigger] front[j]).1.len() > 0 {
            let j = choose|j: int| 0 <= j < front.len() && (#[trigger] front[j]).1.len() > 0;
            law_the_last_quote_is_the_latest(front, j);
            let k = choose|k: int|
                0 <= k < front.len() && (#[trigger] front[k]).1.len() > 0 && last_quote_time(front)
                    == Some(front[k].1.last().observed_at);
            assert(m[k].1.len() > 0);
        } else {
            lemma_silent_sources(front);
        }
    }
}

proof fn lemma_silent_sources(m: Histories)
    requires
        forall|j: int| 0 <= j < m.len() ==> (#[trigger] m[j]).1.len() == 0,
    ensures
        last_quote_time(m) is None,
    decreases m.len(),
{
    if m.len() > 0 {
        assert(m[m.len() - 1] == m.last());
        assert forall|j: int| 0 <= j < m.drop_last().len() implies (
        #[trigger] m.drop_last()[j]).1.len() == 0 by {
            assert(m[j].1.len() == 0);
        }
        lemma_silent_sources(m.drop_last());
    }
}

/// The later of two times is one of them and not before either; where there is one, it is that.
pub proof fn law_the_later_of_two_times(a: Option<Timestamp>, b: Option<Timestamp>)
    ensures
        later(a, b) == a || later(a, b) == b,
        a is Some ==> later(a, b) is Some && a->0.nanos <= later(a, b)->0.nanos,
        b is Some ==> later(a, b) is Some && b->0.nanos <= later(a, b)->0.nanos,
{
}

proof fn lemma_million()
    ensures
        double(MILLION_BITS).positive(),
        double(MILLION_BITS).units() == 1_000_000 * pow2(1074),
        double(MILLION_BITS).value() == 1_000_000 * pow2(1074),
{
    let x = double(MILLION_BITS);
    lemma2_to64();
    lemma2_to64_rest();
    assert(x.magnitude() == 0x412e_8480_0000_0000nat);
    assert(0x412e_8480_0000_0000nat / 0x0010_0000_0000_0000nat == 0x412nat);
    assert(0x412e_8480_0000_0000nat % 0x0010_0000_0000_0000nat == 0x000e_8480_0000_0000nat);
    assert(x.scale() == 1041);
    assert(x.significand() == 0x001e_8480_0000_0000nat);
    lemma_pow2_adds(33, 1041);
    assert(0x001e_8480_0000_0000nat == 1_000_000 * pow2(33)) by {
        assert(pow2(33) == 0x2_0000_0000);
    }
    assert(x.units() == 1_000_000 * pow2(1074)) by (nonlinear_arith)
        requires
            x.units() == (1_000_000 * pow2(33)) * pow2(1041),
            pow2(1074) == pow2(33) * pow2(1041),
    ;
}

/// Rounding to six decimal places keeps the order of numbers that are not negative.
pub proof fn law_six_places_keep_the_order(x: Double, y: Double)
    requires
        0 <= x.key(),
        x.at_most(y),
    ensures
        six_places(x).at_most(six_places(y)),
{
    lemma_million();
    let million = double(MILLION_BITS);
    crate::double::lemma_product_grows_up(x, y, million);
    let (a, b) = (product(x, million), product(y, million));
    crate::double::law_nearest_wholes_grow(a, b);
    crate::double::law_quotient_grows(
        crate::double::nearest_whole(a),
        crate::double::nearest_whole(b),
        million,
    );
}

/// A number of whole parts of 64 has six decimal places, and is not changed.
pub proof fn law_six_places_are_kept(x: Double, k: nat)
    requires
        x.finite(),
        0 <= x.key(),
        x.value() * 64 == k * pow2(1074),
        k < 0x2_0000_0000,
    ensures
        six_places(x).same(x),
{
    lemma_million();
    let million = double(MILLION_BITS);
    let one: nat = pow2(1074);
    let n: nat = k * 15_625;
    let c = of_int(n as int);
    crate::double::law_small_integers_are_exact(n);
    assert(c.value() * one == x.value() * million.value()) by (nonlinear_arith)
        requires
            c.value() == n * one,
            n == k * 15_625,
            million.value() == 1_000_000 * one,
            x.value() * 64 == k * one,
    ;
    crate::double::law_products_are_exact_where_they_can_be(x, million, c);
    let p = product(x, million);
    crate::aggregation::lemma_same_value(p, c);
    crate::double::law_integers_are_whole(p, n);
    let w = crate::double::nearest_whole(p);
    assert(x.value() * million.value() == w.value() * one) by (nonlinear_arith)
        requires
            c.value() * one == x.value() * million.value(),
            w.value() == c.value(),
    ;
    crate::double::law_quotients_are_exact_where_they_can_be(w, million, x);
}

/// What is small beside the sixth decimal place vanishes.
pub proof fn law_what_is_small_vanishes(x: Double)
    requires
        x.finite(),
        0 <= x.key(),
        x.value() * pow2(21) <= pow2(1074),
    ensures
        six_places(x).same(double(0)),
{
    lemma_million();
    lemma2_to64();
    lemma2_to64_rest();
    let million = double(MILLION_BITS);
    let one: nat = pow2(1074);
    let part: nat = pow2(1053);
    lemma_pow2_adds(21, 1053);
    lemma_pow2_pos(1053);
    crate::double::lemma_exact_units(1, 1053);
    crate::double::lemma_exact_units(1_000_000, 1053);
    assert(1 * part == part);
    let t = crate::double::signed(false, crate::double::rounded(part, 1));
    let c = crate::double::signed(false, crate::double::rounded(1_000_000 * part, 1));
    assert(t.value() == part && c.value() == 1_000_000 * part);
    assert(c.value() * one == t.value() * million.value()) by (nonlinear_arith)
        requires
            c.value() == 1_000_000 * part,
            t.value() == part,
            million.value() == 1_000_000 * one,
    ;
    crate::double::law_products_are_exact_where_they_can_be(t, million, c);
    assert(x.value() <= t.value()) by (nonlinear_arith)
        requires
            x.value() * pow2(21) <= one,
            one == pow2(21) * part,
            t.value() == part,
            pow2(21) > 0,
    ;
    crate::double::law_order_is_by_value(x, t);
    crate::double::lemma_product_grows_up(x, t, million);
    let p = product(x, million);
    assert(p.at_most(c));
    assert(c.finite() && 0 <= p.key() <= c.key());
    assert(p.finite());
    crate::double::law_order_is_by_value(p, c);
    assert(2 * c.value() < one) by (nonlinear_arith)
        requires
            c.value() == 1_000_000 * part,
            one == pow2(21) * part,
            pow2(21) == 2_097_152,
            part > 0,
    ;
    crate::double::law_less_than_a_half_is_nothing(p);
    let w = crate::double::nearest_whole(p);
    crate::double::law_order_is_by_value(w, double(0));
    crate::aggregation::lemma_zero_value();
    assert(w.value() == 0);
    assert(double(0).value() * million.value() == 0) by (nonlinear_arith)
        requires
            double(0).value() == 0,
    ;
    assert(w.value() * one == 0) by (nonlinear_arith)
        requires
            w.value() == 0,
    ;
    crate::double::law_quotients_are_exact_where_they_can_be(w, million, double(0));
}

/// A quote is dropped as a repeat only where it says the same at the same time as the one kept
/// before it; one that differs in time, price, kind or source is kept.
pub proof fn law_only_repeats_are_dropped(s: Seq<QuoteInput>, q: QuoteInput)
    requires
        s.len() > 0,
    ensures
        without_repeats(s).len() > 0,
        ({
            let last = without_repeats(s).last();
            let again = q.observed_at == last.observed_at && q.price.same(last.price)
                && q.source_kind@ == last.source_kind@ && q.source_id@ == last.source_id@;
            &&& again ==> without_repeats(s.push(q)) == without_repeats(s)
            &&& !again ==> without_repeats(s.push(q)) == without_repeats(s).push(q)
        }),
    decreases s.len(),
{
    assert(s.push(q).drop_last() =~= s);
    if s.len() > 1 {
        law_only_repeats_are_dropped(s.drop_last(), s.last());
        assert(s.drop_last().push(s.last()) =~= s);
    }
}

/// A history stands in the order of time, and a market was heard of when its last quote came.
pub proof fn law_histories_are_in_the_order_of_time(
    s: Seq<QuoteInput>,
    q: QuoteInput,
    limit: nat,
    i: int,
    j: int,
    m: CachedMarket,
)
    requires
        0 <= i <= j < history_with(s, q, limit).len(),
    ensures
        history_with(s, q, limit)[i].observed_at.nanos <= history_with(
            s,
            q,
            limit,
        )[j].observed_at.nanos,
        m.seen() == last_quote_time(histories(m.quotes@)),
{
    law_history_is_bounded_and_in_order(s, q, limit);
    let h = history_with(s, q, limit);
    if i < j {
        assert(!h[j].outranks(&h[i]));
    }
}

/// When an event of a run comes in, what a market has in another run goes exactly where the
/// market is that of the event, and the other run neither the event's own nor live operation.
pub proof fn law_live_quotes_outlast_runs(m: ScopeView, scope: ScopeView)
    ensures
        m.tenant_id != scope.tenant_id ==> stays_for_run(m, scope),
        m.market_key != scope.market_key ==> stays_for_run(m, scope),
        m.replay_scope == scope.replay_scope ==> stays_for_run(m, scope),
        m.replay_scope == "__live__"@ ==> stays_for_run(m, scope),
        m.tenant_id == scope.tenant_id && m.market_key == scope.market_key && m.replay_scope
            != scope.replay_scope && m.replay_scope != "__live__"@ ==> !stays_for_run(m, scope),
{
}

} // verus!
