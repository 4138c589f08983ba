//! What the samples of a window of time say of a value that falls.

use vstd::arithmetic::power2::*;
use vstd::prelude::*;

use crate::aggregation::double;
use crate::aggregation::TWO_BITS;
use crate::double::difference;
use crate::double::larger;
use crate::double::law_order_is_by_value;
use crate::double::of_int;
use crate::double::product;
use crate::double::quotient;
use crate::double::Double;
use crate::event::str_option;
use crate::order::Ranked;
use crate::quotes::deviation;
use crate::quotes::law_deviation_is_by_distance;
use crate::quotes::HUNDRED_BITS;
use crate::time::Timestamp;

verus! {

/// The bits of 60.0, 0.1 and 8.0.
pub const SIXTY_BITS: u64 = 0x404e_0000_0000_0000;

pub const CLIFF_WINDOW_BITS: u64 = 0x3fb9_9999_9999_999a;

pub const LINEAR_WINDOW_BITS: u64 = 0x4020_0000_0000_0000;

/// The value locked in a protocol or market at some time.
#[derive(Clone, Copy, Debug, PartialEq, Eq, Structural)]
pub struct TvlSamplePoint {
    pub observed_at: Timestamp,
    pub tvl_usd: Double,
}

impl Ranked for TvlSamplePoint {
    open spec fn outranks(&self, other: &Self) -> bool {
        self.observed_at.before(other.observed_at)
    }

    fn is_before(&self, other: &Self) -> (r: bool) {
        self.observed_at.is_before(other.observed_at)
    }
}

/// Where a window of at least a minute that ends now begins.
pub open spec fn window_start(now: Timestamp, minutes: i64) -> Timestamp {
    now.before_minutes(
        if minutes < 1 {
            1
        } else {
            minutes as int
        },
    )
}

pub fn start_of_window(now: Timestamp, minutes: i64) -> (r: Timestamp)
    ensures
        r == window_start(now, minutes),
{
    now.minus_minutes(
        if minutes < 1 {
            1
        } else {
            minutes
        },
    )
}

/// The samples from `cutoff` on.
pub open spec fn since(s: Seq<TvlSamplePoint>, cutoff: Timestamp) -> Seq<TvlSamplePoint> {
    s.filter(|p: TvlSamplePoint| !p.observed_at.before(cutoff))
}

pub fn samples_since(samples: &[TvlSamplePoint], cutoff: Timestamp) -> (r: Vec<TvlSamplePoint>)
    ensures
        r@ == since(samples@, cutoff),
{
    let ghost recent = |p: TvlSamplePoint| !p.observed_at.before(cutoff);
    let mut r: Vec<TvlSamplePoint> = Vec::new();
    let mut i: usize = 0;
    assert(samples@.take(0).filter(recent) =~= Seq::<TvlSamplePoint>::empty()) by {
        reveal(Seq::filter);
    }
    while i < samples.len()
        invariant
            i <= samples.len(),
            recent == (|p: TvlSamplePoint| !p.observed_at.before(cutoff)),
            r@ == samples@.take(i as int).filter(recent),
        decreases samples.len() - i,
    {
        assert(samples@.take(i + 1) =~= samples@.take(i as int).push(samples@[i as int]));
        proof {
            samples@.take(i as int).lemma_filter_push(samples@[i as int], recent);
        }
        if !samples[i].observed_at.is_before(cutoff) {
            r.push(samples[i]);
        }
        i = i + 1;
    }
    assert(samples@.take(i as int) =~= samples@);
    r
}

/// How far a value fell, in per cent of where it was; zero where it did not fall.
pub open spec fn fall_pct(from: Double, to: Double) -> Double {
    let zero = double(0);
    larger(
        product(quotient(larger(difference(from, to), zero), from), double(HUNDRED_BITS)),
        zero,
    )
}

fn fall(from: Double, to: Double) -> (r: Double)
    ensures
        r == fall_pct(from, to),
{
    let zero = Double { bits: 0 };
    from.minus(to).max(zero).over(from).times(Double { bits: HUNDRED_BITS }).max(zero)
}

/// What a window shows.
#[derive(Clone, Copy, Debug, PartialEq, Eq, Structural)]
pub struct WindowAnalysis {
    pub reference_tvl_usd: Option<Double>,
    pub current_tvl_usd: Option<Double>,
    pub drop_pct: Double,
    pub time_to_reach_current_drop_minutes: Option<Double>,
}

/// What a window shows where there is nothing to go by.
pub open spec fn no_analysis() -> WindowAnalysis {
    WindowAnalysis {
        reference_tvl_usd: None,
        current_tvl_usd: None,
        drop_pct: double(0),
        time_to_reach_current_drop_minutes: None,
    }
}

/// The first of the samples from place `i` on that is at `level` or below.
pub open spec fn first_down_to(s: Seq<TvlSamplePoint>, level: Double, i: int) -> Option<
    TvlSamplePoint,
>
    decreases s.len() - i,
{
    if i < 0 || i >= s.len() {
        None
    } else if s[i].tvl_usd.at_most(level) {
        Some(s[i])
    } else {
        first_down_to(s, level, i + 1)
    }
}

/// The minutes from one time to another.
pub open spec fn minutes_between(from: Timestamp, to: Timestamp) -> Double {
    quotient(of_int(to.seconds_since(from) as int), double(SIXTY_BITS))
}

/// What the samples of a window show: where the value stood at its start and stands now, how
/// far it fell, and how long it took to fall as low as it is.
pub open spec fn analysis(s: Seq<TvlSamplePoint>, now: Timestamp, minutes: i64) -> WindowAnalysis {
    let w = since(s, window_start(now, minutes));
    if w.len() == 0 || !w[0].tvl_usd.finite() || w[0].tvl_usd.at_most(double(0)) {
        no_analysis()
    } else {
        let first = w[0];
        let last = w.last();
        WindowAnalysis {
            reference_tvl_usd: Some(first.tvl_usd),
            current_tvl_usd: Some(last.tvl_usd),
            drop_pct: fall_pct(first.tvl_usd, last.tvl_usd),
            time_to_reach_current_drop_minutes: match first_down_to(w, last.tvl_usd, 0) {
                Some(p) => Some(minutes_between(first.observed_at, p.observed_at)),
                None => None,
            },
        }
    }
}

pub fn analyze_window(samples: &[TvlSamplePoint], now: Timestamp, window_minutes: i64) -> (r:
    WindowAnalysis)
    ensures
        r == analysis(samples@, now, window_minutes),
{
    let zero = Double { bits: 0 };
    let w: Vec<TvlSamplePoint> = samples_since(samples, start_of_window(now, window_minutes));
    let none = WindowAnalysis {
        reference_tvl_usd: None,
        current_tvl_usd: None,
        drop_pct: zero,
        time_to_reach_current_drop_minutes: None,
    };
    if w.len() == 0 {
        return none;
    }
    let first: TvlSamplePoint = w[0];
    let last: TvlSamplePoint = w[w.len() - 1];
    if !first.tvl_usd.is_finite() || first.tvl_usd.le(zero) {
        return none;
    }
    let mut reached: Option<Double> = None;
    let mut i: usize = 0;
    let mut found: bool = false;
    while i < w.len() && !found
        invariant
            i <= w.len(),
            w.len() > 0,
            first == w@[0],
            last == w@.last(),
            found ==> first_down_to(w@, last.tvl_usd, 0) is Some && reached == Some(
                minutes_between(
                    first.observed_at,
                    first_down_to(w@, last.tvl_usd, 0)->0.observed_at,
                ),
            ),
            !found ==> reached is None && first_down_to(w@, last.tvl_usd, 0) == first_down_to(
                w@,
                last.tvl_usd,
                i as int,
            ),
        decreases w.len() - i,
    {
        if w[i].tvl_usd.le(last.tvl_usd) {
            let seconds: i64 = w[i].observed_at.secs_since(first.observed_at);
            reached = Some(Double::from_i64(seconds).over(Double { bits: SIXTY_BITS }));
            found = true;
        }
        i = i + 1;
    }
    WindowAnalysis {
        reference_tvl_usd: Some(first.tvl_usd),
        current_tvl_usd: Some(last.tvl_usd),
        drop_pct: fall(first.tvl_usd, last.tvl_usd),
        time_to_reach_current_drop_minutes: reached,
    }
}

/// The steepest fall among the first `n` samples from one sample to the next, at most a
/// minute later.
pub open spec fn steepest(s: Seq<TvlSamplePoint>, n: nat) -> Double
    decreases n,
{
    if n < 2 {
        double(0)
    } else {
        let before = steepest(s, (n - 1) as nat);
        let a = s[n - 2];
        let b = s[n - 1];
        let seconds = b.observed_at.seconds_since(a.observed_at);
        if seconds <= 0 || seconds > 60 || a.tvl_usd.at_most(double(0)) {
            before
        } else if before.below(fall_pct(a.tvl_usd, b.tvl_usd)) {
            fall_pct(a.tvl_usd, b.tvl_usd)
        } else {
            before
        }
    }
}

/// The steepest fall within a minute, in a window.
pub open spec fn steepest_in(s: Seq<TvlSamplePoint>, now: Timestamp, minutes: i64) -> Double {
    let w = since(s, window_start(now, minutes));
    steepest(w, w.len())
}

pub fn max_one_minute_drop_pct(
    samples: &[TvlSamplePoint],
    now: Timestamp,
    window_minutes: i64,
) -> (r: Double)
    ensures
        r == steepest_in(samples@, now, window_minutes),
{
    let zero = Double { bits: 0 };
    let w: Vec<TvlSamplePoint> = samples_since(samples, start_of_window(now, window_minutes));
    let mut max_drop = zero;
    let mut i: usize = 1;
    while i < w.len()
        invariant
            1 <= i,
            i <= w.len() || w.len() == 0,
            zero == double(0),
            max_drop == steepest(
                w@,
                if w.len() == 0 {
                    0nat
                } else {
                    i as nat
                },
            ),
        decreases w.len() - i,
    {
        let previous: TvlSamplePoint = w[i - 1];
        let current: TvlSamplePoint = w[i];
        let elapsed: i64 = current.observed_at.secs_since(previous.observed_at);
        if !(elapsed <= 0 || elapsed > 60 || previous.tvl_usd.le(zero)) {
            let drop_pct: Double = fall(previous.tvl_usd, current.tvl_usd);
            if max_drop.lt(drop_pct) {
                max_drop = drop_pct;
            }
        }
        i = i + 1;
    }
    max_drop
}

/// The manner in which a value fell; `None` where it did not.
pub open spec fn velocity(fast: Double, steep: Double, reached: Option<Double>) -> Option<
    Seq<char>,
> {
    if fast.at_most(double(0)) {
        None
    } else {
        match reached {
            Some(minutes) => Some(
                if minutes.below(double(CLIFF_WINDOW_BITS)) {
                    "CLIFF"@
                } else if quotient(fast, double(TWO_BITS)).below(steep) {
                    "ACCELERATING"@
                } else if minutes.at_most(double(LINEAR_WINDOW_BITS)) {
                    "LINEAR"@
                } else {
                    "DECELERATING"@
                },
            ),
            None => None,
        }
    }
}

pub fn classify_velocity_pattern(
    fast_drop_pct: Double,
    max_one_minute_drop_pct: Double,
    time_to_reach_minutes: Option<Double>,
) -> (r: Option<&'static str>)
    ensures
        str_option(r) == velocity(fast_drop_pct, max_one_minute_drop_pct, time_to_reach_minutes),
{
    if fast_drop_pct.le(Double { bits: 0 }) {
        return None;
    }
    match time_to_reach_minutes {
        Some(minutes) => {
            if minutes.lt(Double { bits: CLIFF_WINDOW_BITS }) {
                return Some("CLIFF");
            }
            if fast_drop_pct.over(Double { bits: TWO_BITS }).lt(max_one_minute_drop_pct) {
                return Some("ACCELERATING");
            }
            if minutes.le(Double { bits: LINEAR_WINDOW_BITS }) {
                return Some("LINEAR");
            }
            Some("DECELERATING")
        },
        None => None,
    }
}

// ---------------------------------------------------------------------------
// Laws
// ---------------------------------------------------------------------------

/// A value that does not go down has not fallen. How far one falls that does is its deviation
/// from where it was, in percent of that, and the lower it goes the farther it falls.
pub proof fn law_falls_are_deviations_below(from: Double, to: Double, lower: Double)
    requires
        from.positive(),
        to.finite(),
        lower.finite(),
        lower.at_most(to),
    ensures
        from.at_most(to) ==> fall_pct(from, to).same(double(0)),
        to.at_most(from) ==> fall_pct(from, to).same(deviation(to, from)),
        fall_pct(from, to).at_most(fall_pct(from, lower)),
        double(0).at_most(fall_pct(from, to)),
{
    lemma_fall(from, to);
    lemma_fall(from, lower);
    law_order_is_by_value(from, to);
    law_order_is_by_value(to, from);
    law_order_is_by_value(lower, from);
    law_order_is_by_value(lower, to);
    law_deviation_is_by_distance(to, lower, from);
    law_deviation_is_by_distance(lower, lower, from);
}

proof fn lemma_fall(from: Double, to: Double)
    requires
        from.positive(),
        to.finite(),
    ensures
        from.at_most(to) ==> fall_pct(from, to).same(double(0)),
        to.at_most(from) ==> fall_pct(from, to).same(deviation(to, from)),
{
    let zero = double(0);
    let d = difference(from, to);
    crate::double::lemma_negated(to);
    crate::double::lemma_negated(from);
    crate::double::lemma_finite_sum(from, to.negated());
    crate::double::lemma_finite_sum(to, from.negated());
    law_order_is_by_value(from, to);
    law_order_is_by_value(to, from);
    let v = from.value() - to.value();
    let apart = difference(to, from).absolute();
    if v >= 0 {
        crate::double::lemma_rounded_int_grows(0, v);
    } else {
        crate::double::lemma_rounded_int_grows(v, 0);
    }
    crate::double::lemma_zero_rounds_to_zero(1);
    let hundred = double(HUNDRED_BITS);
    crate::quotes::law_only_the_target_does_not_deviate(from, from);
    law_deviation_is_by_distance(to, to, from);
    if v >= 0 {
        assert(d.magnitude() == apart.magnitude());
        assert(d.key() >= 0);
        if v == 0 {
            assert(larger(d, zero).magnitude() == 0);
            assert(apart == zero);
            lemma_zero_falls(larger(d, zero), from);
            lemma_zero_falls(zero, from);
        } else {
            assert(!d.negative());
            assert(d == apart);
        }
    } else {
        assert(d.key() <= 0);
        assert(larger(d, zero).magnitude() == 0);
        lemma_zero_falls(larger(d, zero), from);
    }
}

/// Nothing, in percent of anything, is nothing.
proof fn lemma_zero_falls(x: Double, from: Double)
    requires
        x.magnitude() == 0,
        from.positive(),
    ensures
        product(quotient(x, from), double(HUNDRED_BITS)).key() == 0,
        !product(quotient(x, from), double(HUNDRED_BITS)).nan(),
{
    assert(x.units() == 0) by {
        assert(0 * pow2(0) == 0);
    }
    crate::double::lemma_finite_quotient(x, from);
    assert(x.units() * pow2(1074) == 0) by (nonlinear_arith)
        requires
            x.units() == 0,
    ;
    crate::double::lemma_zero_rounds_to_zero(from.units());
    let q = quotient(x, from);
    assert(q.magnitude() == 0);
    assert(q.units() == 0) by {
        assert(0 * pow2(0) == 0);
    }
    let hundred = double(HUNDRED_BITS);
    assert(hundred.positive());
    crate::double::lemma_finite_product(q, hundred);
    assert(q.units() * hundred.units() == 0) by (nonlinear_arith)
        requires
            q.units() == 0,
    ;
    lemma_pow2_pos(1074);
    crate::double::lemma_zero_rounds_to_zero(pow2(1074));
}

proof fn lemma_none_since(old: Seq<TvlSamplePoint>, cutoff: Timestamp)
    requires
        forall|i: int| 0 <= i < old.len() ==> (#[trigger] old[i]).observed_at.before(cutoff),
    ensures
        since(old, cutoff).len() == 0,
    decreases old.len(),
{
    let keep = |p: TvlSamplePoint| !p.observed_at.before(cutoff);
    if old.len() > 0 {
        let t = old.drop_last();
        let x = old[old.len() - 1];
        assert forall|i: int| 0 <= i < t.len() implies (#[trigger] t[i]).observed_at.before(
            cutoff,
        ) by {
            assert(old[i].observed_at.before(cutoff));
        }
        lemma_none_since(t, cutoff);
        t.lemma_filter_push(x, keep);
        assert(t.push(x) =~= old);
    } else {
        reveal(Seq::filter);
    }
}

proof fn lemma_all_since(old: Seq<TvlSamplePoint>, recent: Seq<TvlSamplePoint>, cutoff: Timestamp)
    requires
        forall|i: int| 0 <= i < recent.len() ==> !(#[trigger] recent[i]).observed_at.before(cutoff),
    ensures
        since(old + recent, cutoff) == since(old, cutoff) + recent,
    decreases recent.len(),
{
    let keep = |p: TvlSamplePoint| !p.observed_at.before(cutoff);
    if recent.len() > 0 {
        let t = recent.drop_last();
        let x = recent[recent.len() - 1];
        assert forall|i: int| 0 <= i < t.len() implies !(#[trigger] t[i]).observed_at.before(
            cutoff,
        ) by {
            assert(!recent[i].observed_at.before(cutoff));
        }
        lemma_all_since(old, t, cutoff);
        (old + t).lemma_filter_push(x, keep);
        assert((old + t).push(x) =~= old + recent);
        assert((since(old, cutoff) + t).push(x) =~= since(old, cutoff) + recent);
    } else {
        assert(old + recent =~= old);
        assert(since(old, cutoff) + recent =~= since(old, cutoff));
    }
}

proof fn lemma_since(old: Seq<TvlSamplePoint>, recent: Seq<TvlSamplePoint>, cutoff: Timestamp)
    requires
        forall|i: int| 0 <= i < old.len() ==> (#[trigger] old[i]).observed_at.before(cutoff),
        forall|i: int| 0 <= i < recent.len() ==> !(#[trigger] recent[i]).observed_at.before(cutoff),
    ensures
        since(old + recent, cutoff) == recent,
{
    lemma_none_since(old, cutoff);
    lemma_all_since(old, recent, cutoff);
    assert(since(old, cutoff) + recent =~= recent);
}

/// The samples of a window that ends now, where all of one list lie before it and all of
/// another within it.
proof fn lemma_window(
    old: Seq<TvlSamplePoint>,
    recent: Seq<TvlSamplePoint>,
    now: Timestamp,
    minutes: i64,
)
    requires
        minutes >= 1,
        forall|i: int|
            0 <= i < old.len() ==> (#[trigger] old[i]).observed_at.nanos < now.nanos
                - 60_000_000_000 * minutes,
        forall|i: int|
            0 <= i < recent.len() ==> (#[trigger] recent[i]).observed_at.nanos >= now.nanos
                - 60_000_000_000 * minutes,
    ensures
        since(old + recent, window_start(now, minutes)) == recent,
        since(recent, window_start(now, minutes)) == recent,
{
    let cutoff = window_start(now, minutes);
    let none = Seq::<TvlSamplePoint>::empty();
    assert forall|i: int| 0 <= i < old.len() implies (#[trigger] old[i]).observed_at.before(
        cutoff,
    ) by {}
    assert forall|i: int| 0 <= i < recent.len() implies !(#[trigger] recent[i]).observed_at.before(
        cutoff,
    ) by {}
    lemma_since(old, recent, cutoff);
    lemma_since(none, recent, cutoff);
    assert(none + recent =~= recent);
}

/// What a window shows depends on the samples within it alone: where the value stood in the
/// first of them, where it stands in the last, and how far it fell in between. Samples from
/// before the window do not count.
pub proof fn law_only_the_window_counts(
    old: Seq<TvlSamplePoint>,
    recent: Seq<TvlSamplePoint>,
    now: Timestamp,
    minutes: i64,
)
    requires
        minutes >= 1,
        recent.len() > 0,
        recent[0].tvl_usd.positive(),
        forall|i: int|
            0 <= i < old.len() ==> (#[trigger] old[i]).observed_at.nanos < now.nanos
                - 60_000_000_000 * minutes,
        forall|i: int|
            0 <= i < recent.len() ==> (#[trigger] recent[i]).observed_at.nanos >= now.nanos
                - 60_000_000_000 * minutes,
    ensures
        ({
            let w = analysis(old + recent, now, minutes);
            &&& w.reference_tvl_usd == Some(recent[0].tvl_usd)
            &&& w.current_tvl_usd == Some(recent.last().tvl_usd)
            &&& w.drop_pct == fall_pct(recent[0].tvl_usd, recent.last().tvl_usd)
            &&& w == analysis(recent, now, minutes)
        }),
        steepest_in(old + recent, now, minutes) == steepest_in(recent, now, minutes),
{
    lemma_window(old, recent, now, minutes);
}

/// A window without samples, or that starts from nothing, shows nothing.
pub proof fn law_nothing_falls_from_nothing(s: Seq<TvlSamplePoint>, now: Timestamp, minutes: i64)
    requires
        forall|i: int|
            0 <= i < s.len() ==> (#[trigger] s[i]).tvl_usd.at_most(double(0)) || s[i].observed_at.nanos
                < now.nanos - 60_000_000_000 * minutes,
        minutes >= 1,
    ensures
        analysis(s, now, minutes).drop_pct == double(0),
        analysis(s, now, minutes).reference_tvl_usd is None,
        analysis(s, now, minutes).time_to_reach_current_drop_minutes is None,
{
    let cutoff = window_start(now, minutes);
    let keep = |p: TvlSamplePoint| !p.observed_at.before(cutoff);
    let w = since(s, cutoff);
    if w.len() > 0 {
        s.lemma_filter_pred(keep, 0);
        assert(w.contains(w[0]));
        s.lemma_filter_contains_rev(keep, w[0]);
        let k = choose|k: int| 0 <= k < s.len() && s[k] == w[0];
        assert(s[k].tvl_usd.at_most(double(0)) || s[k].observed_at.nanos < now.nanos
            - 60_000_000_000 * minutes);
    }
}

proof fn lemma_first_down(s: Seq<TvlSamplePoint>, level: Double, i: int, k: int)
    requires
        0 <= i <= k < s.len(),
        s[k].tvl_usd.at_most(level),
        forall|j: int| i <= j < k ==> !(#[trigger] s[j]).tvl_usd.at_most(level),
    ensures
        first_down_to(s, level, i) == Some(s[k]),
    decreases s.len() - i,
{
    if i < k {
        assert(!s[i].tvl_usd.at_most(level));
        lemma_first_down(s, level, i + 1, k);
    }
}

/// The time of a fall is that from the start of the window to the first sample that was as low
/// as the value is now, in minutes.
pub proof fn law_the_time_of_a_fall_is_to_the_first_low(
    s: Seq<TvlSamplePoint>,
    now: Timestamp,
    minutes: i64,
    k: int,
)
    requires
        minutes >= 1,
        0 <= k < s.len(),
        s[0].tvl_usd.positive(),
        forall|i: int|
            0 <= i < s.len() ==> (#[trigger] s[i]).observed_at.nanos >= now.nanos
                - 60_000_000_000 * minutes,
        s[k].tvl_usd.at_most(s.last().tvl_usd),
        forall|j: int| 0 <= j < k ==> !(#[trigger] s[j]).tvl_usd.at_most(s.last().tvl_usd),
    ensures
        analysis(s, now, minutes).time_to_reach_current_drop_minutes == Some(
            quotient(
                of_int(s[k].observed_at.seconds_since(s[0].observed_at) as int),
                double(SIXTY_BITS),
            ),
        ),
{
    lemma_window(Seq::<TvlSamplePoint>::empty(), s, now, minutes);
    lemma_first_down(s, s.last().tvl_usd, 0, k);
}

/// Whether a fall from one sample to the next is one within a minute.
pub open spec fn within_a_minute(a: TvlSamplePoint, b: TvlSamplePoint) -> bool {
    &&& 0 < b.observed_at.seconds_since(a.observed_at) <= 60
    &&& !a.tvl_usd.at_most(double(0))
}

proof fn lemma_steepest(s: Seq<TvlSamplePoint>, n: nat, k: int)
    requires
        n <= s.len(),
        forall|i: int| 0 <= i < s.len() ==> (#[trigger] s[i]).tvl_usd.positive(),
    ensures
        0 < k < n && within_a_minute(s[k - 1], s[k]) ==> fall_pct(
            s[k - 1].tvl_usd,
            s[k].tvl_usd,
        ).at_most(steepest(s, n)),
        double(0).at_most(steepest(s, n)),
        steepest(s, n) == double(0) || exists|j: int|
            0 < j < n && #[trigger] within_a_minute(s[j - 1], s[j]) && steepest(s, n) == fall_pct(
                s[j - 1].tvl_usd,
                s[j].tvl_usd,
            ),
    decreases n,
{
    if n >= 2 {
        let m = (n - 1) as nat;
        lemma_steepest(s, m, k);
        let (a, b) = (s[n - 2], s[n - 1]);
        assert(a.tvl_usd.positive() && b.tvl_usd.positive());
        law_falls_are_deviations_below(a.tvl_usd, b.tvl_usd, b.tvl_usd);
        let before = steepest(s, m);
        if before != double(0) {
            let j = choose|j: int|
                0 < j < m && #[trigger] within_a_minute(s[j - 1], s[j]) && before == fall_pct(
                    s[j - 1].tvl_usd,
                    s[j].tvl_usd,
                );
            assert(within_a_minute(s[j - 1], s[j]));
        }
        if within_a_minute(a, b) {
            assert(within_a_minute(s[m - 1], s[m as int]));
        }
    }
}

/// The steepest fall within a minute is one of those from one sample to the next, and no such
/// fall is steeper.
pub proof fn law_the_steepest_fall_is_the_largest(
    s: Seq<TvlSamplePoint>,
    now: Timestamp,
    minutes: i64,
    k: int,
)
    requires
        minutes >= 1,
        forall|i: int|
            0 <= i < s.len() ==> (#[trigger] s[i]).observed_at.nanos >= now.nanos
                - 60_000_000_000 * minutes && s[i].tvl_usd.positive(),
    ensures
        0 < k < s.len() && within_a_minute(s[k - 1], s[k]) ==> fall_pct(
            s[k - 1].tvl_usd,
            s[k].tvl_usd,
        ).at_most(steepest_in(s, now, minutes)),
        steepest_in(s, now, minutes) == double(0) || exists|j: int|
            0 < j < s.len() && #[trigger] within_a_minute(s[j - 1], s[j]) && steepest_in(
                s,
                now,
                minutes,
            ) == fall_pct(s[j - 1].tvl_usd, s[j].tvl_usd),
{
    lemma_window(Seq::<TvlSamplePoint>::empty(), s, now, minutes);
    lemma_steepest(s, s.len(), k);
}

/// A fall is a cliff where it took less than a tenth of a minute, accelerates where more than
/// half of it came within one, and else is linear up to eight minutes and decelerates beyond.
pub proof fn law_velocity_tells_how_a_value_fell(fast: Double, steep: Double, minutes: Double)
    requires
        double(0).below(fast),
        !minutes.nan(),
    ensures
        velocity(fast, steep, None) is None,
        velocity(double(0), steep, Some(minutes)) is None,
        velocity(fast, steep, Some(minutes)) == Some("CLIFF"@) <==> minutes.below(
            double(0x3fb9_9999_9999_999a),
        ),
        velocity(fast, steep, Some(minutes)) == Some("ACCELERATING"@) <==> !minutes.below(
            double(0x3fb9_9999_9999_999a),
        ) && quotient(fast, double(TWO_BITS)).below(steep),
        velocity(fast, steep, Some(minutes)) == Some("LINEAR"@) <==> !minutes.below(
            double(0x3fb9_9999_9999_999a),
        ) && !quotient(fast, double(TWO_BITS)).below(steep) && minutes.at_most(
            double(0x4020_0000_0000_0000),
        ),
        velocity(fast, steep, Some(minutes)) == Some("DECELERATING"@) <==> !quotient(
            fast,
            double(TWO_BITS),
        ).below(steep) && double(0x4020_0000_0000_0000).below(minutes),
{
    reveal_strlit("CLIFF");
    reveal_strlit("ACCELERATING");
    reveal_strlit("LINEAR");
    reveal_strlit("DECELERATING");
    assert("CLIFF"@.len() == 5 && "ACCELERATING"@.len() == 12 && "LINEAR"@.len() == 6
        && "DECELERATING"@.len() == 12 && "ACCELERATING"@[0] == 'A' && "DECELERATING"@[0] == 'D');
}

} // verus!
