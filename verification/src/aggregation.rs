//! One price out of many: weighted medians, means and percentiles.

use vstd::arithmetic::power2::*;
use vstd::prelude::*;

use crate::double::clamped;
use crate::double::difference;
use crate::double::larger;
use crate::double::law_product_grows;
use crate::double::product;
use crate::double::quotient;
use crate::double::smaller;
use crate::double::sum;
use crate::double::Double;
use crate::order::arrange;
use crate::order::arranged;
use crate::order::lemma_arranged_items;
use crate::order::Ranked;

verus! {

/// A price and the weight that it counts with.
#[derive(Clone, Copy, Debug, PartialEq, Eq, Structural)]
pub struct Point {
    pub price: Double,
    pub weight: Double,
}

impl Ranked for Point {
    open spec fn outranks(&self, other: &Self) -> bool {
        self.price.below(other.price)
    }

    fn is_before(&self, other: &Self) -> (r: bool) {
        self.price.lt(other.price)
    }
}

/// How a consensus price is made of the prices of several sources.
#[derive(Clone, Copy, Debug, PartialEq, Eq, Structural)]
pub enum MedianStrategy {
    /// The lowest price at which half of the weight is reached.
    WeightedMedian,
    /// The sum of the weighted prices over the sum of the weights.
    WeightedMean,
    /// The weighted mean of what is left when the lowest and the highest `trim_pct` of the
    /// weight are taken away.
    TrimmedMean { trim_pct: Double },
    /// The lowest price at which the share `p` of the weight is reached.
    Percentile { p: Double },
}

impl Default for MedianStrategy {
    fn default() -> (r: Self)
        ensures
            r == MedianStrategy::WeightedMedian,
    {
        MedianStrategy::WeightedMedian
    }
}

/// The bits of 0.5, 0.49, 0.1, 1.0, 2.0 and 100.0.
pub const HALF_BITS: u64 = 0x3fe0_0000_0000_0000;

pub const TRIM_LIMIT_BITS: u64 = 0x3fdf_5c28_f5c2_8f5c;

pub const TENTH_BITS: u64 = 0x3fb9_9999_9999_999a;

pub const ONE_BITS: u64 = 0x3ff0_0000_0000_0000;

pub const TWO_BITS: u64 = 0x4000_0000_0000_0000;

/// The double with the given bits.
pub open spec fn double(bits: u64) -> Double {
    Double { bits }
}

/// The share of the weight that is trimmed where a policy does not say.
pub fn default_trim_pct() -> (r: Double)
    ensures
        r.bits == TENTH_BITS,
{
    Double { bits: TENTH_BITS }
}

/// The share of the weight that is to be reached where a policy does not say.
pub fn default_percentile_p() -> (r: Double)
    ensures
        r.bits == HALF_BITS,
{
    Double { bits: HALF_BITS }
}

/// The sum of the weights, from the first to the last.
pub open spec fn weights(s: Seq<Point>) -> Double
    decreases s.len(),
{
    if s.len() == 0 {
        double(0)
    } else {
        sum(weights(s.drop_last()), s.last().weight)
    }
}

/// The sum of the weighted prices, from the first to the last.
pub open spec fn weighted_prices(s: Seq<Point>) -> Double
    decreases s.len(),
{
    if s.len() == 0 {
        double(0)
    } else {
        sum(weighted_prices(s.drop_last()), product(s.last().price, s.last().weight))
    }
}

/// The price of the first point at which the sum of the weights reaches `target`.
pub open spec fn price_reaching(s: Seq<Point>, target: Double, i: nat) -> Option<Double>
    decreases s.len() - i,
{
    if i >= s.len() {
        None
    } else if target.at_most(weights(s.take(i as int + 1))) {
        Some(s[i as int].price)
    } else {
        price_reaching(s, target, i + 1)
    }
}

/// The lowest price at which `share` of the total weight is reached, if the weights add up
/// to a finite number above zero.
pub open spec fn percentile(s: Seq<Point>, share: Double) -> Option<Double> {
    let sorted = arranged(s);
    let total = weights(sorted);
    if s.len() == 0 || !total.positive() {
        None
    } else {
        price_reaching(sorted, product(total, clamped(share, double(0), double(ONE_BITS))), 0)
    }
}

/// The lowest price at which half of the total weight is reached.
pub open spec fn half_weight_price(s: Seq<Point>) -> Option<Double> {
    let sorted = arranged(s);
    let total = weights(sorted);
    if s.len() == 0 || !total.positive() {
        None
    } else {
        price_reaching(sorted, quotient(total, double(TWO_BITS)), 0)
    }
}

/// The weighted mean.
pub open spec fn mean(s: Seq<Point>) -> Option<Double> {
    if s.len() == 0 || !weights(s).positive() {
        None
    } else {
        Some(quotient(weighted_prices(s), weights(s)))
    }
}

/// What the point at place `i` counts with once the weight outside `low` to `high` is cut
/// off; `None` where nothing is left of it.
pub open spec fn weight_within(s: Seq<Point>, i: int, low: Double, high: Double) -> Option<Double> {
    let start = larger(weights(s.take(i)), low);
    let end = smaller(weights(s.take(i as int + 1)), high);
    if start.below(end) {
        Some(difference(end, start))
    } else {
        None
    }
}

/// The weight that is left within `low` to `high`.
pub open spec fn trimmed_weight(s: Seq<Point>, low: Double, high: Double, n: nat) -> Double
    decreases n,
{
    if n == 0 {
        double(0)
    } else {
        let before = trimmed_weight(s, low, high, (n - 1) as nat);
        match weight_within(s, n - 1, low, high) {
            Some(w) => sum(before, w),
            None => before,
        }
    }
}

/// The weighted prices that are left within `low` to `high`.
pub open spec fn trimmed_prices(s: Seq<Point>, low: Double, high: Double, n: nat) -> Double
    decreases n,
{
    if n == 0 {
        double(0)
    } else {
        let before = trimmed_prices(s, low, high, (n - 1) as nat);
        match weight_within(s, n - 1, low, high) {
            Some(w) => sum(before, product(s[n - 1].price, w)),
            None => before,
        }
    }
}

/// The weighted mean without the lowest and the highest `trim` of the weight.
pub open spec fn mean_within(s: Seq<Point>, trim: Double) -> Option<Double> {
    let share = clamped(trim, double(0), double(TRIM_LIMIT_BITS));
    let sorted = arranged(s);
    let total = weights(sorted);
    let low = product(total, share);
    let high = product(total, difference(double(ONE_BITS), share));
    let left = trimmed_weight(sorted, low, high, sorted.len());
    if s.len() == 0 || !total.positive() || left.at_most(double(0)) {
        None
    } else {
        Some(quotient(trimmed_prices(sorted, low, high, sorted.len()), left))
    }
}

/// The price that a strategy makes of the points; the median where no strategy is given.
pub open spec fn aggregate(s: Seq<Point>, strategy: Option<MedianStrategy>) -> Option<Double> {
    match strategy {
        Some(MedianStrategy::WeightedMean) => mean(s),
        Some(MedianStrategy::TrimmedMean { trim_pct }) => mean_within(s, trim_pct),
        Some(MedianStrategy::Percentile { p }) => percentile(s, p),
        Some(MedianStrategy::WeightedMedian) => percentile(s, double(HALF_BITS)),
        None => percentile(s, double(HALF_BITS)),
    }
}

fn total_weight(s: &[Point]) -> (r: Double)
    ensures
        r == weights(s@),
{
    let mut total: Double = Double { bits: 0 };
    let mut i: usize = 0;
    while i < s.len()
        invariant
            i <= s.len(),
            total == weights(s@.take(i as int)),
        decreases s.len() - i,
    {
        total = total.plus(s[i].weight);
        assert(s@.take(i + 1).drop_last() =~= s@.take(i as int));
        i = i + 1;
    }
    assert(s@.take(s@.len() as int) =~= s@);
    total
}

fn copy_points(s: &[Point]) -> (r: Vec<Point>)
    ensures
        r@ == s@,
{
    let mut r: Vec<Point> = Vec::new();
    let mut i: usize = 0;
    while i < s.len()
        invariant
            i <= s.len(),
            r@ == s@.take(i as int),
        decreases s.len() - i,
    {
        r.push(s[i]);
        i = i + 1;
        assert(s@.take(i as int) =~= s@.take(i - 1).push(s@[i - 1]));
    }
    assert(s@.take(s@.len() as int) =~= s@);
    r
}

fn first_reaching(s: &Vec<Point>, target: Double) -> (r: Option<Double>)
    ensures
        r == price_reaching(s@, target, 0),
{
    let mut running: Double = Double { bits: 0 };
    let mut i: usize = 0;
    while i < s.len()
        invariant
            i <= s.len(),
            running == weights(s@.take(i as int)),
            price_reaching(s@, target, 0) == price_reaching(s@, target, i as nat),
        decreases s.len() - i,
    {
        running = running.plus(s[i].weight);
        assert(s@.take(i + 1).drop_last() =~= s@.take(i as int));
        if target.le(running) {
            return Some(s[i].price);
        }
        i = i + 1;
    }
    None
}

pub fn weighted_percentile(points: &[Point], p: Double) -> (r: Option<Double>)
    ensures
        r == percentile(points@, p),
{
    if points.len() == 0 {
        return None;
    }
    let share: Double = p.clamp(Double { bits: 0 }, Double { bits: ONE_BITS });
    let sorted: Vec<Point> = arrange(copy_points(points));
    let total: Double = total_weight(sorted.as_slice());
    if !total.is_positive() {
        return None;
    }
    first_reaching(&sorted, total.times(share))
}

pub fn weighted_median(points: &[Point]) -> (r: Option<Double>)
    ensures
        r == percentile(points@, double(HALF_BITS)),
{
    weighted_percentile(points, Double { bits: HALF_BITS })
}

/// The lowest price at which half of the total weight is reached.
pub fn median_by_half(points: &[Point]) -> (r: Option<Double>)
    ensures
        r == half_weight_price(points@),
{
    if points.len() == 0 {
        return None;
    }
    let sorted: Vec<Point> = arrange(copy_points(points));
    let total: Double = total_weight(sorted.as_slice());
    if !total.is_positive() {
        return None;
    }
    first_reaching(&sorted, total.over(Double { bits: TWO_BITS }))
}

pub fn weighted_mean(points: &[Point]) -> (r: Option<Double>)
    ensures
        r == mean(points@),
{
    if points.len() == 0 {
        return None;
    }
    let total: Double = total_weight(points);
    if !total.is_positive() {
        return None;
    }
    let mut prices: Double = Double { bits: 0 };
    let mut i: usize = 0;
    while i < points.len()
        invariant
            i <= points.len(),
            prices == weighted_prices(points@.take(i as int)),
        decreases points.len() - i,
    {
        prices = prices.plus(points[i].price.times(points[i].weight));
        assert(points@.take(i + 1).drop_last() =~= points@.take(i as int));
        i = i + 1;
    }
    assert(points@.take(points@.len() as int) =~= points@);
    Some(prices.over(total))
}

pub fn trimmed_mean(points: &[Point], trim_pct: Double) -> (r: Option<Double>)
    ensures
        r == mean_within(points@, trim_pct),
{
    if points.len() == 0 {
        return None;
    }
    let trim: Double = trim_pct.clamp(Double { bits: 0 }, Double { bits: TRIM_LIMIT_BITS });
    let sorted: Vec<Point> = arrange(copy_points(points));
    let total: Double = total_weight(sorted.as_slice());
    if !total.is_positive() {
        return None;
    }
    let low: Double = total.times(trim);
    let high: Double = total.times(Double { bits: ONE_BITS }.minus(trim));
    let mut running: Double = Double { bits: 0 };
    let mut prices: Double = Double { bits: 0 };
    let mut used: Double = Double { bits: 0 };
    let mut i: usize = 0;
    while i < sorted.len()
        invariant
            i <= sorted.len(),
            running == weights(sorted@.take(i as int)),
            prices == trimmed_prices(sorted@, low, high, i as nat),
            used == trimmed_weight(sorted@, low, high, i as nat),
        decreases sorted.len() - i,
    {
        let before: Double = running;
        running = running.plus(sorted[i].weight);
        assert(sorted@.take(i + 1).drop_last() =~= sorted@.take(i as int));
        let start: Double = before.max(low);
        let end: Double = running.min(high);
        if start.lt(end) {
            let left: Double = end.minus(start);
            prices = prices.plus(sorted[i].price.times(left));
            used = used.plus(left);
        }
        i = i + 1;
    }
    proof {
        lemma_arranged_items(points@);
    }
    if used.le(Double { bits: 0 }) {
        return None;
    }
    Some(prices.over(used))
}

/// The price that a strategy makes of the points; the median where no strategy is given.
pub fn aggregate_price(points: &[Point], strategy: Option<&MedianStrategy>) -> (r: Option<Double>)
    ensures
        r == aggregate(points@, match strategy {
            Some(s) => Some(*s),
            None => None,
        }),
{
    match strategy {
        Some(MedianStrategy::WeightedMean) => weighted_mean(points),
        Some(MedianStrategy::TrimmedMean { trim_pct }) => trimmed_mean(points, *trim_pct),
        Some(MedianStrategy::Percentile { p }) => weighted_percentile(points, *p),
        Some(MedianStrategy::WeightedMedian) => weighted_median(points),
        None => weighted_median(points),
    }
}

// ---------------------------------------------------------------------------
// Laws
// ---------------------------------------------------------------------------

/// The percentile at one half is the median, which is also what no strategy gives.
pub proof fn law_half_percentile_is_median(s: Seq<Point>)
    ensures
        aggregate(s, Some(MedianStrategy::Percentile { p: double(HALF_BITS) })) == aggregate(
            s,
            Some(MedianStrategy::WeightedMedian),
        ),
        aggregate(s, None) == aggregate(s, Some(MedianStrategy::WeightedMedian)),
{
}

proof fn lemma_reached_price_is_a_price(s: Seq<Point>, target: Double, i: nat)
    ensures
        price_reaching(s, target, i) matches Some(x) ==> exists|k: int|
            i <= k < s.len() && (#[trigger] s[k]).price == x,
    decreases s.len() - i,
{
    if i < s.len() && !target.at_most(weights(s.take(i as int + 1))) {
        lemma_reached_price_is_a_price(s, target, i + 1);
    }
}

/// A percentile is the price of one of the points.
pub proof fn law_percentile_is_one_of_the_prices(s: Seq<Point>, share: Double)
    ensures
        percentile(s, share) matches Some(x) ==> exists|k: int|
            0 <= k < s.len() && (#[trigger] s[k]).price == x,
{
    let sorted = arranged(s);
    let total = weights(sorted);
    let target = product(total, clamped(share, double(0), double(ONE_BITS)));
    lemma_reached_price_is_a_price(sorted, target, 0);
    if percentile(s, share) is Some {
        lemma_arranged_items(s);
        let x = percentile(s, share)->0;
        let k = choose|k: int| 0 <= k < sorted.len() && (#[trigger] sorted[k]).price == x;
        assert(sorted.contains(sorted[k]));
        let j = choose|j: int| 0 <= j < s.len() && s[j] == sorted[k];
        assert(s[j].price == x);
    }
}

proof fn lemma_reached_is_monotone(s: Seq<Point>, low: Double, high: Double, i: nat)
    requires
        crate::order::in_order(s),
        forall|k: int| 0 <= k < s.len() ==> !(#[trigger] s[k]).price.nan(),
        low.at_most(high),
    ensures
        (price_reaching(s, low, i), price_reaching(s, high, i)) matches (Some(a), Some(b))
            ==> a.at_most(b),
        price_reaching(s, high, i) is Some ==> price_reaching(s, low, i) is Some,
    decreases s.len() - i,
{
    if i < s.len() {
        if low.at_most(weights(s.take(i as int + 1))) {
            lemma_reached_price_is_a_price(s, high, i);
            if price_reaching(s, high, i) is Some {
                let b = price_reaching(s, high, i)->0;
                let k = choose|k: int| i <= k < s.len() && (#[trigger] s[k]).price == b;
                if k > i {
                    assert(!s[k].outranks(&s[i as int]));
                }
                assert(!s[i as int].price.nan());
            }
        } else {
            assert(!high.at_most(weights(s.take(i as int + 1))));
            lemma_reached_is_monotone(s, low, high, i + 1);
        }
    }
}

/// A larger share of the weight is never reached at a lower price.
pub proof fn law_percentile_grows_with_the_share(s: Seq<Point>, low: Double, high: Double)
    requires
        forall|k: int| 0 <= k < s.len() ==> !(#[trigger] s[k]).price.nan(),
        low.at_most(high),
    ensures
        (percentile(s, low), percentile(s, high)) matches (Some(a), Some(b)) ==> a.at_most(b),
{
    let sorted = arranged(s);
    let total = weights(sorted);
    if total.positive() {
        law_product_grows(
            total,
            clamped(low, double(0), double(ONE_BITS)),
            clamped(high, double(0), double(ONE_BITS)),
        );
        lemma_arranged_items(s);
        crate::order::lemma_arranged(s, |x: Point| !x.price.nan());
        assert forall|k: int| 0 <= k < sorted.len() implies !(#[trigger] sorted[k]).price.nan() by {
            assert(sorted.contains(sorted[k]));
            let j = choose|j: int| 0 <= j < s.len() && s[j] == sorted[k];
            assert(!s[j].price.nan());
        }
        lemma_reached_is_monotone(
            sorted,
            product(total, clamped(low, double(0), double(ONE_BITS))),
            product(total, clamped(high, double(0), double(ONE_BITS))),
            0,
        );
    }
}

// --- What is trimmed ---

/// Where the lowest share of a weight ends, for a share that may be trimmed.
pub open spec fn lower_end(total: Double, trim: Double) -> Double {
    product(total, clamped(trim, double(0), double(TRIM_LIMIT_BITS)))
}

/// Where the highest share of a weight begins, for a share that may be trimmed.
pub open spec fn upper_end(total: Double, trim: Double) -> Double {
    product(
        total,
        difference(double(ONE_BITS), clamped(trim, double(0), double(TRIM_LIMIT_BITS))),
    )
}

/// Whether the whole weight of the point at place `i` lies within the lowest or the highest
/// share of the weight of points in the order of price.
pub open spec fn trimmed_away(s: Seq<Point>, trim: Double, i: int) -> bool {
    ||| weights(s.take(i + 1)).at_most(lower_end(weights(s), trim))
    ||| upper_end(weights(s), trim).at_most(weights(s.take(i)))
}

proof fn lemma_same_weights(a: Seq<Point>, b: Seq<Point>, n: int)
    requires
        a.len() == b.len(),
        0 <= n <= a.len(),
        forall|i: int| 0 <= i < a.len() ==> (#[trigger] a[i]).weight == b[i].weight,
    ensures
        weights(a.take(n)) == weights(b.take(n)),
    decreases n,
{
    if n > 0 {
        lemma_same_weights(a, b, n - 1);
        assert(a.take(n).drop_last() =~= a.take(n - 1));
        assert(b.take(n).drop_last() =~= b.take(n - 1));
        assert(a[n - 1].weight == b[n - 1].weight);
    }
}

proof fn lemma_nothing_left(s: Seq<Point>, i: int, low: Double, high: Double)
    requires
        weights(s.take(i + 1)).at_most(low) || high.at_most(weights(s.take(i))),
        !low.nan(),
        !high.nan(),
        !weights(s.take(i)).nan(),
        !weights(s.take(i + 1)).nan(),
    ensures
        weight_within(s, i, low, high) is None,
{
}

proof fn lemma_weights_are_numbers(s: Seq<Point>)
    requires
        forall|i: int|
            0 <= i < s.len() ==> (#[trigger] s[i]).weight.finite() && 0 <= s[i].weight.key(),
    ensures
        0 <= weights(s).key(),
        !weights(s).nan(),
        s.len() > 0 ==> weights(s.drop_last()).at_most(weights(s)),
    decreases s.len(),
{
    if s.len() > 0 {
        let t = s.drop_last();
        assert forall|i: int| 0 <= i < t.len() implies (#[trigger] t[i]).weight.finite() && 0
            <= t[i].weight.key() by {
            assert(s[i].weight.finite());
        }
        lemma_weights_are_numbers(t);
        let w = s[s.len() - 1].weight;
        crate::double::lemma_sum_grows_up(weights(t), weights(t), w, w);
    }
}

proof fn lemma_partial_weights(s: Seq<Point>, n: int)
    requires
        0 <= n <= s.len(),
        forall|i: int|
            0 <= i < s.len() ==> (#[trigger] s[i]).weight.finite() && 0 <= s[i].weight.key(),
    ensures
        0 <= weights(s.take(n)).key(),
        !weights(s.take(n)).nan(),
        weights(s.take(n)).at_most(weights(s)),
        n < s.len() ==> weights(s.take(n)).at_most(weights(s.take(n + 1))),
    decreases s.len() - n,
{
    let t = s.take(n);
    assert forall|i: int| 0 <= i < t.len() implies (#[trigger] t[i]).weight.finite() && 0
        <= t[i].weight.key() by {
        assert(s[i].weight.finite());
    }
    lemma_weights_are_numbers(t);
    if n < s.len() {
        lemma_partial_weights(s, n + 1);
        let u = s.take(n + 1);
        assert forall|i: int| 0 <= i < u.len() implies (#[trigger] u[i]).weight.finite() && 0
            <= u[i].weight.key() by {
            assert(s[i].weight.finite());
        }
        lemma_weights_are_numbers(u);
        assert(u.drop_last() =~= t);
    } else {
        assert(t =~= s);
    }
}

/// The clamped share, and what is left of one without it.
proof fn lemma_share(trim: Double)
    requires
        !trim.nan(),
    ensures
        ({
            let share = clamped(trim, double(0), double(TRIM_LIMIT_BITS));
            let rest = difference(double(ONE_BITS), share);
            &&& share.finite()
            &&& 0 <= share.key()
            &&& rest.finite()
            &&& rest.positive()
            &&& rest.at_most(double(ONE_BITS))
        }),
{
    let share = clamped(trim, double(0), double(TRIM_LIMIT_BITS));
    let one = double(ONE_BITS);
    let limit = double(TRIM_LIMIT_BITS);
    let half = double(HALF_BITS);
    assert(share.finite() && 0 <= share.key() <= limit.key());
    crate::double::lemma_negated(share);
    crate::double::lemma_finite_sum(one, share.negated());
    crate::double::law_order_is_by_value(double(0), share);
    crate::double::law_order_is_by_value(share, half);
    lemma_zero_value();
    lemma_half();
    crate::double::lemma_rounded_int_grows(half.value(), one.value() - share.value());
    crate::double::lemma_rounded_int_grows(one.value() - share.value(), one.value());
    crate::double::lemma_rounding_keeps_doubles(half);
    crate::double::lemma_rounding_keeps_doubles(one);
}

pub(crate) proof fn lemma_zero_value()
    ensures
        double(0).value() == 0,
        double(0).units() == 0,
{
    assert(double(0).magnitude() == 0);
    assert(0 * pow2(0) == 0);
}

/// The values of one and of one half.
pub(crate) proof fn lemma_half()
    ensures
        double(ONE_BITS).finite(),
        double(HALF_BITS).finite(),
        double(ONE_BITS).units() == pow2(1074),
        double(ONE_BITS).value() == pow2(1074),
        2 * double(HALF_BITS).value() == double(ONE_BITS).value(),
        double(HALF_BITS).value() == double(HALF_BITS).units(),
        double(HALF_BITS).value() > 0,
{
    lemma2_to64();
    lemma2_to64_rest();
    let one = double(ONE_BITS);
    let half = double(HALF_BITS);
    assert(one.scale() == 1022 && one.significand() == 0x0010_0000_0000_0000);
    assert(half.scale() == 1021 && half.significand() == 0x0010_0000_0000_0000);
    lemma_pow2_adds(52, 1022);
    lemma_pow2_adds(52, 1021);
    lemma_pow2_adds(1, 1073);
    lemma_pow2_pos(1073);
    assert(pow2(52) == 0x0010_0000_0000_0000);
}

/// The prices of points whose whole weight is trimmed do not matter: where two lists in the
/// order of price have the same weights, and the same prices but for such points, their
/// trimmed means are the same.
pub proof fn law_trimmed_prices_do_not_matter(a: Seq<Point>, b: Seq<Point>, trim: Double)
    requires
        a.len() == b.len(),
        !trim.nan(),
        forall|i: int|
            0 <= i < a.len() ==> (#[trigger] a[i]).weight.finite() && 0 <= a[i].weight.key(),
        forall|i: int|
            0 <= i < a.len() ==> (#[trigger] arranged(a)[i]).weight == arranged(b)[i].weight,
        forall|i: int|
            0 <= i < a.len() ==> (#[trigger] arranged(a)[i]).price == arranged(b)[i].price
                || trimmed_away(arranged(a), trim, i),
    ensures
        aggregate(a, Some(MedianStrategy::TrimmedMean { trim_pct: trim })) == aggregate(
            b,
            Some(MedianStrategy::TrimmedMean { trim_pct: trim }),
        ),
{
    let (x, y) = (arranged(a), arranged(b));
    lemma_arranged_items(a);
    lemma_arranged_items(b);
    assert forall|i: int| 0 <= i < x.len() implies (#[trigger] x[i]).weight.finite() && 0
        <= x[i].weight.key() by {
        assert(x.contains(x[i]));
        let k = choose|k: int| 0 <= k < a.len() && a[k] == x[i];
        assert(a[k].weight.finite());
    }
    assert(x.take(x.len() as int) =~= x);
    assert(y.take(y.len() as int) =~= y);
    lemma_same_weights(x, y, x.len() as int);
    let total = weights(x);
    if total.positive() {
        let low = lower_end(total, trim);
        let high = upper_end(total, trim);
        lemma_share(trim);
        let share = clamped(trim, double(0), double(TRIM_LIMIT_BITS));
        crate::double::law_product_grows(total, share, share);
        crate::double::lemma_product_grows_up(
            total,
            total,
            difference(double(ONE_BITS), share),
        );
        lemma_trimmed_alike(x, y, trim, low, high, x.len());
    }
}

proof fn lemma_trimmed_alike(
    x: Seq<Point>,
    y: Seq<Point>,
    trim: Double,
    low: Double,
    high: Double,
    n: nat,
)
    requires
        x.len() == y.len(),
        n <= x.len(),
        low == lower_end(weights(x), trim),
        high == upper_end(weights(x), trim),
        !low.nan(),
        !high.nan(),
        forall|i: int|
            0 <= i < x.len() ==> (#[trigger] x[i]).weight.finite() && 0 <= x[i].weight.key(),
        forall|i: int| 0 <= i < x.len() ==> (#[trigger] x[i]).weight == y[i].weight,
        forall|i: int|
            0 <= i < x.len() ==> (#[trigger] x[i]).price == y[i].price || trimmed_away(x, trim, i),
    ensures
        trimmed_weight(x, low, high, n) == trimmed_weight(y, low, high, n),
        trimmed_prices(x, low, high, n) == trimmed_prices(y, low, high, n),
    decreases n,
{
    if n > 0 {
        let i = n - 1;
        lemma_trimmed_alike(x, y, trim, low, high, (n - 1) as nat);
        lemma_same_weights(x, y, i);
        lemma_same_weights(x, y, i + 1);
        lemma_partial_weights(x, i);
        lemma_partial_weights(x, i + 1);
        assert(weight_within(x, i, low, high) == weight_within(y, i, low, high));
        if x[i].price != y[i].price {
            lemma_nothing_left(x, i, low, high);
        }
    }
}

// --- Means ---

/// Whether prices and weights are finite and not negative.
pub open spec fn ordinary(s: Seq<Point>) -> bool {
    forall|i: int|
        0 <= i < s.len() ==> (#[trigger] s[i]).weight.finite() && 0 <= s[i].weight.key()
            && s[i].price.finite() && 0 <= s[i].price.key()
}

/// Whether two lists have the same weights, and no price of the first is above the one in
/// the same place of the second.
pub open spec fn no_dearer(a: Seq<Point>, b: Seq<Point>) -> bool {
    &&& a.len() == b.len()
    &&& forall|i: int|
        0 <= i < a.len() ==> (#[trigger] a[i]).weight == b[i].weight && a[i].price.at_most(
            b[i].price,
        )
}

proof fn lemma_weighted_prices_grow(a: Seq<Point>, b: Seq<Point>)
    requires
        ordinary(a),
        ordinary(b),
        no_dearer(a, b),
    ensures
        weights(a) == weights(b),
        weighted_prices(a).at_most(weighted_prices(b)),
        0 <= weighted_prices(a).key(),
    decreases a.len(),
{
    if a.len() > 0 {
        let (s, t) = (a.drop_last(), b.drop_last());
        let n = a.len() - 1;
        assert forall|i: int| 0 <= i < s.len() implies (#[trigger] s[i]).weight.finite() && 0
            <= s[i].weight.key() && s[i].price.finite() && 0 <= s[i].price.key() by {
            assert(a[i].weight.finite());
        }
        assert forall|i: int| 0 <= i < t.len() implies (#[trigger] t[i]).weight.finite() && 0
            <= t[i].weight.key() && t[i].price.finite() && 0 <= t[i].price.key() by {
            assert(b[i].weight.finite());
        }
        assert forall|i: int| 0 <= i < s.len() implies (#[trigger] s[i]).weight == t[i].weight
            && s[i].price.at_most(t[i].price) by {
            assert(a[i].weight == b[i].weight);
        }
        lemma_weighted_prices_grow(s, t);
        let (p, q, w) = (a[n].price, b[n].price, a[n].weight);
        assert(a[n].weight == b[n].weight && p.at_most(q) && w.finite() && b[n].price.finite());
        lemma_term_grows(p, q, w);
        crate::double::lemma_sum_grows_up(
            weighted_prices(s),
            weighted_prices(t),
            product(p, w),
            product(q, w),
        );
    }
}

proof fn lemma_term_grows(p: Double, q: Double, w: Double)
    requires
        p.finite(),
        q.finite(),
        w.finite(),
        0 <= p.key(),
        0 <= w.key(),
        p.at_most(q),
    ensures
        product(p, w).at_most(product(q, w)),
        0 <= product(p, w).key(),
{
    if w.key() > 0 {
        crate::double::lemma_product_grows_up(p, q, w);
    } else {
        lemma_nothing_times(p, w);
        lemma_nothing_times(q, w);
    }
}

proof fn lemma_nothing_times(p: Double, w: Double)
    requires
        p.finite(),
        w.magnitude() == 0,
    ensures
        product(p, w).magnitude() == 0,
        product(p, w).key() == 0,
        !product(p, w).nan(),
{
    lemma_pow2_pos(1074);
    assert(w.units() == 0) by {
        assert(0 * pow2(0) == 0);
    }
    assert(p.units() * w.units() == 0) by (nonlinear_arith)
        requires
            w.units() == 0,
    ;
    crate::double::lemma_zero_rounds_to_zero(pow2(1074));
}

/// A weighted mean does not fall when prices rise.
pub proof fn law_mean_grows_with_the_prices(a: Seq<Point>, b: Seq<Point>)
    requires
        ordinary(a),
        ordinary(b),
        no_dearer(a, b),
    ensures
        ({
            let x = aggregate(a, Some(MedianStrategy::WeightedMean));
            let y = aggregate(b, Some(MedianStrategy::WeightedMean));
            &&& x is Some <==> y is Some
            &&& x is Some ==> x->0.at_most(y->0)
        }),
{
    lemma_weighted_prices_grow(a, b);
    if weights(a).positive() {
        crate::double::law_quotient_grows(weighted_prices(a), weighted_prices(b), weights(a));
    }
}

/// The weighted mean of prices that are all one is one, so that no mean lies outside of what
/// its prices say of the peg of one: it is not above one where no price is, and not below one
/// where no price is.
pub proof fn law_mean_of_ones_is_one(s: Seq<Point>)
    requires
        ordinary(s),
        aggregate(s, Some(MedianStrategy::WeightedMean)) is Some,
    ensures
        (forall|i: int| 0 <= i < s.len() ==> (#[trigger] s[i]).price == double(ONE_BITS))
            ==> aggregate(s, Some(MedianStrategy::WeightedMean))->0.same(double(ONE_BITS)),
        (forall|i: int| 0 <= i < s.len() ==> (#[trigger] s[i]).price.at_most(double(ONE_BITS)))
            ==> aggregate(s, Some(MedianStrategy::WeightedMean))->0.at_most(double(ONE_BITS)),
        (forall|i: int| 0 <= i < s.len() ==> double(ONE_BITS).at_most((#[trigger] s[i]).price))
            ==> double(ONE_BITS).at_most(aggregate(s, Some(MedianStrategy::WeightedMean))->0),
{
    let one = double(ONE_BITS);
    let ones = Seq::new(s.len(), |i: int| Point { price: one, weight: s[i].weight });
    lemma_ones(ones);
    assert(s.take(s.len() as int) =~= s);
    assert(ones.take(s.len() as int) =~= ones);
    lemma_same_weights(s, ones, s.len() as int);
    let m = aggregate(ones, Some(MedianStrategy::WeightedMean));
    assert(m == Some(quotient(weighted_prices(ones), weights(ones))));
    if forall|i: int| 0 <= i < s.len() ==> (#[trigger] s[i]).price == one {
        assert(ones =~= s);
    }
    if forall|i: int| 0 <= i < s.len() ==> (#[trigger] s[i]).price.at_most(one) {
        law_mean_grows_with_the_prices(s, ones);
    }
    if forall|i: int| 0 <= i < s.len() ==> one.at_most((#[trigger] s[i]).price) {
        law_mean_grows_with_the_prices(ones, s);
    }
}

proof fn lemma_ones(s: Seq<Point>)
    requires
        forall|i: int|
            0 <= i < s.len() ==> (#[trigger] s[i]).weight.finite() && 0 <= s[i].weight.key()
                && s[i].price == double(ONE_BITS),
    ensures
        weighted_prices(s).same(weights(s)),
        weights(s).positive() ==> quotient(weighted_prices(s), weights(s)).same(double(ONE_BITS)),
        ordinary(s),
    decreases s.len(),
{
    lemma_half();
    lemma_weights_are_numbers(s);
    if s.len() > 0 {
        let t = s.drop_last();
        assert forall|i: int| 0 <= i < t.len() implies (#[trigger] t[i]).weight.finite() && 0
            <= t[i].weight.key() && t[i].price == double(ONE_BITS) by {
            assert(s[i].weight.finite());
        }
        lemma_ones(t);
        lemma_weights_are_numbers(t);
        let w = s[s.len() - 1].weight;
        assert(w.finite() && 0 <= w.key() && s[s.len() - 1].price == double(ONE_BITS));
        lemma_one_times(w);
        lemma_same_sums(
            weighted_prices(t),
            weights(t),
            product(double(ONE_BITS), w),
            w,
        );
    }
    if weights(s).positive() {
        lemma_over_itself(weighted_prices(s), weights(s));
    }
}

proof fn lemma_one_times(w: Double)
    requires
        w.finite(),
        0 <= w.key(),
    ensures
        product(double(ONE_BITS), w).same(w),
        product(w, double(ONE_BITS)).same(w),
{
    lemma_half();
    lemma_pow2_pos(1074);
    let one = double(ONE_BITS);
    assert(one.value() * w.value() == w.value() * pow2(1074)) by (nonlinear_arith)
        requires
            one.value() == pow2(1074),
    ;
    crate::double::law_products_are_exact_where_they_can_be(one, w, w);
    assert(w.value() * one.value() == w.value() * pow2(1074));
    crate::double::law_products_are_exact_where_they_can_be(w, one, w);
}

proof fn lemma_over_itself(a: Double, b: Double)
    requires
        b.positive(),
        a.same(b),
    ensures
        quotient(a, b).same(double(ONE_BITS)),
{
    lemma_half();
    lemma_pow2_pos(1074);
    let one = double(ONE_BITS);
    crate::double::law_order_is_by_value(a, b);
    assert(one.value() * b.value() == a.value() * pow2(1074)) by (nonlinear_arith)
        requires
            one.value() == pow2(1074),
            a.value() == b.value(),
    ;
    crate::double::law_quotients_are_exact_where_they_can_be(a, b, one);
}

/// Sums of numbers that are the same, and not negative, are the same.
proof fn lemma_same_sums(a: Double, b: Double, c: Double, d: Double)
    requires
        a.same(b),
        c.same(d),
        0 <= a.key(),
        0 <= c.key(),
    ensures
        sum(a, c).same(sum(b, d)),
{
    crate::double::lemma_sum_grows_up(a, b, c, d);
    crate::double::lemma_sum_grows_up(b, a, d, c);
}

/// A trimmed mean does not fall when prices rise that leave the order as it is.
pub proof fn law_trimmed_mean_grows_with_the_prices(a: Seq<Point>, b: Seq<Point>, trim: Double)
    requires
        !trim.nan(),
        ordinary(a),
        ordinary(b),
        a.len() == b.len(),
        no_dearer(arranged(a), arranged(b)),
    ensures
        ({
            let x = aggregate(a, Some(MedianStrategy::TrimmedMean { trim_pct: trim }));
            let y = aggregate(b, Some(MedianStrategy::TrimmedMean { trim_pct: trim }));
            &&& x is Some <==> y is Some
            &&& x is Some && !x->0.nan() && !y->0.nan() ==> x->0.at_most(y->0)
        }),
{
    let (x, y) = (arranged(a), arranged(b));
    lemma_arranged_items(a);
    lemma_arranged_items(b);
    lemma_arranged_ordinary(a);
    lemma_arranged_ordinary(b);
    assert(x.take(x.len() as int) =~= x);
    assert(y.take(y.len() as int) =~= y);
    lemma_same_weights(x, y, x.len() as int);
    let total = weights(x);
    if total.positive() {
        let low = lower_end(total, trim);
        let high = upper_end(total, trim);
        lemma_ends(total, trim);
        lemma_trimmed_sums(x, y, low, high, x.len());
        let left = trimmed_weight(x, low, high, x.len());
        if !left.at_most(double(0)) {
            lemma_trimmed_weight_is_finite(x, low, high, x.len());
            if left.finite() {
                crate::double::law_quotient_grows(
                    trimmed_prices(x, low, high, x.len()),
                    trimmed_prices(y, low, high, x.len()),
                    left,
                );
            } else {
                lemma_over_infinity(trimmed_prices(x, low, high, x.len()), left);
                lemma_over_infinity(trimmed_prices(y, low, high, x.len()), left);
            }
        }
    }
}

proof fn lemma_arranged_ordinary(a: Seq<Point>)
    requires
        ordinary(a),
    ensures
        ordinary(arranged(a)),
        arranged(a).len() == a.len(),
{
    let x = arranged(a);
    lemma_arranged_items(a);
    assert forall|i: int| 0 <= i < x.len() implies (#[trigger] x[i]).weight.finite() && 0
        <= x[i].weight.key() && x[i].price.finite() && 0 <= x[i].price.key() by {
        assert(x.contains(x[i]));
        let k = choose|k: int| 0 <= k < a.len() && a[k] == x[i];
        assert(a[k].weight.finite());
    }
}

proof fn lemma_ends(total: Double, trim: Double)
    requires
        total.positive(),
        !trim.nan(),
    ensures
        !lower_end(total, trim).nan(),
        0 <= lower_end(total, trim).key(),
        !upper_end(total, trim).nan(),
        0 <= upper_end(total, trim).key(),
        upper_end(total, trim).at_most(total),
{
    lemma_share(trim);
    let share = clamped(trim, double(0), double(TRIM_LIMIT_BITS));
    let rest = difference(double(ONE_BITS), share);
    lemma_term_grows(share, share, total);
    crate::double::law_product_grows(total, share, share);
    crate::double::lemma_product_grows_up(total, total, rest);
    lemma_one_times(total);
    lemma_half();
    crate::double::law_product_grows(total, rest, double(ONE_BITS));
    lemma_commuted(share, total);
}

proof fn lemma_commuted(a: Double, b: Double)
    ensures
        product(a, b) == product(b, a),
{
    assert(a.units() * b.units() == b.units() * a.units()) by (nonlinear_arith);
}

proof fn lemma_kept_weight(x: Seq<Point>, i: int, low: Double, high: Double)
    requires
        0 <= i < x.len(),
        ordinary(x),
        weights(x).positive(),
        !low.nan(),
        !high.nan(),
        0 <= low.key(),
    ensures
        weight_within(x, i, low, high) matches Some(w) ==> w.finite() && 0 <= w.key(),
{
    lemma_partial_weights(x, i);
    lemma_partial_weights(x, i + 1);
    let start = larger(weights(x.take(i)), low);
    let end = smaller(weights(x.take(i + 1)), high);
    if start.below(end) {
        assert(end.finite() && start.finite());
        crate::double::lemma_negated(start);
        crate::double::lemma_finite_sum(end, start.negated());
        crate::double::law_order_is_by_value(start, end);
        crate::double::law_order_is_by_value(double(0), start);
        lemma_zero_value();
        crate::double::lemma_rounded_int_grows(0, end.value() - start.value());
        crate::double::lemma_rounded_int_grows(end.value() - start.value(), end.value());
        crate::double::lemma_rounding_keeps_doubles(end);
        crate::double::lemma_zero_rounds_to_zero(1);
    }
}

proof fn lemma_trimmed_sums(x: Seq<Point>, y: Seq<Point>, low: Double, high: Double, n: nat)
    requires
        n <= x.len(),
        ordinary(x),
        ordinary(y),
        no_dearer(x, y),
        weights(x).positive(),
        !low.nan(),
        !high.nan(),
        0 <= low.key(),
    ensures
        trimmed_weight(x, low, high, n) == trimmed_weight(y, low, high, n),
        trimmed_prices(x, low, high, n).at_most(trimmed_prices(y, low, high, n)),
        0 <= trimmed_prices(x, low, high, n).key(),
    decreases n,
{
    if n > 0 {
        let i = n - 1;
        lemma_trimmed_sums(x, y, low, high, (n - 1) as nat);
        assert forall|k: int| 0 <= k < x.len() implies (#[trigger] x[k]).weight == y[k].weight by {}
        lemma_same_weights(x, y, i);
        lemma_same_weights(x, y, i + 1);
        lemma_kept_weight(x, i, low, high);
        match weight_within(x, i, low, high) {
            Some(w) => {
                assert(x[i].price.finite() && x[i].price.at_most(y[i].price));
                assert(y[i].price.finite());
                lemma_term_grows(x[i].price, y[i].price, w);
                crate::double::lemma_sum_grows_up(
                    trimmed_prices(x, low, high, (n - 1) as nat),
                    trimmed_prices(y, low, high, (n - 1) as nat),
                    product(x[i].price, w),
                    product(y[i].price, w),
                );
            },
            None => {},
        }
    }
}

proof fn lemma_trimmed_weight_is_finite(x: Seq<Point>, low: Double, high: Double, n: nat)
    requires
        n <= x.len(),
        ordinary(x),
        weights(x).positive(),
        !low.nan(),
        !high.nan(),
        0 <= low.key(),
    ensures
        !trimmed_weight(x, low, high, n).nan(),
        0 <= trimmed_weight(x, low, high, n).key(),
    decreases n,
{
    if n > 0 {
        lemma_trimmed_weight_is_finite(x, low, high, (n - 1) as nat);
        lemma_kept_weight(x, n - 1, low, high);
        match weight_within(x, n - 1, low, high) {
            Some(w) => {
                let before = trimmed_weight(x, low, high, (n - 1) as nat);
                crate::double::lemma_sum_grows_up(before, before, w, w);
            },
            None => {},
        }
    }
}

/// What is divided by infinity is nothing, or no number.
proof fn lemma_over_infinity(a: Double, b: Double)
    requires
        b.infinite(),
        !b.negative(),
        !a.nan(),
        0 <= a.key(),
    ensures
        a.finite() ==> quotient(a, b).key() == 0 && !quotient(a, b).nan(),
        a.infinite() ==> quotient(a, b).nan(),
{
}

/// Where no price with weight left after trimming is above one, the trimmed mean is not, and
/// where none is below one, it is not; so one bad price that is trimmed cannot move it.
pub proof fn law_trimmed_mean_is_among_what_is_left(s: Seq<Point>, trim: Double)
    requires
        !trim.nan(),
        ordinary(s),
        aggregate(s, Some(MedianStrategy::TrimmedMean { trim_pct: trim })) is Some,
        !aggregate(s, Some(MedianStrategy::TrimmedMean { trim_pct: trim }))->0.nan(),
        !aggregate(s, Some(MedianStrategy::TrimmedMean { trim_pct: trim }))->0.same(double(0)),
    ensures
        ({
            let x = arranged(s);
            let one = double(ONE_BITS);
            let m = aggregate(s, Some(MedianStrategy::TrimmedMean { trim_pct: trim }))->0;
            &&& (forall|i: int|
                0 <= i < x.len() ==> (#[trigger] x[i]).price.at_most(one) || trimmed_away(
                    x,
                    trim,
                    i,
                )) ==> m.at_most(one)
            &&& (forall|i: int|
                0 <= i < x.len() ==> one.at_most((#[trigger] x[i]).price) || trimmed_away(
                    x,
                    trim,
                    i,
                )) ==> one.at_most(m)
        }),
{
    let x = arranged(s);
    let one = double(ONE_BITS);
    lemma_half();
    lemma_arranged_ordinary(s);
    let total = weights(x);
    let low = lower_end(total, trim);
    let high = upper_end(total, trim);
    lemma_ends(total, trim);
    let n = x.len();
    lemma_trimmed_weight_is_finite(x, low, high, n);
    let left = trimmed_weight(x, low, high, n);
    let prices = trimmed_prices(x, low, high, n);
    lemma_trimmed_prices_are_numbers(x, low, high, n);
    if left.infinite() {
        lemma_over_infinity(prices, left);
        assert(false);
    }
    lemma_over_itself(left, left);
    if forall|i: int|
        0 <= i < x.len() ==> (#[trigger] x[i]).price.at_most(one) || trimmed_away(x, trim, i) {
        lemma_left_at_most(x, trim, n);
        crate::double::law_quotient_grows(prices, left, left);
    }
    if forall|i: int|
        0 <= i < x.len() ==> one.at_most((#[trigger] x[i]).price) || trimmed_away(x, trim, i) {
        lemma_left_at_least(x, trim, n);
        crate::double::law_quotient_grows(left, prices, left);
    }
}

proof fn lemma_trimmed_prices_are_numbers(x: Seq<Point>, low: Double, high: Double, n: nat)
    requires
        n <= x.len(),
        ordinary(x),
        weights(x).positive(),
        !low.nan(),
        !high.nan(),
        0 <= low.key(),
    ensures
        !trimmed_prices(x, low, high, n).nan(),
        0 <= trimmed_prices(x, low, high, n).key(),
{
    assert forall|i: int| 0 <= i < x.len() implies (#[trigger] x[i]).weight == x[i].weight
        && x[i].price.at_most(x[i].price) by {}
    lemma_trimmed_sums(x, x, low, high, n);
}

proof fn lemma_left_at_most(x: Seq<Point>, trim: Double, n: nat)
    requires
        n <= x.len(),
        ordinary(x),
        weights(x).positive(),
        !trim.nan(),
        forall|i: int|
            0 <= i < x.len() ==> (#[trigger] x[i]).price.at_most(double(ONE_BITS))
                || trimmed_away(x, trim, i),
    ensures
        trimmed_prices(x, lower_end(weights(x), trim), upper_end(weights(x), trim), n).at_most(
            trimmed_weight(x, lower_end(weights(x), trim), upper_end(weights(x), trim), n),
        ),
    decreases n,
{
    let low = lower_end(weights(x), trim);
    let high = upper_end(weights(x), trim);
    lemma_ends(weights(x), trim);
    lemma_half();
    if n > 0 {
        let i = n - 1;
        let m = (n - 1) as nat;
        lemma_left_at_most(x, trim, m);
        lemma_kept_weight(x, i, low, high);
        lemma_partial_weights(x, i);
        lemma_partial_weights(x, i + 1);
        lemma_trimmed_prices_are_numbers(x, low, high, m);
        if trimmed_away(x, trim, i) {
            lemma_nothing_left(x, i, low, high);
        }
        match weight_within(x, i, low, high) {
            Some(w) => {
                assert(x[i].price.at_most(double(ONE_BITS)) && x[i].price.finite());
                lemma_term_grows(x[i].price, double(ONE_BITS), w);
                lemma_one_times(w);
                crate::double::lemma_sum_grows_up(
                    trimmed_prices(x, low, high, m),
                    trimmed_weight(x, low, high, m),
                    product(x[i].price, w),
                    w,
                );
            },
            None => {},
        }
    }
}

proof fn lemma_left_at_least(x: Seq<Point>, trim: Double, n: nat)
    requires
        n <= x.len(),
        ordinary(x),
        weights(x).positive(),
        !trim.nan(),
        forall|i: int|
            0 <= i < x.len() ==> double(ONE_BITS).at_most((#[trigger] x[i]).price)
                || trimmed_away(x, trim, i),
    ensures
        trimmed_weight(x, lower_end(weights(x), trim), upper_end(weights(x), trim), n).at_most(
            trimmed_prices(x, lower_end(weights(x), trim), upper_end(weights(x), trim), n),
        ),
    decreases n,
{
    let low = lower_end(weights(x), trim);
    let high = upper_end(weights(x), trim);
    lemma_ends(weights(x), trim);
    lemma_half();
    if n > 0 {
        let i = n - 1;
        let m = (n - 1) as nat;
        lemma_left_at_least(x, trim, m);
        lemma_kept_weight(x, i, low, high);
        lemma_partial_weights(x, i);
        lemma_partial_weights(x, i + 1);
        lemma_trimmed_weight_is_finite(x, low, high, m);
        if trimmed_away(x, trim, i) {
            lemma_nothing_left(x, i, low, high);
        }
        match weight_within(x, i, low, high) {
            Some(w) => {
                assert(double(ONE_BITS).at_most(x[i].price) && x[i].price.finite());
                lemma_term_grows(double(ONE_BITS), x[i].price, w);
                lemma_one_times(w);
                crate::double::lemma_sum_grows_up(
                    trimmed_weight(x, low, high, m),
                    trimmed_prices(x, low, high, m),
                    w,
                    product(x[i].price, w),
                );
            },
            None => {},
        }
    }
}

// --- Exact results ---

/// Whether an integer counts the units of a finite double.
pub open spec fn exact(v: int) -> bool {
    exists|d: Double| #[trigger] d.value() == v && d.finite()
}

/// The exact weight of the first `n` points.
pub open spec fn exact_weight(s: Seq<Point>, n: nat) -> int
    decreases n,
{
    if n == 0 {
        0
    } else {
        exact_weight(s, (n - 1) as nat) + s[n - 1].weight.value()
    }
}

/// How much of the weight of the point at place `i` lies from `low` to `high`, where the
/// points' weights are laid end to end.
pub open spec fn exact_overlap(s: Seq<Point>, i: nat, low: int, high: int) -> int {
    let a = exact_weight(s, i);
    let b = exact_weight(s, i + 1);
    let start = if a < low {
        low
    } else {
        a
    };
    let end = if b < high {
        b
    } else {
        high
    };
    if start < end {
        end - start
    } else {
        0
    }
}

/// The sum of the first `n` of some integers.
pub open spec fn total_of(v: Seq<int>, n: nat) -> int
    decreases n,
{
    if n == 0 {
        0
    } else {
        total_of(v, (n - 1) as nat) + v[n - 1]
    }
}

pub proof fn lemma_same_value(a: Double, c: Double)
    requires
        a.same(c),
        c.finite(),
    ensures
        a.finite(),
        a.value() == c.value(),
        0 <= c.key() ==> 0 <= a.key(),
{
    crate::double::law_order_is_by_value(a, c);
}

proof fn lemma_exact_sum(a: Double, b: Double)
    requires
        a.finite(),
        b.finite(),
        exact(a.value() + b.value()),
    ensures
        sum(a, b).finite(),
        sum(a, b).value() == a.value() + b.value(),
{
    let c = choose|d: Double| #[trigger] d.value() == a.value() + b.value() && d.finite();
    crate::double::law_sums_are_exact_where_they_can_be(a, b, c);
    lemma_same_value(sum(a, b), c);
}

proof fn lemma_exact_weights(s: Seq<Point>, n: nat)
    requires
        n <= s.len(),
        ordinary(s),
        forall|i: nat| i <= s.len() ==> exact(#[trigger] exact_weight(s, i)),
    ensures
        weights(s.take(n as int)).finite(),
        weights(s.take(n as int)).value() == exact_weight(s, n),
    decreases n,
{
    lemma_zero_value();
    if n > 0 {
        lemma_exact_weights(s, (n - 1) as nat);
        assert(s.take(n as int).drop_last() =~= s.take(n - 1));
        assert(s[n - 1].weight.finite());
        assert(exact(exact_weight(s, n)));
        lemma_exact_sum(weights(s.take(n - 1)), s[n - 1].weight);
    }
}

/// Where every step is exact, the weighted mean is the exact one: the sum of the prices times
/// their weights over the sum of the weights. `terms` are the weighted prices, and `m` is the
/// mean.
pub proof fn law_mean_is_exact_where_it_can_be(s: Seq<Point>, terms: Seq<int>, m: Double)
    requires
        ordinary(s),
        terms.len() == s.len(),
        forall|i: nat| i <= s.len() ==> exact(#[trigger] exact_weight(s, i)),
        forall|i: nat| i <= s.len() ==> exact(#[trigger] total_of(terms, i)),
        forall|i: int|
            0 <= i < s.len() ==> exact(#[trigger] terms[i]) && terms[i] * pow2(1074)
                == s[i].price.value() * s[i].weight.value(),
        exact_weight(s, s.len()) > 0,
        m.finite(),
        0 <= m.key(),
        m.value() * exact_weight(s, s.len()) == total_of(terms, s.len()) * pow2(1074),
    ensures
        aggregate(s, Some(MedianStrategy::WeightedMean)) matches Some(r) && r.same(m),
{
    let n = s.len();
    assert(s.take(n as int) =~= s);
    lemma_exact_weights(s, n);
    lemma_exact_prices(s, terms, n);
    lemma_zero_value();
    crate::double::law_order_is_by_value(double(0), weights(s));
    lemma_weights_are_numbers(s);
    assert forall|i: int| 0 <= i < s.len() implies (#[trigger] s[i]).weight == s[i].weight
        && s[i].price.at_most(s[i].price) by {}
    lemma_weighted_prices_grow(s, s);
    crate::double::law_quotients_are_exact_where_they_can_be(weighted_prices(s), weights(s), m);
}

proof fn lemma_exact_term(p: Double, w: Double, v: int)
    requires
        p.finite(),
        w.finite(),
        exact(v),
        v * pow2(1074) == p.value() * w.value(),
    ensures
        product(p, w).finite(),
        product(p, w).value() == v,
{
    let c = choose|d: Double| #[trigger] d.value() == v && d.finite();
    crate::double::law_products_are_exact_where_they_can_be(p, w, c);
    lemma_same_value(product(p, w), c);
}

proof fn lemma_exact_prices(s: Seq<Point>, terms: Seq<int>, n: nat)
    requires
        n <= s.len(),
        ordinary(s),
        terms.len() == s.len(),
        forall|i: nat| i <= s.len() ==> exact(#[trigger] total_of(terms, i)),
        forall|i: int|
            0 <= i < s.len() ==> exact(#[trigger] terms[i]) && terms[i] * pow2(1074)
                == s[i].price.value() * s[i].weight.value(),
    ensures
        weighted_prices(s.take(n as int)).finite(),
        weighted_prices(s.take(n as int)).value() == total_of(terms, n),
    decreases n,
{
    lemma_zero_value();
    if n > 0 {
        let i = n - 1;
        lemma_exact_prices(s, terms, (n - 1) as nat);
        assert(s.take(n as int).drop_last() =~= s.take(i));
        assert(s[i].weight.finite() && exact(terms[i]));
        lemma_exact_term(s[i].price, s[i].weight, terms[i]);
        assert(exact(total_of(terms, n)));
        lemma_exact_sum(weighted_prices(s.take(i)), product(s[i].price, s[i].weight));
    }
}

/// Where every step is exact, the trimmed mean is the exact mean of what is left when the
/// lowest and the highest share of the weight are cut off: each price counts with that part of
/// its weight that lies between the two ends. `low` and `high` are the ends, `terms` the
/// prices times the weights that are left of them, and `m` is the mean.
pub proof fn law_trimmed_mean_is_exact_where_it_can_be(
    s: Seq<Point>,
    trim: Double,
    low: int,
    high: int,
    left: Seq<int>,
    terms: Seq<int>,
    m: Double,
)
    requires
        ordinary(s),
        double(0).at_most(trim),
        trim.at_most(double(TRIM_LIMIT_BITS)),
        left.len() == s.len(),
        terms.len() == s.len(),
        exact(pow2(1074) - trim.value()),
        exact(low),
        exact(high),
        low * pow2(1074) == exact_weight(arranged(s), s.len()) * trim.value(),
        high * pow2(1074) == exact_weight(arranged(s), s.len()) * (pow2(1074) - trim.value()),
        forall|i: nat| i <= s.len() ==> exact(#[trigger] exact_weight(arranged(s), i)),
        forall|i: nat|
            i < s.len() ==> #[trigger] left[i as int] == exact_overlap(arranged(s), i, low, high)
                && exact(left[i as int]),
        forall|i: nat| i <= s.len() ==> exact(#[trigger] total_of(left, i)),
        forall|i: nat| i <= s.len() ==> exact(#[trigger] total_of(terms, i)),
        forall|i: int|
            0 <= i < s.len() ==> exact(#[trigger] terms[i]) && terms[i] * pow2(1074) == arranged(
                s,
            )[i].price.value() * left[i],
        exact_weight(arranged(s), s.len()) > 0,
        total_of(left, s.len()) > 0,
        m.finite(),
        0 <= m.key(),
        m.value() * total_of(left, s.len()) == total_of(terms, s.len()) * pow2(1074),
    ensures
        aggregate(s, Some(MedianStrategy::TrimmedMean { trim_pct: trim })) matches Some(r)
            && r.same(m),
{
    let x = arranged(s);
    let n = s.len();
    lemma_arranged_ordinary(s);
    assert(x.take(n as int) =~= x);
    lemma_exact_weights(x, n);
    let total = weights(x);
    lemma_zero_value();
    lemma_half();
    crate::double::law_order_is_by_value(double(0), total);
    let share = clamped(trim, double(0), double(TRIM_LIMIT_BITS));
    assert(share == trim);
    lemma_share(trim);
    lemma_exact_term(total, share, low);
    let rest = difference(double(ONE_BITS), share);
    crate::double::lemma_negated(share);
    lemma_exact_sum(double(ONE_BITS), share.negated());
    lemma_exact_term(total, rest, high);
    let lo = lower_end(total, trim);
    let hi = upper_end(total, trim);
    lemma_ends(total, trim);
    lemma_exact_trimming(x, lo, hi, left, terms, n);
    let w = trimmed_weight(x, lo, hi, n);
    let p = trimmed_prices(x, lo, hi, n);
    lemma_trimmed_weight_is_finite(x, lo, hi, n);
    lemma_trimmed_prices_are_numbers(x, lo, hi, n);
    crate::double::law_order_is_by_value(double(0), w);
    crate::double::law_quotients_are_exact_where_they_can_be(p, w, m);
}

proof fn lemma_exact_trimming(
    x: Seq<Point>,
    lo: Double,
    hi: Double,
    left: Seq<int>,
    terms: Seq<int>,
    n: nat,
)
    requires
        n <= x.len(),
        ordinary(x),
        lo.finite(),
        hi.finite(),
        left.len() == x.len(),
        terms.len() == x.len(),
        forall|i: nat| i <= x.len() ==> exact(#[trigger] exact_weight(x, i)),
        forall|i: nat|
            i < x.len() ==> #[trigger] left[i as int] == exact_overlap(
                x,
                i,
                lo.value(),
                hi.value(),
            ) && exact(left[i as int]),
        forall|i: nat| i <= x.len() ==> exact(#[trigger] total_of(left, i)),
        forall|i: nat| i <= x.len() ==> exact(#[trigger] total_of(terms, i)),
        forall|i: int|
            0 <= i < x.len() ==> exact(#[trigger] terms[i]) && terms[i] * pow2(1074)
                == x[i].price.value() * left[i],
    ensures
        trimmed_weight(x, lo, hi, n).finite(),
        trimmed_weight(x, lo, hi, n).value() == total_of(left, n),
        trimmed_prices(x, lo, hi, n).finite(),
        trimmed_prices(x, lo, hi, n).value() == total_of(terms, n),
    decreases n,
{
    lemma_zero_value();
    if n > 0 {
        let i = (n - 1) as nat;
        lemma_exact_trimming(x, lo, hi, left, terms, i);
        lemma_exact_weights(x, i);
        lemma_exact_weights(x, n);
        let (a, b) = (weights(x.take(i as int)), weights(x.take(i as int + 1)));
        crate::double::law_order_is_by_value(lo, a);
        crate::double::law_order_is_by_value(b, hi);
        let start = larger(a, lo);
        let end = smaller(b, hi);
        crate::double::law_order_is_by_value(start, end);
        assert(left[i as int] == exact_overlap(x, i, lo.value(), hi.value()));
        assert(exact(terms[i as int]) && exact(left[i as int]));
        assert(exact(total_of(left, n)) && exact(total_of(terms, n)));
        lemma_pow2_pos(1074);
        match weight_within(x, i as int, lo, hi) {
            Some(w) => {
                crate::double::lemma_negated(start);
                lemma_exact_sum(end, start.negated());
                assert(w.value() == left[i as int]);
                assert(x[i as int].price.finite());
                lemma_exact_term(x[i as int].price, w, terms[i as int]);
                lemma_exact_sum(trimmed_weight(x, lo, hi, i), w);
                lemma_exact_sum(
                    trimmed_prices(x, lo, hi, i),
                    product(x[i as int].price, w),
                );
            },
            None => {
                assert(left[i as int] == 0);
                assert(terms[i as int] == 0) by (nonlinear_arith)
                    requires
                        terms[i as int] * pow2(1074) == x[i as int].price.value() * left[i as int],
                        left[i as int] == 0,
                        pow2(1074) > 0,
                ;
            },
        }
    }
}

// --- Percentiles ---

proof fn lemma_reached(s: Seq<Point>, target: Double, i: nat)
    requires
        i < s.len(),
        target.at_most(weights(s)),
    ensures
        price_reaching(s, target, i) is Some,
        exists|k: int|
            i <= k < s.len() && price_reaching(s, target, i) == Some((#[trigger] s[k]).price)
                && target.at_most(weights(s.take(k + 1))) && forall|j: int|
                i <= j < k ==> !target.at_most(#[trigger] weights(s.take(j + 1))),
    decreases s.len() - i,
{
    if target.at_most(weights(s.take(i as int + 1))) {
        assert(price_reaching(s, target, i) == Some(s[i as int].price));
    } else {
        if i + 1 == s.len() {
            assert(s.take(i as int + 1) =~= s);
        }
        lemma_reached(s, target, i + 1);
        let k = choose|k: int|
            i + 1 <= k < s.len() && price_reaching(s, target, i + 1) == Some(
                (#[trigger] s[k]).price,
            ) && target.at_most(weights(s.take(k + 1))) && forall|j: int|
                i + 1 <= j < k ==> !target.at_most(#[trigger] weights(s.take(j + 1)));
        assert(price_reaching(s, target, i) == Some(s[k].price));
        assert forall|j: int| i <= j < k implies !target.at_most(
            #[trigger] weights(s.take(j + 1)),
        ) by {}
    }
}

/// Whether a price is the lowest of points in the order of price at which the weight from the
/// cheapest on reaches a target.
pub open spec fn first_reaches(s: Seq<Point>, target: Double, price: Double) -> bool {
    exists|k: int|
        0 <= k < s.len() && (#[trigger] s[k]).price == price && target.at_most(
            weights(s.take(k + 1)),
        ) && forall|j: int| 0 <= j < k ==> !target.at_most(#[trigger] weights(s.take(j + 1)))
}

/// A percentile is there whenever there is weight, and it is the price at which its share of
/// the weight is first reached, from the cheapest price on; half of it for the median, which
/// is also what counts where no strategy is given.
pub proof fn law_percentiles_split_the_weight(s: Seq<Point>, share: Double)
    requires
        ordinary(s),
        weights(arranged(s)).positive(),
        double(0).at_most(share),
        share.at_most(double(ONE_BITS)),
    ensures
        aggregate(s, Some(MedianStrategy::Percentile { p: share })) matches Some(x)
            && first_reaches(arranged(s), product(weights(arranged(s)), share), x),
        aggregate(s, Some(MedianStrategy::WeightedMedian)) matches Some(x) && first_reaches(
            arranged(s),
            product(weights(arranged(s)), double(HALF_BITS)),
            x,
        ),
        aggregate(s, None) == aggregate(s, Some(MedianStrategy::WeightedMedian)),
        crate::order::in_order(arranged(s)),
{
    lemma_share_of_weight(s, share);
    lemma_share_of_weight(s, double(HALF_BITS));
    crate::order::lemma_arranged(s, |x: Point| !x.price.nan());
}

proof fn lemma_share_of_weight(s: Seq<Point>, share: Double)
    requires
        ordinary(s),
        weights(arranged(s)).positive(),
        double(0).at_most(share),
        share.at_most(double(ONE_BITS)),
    ensures
        percentile(s, share) matches Some(x) && first_reaches(
            arranged(s),
            product(weights(arranged(s)), share),
            x,
        ),
{
    let x = arranged(s);
    let total = weights(x);
    lemma_arranged_ordinary(s);
    lemma_half();
    if s.len() == 0 {
        assert(x =~= Seq::<Point>::empty());
    }
    crate::double::law_product_grows(total, share, double(ONE_BITS));
    lemma_one_times(total);
    lemma_reached(x, product(total, share), 0);
}

/// The median of prices by half of their weight is the price at which that is first reached.
pub proof fn law_half_the_weight_lies_at_the_median(s: Seq<Point>)
    requires
        ordinary(s),
        weights(arranged(s)).positive(),
    ensures
        half_weight_price(s) matches Some(x) && first_reaches(
            arranged(s),
            quotient(weights(arranged(s)), double(TWO_BITS)),
            x,
        ),
{
    let x = arranged(s);
    let total = weights(x);
    lemma_arranged_ordinary(s);
    if s.len() == 0 {
        assert(x =~= Seq::<Point>::empty());
    }
    lemma_half();
    lemma_two();
    let one = double(ONE_BITS);
    let two = double(TWO_BITS);
    crate::double::law_order_is_by_value(one, two);
    crate::double::law_quotient_falls(total, one, two);
    lemma_over_one(total);
    lemma_reached(x, quotient(total, two), 0);
}

proof fn lemma_two()
    ensures
        double(TWO_BITS).positive(),
        double(TWO_BITS).value() == 2 * double(ONE_BITS).value(),
{
    lemma2_to64();
    lemma2_to64_rest();
    lemma_half();
    let two = double(TWO_BITS);
    assert(two.scale() == 1023 && two.significand() == 0x0010_0000_0000_0000);
    lemma_pow2_adds(52, 1023);
    lemma_pow2_adds(1, 1074);
    assert(pow2(52) == 0x0010_0000_0000_0000);
}

proof fn lemma_over_one(a: Double)
    requires
        a.positive(),
    ensures
        quotient(a, double(ONE_BITS)).same(a),
{
    lemma_half();
    lemma_pow2_pos(1074);
    crate::double::law_quotients_are_exact_where_they_can_be(a, double(ONE_BITS), a);
}

/// Points are arranged by price, the lowest first.
pub proof fn law_points_are_arranged_by_price(a: Point, b: Point)
    requires
        a.price.finite(),
        b.price.finite(),
    ensures
        a.outranks(&b) <==> a.price.value() < b.price.value(),
{
    crate::double::law_order_is_by_value(a.price, b.price);
}

} // verus!
