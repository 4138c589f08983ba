//! Double-precision numbers, held as their 64 bits and computed with integers only.
//!
//! A finite number is a whole multiple of the smallest positive double, so every
//! finite value is an exact integer here: its count of `2^-1074`. The contracts of
//! the arithmetic say that the result is the exact result rounded to nearest, ties
//! to even.

use vstd::arithmetic::div_mod::*;
use vstd::arithmetic::power2::*;
use vstd::prelude::*;

verus! {

/// The sign bit.
pub const SIGN: u64 = 0x8000_0000_0000_0000;

/// The magnitude of infinity; every larger magnitude is a NaN.
pub const INFINITE: u64 = 0x7ff0_0000_0000_0000;

/// The bit that a normal number leaves implicit, `2^52`.
pub const HIDDEN: u64 = 0x0010_0000_0000_0000;

/// The magnitude of the NaN that the operations below return.
pub const QUIET: u64 = 0x7ff8_0000_0000_0000;

/// `2^53`: significands lie below it.
pub const PRECISION: u64 = 0x0020_0000_0000_0000;

/// How many times the unit `2^-1074` has to be doubled to give one.
pub const UNIT_SCALE: u64 = 1074;

/// How often a quotient may be doubled or halved before it is rounded.
pub const SCALE_LIMIT: u128 = 0x1000_0000_0000_0000_0000_0000_0000;

/// A double-precision number.
#[derive(Clone, Copy, Debug, PartialEq, Eq, Structural)]
pub struct Double {
    pub bits: u64,
}

impl Double {
    /// Whether the sign bit is set.
    pub open spec fn negative(self) -> bool {
        self.bits >= SIGN
    }

    /// The bits without the sign bit.
    pub open spec fn magnitude(self) -> nat {
        if self.bits >= SIGN {
            (self.bits - SIGN) as nat
        } else {
            self.bits as nat
        }
    }

    pub open spec fn nan(self) -> bool {
        self.magnitude() > INFINITE
    }

    pub open spec fn infinite(self) -> bool {
        self.magnitude() == INFINITE
    }

    pub open spec fn finite(self) -> bool {
        self.magnitude() < INFINITE
    }

    /// The significand of a finite number, with the implicit bit.
    pub open spec fn significand(self) -> nat {
        if self.magnitude() < HIDDEN {
            self.magnitude()
        } else {
            self.magnitude() % (HIDDEN as nat) + HIDDEN as nat
        }
    }

    /// How many times the significand is doubled.
    pub open spec fn scale(self) -> nat {
        if self.magnitude() < HIDDEN {
            0
        } else {
            (self.magnitude() / (HIDDEN as nat) - 1) as nat
        }
    }

    /// The absolute value of a finite number, counted in units of `2^-1074`.
    pub open spec fn units(self) -> nat {
        self.significand() * pow2(self.scale())
    }

    /// The value of a finite number, counted in units of `2^-1074`.
    pub open spec fn value(self) -> int {
        if self.negative() {
            -self.units()
        } else {
            self.units() as int
        }
    }

    /// The place of a number in the order of all numbers that are not NaN.
    pub open spec fn key(self) -> int {
        if self.negative() {
            -self.magnitude()
        } else {
            self.magnitude() as int
        }
    }

    /// `self < other`; false where either is a NaN.
    pub open spec fn below(self, other: Double) -> bool {
        !self.nan() && !other.nan() && self.key() < other.key()
    }

    /// `self <= other`; false where either is a NaN.
    pub open spec fn at_most(self, other: Double) -> bool {
        !self.nan() && !other.nan() && self.key() <= other.key()
    }

    /// `self == other` as numbers; false where either is a NaN.
    pub open spec fn same(self, other: Double) -> bool {
        !self.nan() && !other.nan() && self.key() == other.key()
    }

    /// A finite number above zero.
    pub open spec fn positive(self) -> bool {
        self.finite() && self.key() > 0
    }

    pub open spec fn absolute(self) -> Double {
        signed(false, self.magnitude())
    }

    pub open spec fn negated(self) -> Double {
        signed(!self.negative(), self.magnitude())
    }
}

/// The number of a sign and a magnitude.
pub open spec fn signed(negative: bool, magnitude: nat) -> Double {
    Double {
        bits: if negative {
            (magnitude + SIGN) as u64
        } else {
            magnitude as u64
        },
    }
}

/// The integer nearest to `n / d`, the even one of two equally near.
pub open spec fn nearest_even(n: nat, d: nat) -> nat {
    let q = n / d;
    let r = n % d;
    if 2 * r < d || (2 * r == d && q % 2 == 0) {
        q
    } else {
        q + 1
    }
}

/// The least number of doublings of `d` that brings `n / d` below `2^53`.
pub open spec fn scale_of(n: nat, d: nat) -> nat
    decreases n - d,
{
    if d == 0 || n < d * PRECISION {
        0
    } else {
        1 + scale_of(n, 2 * d)
    }
}

/// The magnitude of the number nearest to `n / d` units, ties to even; infinity
/// where that is too large.
pub open spec fn rounded(n: nat, d: nat) -> nat {
    let s = scale_of(n, d);
    let m = s * HIDDEN + nearest_even(n, d * pow2(s));
    if m < INFINITE {
        m as nat
    } else {
        INFINITE as nat
    }
}

pub open spec fn not_a_number() -> Double {
    Double { bits: QUIET }
}

/// The distance of an integer from zero.
pub open spec fn size(t: int) -> nat {
    if t < 0 {
        (-t) as nat
    } else {
        t as nat
    }
}

/// `a + b`.
pub open spec fn sum(a: Double, b: Double) -> Double {
    if a.nan() || b.nan() || (a.infinite() && b.infinite() && a.negative() != b.negative()) {
        not_a_number()
    } else if a.infinite() {
        a
    } else if b.infinite() {
        b
    } else {
        let t = a.value() + b.value();
        if t == 0 {
            signed(a.negative() && b.negative(), 0)
        } else {
            signed(t < 0, rounded(size(t), 1))
        }
    }
}

/// `a - b`.
pub open spec fn difference(a: Double, b: Double) -> Double {
    sum(a, b.negated())
}

/// `a * b`.
pub open spec fn product(a: Double, b: Double) -> Double {
    let negative = a.negative() != b.negative();
    if a.nan() || b.nan() || (a.infinite() && b.magnitude() == 0) || (a.magnitude() == 0
        && b.infinite()) {
        not_a_number()
    } else if a.infinite() || b.infinite() {
        signed(negative, INFINITE as nat)
    } else {
        signed(negative, rounded(a.units() * b.units(), pow2(UNIT_SCALE as nat)))
    }
}

/// `a / b`.
pub open spec fn quotient(a: Double, b: Double) -> Double {
    let negative = a.negative() != b.negative();
    if a.nan() || b.nan() || (a.infinite() && b.infinite()) || (a.magnitude() == 0
        && b.magnitude() == 0) {
        not_a_number()
    } else if a.infinite() || b.magnitude() == 0 {
        signed(negative, INFINITE as nat)
    } else if b.infinite() {
        signed(negative, 0)
    } else {
        signed(negative, rounded(a.units() * pow2(UNIT_SCALE as nat), b.units()))
    }
}

/// The number nearest to an integer.
pub open spec fn of_int(n: int) -> Double {
    signed(n < 0, rounded(size(n) * pow2(UNIT_SCALE as nat), 1))
}

/// The integer nearest to a finite number's absolute value, the larger of two
/// equally near.
pub open spec fn whole(x: Double) -> nat {
    let one = pow2(UNIT_SCALE as nat);
    (2 * x.units() + one) / (2 * one)
}

/// `x` rounded to an integer, halves away from zero.
pub open spec fn nearest_whole(x: Double) -> Double {
    if !x.finite() {
        x
    } else {
        signed(x.negative(), rounded(whole(x) * pow2(UNIT_SCALE as nat), 1))
    }
}

/// The larger of two numbers; where one is a NaN, the other.
pub open spec fn larger(a: Double, b: Double) -> Double {
    if a.nan() {
        b
    } else if b.nan() || b.at_most(a) {
        a
    } else {
        b
    }
}

/// The smaller of two numbers; where one is a NaN, the other.
pub open spec fn smaller(a: Double, b: Double) -> Double {
    if a.nan() {
        b
    } else if b.nan() || a.at_most(b) {
        a
    } else {
        b
    }
}

/// `x` brought into the range from `low` to `high`; a NaN stays as it is.
pub open spec fn clamped(x: Double, low: Double, high: Double) -> Double {
    if x.below(low) {
        low
    } else if high.below(x) {
        high
    } else {
        x
    }
}

/// One with the sign of `x`; a NaN stays a NaN.
pub open spec fn sign_of(x: Double) -> Double {
    if x.nan() {
        not_a_number()
    } else {
        signed(x.negative(), ONE as nat)
    }
}

/// The bits of one.
pub const ONE: u64 = 0x3ff0_0000_0000_0000;


// ---------------------------------------------------------------------------
// Facts about rounding
// ---------------------------------------------------------------------------

pub(crate) proof fn lemma_powers()
    ensures
        pow2(0) == 1,
        pow2(1) == 2,
        pow2(10) == 1024,
        pow2(52) == HIDDEN,
        pow2(53) == PRECISION,
        pow2(54) == 0x40_0000_0000_0000,
        pow2(63) == SIGN,
        pow2(64) == 0x1_0000_0000_0000_0000,
        pow2(116) == 0x10_0000_0000_0000 * 0x1_0000_0000_0000_0000,
        pow2(115) == 0x8_0000_0000_0000 * 0x1_0000_0000_0000_0000,
        pow2(127) == 0x8000_0000_0000_0000 * 0x1_0000_0000_0000_0000,
{
    lemma2_to64();
    lemma2_to64_rest();
    lemma_pow2_adds(52, 64);
    lemma_pow2_adds(51, 64);
    lemma_pow2_adds(63, 64);
}

pub(crate) proof fn lemma_pow2_at_most(a: nat, b: nat)
    requires
        a <= b,
    ensures
        0 < pow2(a) <= pow2(b),
{
    lemma_pow2_pos(a);
    if a < b {
        lemma_pow2_strictly_increases(a, b);
    }
}

proof fn lemma_division(n: nat, d: nat, q: nat, r: nat)
    requires
        n == q * d + r,
        r < d,
    ensures
        n / d == q,
        n % d == r,
{
    lemma_fundamental_div_mod_converse(n as int, d as int, q as int, r as int);
}

proof fn lemma_nearest_scaled(c: nat, n: nat, d: nat)
    requires
        c > 0,
        d > 0,
    ensures
        c * d > 0,
        nearest_even(c * n, c * d) == nearest_even(n, d),
{
    let q: nat = n / d;
    let r: nat = n % d;
    lemma_fundamental_div_mod(n as int, d as int);
    assert(c * n == q * (c * d) + c * r) by (nonlinear_arith)
        requires
            n == d * q + r,
    ;
    assert(c * r < c * d) by (nonlinear_arith)
        requires
            r < d,
            c > 0,
    ;
    lemma_division(c * n, c * d, q, c * r);
    assert(2 * r < d <==> 2 * (c * r) < c * d) by (nonlinear_arith)
        requires
            c > 0,
    ;
    assert(2 * r == d <==> 2 * (c * r) == c * d) by (nonlinear_arith)
        requires
            c > 0,
    ;
}

/// Rounding `q + r / d` after dropping `t` binary places.
spec fn dropped(q: nat, exact: bool, t: nat) -> nat {
    if t == 0 {
        q
    } else {
        let hi = q / pow2(t);
        let lo = q % pow2(t);
        let half = pow2((t - 1) as nat);
        if lo < half || (lo == half && exact && hi % 2 == 0) {
            hi
        } else {
            hi + 1
        }
    }
}

proof fn lemma_dropped(n: nat, d: nat, q: nat, r: nat, t: nat)
    requires
        d > 0,
        n == q * d + r,
        r < d,
        t == 0 ==> r == 0,
    ensures
        nearest_even(n, d * pow2(t)) == dropped(q, r == 0, t),
{
    lemma_pow2_pos(t);
    let p: nat = pow2(t);
    if t == 0 {
        lemma_powers();
        assert(d * p == d) by (nonlinear_arith)
            requires
                p == 1,
        ;
        lemma_division(n, d, q, 0);
    } else {
        let half: nat = pow2((t - 1) as nat);
        lemma_pow2_unfold(t);
        lemma_pow2_pos((t - 1) as nat);
        let hi: nat = q / p;
        let lo: nat = q % p;
        lemma_fundamental_div_mod(q as int, p as int);
        let rest: nat = lo * d + r;
        assert(n == hi * (d * p) + rest) by (nonlinear_arith)
            requires
                n == q * d + r,
                q == p * hi + lo,
                rest == lo * d + r,
        ;
        assert(rest < d * p) by (nonlinear_arith)
            requires
                rest == lo * d + r,
                lo < p,
                r < d,
        ;
        lemma_division(n, d * p, hi, rest);
        assert(lo < half ==> 2 * rest < d * p) by (nonlinear_arith)
            requires
                rest == lo * d + r,
                r < d,
                p == 2 * half,
        ;
        assert(lo > half ==> 2 * rest > d * p) by (nonlinear_arith)
            requires
                rest == lo * d + r,
                d > 0,
                p == 2 * half,
        ;
        assert(lo == half ==> 2 * rest == d * p + 2 * r) by (nonlinear_arith)
            requires
                rest == lo * d + r,
                p == 2 * half,
        ;
    }
}

/// Whether `s` is the least number of doublings that brings `n / d` below `2^53`.
spec fn is_scale(n: nat, d: nat, s: nat) -> bool {
    &&& n < d * pow2(53 + s)
    &&& s > 0 ==> n >= d * pow2((52 + s) as nat)
}

proof fn lemma_scale_unique(n: nat, d: nat, s: nat)
    requires
        d > 0,
        is_scale(n, d, s),
    ensures
        scale_of(n, d) == s,
    decreases s,
{
    lemma_powers();
    if s > 0 {
        lemma_pow2_at_most(53, 52 + s);
        assert(n >= d * PRECISION) by (nonlinear_arith)
            requires
                n >= d * pow2((52 + s) as nat),
                pow2((52 + s) as nat) >= PRECISION,
        ;
        let t: nat = (s - 1) as nat;
        lemma_pow2_unfold(53 + s);
        lemma_pow2_unfold(52 + s);
        assert(pow2(53 + s) == 2 * pow2(53 + t));
        assert(pow2(52 + s) == 2 * pow2((52 + t) as nat));
        assert(d * (2 * pow2(53 + t)) == (2 * d) * pow2(53 + t)) by (nonlinear_arith);
        assert(d * (2 * pow2((52 + t) as nat)) == (2 * d) * pow2((52 + t) as nat))
            by (nonlinear_arith);
        lemma_scale_unique(n, 2 * d, t);
    }
}

/// `n / d`, scaled by `2^a / 2^b`, is `q` and, where `inexact`, a fraction below one.
pub(crate) open spec fn approximates(q: nat, inexact: bool, a: nat, b: nat, n: nat, d: nat) -> bool {
    &&& d > 0
    &&& q * (d * pow2(b)) <= n * pow2(a)
    &&& n * pow2(a) < (q + 1) * (d * pow2(b))
    &&& inexact == (n * pow2(a) != q * (d * pow2(b)))
}

proof fn lemma_scale_found(q: nat, inexact: bool, a: nat, b: nat, n: nat, d: nat, len: nat, s: nat)
    requires
        approximates(q, inexact, a, b, n, d),
        0 < len,
        pow2((len - 1) as nat) <= q < pow2(len),
        s == (if len + b > 53 + a {
            len + b - 53 - a
        } else {
            0
        }),
    ensures
        is_scale(n, d, s),
{
    let big: nat = d * pow2(b);
    lemma_pow2_pos(a);
    lemma_pow2_pos(b);
    lemma_pow2_adds(len, b);
    lemma_pow2_adds(53 + s, a);
    lemma_pow2_at_most(len + b, 53 + s + a);
    assert((q + 1) * (d * pow2(b)) <= d * pow2(53 + s + a)) by (nonlinear_arith)
        requires
            q + 1 <= pow2(len),
            pow2(len + b) == pow2(len) * pow2(b),
            pow2(len + b) <= pow2(53 + s + a),
    ;
    assert(n < d * pow2(53 + s)) by (nonlinear_arith)
        requires
            n * pow2(a) < d * pow2(53 + s + a),
            pow2(53 + s + a) == pow2(53 + s) * pow2(a),
            pow2(a) > 0,
    ;
    if s > 0 {
        let l: nat = (len - 1) as nat;
        let w: nat = (52 + s) as nat;
        lemma_pow2_adds(l, b);
        lemma_pow2_adds(w, a);
        assert(l + b == w + a);
        assert(n >= d * pow2(w)) by (nonlinear_arith)
            requires
                n * pow2(a) >= q * (d * pow2(b)),
                q >= pow2(l),
                pow2(l) * pow2(b) == pow2(w) * pow2(a),
                pow2(a) > 0,
        ;
    }
}

pub(crate) proof fn lemma_zero_rounds_to_zero(d: nat)
    requires
        d > 0,
    ensures
        rounded(0, d) == 0,
{
    lemma_powers();
    assert(d * pow2(0) == d) by (nonlinear_arith)
        requires
            pow2(0) == 1,
    ;
    lemma_division(0, d, 0, 0);
}

proof fn lemma_scale_scaled(c: nat, n: nat, d: nat)
    requires
        c > 0,
        d > 0,
    ensures
        scale_of(c * n, c * d) == scale_of(n, d),
    decreases n - d,
{
    assert(c * d > 0) by (nonlinear_arith)
        requires
            c > 0,
            d > 0,
    ;
    assert(n < d * PRECISION <==> c * n < (c * d) * PRECISION) by (nonlinear_arith)
        requires
            c > 0,
    ;
    if n >= d * PRECISION {
        lemma_scale_scaled(c, n, 2 * d);
        assert(c * (2 * d) == 2 * (c * d)) by (nonlinear_arith);
    }
}

/// A fraction rounds as it does after both its terms are multiplied by one number.
pub(crate) proof fn lemma_rounded_scaled(c: nat, n: nat, d: nat)
    requires
        c > 0,
        d > 0,
    ensures
        rounded(c * n, c * d) == rounded(n, d),
{
    lemma_scale_scaled(c, n, d);
    let p: nat = pow2(scale_of(n, d));
    lemma_pow2_pos(scale_of(n, d));
    assert(d * p > 0) by (nonlinear_arith)
        requires
            d > 0,
            p > 0,
    ;
    lemma_nearest_scaled(c, n, d * p);
    assert((c * d) * p == c * (d * p)) by (nonlinear_arith);
}

proof fn lemma_scale_at_least(n: nat, d: nat, s: nat)
    requires
        d > 0,
        s > 0 ==> n >= d * pow2((52 + s) as nat),
    ensures
        scale_of(n, d) >= s,
    decreases s,
{
    if s > 0 {
        lemma_powers();
        lemma_pow2_at_most(53, 52 + s);
        assert(n >= d * PRECISION) by (nonlinear_arith)
            requires
                n >= d * pow2((52 + s) as nat),
                pow2((52 + s) as nat) >= PRECISION,
        ;
        let t: nat = (s - 1) as nat;
        lemma_pow2_unfold(52 + s);
        assert(d * (2 * pow2((52 + t) as nat)) == (2 * d) * pow2((52 + t) as nat))
            by (nonlinear_arith);
        lemma_scale_at_least(n, 2 * d, t);
    }
}

/// A value of `2^1024` or more rounds to infinity.
pub(crate) proof fn lemma_too_large(n: nat, d: nat)
    requires
        d > 0,
        n >= d * pow2(2099),
    ensures
        rounded(n, d) == INFINITE,
{
    lemma_scale_at_least(n, d, 2047);
    let s: nat = scale_of(n, d);
    assert(s * HIDDEN >= INFINITE) by (nonlinear_arith)
        requires
            s >= 2047,
    ;
}

/// A value below half the smallest positive double rounds to zero.
pub(crate) proof fn lemma_too_small(n: nat, d: nat)
    requires
        2 * n < d,
    ensures
        rounded(n, d) == 0,
{
    lemma_powers();
    assert(d * pow2(0) == d) by (nonlinear_arith)
        requires
            pow2(0) == 1,
    ;
    lemma_division(n, d, 0, n);
}

// ---------------------------------------------------------------------------
// Integer helpers
// ---------------------------------------------------------------------------

fn two_pow(n: u64) -> (p: u128)
    requires
        n <= 127,
    ensures
        p == pow2(n as nat),
{
    let mut p: u128 = 1;
    let mut i: u64 = 0;
    proof {
        lemma_powers();
    }
    while i < n
        invariant
            i <= n <= 127,
            p == pow2(i as nat),
        decreases n - i,
    {
        proof {
            lemma_powers();
            lemma_pow2_unfold((i + 1) as nat);
            lemma_pow2_at_most((i + 1) as nat, 127);
        }
        p = p * 2;
        i = i + 1;
    }
    p
}

/// The number of binary digits of a positive integer.
fn bit_length(x: u128) -> (n: u64)
    requires
        x > 0,
    ensures
        0 < n <= 128,
        pow2((n - 1) as nat) <= x < pow2(n as nat),
{
    let mut y: u128 = x;
    let mut n: u64 = 0;
    proof {
        lemma_powers();
    }
    while y > 0
        invariant
            n <= 128,
            x > 0,
            n == 0 ==> y == x,
            y * pow2(n as nat) <= x < (y + 1) * pow2(n as nat),
            n > 0 ==> pow2((n - 1) as nat) <= x,
        decreases y,
    {
        proof {
            lemma_pow2_pos(n as nat);
            lemma_pow2_unfold((n + 1) as nat);
            let p: nat = pow2(n as nat);
            assert(p <= x) by (nonlinear_arith)
                requires
                    y * p <= x,
                    y > 0,
            ;
            if n == 128 {
                lemma_pow2_adds(64, 64);
                lemma_powers();
                assert(pow2(128) == 0x1_0000_0000_0000_0000 * 0x1_0000_0000_0000_0000);
            }
            assert((y / 2) * (2 * p) <= x) by (nonlinear_arith)
                requires
                    y * p <= x,
            ;
            assert(x < (y / 2 + 1) * (2 * p)) by (nonlinear_arith)
                requires
                    x < (y + 1) * p,
            ;
        }
        y = y / 2;
        n = n + 1;
    }
    assert((y + 1) * pow2(n as nat) == pow2(n as nat)) by (nonlinear_arith)
        requires
            y == 0,
    ;
    n
}

/// `q`, or `q` and a fraction where `inexact`, after dropping `t` binary places.
fn drop_places(q: u128, inexact: bool, t: u128) -> (r: u128)
    requires
        q < pow2(127),
    ensures
        r == dropped(q as nat, !inexact, t as nat),
{
    if t == 0 {
        return q;
    }
    proof {
        lemma_pow2_pos(t as nat);
    }
    if t >= 128 {
        proof {
            lemma_pow2_at_most(127, (t - 1) as nat);
            lemma_pow2_unfold(t as nat);
            lemma_division(q as nat, pow2(t as nat), 0, q as nat);
        }
        return 0;
    }
    let p: u128 = two_pow(t as u64);
    let half: u128 = two_pow(t as u64 - 1);
    let hi: u128 = q / p;
    let lo: u128 = q % p;
    proof {
        lemma_powers();
        assert(hi <= q) by (nonlinear_arith)
            requires
                hi == q / p,
                p > 0,
        ;
    }
    if lo < half || (lo == half && !inexact && hi % 2 == 0) {
        hi
    } else {
        hi + 1
    }
}

/// The magnitude of the number nearest to `n / d` units.
pub(crate) fn pack(
    q: u128,
    inexact: bool,
    a: u128,
    b: u128,
    Ghost(n): Ghost<nat>,
    Ghost(d): Ghost<nat>,
) -> (m: u64)
    requires
        0 < q < pow2(127),
        inexact ==> q >= pow2(54),
        a <= SCALE_LIMIT,
        b <= SCALE_LIMIT,
        approximates(q as nat, inexact, a as nat, b as nat, n, d),
    ensures
        m == rounded(n, d),
        m <= INFINITE,
{
    let len: u128 = bit_length(q) as u128;
    let s: u128 = if len + b > 53 + a {
        len + b - 53 - a
    } else {
        0
    };
    proof {
        lemma_powers();
        if len < 55 && inexact {
            lemma_pow2_at_most(len as nat, 54);
        }
        lemma_scale_found(q as nat, inexact, a as nat, b as nat, n, d, len as nat, s as nat);
        lemma_scale_unique(n, d, s as nat);
        lemma_pow2_pos(a as nat);
        lemma_pow2_pos(b as nat);
        lemma_pow2_pos(s as nat);
    }
    let ghost at: nat = d * pow2(s as nat);
    let ghost wide: nat = n * pow2(a as nat);
    let ghost unit: nat = d * pow2(b as nat);
    proof {
        assert(at > 0) by (nonlinear_arith)
            requires
                at == d * pow2(s as nat),
                d > 0,
                pow2(s as nat) > 0,
        ;
        assert(unit > 0) by (nonlinear_arith)
            requires
                unit == d * pow2(b as nat),
                d > 0,
                pow2(b as nat) > 0,
        ;
        lemma_nearest_scaled(pow2(a as nat), n, at);
        assert(pow2(a as nat) * n == wide) by (nonlinear_arith)
            requires
                wide == n * pow2(a as nat),
        ;
        // the quotient lies below 2^53
        lemma_pow2_adds(53, s as nat);
        assert(n < at * PRECISION) by (nonlinear_arith)
            requires
                n < d * pow2((53 + s) as nat),
                pow2((53 + s) as nat) == PRECISION * pow2(s as nat),
                at == d * pow2(s as nat),
        ;
        lemma_fundamental_div_mod(n as int, at as int);
        assert(n / at < PRECISION) by (nonlinear_arith)
            requires
                n < at * PRECISION,
                n == at * (n / at) + n % at,
                n % at >= 0,
                at > 0,
        ;
    }
    let r: u128 = if s + a < b {
        let up: u128 = b - s - a;
        proof {
            let p: nat = pow2(up as nat);
            lemma_pow2_pos(up as nat);
            lemma_pow2_adds(up as nat, (s + a) as nat);
            lemma_pow2_adds(s as nat, a as nat);
            assert(!inexact);
            assert(wide == (q * p) * (pow2(a as nat) * at)) by (nonlinear_arith)
                requires
                    wide == q * (d * pow2(b as nat)),
                    pow2(b as nat) == p * pow2((s + a) as nat),
                    pow2((s + a) as nat) == pow2(s as nat) * pow2(a as nat),
                    at == d * pow2(s as nat),
            ;
            lemma_division(wide, pow2(a as nat) * at, (q * p) as nat, 0);
            assert(nearest_even(n, at) == q * p);
        }
        let p: u128 = two_pow(up as u64);
        assert(q * p <= PRECISION);
        q * p
    } else {
        let t: u128 = s + a - b;
        proof {
            let rest: nat = (wide - q * unit) as nat;
            assert(rest < unit) by (nonlinear_arith)
                requires
                    wide < (q + 1) * unit,
                    rest == wide - q * unit,
            ;
            lemma_dropped(wide, unit, q as nat, rest, t as nat);
            lemma_pow2_adds(b as nat, t as nat);
            lemma_pow2_adds(s as nat, a as nat);
            assert(b + t == s + a);
            assert(unit * pow2(t as nat) == pow2(a as nat) * at) by (nonlinear_arith)
                requires
                    unit == d * pow2(b as nat),
                    at == d * pow2(s as nat),
                    pow2(b as nat) * pow2(t as nat) == pow2(s as nat) * pow2(a as nat),
            ;
        }
        drop_places(q, inexact, t)
    };
    assert(r == nearest_even(n, at));
    assert(r <= PRECISION);
    if s >= 2047 {
        assert(s * HIDDEN >= INFINITE) by (nonlinear_arith)
            requires
                s >= 2047,
        ;
        INFINITE
    } else {
        assert(s * HIDDEN + r <= u64::MAX);
        let m: u64 = s as u64 * HIDDEN + r as u64;
        if m < INFINITE {
            m
        } else {
            INFINITE
        }
    }
}


proof fn lemma_parts(x: Double)
    requires
        x.finite(),
    ensures
        x.significand() < PRECISION,
        x.scale() <= 2045,
        x.scale() > 0 ==> x.significand() >= HIDDEN,
        x.magnitude() > 0 ==> x.significand() > 0,
        x.units() == 0 <==> x.magnitude() == 0,
        x.magnitude() == x.scale() * HIDDEN + x.significand(),
{
    lemma_fundamental_div_mod(x.magnitude() as int, HIDDEN as int);
    lemma_pow2_pos(x.scale());
    let s: nat = x.significand();
    let p: nat = pow2(x.scale());
    assert(s * p == 0 <==> s == 0) by (nonlinear_arith)
        requires
            p > 0,
    ;
}

/// A number whose value is already a double is left as it is by rounding.
pub proof fn lemma_rounding_keeps_doubles(x: Double)
    requires
        x.finite(),
    ensures
        rounded(x.units(), 1) == x.magnitude(),
{
    lemma_parts(x);
    lemma_powers();
    let s: nat = x.scale();
    let g: nat = x.significand();
    lemma_pow2_pos(s);
    lemma_pow2_adds(53, s);
    assert(g * pow2(s) < 1 * pow2(53 + s)) by (nonlinear_arith)
        requires
            g < PRECISION,
            pow2(53 + s) == PRECISION * pow2(s),
            pow2(s) > 0,
    ;
    if s > 0 {
        lemma_pow2_adds(52, s);
        assert(g * pow2(s) >= 1 * pow2((52 + s) as nat)) by (nonlinear_arith)
            requires
                g >= HIDDEN,
                pow2((52 + s) as nat) == HIDDEN * pow2(s),
        ;
    }
    lemma_scale_unique(x.units(), 1, s);
    assert(1 * pow2(s) == pow2(s));
    lemma_division(x.units(), pow2(s), g, 0);
}

/// The order of the keys is the order of the values.
pub proof fn law_order_is_by_value(a: Double, b: Double)
    requires
        a.finite(),
        b.finite(),
    ensures
        a.below(b) <==> a.value() < b.value(),
        a.at_most(b) <==> a.value() <= b.value(),
        a.same(b) <==> a.value() == b.value(),
{
    lemma_units_follow_magnitude(a, b);
    lemma_units_follow_magnitude(b, a);
    lemma_parts(a);
    lemma_parts(b);
}

proof fn lemma_units_follow_magnitude(a: Double, b: Double)
    requires
        a.finite(),
        b.finite(),
    ensures
        a.magnitude() < b.magnitude() ==> a.units() < b.units(),
        a.magnitude() == b.magnitude() ==> a.units() == b.units(),
{
    if a.magnitude() < b.magnitude() {
        lemma_parts(a);
        lemma_parts(b);
        lemma_pow2_pos(a.scale());
        let (g, h): (nat, nat) = (a.significand(), b.significand());
        let (p, q): (nat, nat) = (pow2(a.scale()), pow2(b.scale()));
        if a.scale() == b.scale() {
            assert(g * p < h * p) by (nonlinear_arith)
                requires
                    g < h,
                    p > 0,
            ;
        } else {
            assert(a.scale() < b.scale()) by (nonlinear_arith)
                requires
                    a.scale() != b.scale(),
                    a.scale() * HIDDEN + g < b.scale() * HIDDEN + h,
                    h < PRECISION,
                    a.scale() > 0 ==> g >= HIDDEN,
            ;
            lemma_pow2_at_most(a.scale() + 1, b.scale());
            lemma_pow2_unfold(a.scale() + 1);
            assert(g * p < h * q) by (nonlinear_arith)
                requires
                    g < PRECISION,
                    h >= HIDDEN,
                    PRECISION == 2 * HIDDEN,
                    q >= 2 * p,
                    p > 0,
            ;
        }
    }
}

proof fn lemma_nearest_monotone(n: nat, m: nat, d: nat)
    requires
        n <= m,
        d > 0,
    ensures
        nearest_even(n, d) <= nearest_even(m, d),
{
    lemma_fundamental_div_mod(n as int, d as int);
    lemma_fundamental_div_mod(m as int, d as int);
    let (q, r): (nat, nat) = (n / d, n % d);
    let (u, v): (nat, nat) = (m / d, m % d);
    assert(q <= u) by (nonlinear_arith)
        requires
            n == d * q + r,
            m == d * u + v,
            n <= m,
            v < d,
            d > 0,
    ;
    if q == u {
        assert(r <= v);
    }
}

proof fn lemma_scale_bounds(n: nat, d: nat)
    requires
        d > 0,
    ensures
        is_scale(n, d, scale_of(n, d)),
    decreases n - d,
{
    lemma_powers();
    let s: nat = scale_of(n, d);
    if n >= d * PRECISION {
        lemma_scale_bounds(n, 2 * d);
        let t: nat = scale_of(n, 2 * d);
        lemma_pow2_unfold(53 + s);
        lemma_pow2_unfold(52 + s);
        assert(pow2(53 + s) == 2 * pow2(53 + t));
        assert(pow2((52 + s) as nat) == 2 * pow2((52 + t) as nat));
        assert(d * (2 * pow2(53 + t)) == (2 * d) * pow2(53 + t)) by (nonlinear_arith);
        assert(d * (2 * pow2((52 + t) as nat)) == (2 * d) * pow2((52 + t) as nat))
            by (nonlinear_arith);
        if t == 0 {
            assert(pow2((52 + t) as nat) == HIDDEN);
            assert(d * (2 * HIDDEN) == d * PRECISION);
        }
    }
}

/// Rounding keeps the order.
pub(crate) proof fn lemma_rounded_monotone(n: nat, m: nat, d: nat)
    requires
        n <= m,
        d > 0,
    ensures
        rounded(n, d) <= rounded(m, d),
{
    lemma_powers();
    lemma_scale_bounds(n, d);
    lemma_scale_bounds(m, d);
    let (s, t): (nat, nat) = (scale_of(n, d), scale_of(m, d));
    lemma_pow2_pos(s);
    lemma_pow2_pos(t);
    let (a, b): (nat, nat) = (d * pow2(s), d * pow2(t));
    assert(a > 0 && b > 0) by (nonlinear_arith)
        requires
            a == d * pow2(s),
            b == d * pow2(t),
            d > 0,
            pow2(s) > 0,
            pow2(t) > 0,
    ;
    if s > t {
        lemma_pow2_at_most((53 + t) as nat, (52 + s) as nat);
        assert(d * pow2(53 + t) <= d * pow2((52 + s) as nat)) by (nonlinear_arith)
            requires
                pow2(53 + t) <= pow2((52 + s) as nat),
        ;
        assert(false);
    }
    if s == t {
        lemma_nearest_monotone(n, m, a);
    } else {
        lemma_pow2_adds(53, s);
        lemma_pow2_adds(52, t);
        lemma_fundamental_div_mod(n as int, a as int);
        lemma_fundamental_div_mod(m as int, b as int);
        assert(n / a < PRECISION) by (nonlinear_arith)
            requires
                n < d * pow2(53 + s),
                pow2(53 + s) == PRECISION * pow2(s),
                a == d * pow2(s),
                n == a * (n / a) + n % a,
                n % a >= 0,
                a > 0,
        ;
        assert(m / b >= HIDDEN) by (nonlinear_arith)
            requires
                m >= d * pow2((52 + t) as nat),
                pow2((52 + t) as nat) == HIDDEN * pow2(t),
                b == d * pow2(t),
                m == b * (m / b) + m % b,
                m % b < b,
                b > 0,
        ;
        assert(s * HIDDEN + PRECISION <= t * HIDDEN + HIDDEN) by (nonlinear_arith)
            requires
                s + 1 <= t,
                PRECISION == 2 * HIDDEN,
        ;
    }
}

/// Multiplying by one number that is not negative keeps the order of two others that are
/// not.
pub proof fn law_product_grows(a: Double, b: Double, c: Double)
    requires
        a.finite(),
        b.finite(),
        c.finite(),
        0 <= a.key(),
        0 <= b.key(),
        b.at_most(c),
    ensures
        product(a, b).at_most(product(a, c)),
{
    lemma_units_follow_magnitude(b, c);
    lemma_parts(b);
    lemma_parts(c);
    lemma_parts(a);
    let d: nat = pow2(UNIT_SCALE as nat);
    lemma_pow2_pos(UNIT_SCALE as nat);
    assert(a.units() * b.units() <= a.units() * c.units()) by (nonlinear_arith)
        requires
            b.units() <= c.units(),
    ;
    lemma_rounded_monotone(a.units() * b.units(), a.units() * c.units(), d);
    if a.magnitude() == 0 || b.magnitude() == 0 {
        assert(a.units() * b.units() == 0) by (nonlinear_arith)
            requires
                a.units() == 0 || b.units() == 0,
        ;
        lemma_zero_rounds_to_zero(d);
    }
    if a.magnitude() == 0 || c.magnitude() == 0 {
        assert(a.units() * c.units() == 0) by (nonlinear_arith)
            requires
                a.units() == 0 || c.units() == 0,
        ;
    }
}

impl Double {
    /// The sign bit.
    pub fn is_negative(self) -> (r: bool)
        ensures
            r == self.negative(),
    {
        self.bits >= SIGN
    }

    fn magnitude_bits(self) -> (m: u64)
        ensures
            m == self.magnitude(),
            m < SIGN,
    {
        if self.bits >= SIGN {
            self.bits - SIGN
        } else {
            self.bits
        }
    }

    pub(crate) fn of_parts(negative: bool, magnitude: u64) -> (r: Double)
        requires
            magnitude < SIGN,
        ensures
            r == signed(negative, magnitude as nat),
    {
        Double {
            bits: if negative {
                magnitude + SIGN
            } else {
                magnitude
            },
        }
    }

    /// The significand and the number of its doublings.
    fn parts(self) -> (r: (u64, u64))
        requires
            self.finite(),
        ensures
            r.0 == self.significand(),
            r.1 == self.scale(),
            r.0 < PRECISION,
            r.1 <= 2045,
            r.1 > 0 ==> r.0 >= HIDDEN,
            self.magnitude() > 0 ==> r.0 > 0,
    {
        proof {
            lemma_parts(self);
        }
        let m: u64 = self.magnitude_bits();
        if m < HIDDEN {
            (m, 0)
        } else {
            (m % HIDDEN + HIDDEN, m / HIDDEN - 1)
        }
    }

    pub fn is_nan(self) -> (r: bool)
        ensures
            r == self.nan(),
    {
        self.magnitude_bits() > INFINITE
    }

    pub fn is_finite(self) -> (r: bool)
        ensures
            r == self.finite(),
    {
        self.magnitude_bits() < INFINITE
    }

    /// `self < other`.
    pub fn lt(self, other: Double) -> (r: bool)
        ensures
            r == self.below(other),
    {
        if self.is_nan() || other.is_nan() {
            false
        } else if self.is_negative() {
            if other.is_negative() {
                self.magnitude_bits() > other.magnitude_bits()
            } else {
                self.magnitude_bits() > 0 || other.magnitude_bits() > 0
            }
        } else {
            !other.is_negative() && self.magnitude_bits() < other.magnitude_bits()
        }
    }

    /// `self <= other`.
    pub fn le(self, other: Double) -> (r: bool)
        ensures
            r == self.at_most(other),
    {
        !self.is_nan() && !other.is_nan() && !other.lt(self)
    }

    /// `self == other` as numbers.
    pub fn equals(self, other: Double) -> (r: bool)
        ensures
            r == self.same(other),
    {
        self.le(other) && other.le(self)
    }

    /// Whether this is a finite number above zero.
    pub fn is_positive(self) -> (r: bool)
        ensures
            r == self.positive(),
    {
        self.is_finite() && !self.is_negative() && self.magnitude_bits() > 0
    }

    pub fn abs(self) -> (r: Double)
        ensures
            r == self.absolute(),
    {
        Double::of_parts(false, self.magnitude_bits())
    }

    pub fn neg(self) -> (r: Double)
        ensures
            r == self.negated(),
    {
        Double::of_parts(!self.is_negative(), self.magnitude_bits())
    }

    pub fn max(self, other: Double) -> (r: Double)
        ensures
            r == larger(self, other),
    {
        if self.is_nan() {
            other
        } else if other.is_nan() || other.le(self) {
            self
        } else {
            other
        }
    }

    pub fn min(self, other: Double) -> (r: Double)
        ensures
            r == smaller(self, other),
    {
        if self.is_nan() {
            other
        } else if other.is_nan() || self.le(other) {
            self
        } else {
            other
        }
    }

    pub fn clamp(self, low: Double, high: Double) -> (r: Double)
        requires
            low.at_most(high),
        ensures
            r == clamped(self, low, high),
    {
        if self.lt(low) {
            low
        } else if high.lt(self) {
            high
        } else {
            self
        }
    }

    pub fn signum(self) -> (r: Double)
        ensures
            r == sign_of(self),
    {
        if self.is_nan() {
            Double { bits: QUIET }
        } else {
            Double::of_parts(self.is_negative(), ONE)
        }
    }

    /// `self + other`.
    pub fn plus(self, other: Double) -> (r: Double)
        ensures
            r == sum(self, other),
    {
        if self.is_nan() || other.is_nan() {
            return Double { bits: QUIET };
        }
        if !self.is_finite() {
            if !other.is_finite() && self.is_negative() != other.is_negative() {
                return Double { bits: QUIET };
            }
            return self;
        }
        if !other.is_finite() {
            return other;
        }
        if self.magnitude_bits() < other.magnitude_bits() {
            other.plus_smaller(self)
        } else {
            self.plus_smaller(other)
        }
    }

    /// `self + other`, where `other` has no larger magnitude.
    #[verifier::spinoff_prover]
    fn plus_smaller(self, other: Double) -> (r: Double)
        requires
            self.finite(),
            other.finite(),
            self.magnitude() >= other.magnitude(),
        ensures
            r == sum(self, other),
    {
        proof {
            lemma_parts(self);
            lemma_parts(other);
            lemma_units_follow_magnitude(other, self);
            lemma_powers();
        }
        let negative: bool = self.is_negative();
        let together: bool = negative == other.is_negative();
        if self.magnitude_bits() == 0 {
            return Double::of_parts(negative && other.is_negative(), 0);
        }
        if other.magnitude_bits() == 0 {
            proof {
                lemma_rounding_keeps_doubles(self);
            }
            return self;
        }
        if !together && self.magnitude_bits() == other.magnitude_bits() {
            return Double::of_parts(false, 0);
        }
        let (g, s): (u64, u64) = self.parts();
        let (h, t): (u64, u64) = other.parts();
        let ghost n: nat = size(self.value() + other.value());
        let ghost (p, q): (nat, nat) = (pow2(s as nat), pow2(t as nat));
        proof {
            assert(s >= t) by (nonlinear_arith)
                requires
                    s * HIDDEN + g >= t * HIDDEN + h,
                    g < PRECISION,
                    t > 0 ==> h >= HIDDEN,
                    PRECISION == 2 * HIDDEN,
            ;
            lemma_pow2_pos(s as nat);
            lemma_pow2_pos(t as nat);
            assert(n > 0);
            assert(n == if together {
                g * p + h * q
            } else {
                g * p - h * q
            });
        }
        let m: u64 = if s - t <= 70 {
            let up: u128 = two_pow(s - t);
            proof {
                lemma_pow2_adds((s - t) as nat, t as nat);
                lemma_pow2_at_most((s - t) as nat, 70);
                lemma_pow2_adds(53, 70);
                lemma_pow2_at_most(123, 126);
                lemma_pow2_unfold(127);
                assert(p == up * q);
                assert((g as u128) * up < pow2(123)) by (nonlinear_arith)
                    requires
                        g < PRECISION,
                        up <= pow2(70),
                        pow2(123) == PRECISION * pow2(70),
                        up > 0,
                ;
                assert(g * p == (g * up) * q) by (nonlinear_arith)
                    requires
                        p == up * q,
                ;
            }
            let wide: u128 = (g as u128) * up;
            proof {
                if !together {
                    assert(wide > h) by (nonlinear_arith)
                        requires
                            wide * q > h * q,
                            q > 0,
                    ;
                }
            }
            let k: u128 = if together {
                wide + h as u128
            } else {
                wide - h as u128
            };
            proof {
                assert(n == k * q) by (nonlinear_arith)
                    requires
                        n == if together {
                            wide * q + h * q
                        } else {
                            wide * q - h * q
                        },
                        k == if together {
                            wide + h
                        } else {
                            wide - h
                        },
                ;
                assert(k < (k + 1) * 1);
                assert(n * 1 < (k + 1) * (1 * q)) by (nonlinear_arith)
                    requires
                        n == k * q,
                        q > 0,
                ;
            }
            pack(k, false, 0, t as u128, Ghost(n), Ghost(1))
        } else {
            let b: u64 = s - 10;
            let wide: u128 = (g as u128) * 1024;
            let k: u128 = if together {
                wide
            } else {
                wide - 1
            };
            proof {
                let unit: nat = pow2(b as nat);
                lemma_pow2_adds(10, b as nat);
                lemma_pow2_adds(53, t as nat);
                lemma_pow2_at_most((53 + t) as nat, b as nat);
                lemma_pow2_pos(b as nat);
                lemma_pow2_at_most(64, 127);
                assert(g * p == wide * unit) by (nonlinear_arith)
                    requires
                        p == 1024 * unit,
                        wide == g * 1024,
                ;
                assert(0 < h * q < unit) by (nonlinear_arith)
                    requires
                        0 < h < PRECISION,
                        PRECISION * q <= unit,
                        q > 0,
                ;
                assert((wide + 1) * unit == wide * unit + unit) by (nonlinear_arith);
                assert((wide - 1) * unit == wide * unit - unit) by (nonlinear_arith);
                assert(1 * unit == unit);
            }
            pack(k, true, 0, b as u128, Ghost(n), Ghost(1))
        };
        Double::of_parts(negative, m)
    }

    /// `self - other`.
    pub fn minus(self, other: Double) -> (r: Double)
        ensures
            r == difference(self, other),
    {
        self.plus(other.neg())
    }

    /// `self * other`.
    pub fn times(self, other: Double) -> (r: Double)
        ensures
            r == product(self, other),
    {
        let negative: bool = self.is_negative() != other.is_negative();
        if self.is_nan() || other.is_nan() {
            return Double { bits: QUIET };
        }
        if !self.is_finite() || !other.is_finite() {
            if self.magnitude_bits() == 0 || other.magnitude_bits() == 0 {
                return Double { bits: QUIET };
            }
            return Double::of_parts(negative, INFINITE);
        }
        proof {
            lemma_parts(self);
            lemma_parts(other);
            lemma_pow2_pos(UNIT_SCALE as nat);
        }
        let ghost n: nat = self.units() * other.units();
        let ghost d: nat = pow2(UNIT_SCALE as nat);
        if self.magnitude_bits() == 0 || other.magnitude_bits() == 0 {
            proof {
                assert(n == 0) by (nonlinear_arith)
                    requires
                        n == self.units() * other.units(),
                        self.units() == 0 || other.units() == 0,
                ;
                lemma_zero_rounds_to_zero(d);
            }
            return Double::of_parts(negative, 0);
        }
        let (g, s): (u64, u64) = self.parts();
        let (h, t): (u64, u64) = other.parts();
        proof {
            lemma_powers();
            assert(0 < (g as u128) * (h as u128) < 0x40_0000_0000_0000 * 0x40_0000_0000_0000)
                by (nonlinear_arith)
                requires
                    0 < g < PRECISION,
                    0 < h < PRECISION,
            ;
            lemma_pow2_adds(s as nat, t as nat);
            lemma_pow2_pos((s + t) as nat);
        }
        let q: u128 = (g as u128) * (h as u128);
        proof {
            let both: nat = pow2((s + t) as nat);
            assert(n * d == q * (d * both)) by (nonlinear_arith)
                requires
                    n == (g * pow2(s as nat)) * (h * pow2(t as nat)),
                    q == g * h,
                    both == pow2(s as nat) * pow2(t as nat),
            ;
            assert(q * (d * both) < (q + 1) * (d * both)) by (nonlinear_arith)
                requires
                    d > 0,
                    both > 0,
            ;
        }
        let m: u64 = pack(q, false, UNIT_SCALE as u128, (s + t) as u128, Ghost(n), Ghost(d));
        Double::of_parts(negative, m)
    }

    /// `self / other`.
    pub fn over(self, other: Double) -> (r: Double)
        ensures
            r == quotient(self, other),
    {
        let negative: bool = self.is_negative() != other.is_negative();
        if self.is_nan() || other.is_nan() {
            return Double { bits: QUIET };
        }
        if !self.is_finite() {
            if !other.is_finite() {
                return Double { bits: QUIET };
            }
            return Double::of_parts(negative, INFINITE);
        }
        if other.magnitude_bits() == 0 {
            if self.magnitude_bits() == 0 {
                return Double { bits: QUIET };
            }
            return Double::of_parts(negative, INFINITE);
        }
        if !other.is_finite() {
            return Double::of_parts(negative, 0);
        }
        proof {
            lemma_parts(self);
            lemma_parts(other);
            lemma_powers();
        }
        let ghost one: nat = pow2(UNIT_SCALE as nat);
        let ghost n: nat = self.units() * one;
        let ghost d: nat = other.units();
        if self.magnitude_bits() == 0 {
            proof {
                assert(n == 0) by (nonlinear_arith)
                    requires
                        n == self.units() * one,
                        self.units() == 0,
                ;
                lemma_zero_rounds_to_zero(d);
            }
            return Double::of_parts(negative, 0);
        }
        let (g, s): (u64, u64) = self.parts();
        let (h, t): (u64, u64) = other.parts();
        let len: u64 = bit_length(g as u128);
        proof {
            if len > 53 {
                lemma_pow2_at_most(53, (len - 1) as nat);
            }
        }
        let z: u64 = 116 - len;
        let up: u128 = two_pow(z);
        proof {
            lemma_pow2_adds(len as nat, z as nat);
            lemma_pow2_adds((len - 1) as nat, z as nat);
            lemma_pow2_pos(z as nat);
            assert(pow2(115) <= (g as u128) * up < pow2(116)) by (nonlinear_arith)
                requires
                    pow2((len - 1) as nat) <= g < pow2(len as nat),
                    pow2(116) == pow2(len as nat) * up,
                    pow2(115) == pow2((len - 1) as nat) * up,
                    up > 0,
            ;
        }
        let wide: u128 = (g as u128) * up;
        let q: u128 = wide / (h as u128);
        let rest: u128 = wide % (h as u128);
        let ghost a: nat = (z + t) as nat;
        let ghost b: nat = (s + 1074) as nat;
        proof {
            lemma_fundamental_div_mod(wide as int, h as int);
            assert(q >= 0x40_0000_0000_0000) by (nonlinear_arith)
                requires
                    wide == h * q + rest,
                    rest < h,
                    0 < h < PRECISION,
                    wide >= 0x8_0000_0000_0000 * 0x1_0000_0000_0000_0000,
            ;
            assert(q <= wide) by (nonlinear_arith)
                requires
                    wide == h * q + rest,
                    h > 0,
            ;
            lemma_pow2_at_most(116, 127);
            lemma_pow2_adds(z as nat, t as nat);
            lemma_pow2_adds(s as nat, 1074);
            lemma_pow2_pos(t as nat);
            lemma_pow2_pos(b);
            let x: nat = pow2(t as nat) * pow2(b);
            assert(x > 0) by (nonlinear_arith)
                requires
                    x == pow2(t as nat) * pow2(b),
                    pow2(t as nat) > 0,
                    pow2(b) > 0,
            ;
            assert(n * pow2(a) == wide * x) by (nonlinear_arith)
                requires
                    n == (g * pow2(s as nat)) * one,
                    pow2(a) == up * pow2(t as nat),
                    pow2(b) == pow2(s as nat) * one,
                    wide == g * up,
                    x == pow2(t as nat) * pow2(b),
            ;
            assert(q * (d * pow2(b)) == (h * q) * x) by (nonlinear_arith)
                requires
                    d == h * pow2(t as nat),
                    x == pow2(t as nat) * pow2(b),
            ;
            assert((q + 1) * (d * pow2(b)) == (h * q + h) * x) by (nonlinear_arith)
                requires
                    d == h * pow2(t as nat),
                    x == pow2(t as nat) * pow2(b),
            ;
            assert((h * q) * x <= wide * x < (h * q + h) * x) by (nonlinear_arith)
                requires
                    h * q <= wide < h * q + h,
                    x > 0,
            ;
            assert(wide * x == (h * q) * x <==> wide == h * q) by (nonlinear_arith)
                requires
                    x > 0,
            ;
        }
        let m: u64 = pack(q, rest != 0, (z + t) as u128, (s + 1074) as u128, Ghost(n), Ghost(d));
        Double::of_parts(negative, m)
    }

    /// The integer nearest to `m` times the absolute value, ties to even.
    pub fn scaled_even(self, m: u64) -> (r: u128)
        requires
            self.finite(),
            self.scale() < UNIT_SCALE,
            0 < m <= 1_000_000,
        ensures
            r == nearest_even(self.units() * m as nat, pow2(UNIT_SCALE as nat)),
            r <= PRECISION * m,
    {
        proof {
            lemma_parts(self);
            lemma_powers();
        }
        let (g, s): (u64, u64) = self.parts();
        let t: u64 = UNIT_SCALE - s;
        assert((g as u128) * (m as u128) < PRECISION * m) by (nonlinear_arith)
            requires
                g < PRECISION,
                m > 0,
        ;
        assert(PRECISION * m < 0x8000_0000_0000_0000 * 0x1_0000_0000_0000_0000);
        let q: u128 = (g as u128) * (m as u128);
        proof {
            let unit: nat = pow2(s as nat);
            lemma_pow2_pos(s as nat);
            lemma_pow2_pos(t as nat);
            lemma_pow2_adds(s as nat, t as nat);
            assert(self.units() * m as nat == unit * q as nat) by (nonlinear_arith)
                requires
                    self.units() == g * unit,
                    q == g * m,
            ;
            lemma_nearest_scaled(unit, q as nat, pow2(t as nat));
            assert(q as nat == q as nat * 1 + 0);
            lemma_dropped(q as nat, 1, q as nat, 0, t as nat);
            assert(1 * pow2(t as nat) == pow2(t as nat));
            let p: nat = pow2(t as nat);
            lemma_pow2_unfold(t as nat);
            lemma_pow2_pos((t - 1) as nat);
            assert(q as nat / p <= q as nat / 2) by (nonlinear_arith)
                requires
                    p >= 2,
            ;
        }
        drop_places(q, false, t as u128)
    }

    /// The significand of a number that is an integer, and how often to double it.
    pub fn whole_parts(self) -> (r: (u64, u64))
        requires
            self.finite(),
            self.scale() >= UNIT_SCALE,
        ensures
            r.1 <= 971,
            self.units() == (r.0 * pow2(r.1 as nat)) * pow2(UNIT_SCALE as nat),
    {
        let (g, s): (u64, u64) = self.parts();
        let k: u64 = s - UNIT_SCALE;
        proof {
            lemma_pow2_adds(k as nat, UNIT_SCALE as nat);
            assert(self.units() == (g * pow2(k as nat)) * pow2(UNIT_SCALE as nat)) by (nonlinear_arith)
                requires
                    self.units() == g * pow2(s as nat),
                    pow2(s as nat) == pow2(k as nat) * pow2(UNIT_SCALE as nat),
            ;
        }
        (g, k)
    }

    /// The significand of a number, and how often to halve it.
    pub fn fraction_parts(self) -> (r: (u64, u64))
        requires
            self.finite(),
            self.scale() < UNIT_SCALE,
        ensures
            0 < r.1 <= UNIT_SCALE,
            r.0 * pow2(UNIT_SCALE as nat) == self.units() * pow2(r.1 as nat),
    {
        let (g, s): (u64, u64) = self.parts();
        let k: u64 = UNIT_SCALE - s;
        proof {
            lemma_pow2_adds(s as nat, k as nat);
            assert(g * pow2(UNIT_SCALE as nat) == self.units() * pow2(k as nat))
                by (nonlinear_arith)
                requires
                    self.units() == g * pow2(s as nat),
                    pow2(UNIT_SCALE as nat) == pow2(s as nat) * pow2(k as nat),
            ;
        }
        (g, k)
    }

    /// Whether the number is an integer because its significand is doubled often enough.
    pub fn is_large(self) -> (r: bool)
        requires
            self.finite(),
        ensures
            r == (self.scale() >= UNIT_SCALE),
    {
        self.parts().1 >= UNIT_SCALE
    }

    /// The double nearest to a natural number.
    pub fn from_u64(n: u64) -> (r: Double)
        ensures
            r == of_int(n as int),
    {
        Double::from_whole(false, n)
    }

    /// The double nearest to an integer.
    pub fn from_i64(n: i64) -> (r: Double)
        ensures
            r == of_int(n as int),
    {
        if n < 0 {
            Double::from_whole(true, (-(n as i128)) as u64)
        } else {
            Double::from_whole(false, n as u64)
        }
    }

    /// The double nearest to a length.
    pub fn from_usize(n: usize) -> (r: Double)
        ensures
            r == of_int(n as int),
    {
        Double::from_whole(false, n as u64)
    }

    fn from_whole(negative: bool, n: u64) -> (r: Double)
        ensures
            r == signed(negative, rounded((n as nat) * pow2(UNIT_SCALE as nat), 1)),
    {
        let ghost one: nat = pow2(UNIT_SCALE as nat);
        let ghost k: nat = (n as nat) * one;
        proof {
            lemma_powers();
            lemma_pow2_pos(UNIT_SCALE as nat);
        }
        if n == 0 {
            proof {
                assert(k == 0) by (nonlinear_arith)
                    requires
                        k == (n as nat) * one,
                        n == 0,
                ;
                lemma_zero_rounds_to_zero(1);
            }
            return Double::of_parts(negative, 0);
        }
        proof {
            assert(1 * one == one);
            assert(k * 1 == k);
            assert(k < (n + 1) * one) by (nonlinear_arith)
                requires
                    k == n * one,
                    one > 0,
            ;
        }
        let m: u64 = pack(n as u128, false, 0, UNIT_SCALE as u128, Ghost(k), Ghost(1));
        Double::of_parts(negative, m)
    }

    /// The number rounded to an integer, halves away from zero.
    pub fn round(self) -> (r: Double)
        ensures
            r == nearest_whole(self),
    {
        if !self.is_finite() {
            return self;
        }
        proof {
            lemma_parts(self);
            lemma_powers();
        }
        let (g, s): (u64, u64) = self.parts();
        let ghost one: nat = pow2(UNIT_SCALE as nat);
        proof {
            lemma_pow2_pos(UNIT_SCALE as nat);
            lemma_pow2_pos(s as nat);
        }
        if s >= UNIT_SCALE {
            proof {
                let up: nat = pow2((s - UNIT_SCALE) as nat);
                lemma_pow2_adds((s - UNIT_SCALE) as nat, UNIT_SCALE as nat);
                assert(self.units() == (g * up) * one) by (nonlinear_arith)
                    requires
                        self.units() == g * pow2(s as nat),
                        pow2(s as nat) == up * one,
                ;
                assert(2 * self.units() + one == (g * up) * (2 * one) + one) by (nonlinear_arith)
                    requires
                        self.units() == (g * up) * one,
                ;
                lemma_division(2 * self.units() + one, 2 * one, (g * up) as nat, one);
                lemma_rounding_keeps_doubles(self);
            }
            return self;
        }
        let t: u64 = UNIT_SCALE - s;
        let w: u64 = if t >= 60 {
            0
        } else {
            let p: u128 = two_pow(t);
            proof {
                lemma_pow2_at_most(t as nat, 63);
            }
            let k: u128 = (2 * (g as u128) + p) / (2 * p);
            assert(k <= 2 * g + p) by (nonlinear_arith)
                requires
                    k == (2 * g + p) / (2 * p),
                    p > 0,
            ;
            k as u64
        };
        proof {
            let p: nat = pow2(t as nat);
            let unit: nat = pow2(s as nat);
            lemma_pow2_adds(s as nat, t as nat);
            lemma_pow2_pos(t as nat);
            let top: nat = 2 * g as nat + p;
            if t >= 60 {
                lemma_pow2_at_most(60, t as nat);
                lemma_pow2_at_most(54, 60);
                lemma_division(top, 2 * p, 0, top);
            }
            let k: nat = top / (2 * p);
            let r: nat = top % (2 * p);
            lemma_fundamental_div_mod(top as int, (2 * p) as int);
            assert(2 * self.units() + one == k * (2 * one) + r * unit) by (nonlinear_arith)
                requires
                    self.units() == g * unit,
                    one == unit * p,
                    top == 2 * g + p,
                    top == (2 * p) * k + r,
            ;
            assert(r * unit < 2 * one) by (nonlinear_arith)
                requires
                    r < 2 * p,
                    one == unit * p,
                    unit > 0,
            ;
            lemma_division(2 * self.units() + one, 2 * one, k, r * unit);
        }
        Double::from_whole(self.is_negative(), w)
    }
}

// ---------------------------------------------------------------------------
// Laws of the arithmetic
// ---------------------------------------------------------------------------

pub proof fn lemma_signed(negative: bool, m: nat)
    requires
        m < SIGN,
    ensures
        signed(negative, m).magnitude() == m,
        signed(negative, m).negative() == negative,
        signed(negative, m).key() == (if negative {
            -m
        } else {
            m as int
        }),
{
}

pub proof fn lemma_rounded_range(n: nat, d: nat)
    ensures
        rounded(n, d) <= INFINITE,
{
}

/// What has no more than 53 binary digits is a double.
pub proof fn lemma_exact_units(g: nat, e: nat)
    requires
        g < PRECISION,
        e <= 2040,
    ensures
        rounded(g * pow2(e), 1) < INFINITE,
        signed(false, rounded(g * pow2(e), 1)).finite(),
        !signed(false, rounded(g * pow2(e), 1)).negative(),
        signed(false, rounded(g * pow2(e), 1)).units() == g * pow2(e),
{
    lemma_powers();
    let n: nat = g * pow2(e);
    let s: nat = scale_of(n, 1);
    lemma_scale_bounds(n, 1);
    lemma_pow2_pos(e);
    lemma_pow2_pos(s);
    lemma_pow2_adds(53, e);
    assert(n < pow2(53 + e)) by (nonlinear_arith)
        requires
            n == g * pow2(e),
            g < PRECISION,
            pow2(53 + e) == PRECISION * pow2(e),
            pow2(e) > 0,
    ;
    if s > e {
        lemma_pow2_at_most((53 + e) as nat, (52 + s) as nat);
        assert(false);
    }
    let k: nat = (e - s) as nat;
    lemma_pow2_adds(k, s);
    lemma_pow2_pos(k);
    let h: nat = g * pow2(k);
    assert(n == h * pow2(s)) by (nonlinear_arith)
        requires
            n == g * pow2(e),
            pow2(e) == pow2(k) * pow2(s),
            h == g * pow2(k),
    ;
    lemma_division(n, pow2(s), h, 0);
    assert(1 * pow2(s) == pow2(s));
    assert(nearest_even(n, 1 * pow2(s)) == h);
    lemma_pow2_adds(53, s);
    assert(h < PRECISION) by (nonlinear_arith)
        requires
            h * pow2(s) < 1 * pow2(53 + s),
            pow2(53 + s) == PRECISION * pow2(s),
            pow2(s) > 0,
    ;
    if s > 0 {
        lemma_pow2_adds(52, s);
        assert(h >= HIDDEN) by (nonlinear_arith)
            requires
                h * pow2(s) >= 1 * pow2((52 + s) as nat),
                pow2((52 + s) as nat) == HIDDEN * pow2(s),
                pow2(s) > 0,
        ;
    }
    let m: nat = (s * HIDDEN + h) as nat;
    assert(s * HIDDEN + h < INFINITE) by (nonlinear_arith)
        requires
            s <= 2040,
            h < PRECISION,
    ;
    let x = signed(false, rounded(n, 1));
    assert(x.magnitude() == m);
    if s == 0 {
        if h >= HIDDEN {
            lemma_division(m, HIDDEN as nat, 1, (h - HIDDEN) as nat);
        }
        assert(x.units() == h * pow2(0));
        assert(h * pow2(0) == h);
        assert(h * pow2(s) == h);
    } else {
        assert(m == (s + 1) * HIDDEN + (h - HIDDEN)) by (nonlinear_arith)
            requires
                m == s * HIDDEN + h,
        ;
        lemma_division(m, HIDDEN as nat, s + 1, (h - HIDDEN) as nat);
    }
}

/// A rounded integer, with its sign.
pub open spec fn rounded_int(t: int) -> Double {
    signed(t < 0, rounded(size(t), 1))
}

pub proof fn lemma_rounded_int_grows(t: int, u: int)
    requires
        t <= u,
    ensures
        !rounded_int(t).nan(),
        !rounded_int(u).nan(),
        rounded_int(t).key() <= rounded_int(u).key(),
{
    if t < 0 && u < 0 {
        lemma_rounded_monotone(size(u), size(t), 1);
    } else if t >= 0 {
        lemma_rounded_monotone(size(t), size(u), 1);
    }
}

pub proof fn lemma_finite_sum(a: Double, b: Double)
    requires
        a.finite(),
        b.finite(),
    ensures
        !sum(a, b).nan(),
        sum(a, b).key() == rounded_int(a.value() + b.value()).key(),
        sum(a, b).magnitude() == rounded(size(a.value() + b.value()), 1),
{
    lemma_zero_rounds_to_zero(1);
}

pub proof fn lemma_negated(a: Double)
    requires
        a.finite(),
    ensures
        a.negated().finite(),
        a.negated().value() == -a.value(),
        a.negated().magnitude() == a.magnitude(),
{
    lemma_parts(a);
}

/// A sum is exact where the exact sum is a double, and does not depend on the order.
pub proof fn law_sums_are_exact_where_they_can_be(a: Double, b: Double, c: Double)
    requires
        a.finite(),
        b.finite(),
        c.finite(),
        c.value() == a.value() + b.value(),
    ensures
        sum(a, b).same(c),
        sum(b, a).same(c),
{
    lemma_finite_sum(a, b);
    lemma_finite_sum(b, a);
    lemma_rounding_keeps_doubles(c);
    lemma_parts(c);
}

/// A difference is exact where the exact difference is a double.
pub proof fn law_differences_are_exact_where_they_can_be(a: Double, b: Double, c: Double)
    requires
        a.finite(),
        b.finite(),
        c.finite(),
        c.value() == a.value() - b.value(),
    ensures
        difference(a, b).same(c),
{
    lemma_negated(b);
    law_sums_are_exact_where_they_can_be(a, b.negated(), c);
}

/// A product is exact where the exact product is a double.
pub proof fn law_products_are_exact_where_they_can_be(a: Double, b: Double, c: Double)
    requires
        a.finite(),
        b.finite(),
        c.finite(),
        c.value() * pow2(1074) == a.value() * b.value(),
    ensures
        product(a, b).same(c),
{
    let one: nat = pow2(1074);
    lemma_pow2_pos(1074);
    lemma_parts(a);
    lemma_parts(b);
    lemma_parts(c);
    let (x, y, z): (nat, nat, nat) = (a.units(), b.units(), c.units());
    assert(z * one == x * y) by (nonlinear_arith)
        requires
            c.value() * one == a.value() * b.value(),
            a.value() == x || a.value() == -x,
            b.value() == y || b.value() == -y,
            c.value() == z || c.value() == -z,
            one > 0,
    ;
    lemma_rounded_scaled(one, z, 1);
    assert(one * z == z * one) by (nonlinear_arith);
    assert(one * 1 == one);
    lemma_rounding_keeps_doubles(c);
    if z > 0 {
        assert(x > 0 && y > 0) by (nonlinear_arith)
            requires
                z * one == x * y,
                z > 0,
                one > 0,
                x >= 0,
                y >= 0,
        ;
        assert(c.negative() == (a.negative() != b.negative())) by {
            if c.negative() && a.negative() == b.negative() {
                assert(a.value() * b.value() >= 0) by (nonlinear_arith)
                    requires
                        (a.value() == x && b.value() == y) || (a.value() == -x && b.value() == -y),
                ;
                assert(c.value() * one < 0) by (nonlinear_arith)
                    requires
                        c.value() == -z,
                        z > 0,
                        one > 0,
                ;
            }
            if !c.negative() && a.negative() != b.negative() {
                assert(a.value() * b.value() <= 0) by (nonlinear_arith)
                    requires
                        (a.value() == -x && b.value() == y) || (a.value() == x && b.value() == -y),
                ;
                assert(c.value() * one > 0) by (nonlinear_arith)
                    requires
                        c.value() == z,
                        z > 0,
                        one > 0,
                ;
            }
        }
    }
}

/// A quotient of numbers that are not negative is exact where the exact quotient is a double.
pub proof fn law_quotients_are_exact_where_they_can_be(a: Double, b: Double, c: Double)
    requires
        a.finite(),
        b.positive(),
        c.finite(),
        0 <= a.key(),
        0 <= c.key(),
        c.value() * b.value() == a.value() * pow2(1074),
    ensures
        quotient(a, b).same(c),
{
    let one: nat = pow2(1074);
    lemma_pow2_pos(1074);
    lemma_parts(a);
    lemma_parts(b);
    lemma_parts(c);
    lemma_rounded_scaled(b.units(), c.units(), 1);
    assert(c.value() == c.units() && a.value() == a.units() && b.value() == b.units());
    assert(b.units() * c.units() == a.units() * one) by (nonlinear_arith)
        requires
            c.units() * b.units() == a.units() * one,
    ;
    assert(b.units() * 1 == b.units());
    lemma_rounding_keeps_doubles(c);
    lemma_finite_quotient(a, b);
}

/// The quotient of a finite number that is not negative and a positive one.
pub proof fn lemma_finite_quotient(a: Double, b: Double)
    requires
        a.finite(),
        0 <= a.key(),
        b.positive(),
    ensures
        !quotient(a, b).nan(),
        quotient(a, b).key() == rounded(a.units() * pow2(1074), b.units()),
        quotient(a, b).magnitude() == rounded(a.units() * pow2(1074), b.units()),
        b.units() > 0,
{
    lemma_parts(a);
    lemma_parts(b);
    if a.negative() {
        assert(a.units() * pow2(1074) == 0) by (nonlinear_arith)
            requires
                a.units() == 0,
        ;
        lemma_zero_rounds_to_zero(b.units());
    }
}

/// The product of a finite number that is not negative and a positive one.
pub proof fn lemma_finite_product(a: Double, b: Double)
    requires
        a.finite(),
        0 <= a.key(),
        b.positive(),
    ensures
        !product(a, b).nan(),
        product(a, b).key() == rounded(a.units() * b.units(), pow2(1074)),
        product(a, b).magnitude() == rounded(a.units() * b.units(), pow2(1074)),
{
    lemma_parts(a);
    lemma_parts(b);
    lemma_pow2_pos(1074);
    if a.negative() {
        assert(a.units() * b.units() == 0) by (nonlinear_arith)
            requires
                a.units() == 0,
        ;
        lemma_zero_rounds_to_zero(pow2(1074));
    }
}

/// Adding one number keeps the order of two others.
pub proof fn law_sum_grows(a: Double, b: Double, c: Double)
    requires
        a.finite(),
        b.finite(),
        c.finite(),
        b.at_most(c),
    ensures
        sum(a, b).at_most(sum(a, c)),
{
    lemma_finite_sum(a, b);
    lemma_finite_sum(a, c);
    law_order_is_by_value(b, c);
    lemma_rounded_int_grows(a.value() + b.value(), a.value() + c.value());
}

/// Sums of numbers that are not negative grow with both of them, infinite ones among them.
pub proof fn lemma_sum_grows_up(a: Double, b: Double, c: Double, d: Double)
    requires
        0 <= a.key(),
        0 <= c.key(),
        a.at_most(b),
        c.at_most(d),
    ensures
        sum(a, c).at_most(sum(b, d)),
        0 <= sum(a, c).key(),
        c.at_most(sum(a, c)),
        a.at_most(sum(a, c)),
{
    if a.finite() && c.finite() {
        lemma_finite_sum(a, c);
        lemma_parts(a);
        lemma_parts(c);
        lemma_rounding_keeps_doubles(a);
        lemma_rounding_keeps_doubles(c);
        lemma_rounded_monotone(c.units(), a.units() + c.units(), 1);
        lemma_rounded_monotone(a.units(), a.units() + c.units(), 1);
        if b.finite() && d.finite() {
            lemma_finite_sum(b, d);
            law_order_is_by_value(a, b);
            law_order_is_by_value(c, d);
            lemma_rounded_int_grows(a.value() + c.value(), b.value() + d.value());
        }
    }
}

/// Dividing by one number keeps the order of two others that are not negative.
pub proof fn law_quotient_grows(a: Double, b: Double, c: Double)
    requires
        0 <= a.key(),
        a.at_most(b),
        c.positive(),
    ensures
        quotient(a, c).at_most(quotient(b, c)),
        0 <= quotient(a, c).key(),
{
    if a.finite() {
        lemma_finite_quotient(a, c);
        if b.finite() {
            lemma_finite_quotient(b, c);
            lemma_units_follow_magnitude(a, b);
            lemma_parts(a);
            lemma_parts(b);
            let one: nat = pow2(1074);
            assert(a.units() * one <= b.units() * one) by (nonlinear_arith)
                requires
                    a.units() <= b.units(),
            ;
            lemma_rounded_monotone(a.units() * one, b.units() * one, c.units());
        }
    }
}

/// A larger divisor gives no larger quotient of a number that is not negative.
pub proof fn law_quotient_falls(a: Double, b: Double, c: Double)
    requires
        a.finite(),
        0 <= a.key(),
        b.positive(),
        c.positive(),
        b.at_most(c),
    ensures
        quotient(a, c).at_most(quotient(a, b)),
{
    lemma_parts(a);
    lemma_parts(b);
    lemma_parts(c);
    lemma_units_follow_magnitude(b, c);
    let (x, y, z): (nat, nat, nat) = (a.units() * pow2(1074), b.units(), c.units());
    lemma_rounded_scaled(y, x, z);
    lemma_rounded_scaled(z, x, y);
    assert(y * x <= z * x) by (nonlinear_arith)
        requires
            y <= z,
    ;
    assert(y * z > 0) by (nonlinear_arith)
        requires
            y > 0,
            z > 0,
    ;
    lemma_rounded_monotone(y * x, z * x, y * z);
    assert(z * y == y * z) by (nonlinear_arith);
    if a.negative() {
        assert(x == 0) by (nonlinear_arith)
            requires
                x == a.units() * pow2(1074),
                a.units() == 0,
        ;
        lemma_zero_rounds_to_zero(y);
        lemma_zero_rounds_to_zero(z);
    }
}

/// Multiplying by one positive number keeps the order of two others that are not negative,
/// infinite ones among them.
pub proof fn lemma_product_grows_up(a: Double, b: Double, c: Double)
    requires
        0 <= a.key(),
        a.at_most(b),
        c.positive(),
    ensures
        product(a, c).at_most(product(b, c)),
        0 <= product(a, c).key(),
{
    if a.finite() {
        lemma_finite_product(a, c);
        if b.finite() {
            lemma_finite_product(b, c);
            lemma_units_follow_magnitude(a, b);
            lemma_parts(a);
            lemma_parts(b);
            lemma_pow2_pos(1074);
            assert(a.units() * c.units() <= b.units() * c.units()) by (nonlinear_arith)
                requires
                    a.units() <= b.units(),
            ;
            lemma_rounded_monotone(a.units() * c.units(), b.units() * c.units(), pow2(1074));
        }
    }
}

/// Two different doubles are not so near to each other that their distance vanishes beside
/// one of them.
pub proof fn lemma_gap(x: Double, y: Double) -> (k: nat)
    requires
        x.finite(),
        y.positive(),
        x.value() != y.value(),
    ensures
        pow2(k) <= size(x.value() - y.value()),
        y.units() < pow2(54 + k),
        k <= 2045,
{
    lemma_parts(x);
    lemma_parts(y);
    lemma_powers();
    let t = y.scale();
    lemma_pow2_adds(53, t);
    lemma_pow2_pos(t);
    assert(y.units() < pow2(53 + t)) by (nonlinear_arith)
        requires
            y.units() == y.significand() * pow2(t),
            y.significand() < PRECISION,
            pow2(53 + t) == PRECISION * pow2(t),
            pow2(t) > 0,
    ;
    if t == 0 {
        lemma_pow2_at_most(53, 54);
        0
    } else {
        let k: nat = (t - 1) as nat;
        assert(54 + k == 53 + t);
        lemma_pow2_adds(1, k);
        let p: nat = pow2(k);
        lemma_pow2_pos(k);
        let b: nat = 2 * y.significand();
        assert(y.units() == b * p) by (nonlinear_arith)
            requires
                y.units() == y.significand() * pow2(t),
                pow2(t) == 2 * p,
                b == 2 * y.significand(),
        ;
        if x.scale() >= k {
            let j: nat = (x.scale() - k) as nat;
            lemma_pow2_adds(j, k);
            let a: int = if x.negative() {
                -(x.significand() * pow2(j))
            } else {
                (x.significand() * pow2(j)) as int
            };
            assert(x.value() == a * p) by (nonlinear_arith)
                requires
                    x.units() == x.significand() * pow2(x.scale()),
                    pow2(x.scale()) == pow2(j) * p,
                    x.negative() ==> x.value() == -x.units() && a == -(x.significand() * pow2(j)),
                    !x.negative() ==> x.value() == x.units() && a == x.significand() * pow2(j),
            ;
            let d = a - b;
            assert(x.value() - y.value() == d * p) by (nonlinear_arith)
                requires
                    x.value() == a * p,
                    y.value() == b * p,
                    d == a - b,
            ;
            assert(d != 0);
            assert(size(d * p) >= p) by (nonlinear_arith)
                requires
                    d != 0,
                    p > 0,
                    size(d * p) == (if d * p < 0 {
                        -(d * p)
                    } else {
                        d * p
                    }),
            ;
        } else {
            let s = x.scale();
            lemma_pow2_adds(53, s);
            lemma_pow2_at_most(53 + s, 52 + k);
            lemma_pow2_adds(52, k);
            assert(x.units() < HIDDEN * p) by (nonlinear_arith)
                requires
                    x.units() == x.significand() * pow2(s),
                    x.significand() < PRECISION,
                    pow2(53 + s) == PRECISION * pow2(s),
                    pow2(s) > 0,
                    pow2(53 + s) <= pow2(52 + k),
                    pow2(52 + k) == HIDDEN * p,
            ;
            assert(y.units() >= HIDDEN * p + p) by (nonlinear_arith)
                requires
                    y.units() == b * p,
                    b >= 2 * HIDDEN,
                    p > 0,
            ;
        }
        k
    }
}

/// A power of two is a double.
pub proof fn lemma_exact_units_of_power(k: nat)
    requires
        k <= 2045,
    ensures
        signed(false, rounded(pow2(k), 1)).finite(),
        signed(false, rounded(pow2(k), 1)).value() == pow2(k),
{
    lemma_powers();
    if k <= 2040 {
        lemma_exact_units(1, k);
        assert(1 * pow2(k) == pow2(k));
    } else {
        let e: nat = (k - 10) as nat;
        lemma_pow2_adds(10, e);
        lemma_exact_units(1024, e);
    }
}

/// A natural number of up to 53 binary digits is a double.
pub proof fn law_small_integers_are_exact(n: nat)
    requires
        n < PRECISION,
    ensures
        of_int(n as int).finite(),
        0 <= of_int(n as int).key(),
        of_int(n as int).value() == n * pow2(1074),
        n > 0 ==> of_int(n as int).positive(),
{
    lemma_exact_units(n, 1074);
    lemma_pow2_pos(1074);
    let x = of_int(n as int);
    lemma_parts(x);
    if n > 0 {
        assert(n * pow2(1074) > 0) by (nonlinear_arith)
            requires
                n > 0,
                pow2(1074) > 0,
        ;
    }
}

/// The difference of two finite numbers, the second of which is positive, is negative exactly
/// where the first is the smaller one.
pub proof fn law_differences_have_a_side(a: Double, b: Double)
    requires
        a.finite(),
        b.positive(),
    ensures
        !difference(a, b).nan(),
        difference(a, b).negative() <==> a.value() < b.value(),
{
    lemma_negated(b);
    lemma_parts(a);
    lemma_parts(b);
    lemma_rounded_range(size(a.value() - b.value()), 1);
    let t = a.value() + b.negated().value();
    if t != 0 {
        lemma_signed(t < 0, rounded(size(t), 1));
    }
}

/// The larger and the smaller of two numbers are one of them each, and on their side of both.
pub proof fn law_the_larger_and_the_smaller_of_two(a: Double, b: Double)
    requires
        !a.nan(),
        !b.nan(),
    ensures
        larger(a, b) == a || larger(a, b) == b,
        a.at_most(larger(a, b)) && b.at_most(larger(a, b)),
        smaller(a, b) == a || smaller(a, b) == b,
        smaller(a, b).at_most(a) && smaller(a, b).at_most(b),
{
}

/// A number that is brought into a range lies in it, and one that did so before is not changed.
pub proof fn law_numbers_are_brought_into_range(x: Double, low: Double, high: Double)
    requires
        !x.nan(),
        low.at_most(high),
    ensures
        low.at_most(clamped(x, low, high)) && clamped(x, low, high).at_most(high),
        low.at_most(x) && x.at_most(high) ==> clamped(x, low, high) == x,
        x.below(low) ==> clamped(x, low, high) == low,
        high.below(x) ==> clamped(x, low, high) == high,
{
}

/// The sign of a number, its opposite and its size are told by its value.
pub proof fn law_signs_and_sizes_follow_the_value(x: Double)
    requires
        x.finite(),
    ensures
        x.absolute().finite() && x.absolute().value() == size(x.value()),
        x.negated().finite() && x.negated().value() == -x.value(),
{
    lemma_negated(x);
    lemma_signed(false, x.magnitude());
    lemma_parts(x);
    lemma_parts(x.absolute());
    lemma_units_follow_magnitude(x, x.absolute());
}

/// Rounding to an integer keeps the order of numbers that are not negative.
pub proof fn law_nearest_wholes_grow(x: Double, y: Double)
    requires
        0 <= x.key(),
        x.at_most(y),
    ensures
        nearest_whole(x).at_most(nearest_whole(y)),
        0 <= nearest_whole(x).key(),
{
    let one: nat = pow2(1074);
    lemma_pow2_pos(1074);
    if x.finite() {
        let a: nat = whole(x);
        lemma_rounded_range(a * one, 1);
        lemma_signed(x.negative(), rounded(a * one, 1));
        lemma_parts(x);
        if x.negative() {
            assert(x.units() == 0);
            assert((2 * 0 + one) / (2 * one) == 0) by (nonlinear_arith)
                requires
                    one > 0,
            ;
            assert(0 * one == 0);
            lemma_zero_rounds_to_zero(1);
        }
        if y.finite() {
            let b: nat = whole(y);
            lemma_rounded_range(b * one, 1);
            lemma_signed(y.negative(), rounded(b * one, 1));
            lemma_parts(y);
            lemma_units_follow_magnitude(x, y);
            if y.negative() {
                assert(y.units() == 0);
                assert((2 * 0 + one) / (2 * one) == 0) by (nonlinear_arith)
                    requires
                        one > 0,
                ;
                assert(0 * one == 0);
                lemma_zero_rounds_to_zero(1);
            }
            assert(a <= b) by (nonlinear_arith)
                requires
                    a == (2 * x.units() + one) / (2 * one),
                    b == (2 * y.units() + one) / (2 * one),
                    x.units() <= y.units(),
                    one > 0,
            ;
            assert(a * one <= b * one) by (nonlinear_arith)
                requires
                    a <= b,
            ;
            lemma_rounded_monotone(a * one, b * one, 1);
        }
    }
}

/// An integer of up to 53 binary digits is not changed by rounding to an integer.
pub proof fn law_integers_are_whole(x: Double, n: nat)
    requires
        x.finite(),
        0 <= x.key(),
        n < PRECISION,
        x.value() == n * pow2(1074),
    ensures
        nearest_whole(x).finite(),
        0 <= nearest_whole(x).key(),
        nearest_whole(x).value() == x.value(),
{
    let one: nat = pow2(1074);
    lemma_pow2_pos(1074);
    lemma_parts(x);
    assert(x.units() == n * one);
    assert((2 * (n * one) + one) / (2 * one) == n) by (nonlinear_arith)
        requires
            one > 0,
    ;
    lemma_exact_units(n, 1074);
    lemma_rounded_range(n * one, 1);
    lemma_signed(x.negative(), rounded(n * one, 1));
    let y = nearest_whole(x);
    lemma_parts(y);
    let z = signed(false, rounded(n * one, 1));
    lemma_signed(false, rounded(n * one, 1));
    lemma_units_follow_magnitude(y, z);
}

/// What is less than a half is rounded to nothing.
pub proof fn law_less_than_a_half_is_nothing(x: Double)
    requires
        x.finite(),
        0 <= x.key(),
        2 * x.value() < pow2(1074),
    ensures
        nearest_whole(x).finite(),
        nearest_whole(x).key() == 0,
{
    let one: nat = pow2(1074);
    lemma_parts(x);
    assert((2 * x.units() + one) / (2 * one) == 0) by (nonlinear_arith)
        requires
            2 * x.units() < one,
    ;
    assert(0 * one == 0);
    lemma_zero_rounds_to_zero(1);
    lemma_signed(x.negative(), 0);
}

} // verus!
