//! Reading numbers from texts.

use vstd::arithmetic::power2::*;
use vstd::prelude::*;

use crate::digits::ten_to;
use crate::double::approximates;
use crate::double::lemma_pow2_at_most;
use crate::double::lemma_powers;
use crate::double::lemma_too_large;
use crate::double::lemma_too_small;
use crate::double::lemma_zero_rounds_to_zero;
use crate::double::pack;
use crate::double::rounded;
use crate::double::signed;
use crate::double::Double;
use crate::double::INFINITE;
use crate::double::QUIET;
use crate::double::UNIT_SCALE;
use crate::text::all_digits;
use crate::text::alike;
use crate::text::chars_of;
use crate::text::decimal;
use crate::text::decimal_value;
use crate::text::digit_value;
use crate::text::first_place;
use crate::text::is_digit;
use crate::text::same_ignoring_case;
use crate::text::text_of;

verus! {

/// The place of the first `e` or `E`, the length of the text where there is none.
pub open spec fn exponent_place(s: Seq<char>) -> int
    decreases s.len(),
{
    if s.len() == 0 || s[0] == 'e' || s[0] == 'E' {
        0
    } else {
        1 + exponent_place(s.skip(1))
    }
}

/// A text without a sign at its front.
pub open spec fn unsigned(s: Seq<char>) -> Seq<char> {
    if s.len() > 0 && (s[0] == '-' || s[0] == '+') {
        s.skip(1)
    } else {
        s
    }
}

pub open spec fn has_minus(s: Seq<char>) -> bool {
    s.len() > 0 && s[0] == '-'
}

/// The integer that a text stands for: an optional sign and decimal digits.
pub open spec fn read_integer(s: Seq<char>) -> Option<int> {
    let digits = unsigned(s);
    if digits.len() == 0 || !all_digits(digits) {
        None
    } else if has_minus(s) {
        Some(-decimal_value(digits))
    } else {
        Some(decimal_value(digits) as int)
    }
}

/// The magnitude of the double nearest to `n * 10^e`.
pub open spec fn scientific(n: nat, e: int) -> nat {
    if e >= 0 {
        rounded(n * ten_to(e as nat) * pow2(UNIT_SCALE as nat), 1)
    } else {
        rounded(n * pow2(UNIT_SCALE as nat), ten_to((-e) as nat))
    }
}

/// The magnitude that a text of decimal digits stands for; the digits may hold one
/// point, and an exponent may follow them.
pub open spec fn read_magnitude(s: Seq<char>) -> Option<nat> {
    let x = exponent_place(s);
    let mantissa = s.take(x);
    let p = first_place(mantissa, '.');
    let whole = mantissa.take(p);
    let part = if p < mantissa.len() {
        mantissa.skip(p + 1)
    } else {
        Seq::<char>::empty()
    };
    let exponent = if x < s.len() {
        read_integer(s.skip(x + 1))
    } else {
        Some(0)
    };
    let digits = whole + part;
    if digits.len() == 0 || !all_digits(digits) {
        None
    } else {
        match exponent {
            Some(e) => Some(scientific(decimal_value(digits), e - part.len())),
            None => None,
        }
    }
}

/// The number that a text stands for.
pub open spec fn read_double(s: Seq<char>) -> Option<Double> {
    let body = unsigned(s);
    if alike(body, "inf"@) || alike(body, "infinity"@) {
        Some(signed(has_minus(s), INFINITE as nat))
    } else if alike(body, "nan"@) {
        Some(signed(has_minus(s), QUIET as nat))
    } else {
        match read_magnitude(body) {
            Some(m) => Some(signed(has_minus(s), m)),
            None => None,
        }
    }
}

// ---------------------------------------------------------------------------
// Natural numbers of any size, in digits of 32 bits, the lowest first
// ---------------------------------------------------------------------------

pub const BASE: u64 = 0x1_0000_0000;

spec fn limb(v: Seq<u32>, i: int) -> nat {
    if 0 <= i < v.len() {
        v[i] as nat
    } else {
        0
    }
}

/// The value of the digit one at place `i`.
spec fn place(i: nat) -> nat
    decreases i,
{
    if i == 0 {
        1
    } else {
        BASE as nat * place((i - 1) as nat)
    }
}

/// The value of the lowest `i` digits.
spec fn low(v: Seq<u32>, i: nat) -> nat
    decreases i,
{
    if i == 0 {
        0
    } else {
        low(v, (i - 1) as nat) + limb(v, i - 1) * place((i - 1) as nat)
    }
}

spec fn big(v: Seq<u32>) -> nat {
    low(v, v.len())
}

proof fn lemma_low_pushed(v: Seq<u32>, d: u32, i: nat)
    requires
        i <= v.len(),
    ensures
        low(v.push(d), i) == low(v, i),
    decreases i,
{
    if i > 0 {
        lemma_low_pushed(v, d, (i - 1) as nat);
    }
}

proof fn lemma_low_below(v: Seq<u32>, i: nat)
    ensures
        low(v, i) < place(i),
    decreases i,
{
    if i > 0 {
        let k: nat = (i - 1) as nat;
        lemma_low_below(v, k);
        let d: nat = limb(v, i - 1);
        let p: nat = place(k);
        assert(low(v, k) + d * p < 0x1_0000_0000 * p) by (nonlinear_arith)
            requires
                low(v, k) < p,
                d <= 0xffff_ffff,
        ;
    }
}

proof fn lemma_low_beyond(v: Seq<u32>, i: nat)
    requires
        i >= v.len(),
    ensures
        low(v, i) == big(v),
    decreases i,
{
    if i > v.len() {
        lemma_low_beyond(v, (i - 1) as nat);
        assert(0 * place((i - 1) as nat) == 0);
    }
}

fn limb_at(v: &Vec<u32>, i: usize) -> (d: u32)
    ensures
        d == limb(v@, i as int),
{
    if i < v.len() {
        v[i]
    } else {
        0
    }
}

/// `v * m + extra`.
fn times_small(v: &Vec<u32>, m: u32, extra: u32) -> (r: Vec<u32>)
    ensures
        big(r@) == big(v@) * m + extra,
{
    let mut r: Vec<u32> = Vec::new();
    let mut carry: u32 = extra;
    let mut i: usize = 0;
    assert(0 * m == 0);
    assert(place(0) == 1);
    assert(carry * 1 == carry);
    while i < v.len()
        invariant
            i <= v.len(),
            r.len() == i,
            big(r@) + carry * place(i as nat) == low(v@, i as nat) * m + extra,
        decreases v.len() - i,
    {
        let d: u32 = v[i];
        assert(d * m + carry < 0x1_0000_0000 * 0x1_0000_0000) by (nonlinear_arith)
            requires
                d <= 0xffff_ffff,
                m <= 0xffff_ffff,
                carry <= 0xffff_ffff,
        ;
        let wide: u64 = (d as u64) * (m as u64) + carry as u64;
        let lo: u32 = (wide % BASE) as u32;
        let hi: u32 = (wide / BASE) as u32;
        proof {
            lemma_low_pushed(r@, lo, i as nat);
            let p: nat = place(i as nat);
            assert(place((i + 1) as nat) == BASE as nat * p);
            assert(lo * p + hi * (0x1_0000_0000 * p) == d * p * m + carry * p) by (nonlinear_arith)
                requires
                    lo + 0x1_0000_0000 * hi == d * m + carry,
            ;
            let before: nat = low(v@, i as nat);
            assert((before + d * p) * m == before * m + d * p * m) by (nonlinear_arith);
        }
        r.push(lo);
        carry = hi;
        i = i + 1;
    }
    proof {
        lemma_low_pushed(r@, carry, i as nat);
    }
    r.push(carry);
    r
}

/// Whether `a < b`.
fn less(a: &Vec<u32>, b: &Vec<u32>) -> (r: bool)
    ensures
        r == (big(a@) < big(b@)),
{
    let n: usize = if a.len() < b.len() {
        b.len()
    } else {
        a.len()
    };
    proof {
        lemma_low_beyond(a@, n as nat);
        lemma_low_beyond(b@, n as nat);
    }
    let mut i: usize = n;
    while i > 0
        invariant
            big(a@) - low(a@, i as nat) == big(b@) - low(b@, i as nat),
        decreases i,
    {
        let x: u32 = limb_at(a, i - 1);
        let y: u32 = limb_at(b, i - 1);
        proof {
            let k: nat = (i - 1) as nat;
            let p: nat = place(k);
            lemma_low_below(a@, k);
            lemma_low_below(b@, k);
            assert(x < y ==> low(a@, k) + x * p < low(b@, k) + y * p) by (nonlinear_arith)
                requires
                    low(a@, k) < p,
            ;
            assert(x > y ==> low(a@, k) + x * p > low(b@, k) + y * p) by (nonlinear_arith)
                requires
                    low(b@, k) < p,
            ;
        }
        if x < y {
            return true;
        }
        if x > y {
            return false;
        }
        i = i - 1;
    }
    false
}

/// `a - b`.
fn minus(a: &Vec<u32>, b: &Vec<u32>) -> (r: Vec<u32>)
    requires
        big(a@) >= big(b@),
    ensures
        big(r@) == big(a@) - big(b@),
{
    let n: usize = if a.len() < b.len() {
        b.len()
    } else {
        a.len()
    };
    let mut r: Vec<u32> = Vec::new();
    let mut borrow: u64 = 0;
    let mut i: usize = 0;
    while i < n
        invariant
            i <= n,
            r.len() == i,
            borrow <= 1,
            big(r@) - borrow * place(i as nat) == low(a@, i as nat) - low(b@, i as nat),
        decreases n - i,
    {
        let x: u64 = limb_at(a, i) as u64;
        let y: u64 = limb_at(b, i) as u64 + borrow;
        let (d, next): (u64, u64) = if x >= y {
            (x - y, 0)
        } else {
            (x + BASE - y, 1)
        };
        proof {
            lemma_low_pushed(r@, d as u32, i as nat);
            let p: nat = place(i as nat);
            let b0: int = y - borrow;
            assert(place((i + 1) as nat) == BASE as nat * p);
            assert(d * p - next * (0x1_0000_0000 * p) == x * p - b0 * p - borrow * p)
                by (nonlinear_arith)
                requires
                    d - next * 0x1_0000_0000 == x - b0 - borrow,
            ;
        }
        r.push(d as u32);
        borrow = next;
        i = i + 1;
    }
    proof {
        lemma_low_beyond(a@, n as nat);
        lemma_low_beyond(b@, n as nat);
        lemma_low_below(r@, n as nat);
        let p: nat = place(n as nat);
        if borrow == 1 {
            assert(1 * p == p);
        } else {
            assert(0 * p == 0);
        }
    }
    r
}

fn small(n: u32) -> (r: Vec<u32>)
    ensures
        big(r@) == n,
{
    let mut r: Vec<u32> = Vec::new();
    r.push(n);
    proof {
        reveal_with_fuel(low, 2);
        assert(place(0) == 1);
        assert(n * 1 == n);
    }
    r
}

/// The magnitude of the double nearest to `x / y`.
fn ratio(x: Vec<u32>, y: Vec<u32>, Ghost(k): Ghost<nat>) -> (m: u64)
    requires
        0 < big(x@) < pow2(k),
        0 < big(y@) < pow2(k),
        k <= 0x1_0000_0000_0000_0000_0000,
    ensures
        m == rounded(big(x@) * pow2(UNIT_SCALE as nat), big(y@)),
        m <= INFINITE,
{
    let ghost x0: nat = big(x@);
    let ghost y0: nat = big(y@);
    let mut top: Vec<u32> = x;
    let mut bottom: Vec<u32> = y;
    let mut i: u128 = 0;
    let mut j: u128 = 0;
    proof {
        lemma_powers();
        assert(x0 * 1 == x0);
        assert(y0 * 1 == y0);
    }
    while less(&top, &bottom)
        invariant
            x0 > 0,
            0 < y0 < pow2(k),
            k <= 0x1_0000_0000_0000_0000_0000,
            big(bottom@) == y0,
            big(top@) == x0 * pow2(i as nat),
            pow2(i as nat) <= big(top@),
            i <= k,
        decreases (if big(top@) < y0 {
            y0 - big(top@)
        } else {
            0
        }),
    {
        proof {
            if i >= k {
                lemma_pow2_at_most(k, i as nat);
            }
            lemma_pow2_pos(i as nat);
            lemma_pow2_unfold((i + 1) as nat);
            let p: nat = pow2(i as nat);
            assert(x0 * p > 0) by (nonlinear_arith)
                requires
                    x0 > 0,
                    p > 0,
            ;
            assert(x0 * (2 * p) == (x0 * p) * 2) by (nonlinear_arith);
        }
        top = times_small(&top, 2, 0);
        i = i + 1;
    }
    let ghost x1: nat = big(top@);
    proof {
        assert(y0 * pow2(0) == y0) by (nonlinear_arith)
            requires
                pow2(0) == 1,
        ;
    }
    let mut twice: Vec<u32> = times_small(&bottom, 2, 0);
    while !less(&top, &twice)
        invariant
            big(top@) == x1,
            x1 >= y0 > 0,
            big(twice@) == 2 * big(bottom@),
            big(bottom@) == y0 * pow2(j as nat),
            pow2(j as nat) <= big(bottom@) <= x1,
            x1 == x0 * pow2(i as nat),
            x0 < pow2(k),
            i <= k,
            j <= k + i,
            k <= 0x1_0000_0000_0000_0000_0000,
        decreases x1 - big(bottom@),
    {
        proof {
            lemma_pow2_pos(i as nat);
            lemma_pow2_adds(k, i as nat);
            assert(x1 < pow2(k + i as nat)) by (nonlinear_arith)
                requires
                    x1 == x0 * pow2(i as nat),
                    x0 < pow2(k),
                    pow2(k + i as nat) == pow2(k) * pow2(i as nat),
                    pow2(i as nat) > 0,
            ;
            if j >= k + i {
                lemma_pow2_at_most(k + i as nat, j as nat);
            }
            lemma_pow2_pos(j as nat);
            lemma_pow2_unfold((j + 1) as nat);
            let p: nat = pow2(j as nat);
            assert(y0 * (2 * p) == (y0 * p) * 2) by (nonlinear_arith);
            assert(y0 * p > 0) by (nonlinear_arith)
                requires
                    y0 > 0,
                    p > 0,
            ;
        }
        bottom = twice;
        twice = times_small(&bottom, 2, 0);
        j = j + 1;
    }
    let ghost y1: nat = big(bottom@);
    let mut rest: Vec<u32> = minus(&top, &bottom);
    let mut q: u128 = 1;
    let mut t: u64 = 0;
    assert(x1 * pow2(0) == 1 * y1 + big(rest@)) by (nonlinear_arith)
        requires
            pow2(0) == 1,
            big(rest@) == x1 - y1,
    ;
    while t < 62
        invariant
            t <= 62,
            big(bottom@) == y1,
            x1 * pow2(t as nat) == q * y1 + big(rest@),
            big(rest@) < y1,
            pow2(t as nat) <= q < pow2((t + 1) as nat),
        decreases 62 - t,
    {
        proof {
            lemma_powers();
            lemma_pow2_unfold((t + 1) as nat);
            lemma_pow2_unfold((t + 2) as nat);
            lemma_pow2_at_most((t + 2) as nat, 64);
            let p: nat = pow2(t as nat);
            assert(x1 * (2 * p) == (2 * q) * y1 + 2 * big(rest@)) by (nonlinear_arith)
                requires
                    x1 * p == q * y1 + big(rest@),
            ;
            assert((2 * q + 1) * y1 == (2 * q) * y1 + y1) by (nonlinear_arith);
        }
        rest = times_small(&rest, 2, 0);
        q = 2 * q;
        if !less(&rest, &bottom) {
            rest = minus(&rest, &bottom);
            q = q + 1;
        }
        t = t + 1;
    }
    let zero: Vec<u32> = small(0);
    let inexact: bool = less(&zero, &rest);
    let ghost n: nat = x0 * pow2(UNIT_SCALE as nat);
    let ghost a: nat = (i + 62) as nat;
    let ghost b: nat = (UNIT_SCALE + j) as nat;
    proof {
        lemma_powers();
        lemma_pow2_at_most(54, 62);
        lemma_pow2_at_most(63, 127);
        lemma_pow2_pos(UNIT_SCALE as nat);
        lemma_pow2_adds(i as nat, 62);
        lemma_pow2_adds(UNIT_SCALE as nat, j as nat);
        let one: nat = pow2(UNIT_SCALE as nat);
        let r: nat = big(rest@);
        assert(n * pow2(a) == (q * y1 + r) * one) by (nonlinear_arith)
            requires
                n == x0 * one,
                pow2(a) == pow2(i as nat) * pow2(62),
                x1 == x0 * pow2(i as nat),
                x1 * pow2(62) == q * y1 + r,
        ;
        assert(y0 * pow2(b) == y1 * one) by (nonlinear_arith)
            requires
                pow2(b) == one * pow2(j as nat),
                y1 == y0 * pow2(j as nat),
        ;
        assert(q * (y1 * one) + r * one == (q * y1 + r) * one) by (nonlinear_arith);
        assert((q + 1) * (y1 * one) == q * (y1 * one) + y1 * one) by (nonlinear_arith);
        assert(r * one < y1 * one) by (nonlinear_arith)
            requires
                r < y1,
                one > 0,
        ;
        assert(r * one == 0 <==> r == 0) by (nonlinear_arith)
            requires
                one > 0,
        ;
        assert(approximates(q as nat, inexact, a, b, n, y0));
    }
    pack(q, inexact, i + 62, UNIT_SCALE as u128 + j, Ghost(n), Ghost(y0))
}

// ---------------------------------------------------------------------------
// Powers of ten
// ---------------------------------------------------------------------------

proof fn lemma_ten_to(p: nat)
    ensures
        pow2(3 * p) <= ten_to(p) <= pow2(4 * p),
        ten_to(p) > 0,
    decreases p,
{
    lemma2_to64();
    if p > 0 {
        let k: nat = (p - 1) as nat;
        lemma_ten_to(k);
        lemma_pow2_adds(3, 3 * k);
        lemma_pow2_adds(4, 4 * k);
        assert(3 * p == 3 + 3 * k);
        assert(4 * p == 4 + 4 * k);
    }
}

proof fn lemma_ten_to_adds(a: nat, b: nat)
    ensures
        ten_to(a + b) == ten_to(a) * ten_to(b),
    decreases a,
{
    if a == 0 {
        assert(1 * ten_to(b) == ten_to(b));
    } else {
        lemma_ten_to_adds((a - 1) as nat, b);
        assert(ten_to(a + b) == 10 * ten_to((a - 1 + b) as nat));
        let x: nat = ten_to((a - 1) as nat);
        assert(10 * (x * ten_to(b)) == (10 * x) * ten_to(b)) by (nonlinear_arith);
    }
}

proof fn lemma_ten_to_at_most(a: nat, b: nat)
    requires
        a <= b,
    ensures
        ten_to(a) <= ten_to(b),
    decreases b,
{
    if a < b {
        lemma_ten_to_at_most(a, (b - 1) as nat);
    }
}

proof fn lemma_value_below(s: Seq<char>)
    requires
        all_digits(s),
    ensures
        decimal_value(s) < ten_to(s.len()),
    decreases s.len(),
{
    if s.len() > 0 {
        assert(all_digits(s.drop_last())) by {
            assert forall|i: int| 0 <= i < s.drop_last().len() implies is_digit(
                #[trigger] s.drop_last()[i],
            ) by {
                assert(is_digit(s[i]));
            }
        }
        lemma_value_below(s.drop_last());
        assert(is_digit(s[s.len() - 1]));
    }
}

/// `v * 10^p`.
fn times_ten_to(v: Vec<u32>, p: u128) -> (r: Vec<u32>)
    ensures
        big(r@) == big(v@) * ten_to(p as nat),
{
    let ghost start: nat = big(v@);
    let mut r: Vec<u32> = v;
    let mut i: u128 = 0;
    assert(start * ten_to(0) == start) by {
        assert(ten_to(0) == 1);
        assert(start * 1 == start);
    }
    while i < p
        invariant
            i <= p,
            big(r@) == start * ten_to(i as nat),
        decreases p - i,
    {
        r = times_small(&r, 10, 0);
        i = i + 1;
        proof {
            let t: nat = ten_to((i - 1) as nat);
            assert((start * t) * 10 == start * (10 * t)) by (nonlinear_arith);
        }
    }
    r
}

// ---------------------------------------------------------------------------
// Reading
// ---------------------------------------------------------------------------

fn is_digit_char(c: char) -> (r: bool)
    ensures
        r == is_digit(c),
{
    let n: u32 = c as u32;
    48 <= n && n <= 57
}

fn are_digits(v: &Vec<char>) -> (r: bool)
    ensures
        r == all_digits(v@),
{
    let mut i: usize = 0;
    while i < v.len()
        invariant
            i <= v.len(),
            forall|k: int| 0 <= k < i ==> is_digit(#[trigger] v@[k]),
        decreases v.len() - i,
    {
        if !is_digit_char(v[i]) {
            assert(!is_digit(v@[i as int]));
            return false;
        }
        i = i + 1;
    }
    true
}

fn natural(v: &Vec<char>) -> (r: Vec<u32>)
    requires
        all_digits(v@),
    ensures
        big(r@) == decimal_value(v@),
{
    let mut r: Vec<u32> = small(0);
    let mut i: usize = 0;
    assert(v@.take(0) =~= Seq::<char>::empty());
    while i < v.len()
        invariant
            i <= v.len(),
            all_digits(v@),
            big(r@) == decimal_value(v@.take(i as int)),
        decreases v.len() - i,
    {
        assert(is_digit(v@[i as int]));
        assert(v@.take(i + 1).drop_last() =~= v@.take(i as int));
        let d: u32 = v[i] as u32 - 48;
        assert(d == digit_value(v@[i as int]));
        r = times_small(&r, 10, d);
        i = i + 1;
    }
    assert(v@.take(v@.len() as int) =~= v@);
    r
}

/// Larger than any exponent that matters.
pub const EXPONENT_LIMIT: u128 = 0x10_0000_0000_0000_0000_0000_0000;

/// The value of decimal digits, or `EXPONENT_LIMIT` where it is no smaller.
fn limited(v: &Vec<char>) -> (r: u128)
    requires
        all_digits(v@),
    ensures
        r == (if decimal_value(v@) < EXPONENT_LIMIT {
            decimal_value(v@)
        } else {
            EXPONENT_LIMIT as nat
        }),
{
    let mut r: u128 = 0;
    let mut i: usize = 0;
    assert(v@.take(0) =~= Seq::<char>::empty());
    while i < v.len()
        invariant
            i <= v.len(),
            all_digits(v@),
            r == (if decimal_value(v@.take(i as int)) < EXPONENT_LIMIT {
                decimal_value(v@.take(i as int))
            } else {
                EXPONENT_LIMIT as nat
            }),
        decreases v.len() - i,
    {
        assert(is_digit(v@[i as int]));
        assert(v@.take(i + 1).drop_last() =~= v@.take(i as int));
        let d: u32 = v[i] as u32 - 48;
        let next: u128 = r * 10 + d as u128;
        r = if next < EXPONENT_LIMIT {
            next
        } else {
            EXPONENT_LIMIT
        };
        i = i + 1;
    }
    assert(v@.take(v@.len() as int) =~= v@);
    r
}

/// The characters from place `from` up to place `to`.
fn slice_of(v: &Vec<char>, from: usize, to: usize) -> (r: Vec<char>)
    requires
        from <= to <= v.len(),
    ensures
        r@ == v@.subrange(from as int, to as int),
{
    let mut r: Vec<char> = Vec::new();
    let mut i: usize = from;
    while i < to
        invariant
            from <= i <= to <= v.len(),
            r@ == v@.subrange(from as int, i as int),
        decreases to - i,
    {
        r.push(v[i]);
        i = i + 1;
        assert(v@.subrange(from as int, i as int) =~= v@.subrange(from as int, i - 1).push(
            v@[i - 1],
        ));
    }
    r
}

/// The text without a sign at its front.
fn drop_sign(v: &Vec<char>) -> (r: Vec<char>)
    ensures
        r@ == unsigned(v@),
{
    let n: usize = v.len();
    let from: usize = if n > 0 && (v[0] == '-' || v[0] == '+') {
        1
    } else {
        0
    };
    assert(v@.subrange(1, v@.len() as int) =~= v@.skip(1) || v@.len() == 0);
    assert(v@.subrange(0, v@.len() as int) =~= v@);
    slice_of(v, from, n)
}

/// The integer that a text stands for, cut off at `EXPONENT_LIMIT` on either side.
fn exponent_of(v: &Vec<char>) -> (r: Option<i128>)
    ensures
        match (r, read_integer(v@)) {
            (Some(e), Some(x)) => e == (if x >= EXPONENT_LIMIT {
                EXPONENT_LIMIT as int
            } else if x <= -EXPONENT_LIMIT {
                -EXPONENT_LIMIT
            } else {
                x
            }),
            (None, None) => true,
            _ => false,
        },
{
    let digits: Vec<char> = drop_sign(v);
    if digits.len() == 0 || !are_digits(&digits) {
        return None;
    }
    let e: u128 = limited(&digits);
    if v.len() > 0 && v[0] == '-' {
        Some(-(e as i128))
    } else {
        Some(e as i128)
    }
}

/// The magnitude of the double nearest to `n * 10^e`, for `n` of `len` digits.
fn scaled(digits: &Vec<char>, e: i128, Ghost(exact): Ghost<int>) -> (m: u64)
    requires
        all_digits(digits@),
        e == exact || (e >= 0x1_0000_0000_0000_0000_0000 && exact >= e) || (e
            <= -0x1_0000_0000_0000_0000_0000 && exact <= e),
        -EXPONENT_LIMIT - 0x1_0000_0000_0000_0000 <= e <= EXPONENT_LIMIT,
    ensures
        m == scientific(decimal_value(digits@), exact),
        m <= INFINITE,
{
    let n: Vec<u32> = natural(digits);
    let zero: Vec<u32> = small(0);
    let ghost value: nat = decimal_value(digits@);
    let ghost one: nat = pow2(UNIT_SCALE as nat);
    let len: usize = digits.len();
    proof {
        lemma_value_below(digits@);
        lemma_pow2_pos(UNIT_SCALE as nat);
        lemma_ten_to(len as nat);
        if exact >= 0 {
            lemma_ten_to(exact as nat);
        } else {
            lemma_ten_to((-exact) as nat);
        }
    }
    if !less(&zero, &n) {
        proof {
            if exact >= 0 {
                let t: nat = ten_to(exact as nat);
                assert(value * t * one == 0) by (nonlinear_arith)
                    requires
                        value == 0,
                ;
                lemma_zero_rounds_to_zero(1);
            } else {
                assert(value * one == 0) by (nonlinear_arith)
                    requires
                        value == 0,
                ;
                lemma_zero_rounds_to_zero(ten_to((-exact) as nat));
            }
        }
        return 0;
    }
    if e >= 342 {
        proof {
            let t: nat = ten_to(exact as nat);
            lemma_pow2_at_most(1026, (3 * exact) as nat);
            lemma_pow2_adds(1026, 1074);
            lemma_pow2_at_most(2099, 2100);
            assert(value * t * one >= pow2(2100)) by (nonlinear_arith)
                requires
                    value >= 1,
                    t >= pow2(1026),
                    pow2(2100) == pow2(1026) * one,
            ;
            assert(1 * pow2(2099) == pow2(2099));
            lemma_too_large(value * t * one, 1);
        }
        return INFINITE;
    }
    if e <= -(len as i128) - 359 {
        proof {
            let d: nat = ten_to((-exact) as nat);
            lemma_ten_to(359);
            lemma_ten_to_adds(len as nat, 359);
            lemma_ten_to_at_most((len + 359) as nat, (-exact) as nat);
            lemma_pow2_unfold(1075);
            lemma_pow2_at_most(1075, 1077);
            assert(2 * (value * one) < d) by (nonlinear_arith)
                requires
                    value < ten_to(len as nat),
                    2 * one <= ten_to(359),
                    ten_to(len as nat) * ten_to(359) <= d,
                    one > 0,
            ;
            lemma_too_small(value * one, d);
        }
        return 0;
    }
    assert(exact == e);
    if e >= 0 {
        let x: Vec<u32> = times_ten_to(n, e as u128);
        let y: Vec<u32> = small(1);
        let ghost k: nat = (4 * (len + e) + 1) as nat;
        proof {
            let t: nat = ten_to(e as nat);
            lemma_ten_to_adds(len as nat, e as nat);
            lemma_ten_to((len + e) as nat);
            lemma_pow2_unfold(k);
            lemma_pow2_pos((k - 1) as nat);
            assert(0 < value * t < ten_to(len as nat) * t) by (nonlinear_arith)
                requires
                    0 < value < ten_to(len as nat),
                    t > 0,
            ;
        }
        ratio(x, y, Ghost(k))
    } else {
        let p: u128 = (-e) as u128;
        let y: Vec<u32> = times_ten_to(small(1), p);
        let ghost k: nat = (4 * (len + p) + 1) as nat;
        proof {
            assert(1 * ten_to(p as nat) == ten_to(p as nat));
            lemma_ten_to(p as nat);
            lemma_pow2_at_most((4 * len) as nat, k);
            lemma_pow2_unfold(k);
            lemma_pow2_at_most((4 * p) as nat, (k - 1) as nat);
            lemma_pow2_pos((k - 1) as nat);
        }
        ratio(n, y, Ghost(k))
    }
}

/// What stands behind the point of a mantissa.
spec fn decimals(mantissa: Seq<char>) -> Seq<char> {
    let p = first_place(mantissa, '.');
    if p < mantissa.len() {
        mantissa.skip(p + 1)
    } else {
        Seq::<char>::empty()
    }
}

/// The digits of a mantissa, and how many of them stand behind its point.
fn digits_of(mantissa: &Vec<char>) -> (r: (Vec<char>, usize))
    ensures
        r.0@ == mantissa@.take(first_place(mantissa@, '.')) + decimals(mantissa@),
        r.1 == decimals(mantissa@).len(),
        0 <= first_place(mantissa@, '.') <= mantissa@.len(),
{
    let mut p: usize = 0;
    assert(mantissa@.skip(0) =~= mantissa@);
    while p < mantissa.len() && mantissa[p] != '.'
        invariant
            p <= mantissa.len(),
            first_place(mantissa@, '.') == p + first_place(mantissa@.skip(p as int), '.'),
        decreases mantissa.len() - p,
    {
        assert(mantissa@.skip(p as int).skip(1) =~= mantissa@.skip(p + 1));
        p = p + 1;
    }
    let ghost whole = mantissa@.take(p as int);
    let ghost part = decimals(mantissa@);
    let mut digits: Vec<char> = slice_of(mantissa, 0, p);
    assert(digits@ =~= whole);
    let places: usize = if p < mantissa.len() {
        mantissa.len() - p - 1
    } else {
        0
    };
    let mut i: usize = 0;
    while i < places
        invariant
            i <= places,
            places == part.len(),
            places > 0 ==> p < mantissa.len() && part == mantissa@.skip(p + 1),
            p <= mantissa.len(),
            digits@ == whole + part.take(i as int),
        decreases places - i,
    {
        digits.push(mantissa[p + 1 + i]);
        i = i + 1;
        assert(whole + part.take(i as int) =~= (whole + part.take(i - 1)).push(part[i - 1]));
    }
    assert(digits@ =~= whole + part);
    (digits, places)
}

fn find_exponent(v: &Vec<char>) -> (x: usize)
    ensures
        x <= v.len(),
        x == exponent_place(v@),
{
    let mut x: usize = 0;
    assert(v@.skip(0) =~= v@);
    while x < v.len() && v[x] != 'e' && v[x] != 'E'
        invariant
            x <= v.len(),
            exponent_place(v@) == x + exponent_place(v@.skip(x as int)),
        decreases v.len() - x,
    {
        assert(v@.skip(x as int).skip(1) =~= v@.skip(x + 1));
        x = x + 1;
    }
    x
}

fn magnitude_of(v: &Vec<char>) -> (r: Option<u64>)
    ensures
        match (r, read_magnitude(v@)) {
            (Some(m), Some(x)) => m == x && m <= INFINITE,
            (None, None) => true,
            _ => false,
        },
{
    let n: usize = v.len();
    let x: usize = find_exponent(v);
    let mantissa: Vec<char> = slice_of(v, 0, x);
    assert(mantissa@ =~= v@.take(x as int));
    let (digits, places): (Vec<char>, usize) = digits_of(&mantissa);
    if digits.len() == 0 || !are_digits(&digits) {
        return None;
    }
    if x < n {
        let tail: Vec<char> = slice_of(v, x + 1, n);
        assert(tail@ =~= v@.skip(x + 1));
        match exponent_of(&tail) {
            Some(e) => {
                let ghost exact: int = read_integer(tail@)->0 - places;
                Some(scaled(&digits, e - places as i128, Ghost(exact)))
            },
            None => None,
        }
    } else {
        let ghost exact: int = -(places as int);
        Some(scaled(&digits, -(places as i128), Ghost(exact)))
    }
}

/// The number that a text stands for: `inf`, `infinity` or `nan` in any case of
/// letters, or decimal digits with at most one point and an optional exponent, all
/// behind an optional sign. The number is the double nearest to what is written.
pub fn parse_double(s: &str) -> (r: Option<Double>)
    ensures
        r == read_double(s@),
{
    let v: Vec<char> = chars_of(s);
    let negative: bool = v.len() > 0 && v[0] == '-';
    let body: Vec<char> = drop_sign(&v);
    let n: usize = body.len();
    let word: String = text_of(&body, 0, n);
    assert(word@ =~= body@);
    if same_ignoring_case(word.as_str(), "inf") || same_ignoring_case(word.as_str(), "infinity") {
        return Some(Double::of_parts(negative, INFINITE));
    }
    if same_ignoring_case(word.as_str(), "nan") {
        return Some(Double::of_parts(negative, QUIET));
    }
    match magnitude_of(&body) {
        Some(m) => Some(Double::of_parts(negative, m)),
        None => None,
    }
}

/// The 64-bit integer that a text stands for: decimal digits behind an optional sign.
pub fn parse_i64(s: &str) -> (r: Option<i64>)
    ensures
        match r {
            Some(n) => read_integer(s@) == Some(n as int),
            None => read_integer(s@) is None || !(i64::MIN <= read_integer(s@)->0 <= i64::MAX),
        },
{
    let v: Vec<char> = chars_of(s);
    match exponent_of(&v) {
        Some(e) => {
            if -0x8000_0000_0000_0000 <= e && e <= 0x7fff_ffff_ffff_ffff {
                Some(e as i64)
            } else {
                None
            }
        },
        None => None,
    }
}

/// What is written in decimal digits is read back, with its sign.
pub proof fn law_written_integers_are_read_back(n: nat)
    ensures
        read_integer(decimal(n)) == Some(n as int),
        read_integer(seq!['-'] + decimal(n)) == Some(-(n as int)),
        read_integer(seq!['+'] + decimal(n)) == Some(n as int),
{
    crate::text::law_decimals_stand_for_their_number(n);
    assert(is_digit(decimal(n)[0]));
    assert((seq!['-'] + decimal(n)).skip(1) =~= decimal(n));
    assert((seq!['+'] + decimal(n)).skip(1) =~= decimal(n));
}

proof fn lemma_digits_have_no_marks(s: Seq<char>)
    requires
        all_digits(s),
    ensures
        exponent_place(s) == s.len(),
        first_place(s, '.') == s.len(),
    decreases s.len(),
{
    if s.len() > 0 {
        assert(is_digit(s[0]));
        assert forall|i: int| 0 <= i < s.skip(1).len() implies is_digit(#[trigger] s.skip(1)[i]) by {
            assert(is_digit(s[i + 1]));
        }
        lemma_digits_have_no_marks(s.skip(1));
    }
}

/// What is written in decimal digits is read as the nearest number, with its sign.
pub proof fn law_written_numbers_are_read_back(n: nat)
    ensures
        read_double(decimal(n)) == Some(crate::double::of_int(n as int)),
        n > 0 ==> read_double(seq!['-'] + decimal(n)) == Some(crate::double::of_int(-(n as int))),
{
    let s = decimal(n);
    crate::text::law_decimals_stand_for_their_number(n);
    assert(is_digit(s[0]));
    assert((seq!['-'] + s).skip(1) =~= s);
    reveal_strlit("inf");
    reveal_strlit("infinity");
    reveal_strlit("nan");
    assert(crate::text::lowered(s)[0] == s[0]);
    assert(crate::text::lowered("inf"@)[0] == 'i');
    assert(crate::text::lowered("infinity"@)[0] == 'i');
    assert(crate::text::lowered("nan"@)[0] == 'n');
    lemma_digits_have_no_marks(s);
    assert(s.take(s.len() as int) =~= s);
    assert(s + Seq::<char>::empty() =~= s);
    assert(ten_to(0) == 1);
    assert(n * 1 == n);
}

} // verus!
