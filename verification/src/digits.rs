//! Numbers written out in decimal digits.

use vstd::arithmetic::div_mod::*;
use vstd::arithmetic::power2::*;
use vstd::prelude::*;
use vstd::string::StringExecFns;

use crate::double::lemma_rounded_scaled;
use crate::double::lemma_rounding_keeps_doubles;
use crate::double::nearest_even;
use crate::double::not_a_number;
use crate::double::signed;
use crate::double::Double;
use crate::double::UNIT_SCALE;
use crate::reader::exponent_place;
use crate::reader::read_double;
use crate::reader::scientific;
use crate::reader::unsigned;
use crate::text::all_digits;
use crate::text::decimal;
use crate::text::decimal_text;
use crate::text::decimal_value;
use crate::text::digit;
use crate::text::first_place;
use crate::text::is_digit;
use crate::text::lowered;

verus! {

/// `10^p`.
pub open spec fn ten_to(p: nat) -> nat
    decreases p,
{
    if p == 0 {
        1
    } else {
        10 * ten_to((p - 1) as nat)
    }
}

/// The last `width` decimal digits of a number.
pub open spec fn padded(n: nat, width: nat) -> Seq<char>
    decreases width,
{
    if width == 0 {
        Seq::<char>::empty()
    } else {
        padded(n / 10, (width - 1) as nat).push(digit(n % 10))
    }
}

/// A point and the last `places` decimal digits; nothing where there are no places.
pub open spec fn fraction(n: nat, places: nat) -> Seq<char> {
    if places == 0 {
        Seq::<char>::empty()
    } else {
        "."@ + padded(n, places)
    }
}

/// The minus sign of a negative number.
pub open spec fn sign_text(negative: bool) -> Seq<char> {
    if negative {
        "-"@
    } else {
        Seq::<char>::empty()
    }
}

/// A number with `places` decimal places: the nearest one, of two equally near the
/// one with an even last digit.
pub open spec fn fixed(x: Double, places: nat) -> Seq<char> {
    if x.nan() {
        "NaN"@
    } else if x.infinite() {
        sign_text(x.negative()) + "inf"@
    } else {
        let n = nearest_even(x.units() * ten_to(places), pow2(UNIT_SCALE as nat));
        sign_text(x.negative()) + decimal(n / ten_to(places)) + fraction(
            n % ten_to(places),
            places,
        )
    }
}

/// The value of decimal digits, the last one first.
spec fn value_of(s: Seq<u8>) -> nat
    decreases s.len(),
{
    if s.len() == 0 {
        0
    } else {
        s[0] as nat + 10 * value_of(s.skip(1))
    }
}

spec fn proper(s: Seq<u8>) -> bool {
    forall|i: int| 0 <= i < s.len() ==> #[trigger] s[i] < 10
}

proof fn lemma_value_pushed(s: Seq<u8>, d: u8)
    ensures
        value_of(s.push(d)) == value_of(s) + d * ten_to(s.len()),
    decreases s.len(),
{
    if s.len() == 0 {
        assert(s.push(d).skip(1) =~= Seq::<u8>::empty());
        assert(value_of(s.push(d).skip(1)) == 0);
        assert(ten_to(0) == 1);
        assert(d * 1 == d);
    } else {
        assert(s.push(d).skip(1) =~= s.skip(1).push(d));
        lemma_value_pushed(s.skip(1), d);
        let t: nat = ten_to(s.skip(1).len());
        assert(10 * (d * t) == d * (10 * t)) by (nonlinear_arith);
    }
}

/// Digits multiplied by a number of one digit.
fn multiplied(v: &Vec<u8>, m: u8) -> (r: Vec<u8>)
    requires
        proper(v@),
        v.len() > 0,
        v@.last() > 0,
        0 < m < 10,
    ensures
        proper(r@),
        r.len() > 0,
        r@.last() > 0,
        value_of(r@) == m * value_of(v@),
{
    let mut r: Vec<u8> = Vec::new();
    let mut carry: u8 = 0;
    let mut i: usize = 0;
    assert(v@.take(0) =~= Seq::<u8>::empty());
    assert(value_of(v@.take(0)) == 0);
    assert(m * 0 == 0);
    while i < v.len()
        invariant
            i <= v.len(),
            proper(v@),
            proper(r@),
            r.len() == i,
            0 < m < 10,
            carry < m,
            value_of(r@) + carry * ten_to(i as nat) == m * value_of(v@.take(i as int)),
            i > 0 ==> v@[i - 1] > 0 ==> r@[i - 1] > 0 || carry > 0,
        decreases v.len() - i,
    {
        let d: u8 = v[i];
        assert(v@[i as int] < 10);
        assert(m * d + carry < 10 * m) by (nonlinear_arith)
            requires
                d <= 9,
                carry < m,
        ;
        assert(m * d >= m || d == 0) by (nonlinear_arith);
        let wide: u8 = m * d + carry;
        let low: u8 = wide % 10;
        let high: u8 = wide / 10;
        proof {
            lemma_value_pushed(r@, low);
            lemma_value_pushed(v@.take(i as int), d);
            assert(v@.take(i + 1) =~= v@.take(i as int).push(d));
            let t: nat = ten_to(i as nat);
            assert(ten_to((i + 1) as nat) == 10 * t);
            assert(low * t + high * (10 * t) == m * (d * t) + carry * t) by (nonlinear_arith)
                requires
                    low + 10 * high == m * d + carry,
            ;
            let before: nat = value_of(v@.take(i as int));
            assert(m * (before + d * t) == m * before + m * (d * t)) by (nonlinear_arith);
        }
        r.push(low);
        carry = high;
        i = i + 1;
    }
    assert(v@.take(v@.len() as int) =~= v@);
    if carry > 0 {
        proof {
            lemma_value_pushed(r@, carry);
        }
        r.push(carry);
    } else {
        assert(0 * ten_to(i as nat) == 0);
    }
    r
}

/// `5^p`.
pub open spec fn five_to(p: nat) -> nat
    decreases p,
{
    if p == 0 {
        1
    } else {
        5 * five_to((p - 1) as nat)
    }
}

/// The digits of a positive number.
fn digits_of(n: u64) -> (r: Vec<u8>)
    requires
        n > 0,
    ensures
        proper(r@),
        r.len() > 0,
        r@.last() > 0,
        value_of(r@) == n,
{
    let mut r: Vec<u8> = Vec::new();
    let mut rest: u64 = n;
    assert(ten_to(0) == 1);
    assert(rest * 1 == rest);
    while rest > 0
        invariant
            proper(r@),
            n > 0,
            r.len() == 0 ==> rest == n,
            value_of(r@) + rest * ten_to(r@.len()) == n,
            rest == 0 ==> r.len() > 0 && r@.last() > 0,
        decreases rest,
    {
        let d: u8 = (rest % 10) as u8;
        proof {
            lemma_value_pushed(r@, d);
            let t: nat = ten_to(r@.len());
            let q: int = rest as int / 10;
            assert(d * t + q * (10 * t) == rest * t) by (nonlinear_arith)
                requires
                    rest == 10 * q + d,
            ;
        }
        r.push(d);
        rest = rest / 10;
    }
    assert(0 * ten_to(r@.len()) == 0);
    r
}

spec fn written(s: Seq<u8>) -> Seq<char>
    decreases s.len(),
{
    if s.len() == 0 {
        Seq::<char>::empty()
    } else {
        written(s.skip(1)).push(digit(s[0] as nat))
    }
}

proof fn lemma_written(s: Seq<u8>)
    requires
        proper(s),
        s.len() > 0,
        s.last() > 0,
    ensures
        value_of(s) > 0,
        written(s) == decimal(value_of(s)),
    decreases s.len(),
{
    if s.len() == 1 {
        assert(s.skip(1) =~= Seq::<u8>::empty());
        assert(written(s.skip(1)) =~= Seq::<char>::empty());
        assert(value_of(s.skip(1)) == 0);
        assert(written(s) =~= seq![digit(s[0] as nat)]);
    } else {
        assert(s.skip(1).last() == s.last());
        lemma_written(s.skip(1));
        assert(s[0] < 10);
    }
}

fn digit_of(d: u8) -> (r: char)
    requires
        d < 10,
    ensures
        r == digit(d as nat),
{
    match d {
        0 => '0',
        1 => '1',
        2 => '2',
        3 => '3',
        4 => '4',
        5 => '5',
        6 => '6',
        7 => '7',
        8 => '8',
        _ => '9',
    }
}

/// Digits written as a text.
fn digits_text(v: &Vec<u8>) -> (r: String)
    requires
        proper(v@),
        v.len() > 0,
        v@.last() > 0,
    ensures
        r@ == decimal(value_of(v@)),
{
    let mut r = String::new();
    let mut j: usize = v.len();
    assert(v@.skip(v@.len() as int) =~= Seq::<u8>::empty());
    while j > 0
        invariant
            j <= v.len(),
            proper(v@),
            r@ == written(v@.skip(j as int)),
        decreases j,
    {
        assert(v@.skip(j - 1).skip(1) =~= v@.skip(j as int));
        assert(v@[j - 1] < 10);
        r.push(digit_of(v[j - 1]));
        j = j - 1;
    }
    proof {
        assert(v@.skip(0) =~= v@);
        lemma_written(v@);
    }
    r
}

/// `g * 2^k` in decimal digits.
fn large_text(g: u64, k: u64) -> (r: String)
    requires
        g > 0,
    ensures
        r@ == decimal((g * pow2(k as nat)) as nat),
{
    let mut v: Vec<u8> = digits_of(g);
    let mut i: u64 = 0;
    proof {
        lemma2_to64();
        assert(g * pow2(0) == g);
    }
    while i < k
        invariant
            i <= k,
            proper(v@),
            v.len() > 0,
            v@.last() > 0,
            value_of(v@) == g * pow2(i as nat),
        decreases k - i,
    {
        v = multiplied(&v, 2);
        i = i + 1;
        proof {
            lemma_pow2_unfold(i as nat);
            let p: nat = pow2((i - 1) as nat);
            assert(g * (2 * p) == 2 * (g * p)) by (nonlinear_arith);
        }
    }
    digits_text(&v)
}

/// `g * 5^k` in decimal digits.
fn fivefold_text(g: u64, k: u64) -> (r: String)
    requires
        g > 0,
    ensures
        r@ == decimal((g * five_to(k as nat)) as nat),
{
    let mut v: Vec<u8> = digits_of(g);
    let mut i: u64 = 0;
    assert(g * five_to(0) == g) by {
        assert(five_to(0) == 1);
        assert(g * 1 == g);
    }
    while i < k
        invariant
            i <= k,
            proper(v@),
            v.len() > 0,
            v@.last() > 0,
            value_of(v@) == g * five_to(i as nat),
        decreases k - i,
    {
        v = multiplied(&v, 5);
        i = i + 1;
        proof {
            let p: nat = five_to((i - 1) as nat);
            assert(g * (5 * p) == 5 * (g * p)) by (nonlinear_arith);
        }
    }
    digits_text(&v)
}

/// The last `width` decimal digits of a number.
fn padded_text(n: u64, width: u64) -> (r: String)
    ensures
        r@ == padded(n as nat, width as nat),
    decreases width,
{
    if width == 0 {
        return String::new();
    }
    let mut r = padded_text(n / 10, width - 1);
    r.push(digit_of((n % 10) as u8));
    r
}

fn power_of_ten(p: u64) -> (r: u64)
    requires
        p <= 6,
    ensures
        r == ten_to(p as nat),
        0 < r <= 1_000_000,
{
    proof {
        reveal_with_fuel(ten_to, 7);
    }
    match p {
        0 => 1,
        1 => 10,
        2 => 100,
        3 => 1_000,
        4 => 10_000,
        5 => 100_000,
        _ => 1_000_000,
    }
}

/// A number with at most six decimal places.
pub fn fixed_text(x: Double, places: u64) -> (r: String)
    requires
        places <= 6,
    ensures
        r@ == fixed(x, places as nat),
{
    if x.is_nan() {
        return "NaN".to_owned();
    }
    let mut r = if x.is_negative() {
        "-".to_owned()
    } else {
        String::new()
    };
    if !x.is_finite() {
        r.append("inf");
        return r;
    }
    let m: u64 = power_of_ten(places);
    if x.is_large() {
        let (g, k): (u64, u64) = x.whole_parts();
        let ghost one: nat = pow2(UNIT_SCALE as nat);
        let ghost w: nat = (g * pow2(k as nat)) as nat;
        proof {
            lemma_pow2_pos(UNIT_SCALE as nat);
            lemma_pow2_pos(k as nat);
            let n: nat = w * m as nat;
            assert(x.units() * m as nat == n * one + 0) by (nonlinear_arith)
                requires
                    x.units() == w * one,
                    n == w * m,
            ;
            lemma_fundamental_div_mod_converse(
                (x.units() * m as nat) as int,
                one as int,
                n as int,
                0,
            );
            lemma_fundamental_div_mod_converse(n as int, m as int, w as int, 0);
        }
        if g == 0 {
            assert(w == 0) by (nonlinear_arith)
                requires
                    w == g * pow2(k as nat),
                    g == 0,
            ;
            r.append(decimal_text(0).as_str());
        } else {
            r.append(large_text(g, k).as_str());
        }
        if places > 0 {
            r.append(".");
            r.append(padded_text(0, places).as_str());
        }
        return r;
    }
    let n: u128 = x.scaled_even(m);
    let whole: u128 = n / (m as u128);
    let part: u128 = n % (m as u128);
    assert(whole <= 0x20_0000_0000_0000) by (nonlinear_arith)
        requires
            n <= 0x20_0000_0000_0000 * m,
            whole == n / (m as u128),
            m > 0,
    ;
    r.append(decimal_text(whole as u64).as_str());
    if places > 0 {
        r.append(".");
        r.append(padded_text(part as u64, places).as_str());
    }
    r
}


/// A number, or the one NaN there is a name for.
pub open spec fn plain(x: Double) -> Double {
    if x.nan() {
        not_a_number()
    } else {
        x
    }
}

proof fn lemma_decimal(n: nat)
    ensures
        decimal(n).len() > 0,
        all_digits(decimal(n)),
        decimal_value(decimal(n)) == n,
    decreases n,
{
    reveal_with_fuel(decimal_value, 2);
    if n < 10 {
        assert(seq![digit(n)].drop_last() =~= Seq::<char>::empty());
        assert(seq![digit(n)].last() == digit(n));
        assert forall|i: int| 0 <= i < decimal(n).len() implies is_digit(
            #[trigger] decimal(n)[i],
        ) by {
            assert(decimal(n)[i] == digit(n));
        }
    } else {
        lemma_decimal(n / 10);
        assert(decimal(n).drop_last() =~= decimal(n / 10));
        assert forall|i: int| 0 <= i < decimal(n).len() implies is_digit(
            #[trigger] decimal(n)[i],
        ) by {
            if i < decimal(n).len() - 1 {
                assert(decimal(n)[i] == decimal(n / 10)[i]);
            }
        }
    }
}

proof fn lemma_exponent_place(d: Seq<char>, rest: Seq<char>)
    requires
        all_digits(d),
        rest.len() == 0 || rest[0] == 'e',
    ensures
        exponent_place(d + rest) == d.len(),
        first_place(d, '.') == d.len(),
    decreases d.len(),
{
    if d.len() == 0 {
        assert(d + rest =~= rest);
    } else {
        assert(is_digit(d[0]));
        assert((d + rest).skip(1) =~= d.skip(1) + rest);
        assert forall|i: int| 0 <= i < d.skip(1).len() implies is_digit(
            #[trigger] d.skip(1)[i],
        ) by {
            assert(is_digit(d[i + 1]));
        }
        lemma_exponent_place(d.skip(1), rest);
    }
}

/// Reading a number that is written with or without an exponent.
proof fn lemma_reads(sign: bool, n: nat, k: nat, scaled: bool, s: Seq<char>)
    requires
        s == sign_text(sign) + decimal(n) + (if scaled {
            "e-"@ + decimal(k)
        } else {
            Seq::<char>::empty()
        }),
    ensures
        read_double(s) == Some(
            signed(
                sign,
                scientific(
                    n,
                    if scaled {
                        -k
                    } else {
                        0
                    },
                ),
            ),
        ),
{
    reveal_strlit("-");
    reveal_strlit("e-");
    reveal_strlit("inf");
    reveal_strlit("infinity");
    reveal_strlit("nan");
    let d = decimal(n);
    let rest = if scaled {
        "e-"@ + decimal(k)
    } else {
        Seq::<char>::empty()
    };
    lemma_decimal(n);
    lemma_decimal(k);
    assert(is_digit(d[0]));
    let body = d + rest;
    assert(s[0] == (if sign {
        '-'
    } else {
        d[0]
    }));
    if sign {
        assert(s.skip(1) =~= body);
    } else {
        assert(s =~= body);
    }
    assert(unsigned(s) == body);
    assert(body[0] == d[0]);
    assert(lowered(body)[0] == d[0]);
    assert(lowered("inf"@)[0] == 'i');
    assert(lowered("infinity"@)[0] == 'i');
    assert(lowered("nan"@)[0] == 'n');
    lemma_exponent_place(d, rest);
    assert(body.take(d.len() as int) =~= d);
    assert(d.take(d.len() as int) =~= d);
    assert(d + Seq::<char>::empty() =~= d);
    if scaled {
        let tail = body.skip(d.len() as int + 1);
        assert(tail =~= "-"@ + decimal(k));
        assert(tail.skip(1) =~= decimal(k));
    }
}

proof fn lemma_powers_of_ten(k: nat)
    ensures
        ten_to(k) == five_to(k) * pow2(k),
        ten_to(k) > 0,
        five_to(k) > 0,
    decreases k,
{
    lemma2_to64();
    if k > 0 {
        let j: nat = (k - 1) as nat;
        lemma_powers_of_ten(j);
        lemma_pow2_unfold(k);
        let (f, p): (nat, nat) = (five_to(j), pow2(j));
        assert(10 * (f * p) == (5 * f) * (2 * p)) by (nonlinear_arith);
    }
}

/// A number written out so that reading it gives it back.
pub fn exact_text(x: Double) -> (r: String)
    ensures
        read_double(r@) == Some(plain(x)),
{
    if x.is_nan() {
        proof {
            reveal_strlit("NaN");
            reveal_strlit("nan");
            reveal_strlit("inf");
            reveal_strlit("infinity");
            assert(lowered("NaN"@) =~= lowered("nan"@));
            assert(unsigned("NaN"@) == "NaN"@);
            assert(lowered("NaN"@)[0] == 'n');
            assert(lowered("inf"@)[0] == 'i');
            assert(lowered("infinity"@)[0] == 'i');
        }
        return "NaN".to_owned();
    }
    let negative: bool = x.is_negative();
    let mut r = if negative {
        "-".to_owned()
    } else {
        String::new()
    };
    assert(r@ == sign_text(negative));
    if !x.is_finite() {
        r.append("inf");
        proof {
            reveal_strlit("-");
            reveal_strlit("inf");
            if negative {
                assert(r@.skip(1) =~= "inf"@);
            } else {
                assert(r@ =~= "inf"@);
            }
        }
        return r;
    }
    let ghost one: nat = pow2(UNIT_SCALE as nat);
    proof {
        lemma_pow2_pos(UNIT_SCALE as nat);
        lemma_rounding_keeps_doubles(x);
    }
    if x.is_large() {
        let (g, k): (u64, u64) = x.whole_parts();
        let ghost w: nat = (g * pow2(k as nat)) as nat;
        if g == 0 {
            assert(w == 0) by (nonlinear_arith)
                requires
                    w == g * pow2(k as nat),
                    g == 0,
            ;
            r.append(decimal_text(0).as_str());
        } else {
            r.append(large_text(g, k).as_str());
        }
        proof {
            assert(r@ =~= sign_text(negative) + decimal(w) + Seq::<char>::empty());
            lemma_reads(negative, w, 0, false, r@);
            assert(ten_to(0) == 1);
            assert(w * 1 == w);
        }
        return r;
    }
    let (g, k): (u64, u64) = x.fraction_parts();
    let ghost n: nat = (g * five_to(k as nat)) as nat;
    if g == 0 {
        assert(n == 0) by (nonlinear_arith)
            requires
                n == g * five_to(k as nat),
                g == 0,
        ;
        r.append(decimal_text(0).as_str());
    } else {
        r.append(fivefold_text(g, k).as_str());
    }
    r.append("e-");
    r.append(decimal_text(k).as_str());
    proof {
        assert(r@ =~= sign_text(negative) + decimal(n) + ("e-"@ + decimal(k as nat)));
        lemma_reads(negative, n, k as nat, true, r@);
        lemma_powers_of_ten(k as nat);
        let t: nat = ten_to(k as nat);
        let f: nat = five_to(k as nat);
        let p: nat = pow2(k as nat);
        assert(n * one == t * x.units()) by (nonlinear_arith)
            requires
                n == g * f,
                t == f * p,
                g * one == x.units() * p,
        ;
        lemma_rounded_scaled(t, x.units(), 1);
        assert(t * 1 == t);
    }
    r
}

/// A number that has no more decimal places than are shown is shown exactly.
pub proof fn law_shown_numbers_are_exact_where_they_can_be(x: Double, places: nat, n: nat)
    requires
        x.finite(),
        x.units() * ten_to(places) == n * pow2(1074),
    ensures
        fixed(x, places) == sign_text(x.negative()) + decimal(n / ten_to(places)) + fraction(
            n % ten_to(places),
            places,
        ),
{
    let d: nat = pow2(1074);
    lemma_pow2_pos(1074);
    assert(nearest_even(n * d, d) == n) by {
        assert((n * d) / d == n && (n * d) % d == 0) by (nonlinear_arith)
            requires
                d > 0,
        ;
    }
}

/// The last digits of a number stand for what is left of it by a power of ten.
pub proof fn law_last_digits_stand_for_the_rest(n: nat, width: nat)
    ensures
        padded(n, width).len() == width,
        all_digits(padded(n, width)),
        decimal_value(padded(n, width)) == n % ten_to(width),
    decreases width,
{
    if width > 0 {
        let w = (width - 1) as nat;
        law_last_digits_stand_for_the_rest(n / 10, w);
        let s = padded(n, width);
        let front = padded(n / 10, w);
        assert(s.drop_last() =~= front);
        assert(s.last() == digit(n % 10));
        assert(crate::text::digit_value(digit(n % 10)) == n % 10);
        lemma_ten_to_is_positive(w);
        vstd::arithmetic::div_mod::lemma_mod_breakdown(n as int, 10, ten_to(w) as int);
        assert forall|i: int| 0 <= i < s.len() implies crate::text::is_digit(#[trigger] s[i]) by {
            if i < s.len() - 1 {
                assert(front[i] == s[i]);
            }
        }
    } else {
        assert(n % 1 == 0);
    }
}

proof fn lemma_ten_to_is_positive(p: nat)
    ensures
        ten_to(p) > 0,
    decreases p,
{
    if p > 0 {
        lemma_ten_to_is_positive((p - 1) as nat);
    }
}

} // verus!
