//! Operations on texts, specified on their characters.

use vstd::prelude::*;
use vstd::string::StringExecFns;

verus! {

/// [`String::push`]: the character goes to the end of the text.
pub assume_specification[ String::push ](text: &mut String, c: char)
    ensures
        final(text)@ == old(text)@.push(c),
;

/// Whether a character has Unicode's `White_Space` property.
pub open spec fn white(c: char) -> bool {
    let n = c as u32;
    ||| 0x9 <= n <= 0xd
    ||| n == 0x20
    ||| n == 0x85
    ||| n == 0xa0
    ||| n == 0x1680
    ||| 0x2000 <= n <= 0x200a
    ||| n == 0x2028
    ||| n == 0x2029
    ||| n == 0x202f
    ||| n == 0x205f
    ||| n == 0x3000
}

/// What is cut off the ends of a text.
#[derive(Clone, Copy, Debug, PartialEq, Eq, Structural)]
pub enum Margin {
    White,
    Quote,
    Slash,
}

/// Whether a character belongs to a margin.
pub open spec fn marginal(m: Margin, c: char) -> bool {
    match m {
        Margin::White => white(c),
        Margin::Quote => c == '"',
        Margin::Slash => c == '/',
    }
}

/// A text without the margin at its front.
pub open spec fn cut_front(m: Margin, s: Seq<char>) -> Seq<char>
    decreases s.len(),
{
    if s.len() > 0 && marginal(m, s[0]) {
        cut_front(m, s.skip(1))
    } else {
        s
    }
}

/// A text without the margin at its back.
pub open spec fn cut_back(m: Margin, s: Seq<char>) -> Seq<char>
    decreases s.len(),
{
    if s.len() > 0 && marginal(m, s.last()) {
        cut_back(m, s.drop_last())
    } else {
        s
    }
}

/// A text without white space at either end.
pub open spec fn trimmed(s: Seq<char>) -> Seq<char> {
    cut_back(Margin::White, cut_front(Margin::White, s))
}

/// An ASCII letter in lower case; any other character as it is.
pub open spec fn lower(c: char) -> char {
    match c {
        'A' => 'a',
        'B' => 'b',
        'C' => 'c',
        'D' => 'd',
        'E' => 'e',
        'F' => 'f',
        'G' => 'g',
        'H' => 'h',
        'I' => 'i',
        'J' => 'j',
        'K' => 'k',
        'L' => 'l',
        'M' => 'm',
        'N' => 'n',
        'O' => 'o',
        'P' => 'p',
        'Q' => 'q',
        'R' => 'r',
        'S' => 's',
        'T' => 't',
        'U' => 'u',
        'V' => 'v',
        'W' => 'w',
        'X' => 'x',
        'Y' => 'y',
        'Z' => 'z',
        _ => c,
    }
}

/// An ASCII letter in upper case; any other character as it is.
pub open spec fn upper(c: char) -> char {
    match c {
        'a' => 'A',
        'b' => 'B',
        'c' => 'C',
        'd' => 'D',
        'e' => 'E',
        'f' => 'F',
        'g' => 'G',
        'h' => 'H',
        'i' => 'I',
        'j' => 'J',
        'k' => 'K',
        'l' => 'L',
        'm' => 'M',
        'n' => 'N',
        'o' => 'O',
        'p' => 'P',
        'q' => 'Q',
        'r' => 'R',
        's' => 'S',
        't' => 'T',
        'u' => 'U',
        'v' => 'V',
        'w' => 'W',
        'x' => 'X',
        'y' => 'Y',
        'z' => 'Z',
        _ => c,
    }
}

/// A text with its ASCII letters in lower case.
pub open spec fn lowered(s: Seq<char>) -> Seq<char> {
    Seq::new(s.len(), |i: int| lower(s[i]))
}

/// A text with its ASCII letters in upper case.
pub open spec fn uppered(s: Seq<char>) -> Seq<char> {
    Seq::new(s.len(), |i: int| upper(s[i]))
}

/// Whether two texts differ at most in the case of ASCII letters.
pub open spec fn alike(a: Seq<char>, b: Seq<char>) -> bool {
    lowered(a) == lowered(b)
}

/// Whether `part` stands in `s` at place `i`.
pub open spec fn stands_at(s: Seq<char>, part: Seq<char>, i: int) -> bool {
    0 <= i <= s.len() - part.len() && s.subrange(i, i + part.len()) == part
}

/// Whether `part` stands anywhere in `s`.
pub open spec fn holds(s: Seq<char>, part: Seq<char>) -> bool {
    exists|i: int| stands_at(s, part, i)
}

/// Whether `s` comes before `t`, character by character.
pub open spec fn precedes(s: Seq<char>, t: Seq<char>) -> bool
    decreases s.len(),
{
    if t.len() == 0 {
        false
    } else if s.len() == 0 {
        true
    } else if s[0] != t[0] {
        (s[0] as u32) < (t[0] as u32)
    } else {
        precedes(s.skip(1), t.skip(1))
    }
}

/// The pieces of a text between separators.
pub open spec fn pieces(s: Seq<char>, sep: char) -> Seq<Seq<char>>
    decreases s.len(),
{
    if s.len() == 0 {
        seq![Seq::<char>::empty()]
    } else {
        let before = pieces(s.drop_last(), sep);
        if s.last() == sep {
            before.push(Seq::<char>::empty())
        } else {
            before.drop_last().push(before.last().push(s.last()))
        }
    }
}

/// The characters behind which the first `sep` stands, `s.len()` where there is none.
pub open spec fn first_place(s: Seq<char>, sep: char) -> int
    decreases s.len(),
{
    if s.len() == 0 || s[0] == sep {
        0
    } else {
        1 + first_place(s.skip(1), sep)
    }
}

/// The decimal digit of a number below ten.
pub open spec fn digit(d: nat) -> char {
    match d as u64 {
        0 => '0',
        1 => '1',
        2 => '2',
        3 => '3',
        4 => '4',
        5 => '5',
        6 => '6',
        7 => '7',
        8 => '8',
        _ => '9',
    }
}

/// A natural number in decimal digits.
pub open spec fn decimal(n: nat) -> Seq<char>
    decreases n,
{
    if n < 10 {
        seq![digit(n)]
    } else {
        decimal(n / 10).push(digit(n % 10))
    }
}

/// The number that a text of decimal digits stands for.
pub open spec fn decimal_value(s: Seq<char>) -> nat
    decreases s.len(),
{
    if s.len() == 0 {
        0
    } else {
        decimal_value(s.drop_last()) * 10 + digit_value(s.last())
    }
}

/// What a decimal digit stands for.
pub open spec fn digit_value(c: char) -> nat {
    (c as u32 - '0' as u32) as nat
}

pub open spec fn is_digit(c: char) -> bool {
    '0' as u32 <= c as u32 <= '9' as u32
}

/// Whether a text consists of decimal digits.
pub open spec fn all_digits(s: Seq<char>) -> bool {
    forall|i: int| 0 <= i < s.len() ==> is_digit(#[trigger] s[i])
}

/// The number below `limit` that decimal digits stand for.
pub open spec fn read_digits(s: Seq<char>, limit: nat) -> Option<nat> {
    if s.len() == 0 || !all_digits(s) || decimal_value(s) >= limit {
        None
    } else {
        Some(decimal_value(s))
    }
}

/// The number below `limit` that a text stands for, if it is one: decimal digits,
/// at least one, after at most one plus sign.
pub open spec fn read_decimal(s: Seq<char>, limit: nat) -> Option<nat> {
    if s.len() > 0 && s[0] == '+' {
        read_digits(s.skip(1), limit)
    } else {
        read_digits(s, limit)
    }
}

/// The texts of a sequence of strings.
pub open spec fn texts(v: Seq<String>) -> Seq<Seq<char>> {
    v.map_values(|s: String| s@)
}

/// The text of an optional string.
pub open spec fn text_option(s: Option<String>) -> Option<Seq<char>> {
    match s {
        Some(s) => Some(s@),
        None => None,
    }
}

pub fn chars_of(s: &str) -> (r: Vec<char>)
    ensures
        r@ == s@,
{
    let mut r: Vec<char> = Vec::new();
    for c in it: s.chars()
        invariant
            r@ == s@.take(it.index() as int),
            it.seq() == s@,
    {
        r.push(c);
        assert(s@.take(it.index() + 1) =~= s@.take(it.index() as int).push(c));
    }
    assert(s@.take(s@.len() as int) =~= s@);
    r
}

/// The characters from place `from` up to place `to`, as a text.
pub fn text_of(v: &Vec<char>, from: usize, to: usize) -> (r: String)
    requires
        from <= to <= v.len(),
    ensures
        r@ == v@.subrange(from as int, to as int),
{
    let mut r = String::new();
    let mut i: usize = from;
    while i < to
        invariant
            from <= i <= to <= v.len(),
            r@ == v@.subrange(from as int, i as int),
        decreases to - i,
    {
        r.push(v[i]);
        i = i + 1;
        assert(v@.subrange(from as int, i as int) =~= v@.subrange(from as int, i - 1).push(
            v@[i - 1],
        ));
    }
    r
}

/// Whether two texts are the same.
pub fn same(a: &str, b: &str) -> (r: bool)
    ensures
        r == (a@ == b@),
{
    a.to_owned() == b.to_owned()
}

/// Two texts, one behind the other.
pub fn join(a: &str, b: &str) -> (r: String)
    ensures
        r@ == a@ + b@,
{
    let mut r = a.to_owned();
    r.append(b);
    r
}

pub fn join3(a: &str, b: &str, c: &str) -> (r: String)
    ensures
        r@ == a@ + b@ + c@,
{
    let mut r = join(a, b);
    r.append(c);
    r
}

/// The name of a truth value.
pub open spec fn truth(b: bool) -> Seq<char> {
    if b {
        "true"@
    } else {
        "false"@
    }
}

pub fn truth_text(b: bool) -> (r: &'static str)
    ensures
        r@ == truth(b),
{
    if b {
        "true"
    } else {
        "false"
    }
}

/// A list of one text.
pub fn one_text(s: String) -> (r: Vec<String>)
    ensures
        texts(r@) == seq![s@],
{
    let mut r: Vec<String> = Vec::new();
    r.push(s);
    assert(texts(r@) =~= seq![s@]);
    r
}

pub fn copy_option(s: &Option<String>) -> (r: Option<String>)
    ensures
        r == *s,
{
    match s {
        Some(s) => Some(s.clone()),
        None => None,
    }
}

pub fn copy_texts(v: &Vec<String>) -> (r: Vec<String>)
    ensures
        r@ == v@,
{
    let mut r: Vec<String> = Vec::new();
    let mut i: usize = 0;
    while i < v.len()
        invariant
            i <= v.len(),
            r@ == v@.take(i as int),
        decreases v.len() - i,
    {
        r.push(v[i].clone());
        i = i + 1;
        assert(v@.take(i as int) =~= v@.take(i - 1).push(v@[i - 1]));
    }
    assert(v@.take(v@.len() as int) =~= v@);
    r
}

/// Whether a text is among the texts of a list.
pub open spec fn listed(v: Seq<String>, s: Seq<char>) -> bool {
    exists|i: int| 0 <= i < v.len() && #[trigger] v[i]@ == s
}

pub fn contains_text(v: &Vec<String>, s: &str) -> (r: bool)
    ensures
        r == listed(v@, s@),
{
    let mut i: usize = 0;
    while i < v.len()
        invariant
            i <= v.len(),
            forall|k: int| 0 <= k < i ==> #[trigger] v[k]@ != s@,
        decreases v.len() - i,
    {
        if same(v[i].as_str(), s) {
            assert(v@[i as int]@ == s@);
            return true;
        }
        i = i + 1;
    }
    false
}

fn is_white(c: char) -> (r: bool)
    ensures
        r == white(c),
{
    let n: u32 = c as u32;
    (0x9 <= n && n <= 0xd) || n == 0x20 || n == 0x85 || n == 0xa0 || n == 0x1680 || (0x2000 <= n
        && n <= 0x200a) || n == 0x2028 || n == 0x2029 || n == 0x202f || n == 0x205f || n == 0x3000
}

fn is_marginal(m: Margin, c: char) -> (r: bool)
    ensures
        r == marginal(m, c),
{
    match m {
        Margin::White => is_white(c),
        Margin::Quote => c == '"',
        Margin::Slash => c == '/',
    }
}

fn front_of(m: Margin, v: &Vec<char>) -> (i: usize)
    ensures
        i <= v.len(),
        cut_front(m, v@) == v@.skip(i as int),
{
    let mut i: usize = 0;
    assert(v@.skip(0) =~= v@);
    while i < v.len() && is_marginal(m, v[i])
        invariant
            i <= v.len(),
            cut_front(m, v@) == cut_front(m, v@.skip(i as int)),
        decreases v.len() - i,
    {
        assert(v@.skip(i as int).skip(1) =~= v@.skip(i + 1));
        i = i + 1;
    }
    i
}

fn back_of(m: Margin, v: &Vec<char>, from: usize) -> (j: usize)
    requires
        from <= v.len(),
    ensures
        from <= j <= v.len(),
        cut_back(m, v@.skip(from as int)) == v@.subrange(from as int, j as int),
{
    let mut j: usize = v.len();
    assert(v@.skip(from as int) =~= v@.subrange(from as int, j as int));
    while j > from && is_marginal(m, v[j - 1])
        invariant
            from <= j <= v.len(),
            cut_back(m, v@.skip(from as int)) == cut_back(m, v@.subrange(from as int, j as int)),
        decreases j,
    {
        assert(v@.subrange(from as int, j as int).drop_last() =~= v@.subrange(
            from as int,
            j - 1,
        ));
        j = j - 1;
    }
    j
}

/// The text without a margin at either end.
pub fn strip(m: Margin, s: &str) -> (r: String)
    ensures
        r@ == cut_back(m, cut_front(m, s@)),
{
    let v: Vec<char> = chars_of(s);
    let i: usize = front_of(m, &v);
    let j: usize = back_of(m, &v, i);
    text_of(&v, i, j)
}

/// The text without a margin at its back.
pub fn strip_back(m: Margin, s: &str) -> (r: String)
    ensures
        r@ == cut_back(m, s@),
{
    let v: Vec<char> = chars_of(s);
    assert(v@.skip(0) =~= v@);
    let j: usize = back_of(m, &v, 0);
    text_of(&v, 0, j)
}

/// The text without white space at either end.
pub fn trim(s: &str) -> (r: String)
    ensures
        r@ == trimmed(s@),
{
    strip(Margin::White, s)
}

fn lower_char(c: char) -> (r: char)
    ensures
        r == lower(c),
{
    match c {
        'A' => 'a',
        'B' => 'b',
        'C' => 'c',
        'D' => 'd',
        'E' => 'e',
        'F' => 'f',
        'G' => 'g',
        'H' => 'h',
        'I' => 'i',
        'J' => 'j',
        'K' => 'k',
        'L' => 'l',
        'M' => 'm',
        'N' => 'n',
        'O' => 'o',
        'P' => 'p',
        'Q' => 'q',
        'R' => 'r',
        'S' => 's',
        'T' => 't',
        'U' => 'u',
        'V' => 'v',
        'W' => 'w',
        'X' => 'x',
        'Y' => 'y',
        'Z' => 'z',
        _ => c,
    }
}

fn upper_char(c: char) -> (r: char)
    ensures
        r == upper(c),
{
    match c {
        'a' => 'A',
        'b' => 'B',
        'c' => 'C',
        'd' => 'D',
        'e' => 'E',
        'f' => 'F',
        'g' => 'G',
        'h' => 'H',
        'i' => 'I',
        'j' => 'J',
        'k' => 'K',
        'l' => 'L',
        'm' => 'M',
        'n' => 'N',
        'o' => 'O',
        'p' => 'P',
        'q' => 'Q',
        'r' => 'R',
        's' => 'S',
        't' => 'T',
        'u' => 'U',
        'v' => 'V',
        'w' => 'W',
        'x' => 'X',
        'y' => 'Y',
        'z' => 'Z',
        _ => c,
    }
}

/// The text with its ASCII letters in lower case.
pub fn lowercase(s: &str) -> (r: String)
    ensures
        r@ == lowered(s@),
{
    let v: Vec<char> = chars_of(s);
    let mut r = String::new();
    let mut i: usize = 0;
    while i < v.len()
        invariant
            i <= v.len(),
            v@ == s@,
            r@ == lowered(s@).take(i as int),
        decreases v.len() - i,
    {
        r.push(lower_char(v[i]));
        i = i + 1;
        assert(lowered(s@).take(i as int) =~= lowered(s@).take(i - 1).push(lowered(s@)[i - 1]));
    }
    assert(lowered(s@).take(s@.len() as int) =~= lowered(s@));
    r
}

/// The text with its ASCII letters in upper case.
pub fn uppercase(s: &str) -> (r: String)
    ensures
        r@ == uppered(s@),
{
    let v: Vec<char> = chars_of(s);
    let mut r = String::new();
    let mut i: usize = 0;
    while i < v.len()
        invariant
            i <= v.len(),
            v@ == s@,
            r@ == uppered(s@).take(i as int),
        decreases v.len() - i,
    {
        r.push(upper_char(v[i]));
        i = i + 1;
        assert(uppered(s@).take(i as int) =~= uppered(s@).take(i - 1).push(uppered(s@)[i - 1]));
    }
    assert(uppered(s@).take(s@.len() as int) =~= uppered(s@));
    r
}

/// Whether two texts differ at most in the case of ASCII letters.
pub fn same_ignoring_case(a: &str, b: &str) -> (r: bool)
    ensures
        r == alike(a@, b@),
{
    lowercase(a) == lowercase(b)
}

/// Whether `part` stands in `s` at place `i`.
fn stands(s: &Vec<char>, part: &Vec<char>, i: usize) -> (r: bool)
    requires
        i <= s.len(),
    ensures
        r == stands_at(s@, part@, i as int),
{
    if part.len() > s.len() - i {
        return false;
    }
    let mut k: usize = 0;
    while k < part.len()
        invariant
            k <= part.len(),
            i + part.len() <= s.len(),
            forall|x: int| 0 <= x < k ==> s[i + x] == #[trigger] part[x],
        decreases part.len() - k,
    {
        if s[i + k] != part[k] {
            assert(s@.subrange(i as int, i + part@.len())[k as int] != part@[k as int]);
            return false;
        }
        k = k + 1;
    }
    assert(s@.subrange(i as int, i + part@.len()) =~= part@);
    true
}

pub fn starts_with(s: &str, part: &str) -> (r: bool)
    ensures
        r == stands_at(s@, part@, 0),
{
    stands(&chars_of(s), &chars_of(part), 0)
}

pub fn ends_with(s: &str, part: &str) -> (r: bool)
    ensures
        r == stands_at(s@, part@, s@.len() - part@.len()),
{
    let v: Vec<char> = chars_of(s);
    let p: Vec<char> = chars_of(part);
    if p.len() > v.len() {
        return false;
    }
    let i: usize = v.len() - p.len();
    stands(&v, &p, i)
}

pub fn contains(s: &str, part: &str) -> (r: bool)
    ensures
        r == holds(s@, part@),
{
    let v: Vec<char> = chars_of(s);
    let p: Vec<char> = chars_of(part);
    let mut i: usize = 0;
    while i <= v.len()
        invariant
            i <= v.len() + 1,
            v@ == s@,
            p@ == part@,
            forall|k: int| 0 <= k < i ==> !stands_at(s@, part@, k),
        decreases v.len() + 1 - i,
    {
        if stands(&v, &p, i) {
            return true;
        }
        if i == v.len() {
            assert forall|k: int| !stands_at(s@, part@, k) by {}
            return false;
        }
        i = i + 1;
    }
    false
}

/// Whether `a` comes before `b`.
pub fn comes_before(a: &str, b: &str) -> (r: bool)
    ensures
        r == precedes(a@, b@),
{
    let v: Vec<char> = chars_of(a);
    let w: Vec<char> = chars_of(b);
    let mut i: usize = 0;
    assert(v@.skip(0) =~= v@);
    assert(w@.skip(0) =~= w@);
    while i < v.len() && i < w.len() && v[i] == w[i]
        invariant
            i <= v.len(),
            i <= w.len(),
            precedes(v@, w@) == precedes(v@.skip(i as int), w@.skip(i as int)),
        decreases v.len() - i,
    {
        assert(v@.skip(i as int).skip(1) =~= v@.skip(i + 1));
        assert(w@.skip(i as int).skip(1) =~= w@.skip(i + 1));
        i = i + 1;
    }
    if i >= w.len() {
        false
    } else if i >= v.len() {
        true
    } else {
        (v[i] as u32) < (w[i] as u32)
    }
}

/// The pieces of a text between separators.
pub fn split(s: &str, sep: char) -> (r: Vec<String>)
    ensures
        texts(r@) == pieces(s@, sep),
{
    let v: Vec<char> = chars_of(s);
    let mut done: Vec<String> = Vec::new();
    let mut current = String::new();
    let mut i: usize = 0;
    assert(pieces(v@.take(0), sep) =~= seq![Seq::<char>::empty()]);
    while i < v.len()
        invariant
            i <= v.len(),
            v@ == s@,
            pieces(v@.take(i as int), sep) == texts(done@).push(current@),
        decreases v.len() - i,
    {
        proof {
            assert(v@.take(i + 1).drop_last() =~= v@.take(i as int));
            assert(texts(done@).push(current@).drop_last() =~= texts(done@));
        }
        if v[i] == sep {
            let ghost before = done@;
            let ghost piece = current@;
            done.push(current);
            current = String::new();
            assert(texts(done@) =~= texts(before).push(piece));
        } else {
            current.push(v[i]);
        }
        i = i + 1;
    }
    let ghost before = done@;
    let ghost piece = current@;
    done.push(current);
    assert(texts(done@) =~= texts(before).push(piece));
    assert(v@.take(v@.len() as int) =~= v@);
    done
}

/// The parts before and behind the first `sep`.
pub fn split_once(s: &str, sep: char) -> (r: Option<(String, String)>)
    ensures
        match r {
            Some(parts) => {
                let i = first_place(s@, sep);
                &&& i < s@.len()
                &&& parts.0@ == s@.take(i)
                &&& parts.1@ == s@.skip(i + 1)
            },
            None => first_place(s@, sep) == s@.len(),
        },
{
    let v: Vec<char> = chars_of(s);
    let mut i: usize = 0;
    assert(v@.skip(0) =~= v@);
    while i < v.len() && v[i] != sep
        invariant
            i <= v.len(),
            first_place(v@, sep) == i + first_place(v@.skip(i as int), sep),
        decreases v.len() - i,
    {
        assert(v@.skip(i as int).skip(1) =~= v@.skip(i + 1));
        i = i + 1;
    }
    if i < v.len() {
        let n: usize = v.len();
        let a = text_of(&v, 0, i);
        let b = text_of(&v, i + 1, n);
        assert(v@.subrange(0, i as int) =~= v@.take(i as int));
        assert(v@.subrange(i + 1, v@.len() as int) =~= v@.skip(i + 1));
        Some((a, b))
    } else {
        None
    }
}

fn digit_char(d: u64) -> (r: char)
    requires
        d < 10,
    ensures
        r == digit(d as nat),
{
    match d {
        0 => '0',
        1 => '1',
        2 => '2',
        3 => '3',
        4 => '4',
        5 => '5',
        6 => '6',
        7 => '7',
        8 => '8',
        _ => '9',
    }
}

/// A natural number in decimal digits.
pub fn decimal_text(n: u64) -> (r: String)
    ensures
        r@ == decimal(n as nat),
    decreases n,
{
    let mut r = if n < 10 {
        String::new()
    } else {
        decimal_text(n / 10)
    };
    r.push(digit_char(n % 10));
    proof {
        if n < 10 {
            assert(r@ =~= seq![digit(n as nat)]);
        }
    }
    r
}

/// The number below `2^64` that a text of decimal digits stands for.
pub fn parse_u64(s: &str) -> (r: Option<u64>)
    ensures
        match r {
            Some(n) => read_decimal(s@, 0x1_0000_0000_0000_0000) == Some(n as nat),
            None => read_decimal(s@, 0x1_0000_0000_0000_0000) is None,
        },
{
    let v: Vec<char> = chars_of(s);
    let from: usize = if v.len() > 0 && v[0] == '+' {
        1
    } else {
        0
    };
    let ghost digits = v@.skip(from as int);
    assert(v@.skip(0) =~= v@);
    if v.len() == from {
        return None;
    }
    let mut n: u64 = 0;
    let mut i: usize = from;
    assert(digits.take(0) =~= Seq::<char>::empty());
    while i < v.len()
        invariant
            from <= i <= v.len(),
            digits == v@.skip(from as int),
            forall|k: int| 0 <= k < i - from ==> is_digit(#[trigger] digits[k]),
            n == decimal_value(digits.take(i - from)),
            read_decimal(s@, 0x1_0000_0000_0000_0000) == read_digits(digits, 0x1_0000_0000_0000_0000),
            digits.len() > 0,
        decreases v.len() - i,
    {
        let c: char = v[i];
        assert(digits[i - from] == c);
        let code: u32 = c as u32;
        if code < 48 || code > 57 {
            return None;
        }
        assert(digits.take(i - from + 1).drop_last() =~= digits.take(i - from));
        let wide: u128 = (n as u128) * 10 + (code - 48) as u128;
        assert(wide == decimal_value(digits.take(i - from + 1)));
        if wide >= 0x1_0000_0000_0000_0000 {
            proof {
                lemma_prefix_value(digits, i - from + 1);
            }
            return None;
        }
        n = wide as u64;
        i = i + 1;
    }
    assert(digits.take(digits.len() as int) =~= digits);
    Some(n)
}

proof fn lemma_prefix_value(s: Seq<char>, i: int)
    requires
        0 <= i <= s.len(),
    ensures
        decimal_value(s.take(i)) <= decimal_value(s),
    decreases s.len(),
{
    if i < s.len() {
        assert(s.drop_last().take(i) =~= s.take(i));
        lemma_prefix_value(s.drop_last(), i);
    } else {
        assert(s.take(i) =~= s);
    }
}

// ---------------------------------------------------------------------------
// Laws
// ---------------------------------------------------------------------------

proof fn lemma_cut_front(m: Margin, s: Seq<char>) -> (n: int)
    ensures
        0 <= n <= s.len(),
        cut_front(m, s) == s.skip(n),
        forall|i: int| 0 <= i < n ==> marginal(m, #[trigger] s[i]),
        n < s.len() ==> !marginal(m, s[n]),
    decreases s.len(),
{
    if s.len() > 0 && marginal(m, s[0]) {
        let k = lemma_cut_front(m, s.skip(1));
        assert(s.skip(1).skip(k) =~= s.skip(k + 1));
        assert forall|i: int| 0 <= i < k + 1 implies marginal(m, #[trigger] s[i]) by {
            if i > 0 {
                assert(s.skip(1)[i - 1] == s[i]);
            }
        }
        k + 1
    } else {
        assert(s.skip(0) =~= s);
        0
    }
}

pub(crate) proof fn lemma_cut_back(m: Margin, s: Seq<char>) -> (n: int)
    ensures
        0 <= n <= s.len(),
        cut_back(m, s) == s.take(n),
        forall|i: int| n <= i < s.len() ==> marginal(m, #[trigger] s[i]),
        n > 0 ==> !marginal(m, s[n - 1]),
    decreases s.len(),
{
    if s.len() > 0 && marginal(m, s.last()) {
        let k = lemma_cut_back(m, s.drop_last());
        assert(s.drop_last().take(k) =~= s.take(k));
        assert forall|i: int| k <= i < s.len() implies marginal(m, #[trigger] s[i]) by {
            if i < s.len() - 1 {
                assert(s.drop_last()[i] == s[i]);
            }
        }
        k
    } else {
        assert(s.take(s.len() as int) =~= s);
        s.len() as int
    }
}

/// Trimming takes white space from both ends of a text and nothing else: what is left stands
/// in the text with white space alone around it, and has none at its own ends.
pub proof fn law_trimming_takes_white_space_only(s: Seq<char>)
    ensures
        trimmed(s).len() > 0 ==> !white(trimmed(s)[0]) && !white(trimmed(s).last()),
        exists|i: int|
            #![trigger s.take(i)]
            0 <= i <= s.len() - trimmed(s).len() && s == s.take(i) + trimmed(s) + s.skip(
                i + trimmed(s).len(),
            ) && (forall|k: int|
                #![trigger s[k]]
                0 <= k < i || i + trimmed(s).len() <= k < s.len() ==> white(s[k])),
        trimmed(s).len() == 0 <==> forall|k: int| 0 <= k < s.len() ==> white(#[trigger] s[k]),
        trimmed(trimmed(s)) == trimmed(s),
{
    let i = lemma_cut_front(Margin::White, s);
    let front = s.skip(i);
    let n = lemma_cut_back(Margin::White, front);
    let t = trimmed(s);
    assert(t =~= s.subrange(i, i + n));
    assert forall|k: int| #![trigger s[k]] i + n <= k < s.len() implies white(s[k]) by {
        assert(front[k - i] == s[k]);
    }
    if t.len() > 0 {
        assert(t.last() == front[n - 1]);
        assert(n > 0 && front[0] == s[i] && t[0] == s[i]);
        assert(!white(s[i]));
        assert(cut_front(Margin::White, t) == t);
        assert(cut_back(Margin::White, t) == t);
    }
    assert(s =~= s.take(i) + t + s.skip(i + t.len()));
}

/// Lowering a text changes letters from A to Z alone, each to the letter that stands as far
/// behind it as all of them do, and twice is the same as once.
pub proof fn law_lowering_changes_capitals_only(s: Seq<char>, i: int)
    requires
        0 <= i < s.len(),
    ensures
        lowered(s).len() == s.len(),
        'A' <= s[i] <= 'Z' ==> lowered(s)[i] as u32 == s[i] as u32 + 32,
        !('A' <= s[i] <= 'Z') ==> lowered(s)[i] == s[i],
        lowered(lowered(s)) == lowered(s),
{
    assert forall|k: int| 0 <= k < s.len() implies lowered(lowered(s))[k] == #[trigger] lowered(
        s,
    )[k] by {}
    assert(lowered(lowered(s)) =~= lowered(s));
}

/// The decimal digits of a number stand for the number.
pub proof fn law_decimals_stand_for_their_number(n: nat)
    ensures
        decimal_value(decimal(n)) == n,
        all_digits(decimal(n)),
        decimal(n).len() > 0,
    decreases n,
{
    if n < 10 {
        let s = decimal(n);
        assert(s.drop_last() =~= Seq::<char>::empty());
        assert(decimal_value(s.drop_last()) == 0);
        assert(s.last() == digit(n));
        assert(digit_value(digit(n)) == n);
    } else {
        law_decimals_stand_for_their_number(n / 10);
        let s = decimal(n);
        assert(s.drop_last() =~= decimal(n / 10));
        assert(s.last() == digit(n % 10));
        assert(digit_value(digit(n % 10)) == n % 10);
        assert forall|i: int| 0 <= i < s.len() implies is_digit(#[trigger] s[i]) by {
            if i < s.len() - 1 {
                assert(decimal(n / 10)[i] == s[i]);
            }
        }
    }
}

/// What is written in decimal digits is read back, with a plus sign or without, where it lies
/// below the limit, and not otherwise.
pub proof fn law_decimals_are_read_back(n: nat, limit: nat)
    ensures
        n < limit ==> read_decimal(decimal(n), limit) == Some(n),
        n < limit ==> read_decimal(seq!['+'] + decimal(n), limit) == Some(n),
        n >= limit ==> read_decimal(decimal(n), limit) is None,
{
    law_decimals_stand_for_their_number(n);
    assert(is_digit(decimal(n)[0]));
    assert((seq!['+'] + decimal(n)).skip(1) =~= decimal(n));
}

proof fn lemma_characters_have_codes(a: char, b: char)
    ensures
        a as u32 == b as u32 ==> a == b,
{
}

/// Of two texts that differ one comes before the other, and none comes before itself.
pub proof fn law_texts_are_ordered(s: Seq<char>, t: Seq<char>)
    ensures
        !precedes(s, s),
        s != t ==> precedes(s, t) != precedes(t, s),
    decreases s.len(),
{
    if s.len() > 0 {
        law_texts_are_ordered(s.skip(1), s.skip(1));
    }
    if s.len() > 0 && t.len() > 0 && s[0] == t[0] {
        law_texts_are_ordered(s.skip(1), t.skip(1));
        if s.skip(1) == t.skip(1) {
            assert(s =~= seq![s[0]] + s.skip(1));
            assert(t =~= seq![t[0]] + t.skip(1));
        }
    } else if s.len() == 0 && t.len() == 0 {
        assert(s =~= t);
    } else if s.len() > 0 && t.len() > 0 {
        lemma_characters_have_codes(s[0], t[0]);
    }
}

/// A text without the separator is one piece, and the pieces of two texts with a separator
/// between them are those of the one and then those of the other.
pub proof fn law_pieces_lie_between_separators(a: Seq<char>, b: Seq<char>, sep: char)
    ensures
        !a.contains(sep) ==> pieces(a, sep) == seq![a],
        pieces(a.push(sep) + b, sep) == pieces(a, sep) + pieces(b, sep),
        pieces(b, sep).len() > 0,
    decreases a.len() + b.len(),
{
    if a.len() > 0 {
        law_pieces_lie_between_separators(a.drop_last(), Seq::<char>::empty(), sep);
        if !a.contains(sep) {
            assert(a[a.len() - 1] == a.last());
            assert forall|i: int| 0 <= i < a.drop_last().len() implies a.drop_last()[i] != sep by {
                assert(a[i] == a.drop_last()[i]);
            }
            assert(pieces(a, sep) =~= seq![a.drop_last().push(a.last())]);
            assert(a =~= a.drop_last().push(a.last()));
        }
    } else {
        assert(a =~= Seq::<char>::empty());
    }
    let all = a.push(sep) + b;
    if b.len() == 0 {
        assert(all =~= a.push(sep));
        assert(all.drop_last() =~= a);
        assert(pieces(all, sep) =~= pieces(a, sep) + pieces(b, sep));
    } else {
        law_pieces_lie_between_separators(a, b.drop_last(), sep);
        assert(all.drop_last() =~= a.push(sep) + b.drop_last());
        assert(all.last() == b.last());
        let left = pieces(a, sep);
        let before = pieces(b.drop_last(), sep);
        assert((left + before).drop_last() =~= left + before.drop_last());
        assert((left + before).last() == before.last());
        assert(pieces(all, sep) =~= left + pieces(b, sep));
    }
}

/// The first place of a character is before it every other, and is the length of the text where
/// the character does not occur.
pub proof fn law_the_first_place_is_the_first(s: Seq<char>, sep: char)
    ensures
        0 <= first_place(s, sep) <= s.len(),
        first_place(s, sep) < s.len() ==> s[first_place(s, sep)] == sep,
        forall|i: int| 0 <= i < first_place(s, sep) ==> #[trigger] s[i] != sep,
    decreases s.len(),
{
    if s.len() > 0 && s[0] != sep {
        law_the_first_place_is_the_first(s.skip(1), sep);
        assert forall|i: int| 0 <= i < first_place(s, sep) implies #[trigger] s[i] != sep by {
            if i > 0 {
                assert(s.skip(1)[i - 1] == s[i]);
            }
        }
    }
}

} // verus!
