//! JSON documents.

use vstd::prelude::*;

use crate::assoc::lemma_put;
use crate::assoc::lookup;
use crate::assoc::put;
use crate::double::of_int;
use crate::double::Double;

verus! {

/// A JSON document. An object keeps its members in the order in which they came.
#[derive(Debug)]
pub enum Json {
    Null,
    Bool(bool),
    UInt(u64),
    Int(i64),
    Float(Double),
    Text(String),
    List(Vec<Json>),
    Object(Vec<(String, Json)>),
}

/// What a JSON document says.
pub enum JsonView {
    Null,
    Bool(bool),
    Whole(int),
    Float(Double),
    Text(Seq<char>),
    List(Seq<JsonView>),
    Object(Seq<(Seq<char>, JsonView)>),
}

/// The members of an object.
pub type Members = Seq<(Seq<char>, JsonView)>;

impl View for Json {
    type V = JsonView;

    open spec fn view(&self) -> JsonView
        decreases self,
    {
        match self {
            Json::Null => JsonView::Null,
            Json::Bool(b) => JsonView::Bool(*b),
            Json::UInt(n) => JsonView::Whole(*n as int),
            Json::Int(n) => JsonView::Whole(*n as int),
            Json::Float(x) => JsonView::Float(*x),
            Json::Text(s) => JsonView::Text(s@),
            Json::List(v) => JsonView::List(
                Seq::new(
                    v@.len(),
                    |i: int|
                        if 0 <= i < v@.len() {
                            v@[i].view()
                        } else {
                            JsonView::Null
                        },
                ),
            ),
            Json::Object(v) => JsonView::Object(
                Seq::new(
                    v@.len(),
                    |i: int|
                        if 0 <= i < v@.len() {
                            (v@[i].0@, v@[i].1.view())
                        } else {
                            (Seq::<char>::empty(), JsonView::Null)
                        },
                ),
            ),
        }
    }
}

/// What a list of documents says.
pub open spec fn list_view(v: Seq<Json>) -> Seq<JsonView> {
    Seq::new(v.len(), |i: int| v[i]@)
}

/// What the members of an object say.
pub open spec fn members_view(v: Seq<(String, Json)>) -> Members {
    Seq::new(v.len(), |i: int| (v[i].0@, v[i].1@))
}

proof fn lemma_views(j: Json)
    ensures
        j matches Json::List(v) ==> j@ == JsonView::List(list_view(v@)),
        j matches Json::Object(v) ==> j@ == JsonView::Object(members_view(v@)),
{
    reveal_with_fuel(<Json as View>::view, 2);
    match j {
        Json::List(v) => {
            assert(j@->List_0 =~= list_view(v@));
        },
        Json::Object(v) => {
            assert(j@->Object_0 =~= members_view(v@));
        },
        _ => {},
    }
}

/// The value of a member, that of the first one where several have the name.
pub open spec fn member(m: Members, key: Seq<char>) -> Option<JsonView> {
    lookup(m, key)
}

/// The members with the value of `key` replaced, or put at the end where there is none.
pub open spec fn with_member(m: Members, key: Seq<char>, value: JsonView) -> Members {
    put(m, key, value)
}

/// The members without those named `key`.
pub open spec fn without_member(m: Members, key: Seq<char>) -> Members {
    m.filter(|e: (Seq<char>, JsonView)| e.0 != key)
}

impl JsonView {
    /// The value of a member, where this is an object that has it.
    pub open spec fn get(self, key: Seq<char>) -> Option<JsonView> {
        match self {
            JsonView::Object(m) => member(m, key),
            _ => None,
        }
    }

    pub open spec fn text(self) -> Option<Seq<char>> {
        match self {
            JsonView::Text(s) => Some(s),
            _ => None,
        }
    }

    pub open spec fn boolean(self) -> Option<bool> {
        match self {
            JsonView::Bool(b) => Some(b),
            _ => None,
        }
    }

    /// The number, if it is an integer of 64 bits with sign.
    pub open spec fn signed_integer(self) -> Option<i64> {
        match self {
            JsonView::Whole(n) => if i64::MIN <= n <= i64::MAX {
                Some(n as i64)
            } else {
                None
            },
            _ => None,
        }
    }

    /// The number, if it is an integer of 64 bits without sign.
    pub open spec fn unsigned_integer(self) -> Option<u64> {
        match self {
            JsonView::Whole(n) => if 0 <= n <= u64::MAX {
                Some(n as u64)
            } else {
                None
            },
            _ => None,
        }
    }

    /// The number, as a double.
    pub open spec fn number(self) -> Option<Double> {
        match self {
            JsonView::Whole(n) => Some(of_int(n)),
            JsonView::Float(x) => Some(x),
            _ => None,
        }
    }

    pub open spec fn list(self) -> Option<Seq<JsonView>> {
        match self {
            JsonView::List(s) => Some(s),
            _ => None,
        }
    }

    pub open spec fn members(self) -> Option<Members> {
        match self {
            JsonView::Object(m) => Some(m),
            _ => None,
        }
    }
}

/// The text of an optional document.
pub open spec fn text_in(v: Option<JsonView>) -> Option<Seq<char>> {
    match v {
        Some(v) => v.text(),
        None => None,
    }
}

/// The truth value of an optional document.
pub open spec fn boolean_in(v: Option<JsonView>) -> Option<bool> {
    match v {
        Some(v) => v.boolean(),
        None => None,
    }
}

/// The number of an optional document.
pub open spec fn number_in(v: Option<JsonView>) -> Option<Double> {
    match v {
        Some(v) => v.number(),
        None => None,
    }
}

/// The signed integer of an optional document.
pub open spec fn integer_in(v: Option<JsonView>) -> Option<i64> {
    match v {
        Some(v) => v.signed_integer(),
        None => None,
    }
}

/// The first of two optional values that is there.
pub open spec fn either<T>(a: Option<T>, b: Option<T>) -> Option<T> {
    match a {
        Some(_) => a,
        None => b,
    }
}

/// A number as a document: JSON has none that is not finite.
pub open spec fn number_json(x: Double) -> JsonView {
    if x.finite() {
        JsonView::Float(x)
    } else {
        JsonView::Null
    }
}

/// An optional number as a document.
pub open spec fn optional_number_json(x: Option<Double>) -> JsonView {
    match x {
        Some(x) => number_json(x),
        None => JsonView::Null,
    }
}

/// An optional text as a document.
pub open spec fn optional_text_json(s: Option<Seq<char>>) -> JsonView {
    match s {
        Some(s) => JsonView::Text(s),
        None => JsonView::Null,
    }
}

/// A list of texts as a document.
pub open spec fn texts_json(v: Seq<Seq<char>>) -> JsonView {
    JsonView::List(Seq::new(v.len(), |i: int| JsonView::Text(v[i])))
}

/// What an optional reference to a document says.
pub open spec fn found(r: Option<&Json>) -> Option<JsonView> {
    match r {
        Some(j) => Some(j@),
        None => None,
    }
}

/// The value of a member.
pub fn member_of<'a>(v: &'a Vec<(String, Json)>, key: &str) -> (r: Option<&'a Json>)
    ensures
        found(r) == member(members_view(v@), key@),
{
    let ghost all = members_view(v@);
    let mut i: usize = 0;
    assert(all.skip(0) =~= all);
    while i < v.len()
        invariant
            i <= v.len(),
            all == members_view(v@),
            member(all, key@) == member(all.skip(i as int), key@),
        decreases v.len() - i,
    {
        if crate::text::same(v[i].0.as_str(), key) {
            return Some(&v[i].1);
        }
        assert(all.skip(i as int).skip(1) =~= all.skip(i + 1));
        i = i + 1;
    }
    None
}

/// The place of a member, the number of members where there is none.
fn place_of(v: &Vec<(String, Json)>, key: &str) -> (i: usize)
    ensures
        i <= v.len(),
        forall|k: int| 0 <= k < i ==> (#[trigger] v@[k]).0@ != key@,
        i < v.len() ==> v@[i as int].0@ == key@,
{
    let mut i: usize = 0;
    while i < v.len()
        invariant
            i <= v.len(),
            forall|k: int| 0 <= k < i ==> (#[trigger] v@[k]).0@ != key@,
        decreases v.len() - i,
    {
        if crate::text::same(v[i].0.as_str(), key) {
            return i;
        }
        i = i + 1;
    }
    i
}

/// Gives a member a value.
pub fn put_member(v: &mut Vec<(String, Json)>, key: &str, value: Json)
    ensures
        members_view(final(v)@) == with_member(members_view(old(v)@), key@, value@),
{
    let i: usize = place_of(v, key);
    let ghost before = v@;
    proof {
        let m = members_view(v@);
        assert forall|k: int| 0 <= k < i implies (#[trigger] m[k]).0 != key@ by {
            assert(v@[k].0@ != key@);
        }
        lemma_put(m, key@, value@, i as int);
    }
    if i < v.len() {
        v.set(i, (key.to_owned(), value));
        assert(members_view(v@) =~= members_view(before).update(i as int, (key@, value@)));
    } else {
        v.push((key.to_owned(), value));
        assert(members_view(v@) =~= members_view(before).push((key@, value@)));
    }
}

/// Puts a member at the end.
pub fn add_member(v: &mut Vec<(String, Json)>, key: &str, value: Json)
    ensures
        members_view(final(v)@) == members_view(old(v)@).push((key@, value@)),
{
    let ghost before = v@;
    v.push((key.to_owned(), value));
    assert(members_view(v@) =~= members_view(before).push((key@, value@)));
}

/// The members without those named `key`, in copy.
pub fn members_without(v: &Vec<(String, Json)>, key: &str) -> (r: Vec<(String, Json)>)
    ensures
        members_view(r@) == without_member(members_view(v@), key@),
{
    let ghost all = members_view(v@);
    let ghost keep = |e: (Seq<char>, JsonView)| e.0 != key@;
    let mut r: Vec<(String, Json)> = Vec::new();
    let mut i: usize = 0;
    assert(all.take(0) =~= Seq::<(Seq<char>, JsonView)>::empty());
    assert(all.take(0).filter(keep) =~= members_view(r@)) by {
        reveal(Seq::filter);
    }
    while i < v.len()
        invariant
            i <= v.len(),
            all == members_view(v@),
            keep == (|e: (Seq<char>, JsonView)| e.0 != key@),
            members_view(r@) == all.take(i as int).filter(keep),
        decreases v.len() - i,
    {
        let ghost before = r@;
        proof {
            assert(all.take(i + 1) =~= all.take(i as int).push(all[i as int]));
            all.take(i as int).lemma_filter_push(all[i as int], keep);
        }
        if !crate::text::same(v[i].0.as_str(), key) {
            r.push((v[i].0.clone(), v[i].1.copy()));
            assert(members_view(r@) =~= members_view(before).push(all[i as int]));
        }
        i = i + 1;
    }
    assert(all.take(all.len() as int) =~= all);
    r
}

/// A copy of the members of an object.
pub fn copy_members(v: &Vec<(String, Json)>) -> (r: Vec<(String, Json)>)
    ensures
        members_view(r@) == members_view(v@),
    decreases v, 0nat,
{
    let ghost all = members_view(v@);
    let mut r: Vec<(String, Json)> = Vec::new();
    let mut i: usize = 0;
    while i < v.len()
        invariant
            i <= v.len(),
            all == members_view(v@),
            members_view(r@) == all.take(i as int),
        decreases v.len() - i,
    {
        let ghost before = r@;
        r.push((v[i].0.clone(), v[i].1.copy()));
        assert(members_view(r@) =~= members_view(before).push(all[i as int]));
        assert(all.take(i + 1) =~= all.take(i as int).push(all[i as int]));
        i = i + 1;
    }
    assert(all.take(all.len() as int) =~= all);
    r
}

/// A copy of a list of documents.
pub fn copy_list(v: &Vec<Json>) -> (r: Vec<Json>)
    ensures
        list_view(r@) == list_view(v@),
    decreases v, 0nat,
{
    let ghost all = list_view(v@);
    let mut r: Vec<Json> = Vec::new();
    let mut i: usize = 0;
    while i < v.len()
        invariant
            i <= v.len(),
            all == list_view(v@),
            list_view(r@) == all.take(i as int),
        decreases v.len() - i,
    {
        let ghost before = r@;
        r.push(v[i].copy());
        assert(list_view(r@) =~= list_view(before).push(all[i as int]));
        assert(all.take(i + 1) =~= all.take(i as int).push(all[i as int]));
        i = i + 1;
    }
    assert(all.take(all.len() as int) =~= all);
    r
}

/// A list of texts as a document.
pub fn texts_to_json(v: &Vec<String>) -> (r: Json)
    ensures
        r@ == texts_json(crate::text::texts(v@)),
{
    let ghost all = texts_json(crate::text::texts(v@))->List_0;
    let mut r: Vec<Json> = Vec::new();
    let mut i: usize = 0;
    while i < v.len()
        invariant
            i <= v.len(),
            all == texts_json(crate::text::texts(v@))->List_0,
            list_view(r@) == all.take(i as int),
        decreases v.len() - i,
    {
        let ghost before = r@;
        r.push(Json::Text(v[i].clone()));
        assert(list_view(r@) =~= list_view(before).push(all[i as int]));
        assert(all.take(i + 1) =~= all.take(i as int).push(all[i as int]));
        i = i + 1;
    }
    assert(all.take(all.len() as int) =~= all);
    Json::list(r)
}

impl Json {
    /// A copy of the document.
    pub fn copy(&self) -> (r: Json)
        ensures
            r@ == self@,
        decreases self,
    {
        proof {
            lemma_views(*self);
        }
        match self {
            Json::Null => Json::Null,
            Json::Bool(b) => Json::Bool(*b),
            Json::UInt(n) => Json::UInt(*n),
            Json::Int(n) => Json::Int(*n),
            Json::Float(x) => Json::Float(*x),
            Json::Text(s) => Json::Text(s.clone()),
            Json::List(v) => Json::list(copy_list(v)),
            Json::Object(v) => Json::object(copy_members(v)),
        }
    }

    pub fn list(v: Vec<Json>) -> (r: Json)
        ensures
            r@ == JsonView::List(list_view(v@)),
    {
        let r = Json::List(v);
        proof {
            lemma_views(r);
        }
        r
    }

    pub fn object(v: Vec<(String, Json)>) -> (r: Json)
        ensures
            r@ == JsonView::Object(members_view(v@)),
    {
        let r = Json::Object(v);
        proof {
            lemma_views(r);
        }
        r
    }

    pub fn text(s: &str) -> (r: Json)
        ensures
            r@ == JsonView::Text(s@),
    {
        Json::Text(s.to_owned())
    }

    /// A number; `null` where it is not finite.
    pub fn number(x: Double) -> (r: Json)
        ensures
            r@ == number_json(x),
    {
        if x.is_finite() {
            Json::Float(x)
        } else {
            Json::Null
        }
    }

    pub fn optional_number(x: Option<Double>) -> (r: Json)
        ensures
            r@ == optional_number_json(x),
    {
        match x {
            Some(x) => Json::number(x),
            None => Json::Null,
        }
    }

    pub fn optional_text(s: &Option<String>) -> (r: Json)
        ensures
            r@ == optional_text_json(crate::text::text_option(*s)),
    {
        match s {
            Some(s) => Json::Text(s.clone()),
            None => Json::Null,
        }
    }

    /// The value of a member, where this is an object that has it.
    pub fn get(&self, key: &str) -> (r: Option<&Json>)
        ensures
            found(r) == self@.get(key@),
    {
        proof {
            lemma_views(*self);
        }
        match self {
            Json::Object(v) => member_of(v, key),
            _ => None,
        }
    }

    pub fn as_object(&self) -> (r: Option<&Vec<(String, Json)>>)
        ensures
            match r {
                Some(v) => self@.members() == Some(members_view(v@)),
                None => self@.members() is None,
            },
    {
        proof {
            lemma_views(*self);
        }
        match self {
            Json::Object(v) => Some(v),
            _ => None,
        }
    }

    pub fn as_array(&self) -> (r: Option<&Vec<Json>>)
        ensures
            match r {
                Some(v) => self@.list() == Some(list_view(v@)),
                None => self@.list() is None,
            },
    {
        proof {
            lemma_views(*self);
        }
        match self {
            Json::List(v) => Some(v),
            _ => None,
        }
    }

    pub fn as_str(&self) -> (r: Option<&str>)
        ensures
            match r {
                Some(s) => self@.text() == Some(s@),
                None => self@.text() is None,
            },
    {
        match self {
            Json::Text(s) => Some(s.as_str()),
            _ => None,
        }
    }

    pub fn as_bool(&self) -> (r: Option<bool>)
        ensures
            r == self@.boolean(),
    {
        match self {
            Json::Bool(b) => Some(*b),
            _ => None,
        }
    }

    pub fn as_i64(&self) -> (r: Option<i64>)
        ensures
            r == self@.signed_integer(),
    {
        match self {
            Json::Int(n) => Some(*n),
            Json::UInt(n) => if *n <= 0x7fff_ffff_ffff_ffff {
                Some(*n as i64)
            } else {
                None
            },
            _ => None,
        }
    }

    pub fn as_u64(&self) -> (r: Option<u64>)
        ensures
            r == self@.unsigned_integer(),
    {
        match self {
            Json::UInt(n) => Some(*n),
            Json::Int(n) => if *n >= 0 {
                Some(*n as u64)
            } else {
                None
            },
            _ => None,
        }
    }

    pub fn as_f64(&self) -> (r: Option<Double>)
        ensures
            r == self@.number(),
    {
        match self {
            Json::UInt(n) => Some(Double::from_u64(*n)),
            Json::Int(n) => Some(Double::from_i64(*n)),
            Json::Float(x) => Some(*x),
            _ => None,
        }
    }
}

/// The text of a member.
pub fn member_text<'a>(v: Option<&'a Json>) -> (r: Option<&'a str>)
    ensures
        match r {
            Some(s) => text_in(found(v)) == Some(s@),
            None => text_in(found(v)) is None,
        },
{
    match v {
        Some(j) => j.as_str(),
        None => None,
    }
}

/// The truth value of a member.
pub fn member_bool(v: Option<&Json>) -> (r: Option<bool>)
    ensures
        r == boolean_in(found(v)),
{
    match v {
        Some(j) => j.as_bool(),
        None => None,
    }
}

/// The number of a member.
pub fn member_number(v: Option<&Json>) -> (r: Option<Double>)
    ensures
        r == number_in(found(v)),
{
    match v {
        Some(j) => j.as_f64(),
        None => None,
    }
}

/// The signed integer of a member.
pub fn member_i64(v: Option<&Json>) -> (r: Option<i64>)
    ensures
        r == integer_in(found(v)),
{
    match v {
        Some(j) => j.as_i64(),
        None => None,
    }
}

/// The first of two references that is there.
pub fn either_of<'a>(a: Option<&'a Json>, b: Option<&'a Json>) -> (r: Option<&'a Json>)
    ensures
        found(r) == either(found(a), found(b)),
{
    match a {
        Some(_) => a,
        None => b,
    }
}

/// Taking the members of one name away leaves those of every other, and none of that one.
pub proof fn law_other_members_stay(m: Members, key: Seq<char>, other: Seq<char>)
    ensures
        other != key ==> member(without_member(m, key), other) == member(m, other),
        member(without_member(m, key), key) is None,
    decreases m.len(),
{
    if m.len() > 0 {
        let front = m.drop_last();
        let left = without_member(front, key);
        law_other_members_stay(front, key, other);
        assert(m =~= front.push(m.last()));
        assert(m.last().0 != key ==> without_member(m, key) == left.push(m.last())) by {
            reveal(Seq::filter);
        }
        assert(m.last().0 == key ==> without_member(m, key) == left) by {
            reveal(Seq::filter);
        }
        crate::assoc::lemma_lookup_pushed(front, m.last(), other);
        crate::assoc::lemma_lookup_pushed(left, m.last(), other);
        crate::assoc::lemma_lookup_pushed(left, m.last(), key);
    } else {
        assert(without_member(m, key) =~= m) by {
            reveal(Seq::filter);
        }
    }
}

/// A number is written as it is where it is finite, and as nothing otherwise; what is not there
/// is written as nothing too.
pub proof fn law_values_are_written_as_they_are(x: Double, s: Seq<char>, v: Seq<Seq<char>>, i: int)
    ensures
        x.finite() ==> number_json(x).number() == Some(x),
        !x.finite() ==> number_json(x) == JsonView::Null,
        optional_number_json(Some(x)) == number_json(x),
        optional_number_json(None) == JsonView::Null,
        optional_text_json(Some(s)) == JsonView::Text(s),
        optional_text_json(None) == JsonView::Null,
        texts_json(v) is List,
        texts_json(v)->List_0.len() == v.len(),
        0 <= i < v.len() ==> texts_json(v)->List_0[i] == JsonView::Text(v[i]),
{
}

/// A document is read as what it is and as nothing else.
pub proof fn law_documents_are_read_as_what_they_are(
    n: int,
    x: Double,
    b: bool,
    s: Seq<char>,
    key: Seq<char>,
)
    ensures
        JsonView::Text(s).text() == Some(s),
        JsonView::Bool(b).boolean() == Some(b),
        i64::MIN <= n <= i64::MAX ==> JsonView::Whole(n).signed_integer() == Some(n as i64),
        n < i64::MIN || n > i64::MAX ==> JsonView::Whole(n).signed_integer() is None,
        0 <= n <= u64::MAX ==> JsonView::Whole(n).unsigned_integer() == Some(n as u64),
        n < 0 || n > u64::MAX ==> JsonView::Whole(n).unsigned_integer() is None,
        JsonView::Float(x).number() == Some(x),
        JsonView::Float(x).signed_integer() is None,
        JsonView::Text(s).number() is None,
        JsonView::Text(s).boolean() is None,
        JsonView::Bool(b).text() is None,
        JsonView::Text(s).get(key) is None,
        JsonView::Null.text() is None,
{
}

} // verus!
