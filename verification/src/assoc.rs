//! Lists of named values.

use vstd::prelude::*;

verus! {

/// The value of a name, the first where several have it.
pub open spec fn lookup<V>(s: Seq<(Seq<char>, V)>, key: Seq<char>) -> Option<V>
    decreases s.len(),
{
    if s.len() == 0 {
        None
    } else if s[0].0 == key {
        Some(s[0].1)
    } else {
        lookup(s.skip(1), key)
    }
}

/// A list with the value of `key` replaced, or put at the end where there is none.
pub open spec fn put<V>(s: Seq<(Seq<char>, V)>, key: Seq<char>, value: V) -> Seq<(Seq<char>, V)>
    decreases s.len(),
{
    if s.len() == 0 {
        seq![(key, value)]
    } else if s[0].0 == key {
        seq![(key, value)] + s.skip(1)
    } else {
        seq![s[0]] + put(s.skip(1), key, value)
    }
}

/// The first place of a name, the number of names where none is that.
pub open spec fn place_of<V>(s: Seq<(Seq<char>, V)>, key: Seq<char>) -> int
    decreases s.len(),
{
    if s.len() == 0 || s[0].0 == key {
        0
    } else {
        1 + place_of(s.skip(1), key)
    }
}

/// Whether `i` is the first place of a name, or the number of names where none is that.
pub open spec fn is_place<V>(s: Seq<(Seq<char>, V)>, key: Seq<char>, i: int) -> bool {
    &&& 0 <= i <= s.len()
    &&& forall|k: int| 0 <= k < i ==> (#[trigger] s[k]).0 != key
    &&& i < s.len() ==> s[i].0 == key
}

pub proof fn lemma_lookup<V>(s: Seq<(Seq<char>, V)>, key: Seq<char>, i: int)
    requires
        is_place(s, key, i),
    ensures
        lookup(s, key) == (if i < s.len() {
            Some(s[i].1)
        } else {
            None
        }),
    decreases s.len(),
{
    if s.len() > 0 && s[0].0 != key {
        assert forall|k: int| 0 <= k < i - 1 implies (#[trigger] s.skip(1)[k]).0 != key by {
            assert(s[k + 1].0 != key);
        }
        assert(i > 0);
        lemma_lookup(s.skip(1), key, i - 1);
    }
}

pub proof fn lemma_put<V>(s: Seq<(Seq<char>, V)>, key: Seq<char>, value: V, i: int)
    requires
        is_place(s, key, i),
    ensures
        put(s, key, value) == (if i < s.len() {
            s.update(i, (key, value))
        } else {
            s.push((key, value))
        }),
    decreases s.len(),
{
    if s.len() == 0 {
        assert(seq![(key, value)] =~= s.push((key, value)));
    } else if s[0].0 == key {
        assert(i == 0);
        assert(seq![(key, value)] + s.skip(1) =~= s.update(0, (key, value)));
    } else {
        assert forall|k: int| 0 <= k < i - 1 implies (#[trigger] s.skip(1)[k]).0 != key by {
            assert(s[k + 1].0 != key);
        }
        assert(i > 0);
        lemma_put(s.skip(1), key, value, i - 1);
        if i < s.len() {
            assert(seq![s[0]] + s.skip(1).update(i - 1, (key, value)) =~= s.update(
                i,
                (key, value),
            ));
        } else {
            assert(seq![s[0]] + s.skip(1).push((key, value)) =~= s.push((key, value)));
        }
    }
}

pub proof fn lemma_place_of<V>(s: Seq<(Seq<char>, V)>, key: Seq<char>, i: int)
    requires
        is_place(s, key, i),
    ensures
        place_of(s, key) == i,
    decreases s.len(),
{
    if s.len() > 0 && s[0].0 != key {
        assert forall|k: int| 0 <= k < i - 1 implies (#[trigger] s.skip(1)[k]).0 != key by {
            assert(s[k + 1].0 != key);
        }
        assert(i > 0);
        lemma_place_of(s.skip(1), key, i - 1);
    }
}

/// One more value at the end is found where its name had none before.
pub proof fn lemma_lookup_pushed<V>(s: Seq<(Seq<char>, V)>, e: (Seq<char>, V), key: Seq<char>)
    ensures
        lookup(s, key) is Some ==> lookup(s.push(e), key) == lookup(s, key),
        lookup(s, key) is None && e.0 == key ==> lookup(s.push(e), key) == Some(e.1),
        lookup(s, key) is None && e.0 != key ==> lookup(s.push(e), key) is None,
    decreases s.len(),
{
    let p = s.push(e);
    if s.len() == 0 {
        assert(p.skip(1) =~= Seq::<(Seq<char>, V)>::empty());
        assert(lookup(p.skip(1), key) is None);
    } else {
        lemma_lookup_pushed(s.skip(1), e, key);
        assert(p.skip(1) =~= s.skip(1).push(e));
    }
}

/// What is put under a name is found under it, and the other names keep their values.
pub proof fn law_lookup_after_put<V>(
    s: Seq<(Seq<char>, V)>,
    key: Seq<char>,
    value: V,
    other: Seq<char>,
)
    ensures
        lookup(put(s, key, value), key) == Some(value),
        other != key ==> lookup(put(s, key, value), other) == lookup(s, other),
    decreases s.len(),
{
    let p = put(s, key, value);
    if s.len() == 0 {
        assert(p.skip(1) =~= Seq::<(Seq<char>, V)>::empty());
        assert(lookup(p.skip(1), other) is None);
    } else if s[0].0 == key {
        assert(p.skip(1) =~= s.skip(1));
    } else {
        law_lookup_after_put(s.skip(1), key, value, other);
        assert(p.skip(1) =~= put(s.skip(1), key, value));
    }
}

} // verus!
