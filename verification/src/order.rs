//! Arranging a list by rank, keeping the order of equals.

use vstd::prelude::*;

verus! {

/// Items that have a rank among each other.
pub trait Ranked: Sized {
    /// Whether `self` has to stand before `other`.
    spec fn outranks(&self, other: &Self) -> bool;

    fn is_before(&self, other: &Self) -> (r: bool)
        ensures
            r == self.outranks(other),
    ;
}

/// A list with `x` put in as far back as its rank allows.
pub open spec fn inserted<T: Ranked>(s: Seq<T>, x: T) -> Seq<T>
    decreases s.len(),
{
    if s.len() > 0 && x.outranks(&s.last()) {
        inserted(s.drop_last(), x).push(s.last())
    } else {
        s.push(x)
    }
}

/// A list in the order of rank, equals in the order in which they stood.
pub open spec fn arranged<T: Ranked>(s: Seq<T>) -> Seq<T>
    decreases s.len(),
{
    if s.len() == 0 {
        s
    } else {
        inserted(arranged(s.drop_last()), s.last())
    }
}

/// Whether no item stands before one that it has to stand behind.
pub open spec fn in_order<T: Ranked>(s: Seq<T>) -> bool {
    forall|i: int, j: int| 0 <= i < j < s.len() ==> !(#[trigger] s[j].outranks(&s[i]))
}

/// Whether rank is a strict weak order on the items of a kind: items that do not outrank
/// each other are equals.
pub open spec fn ranks_consistently<T: Ranked>(kind: spec_fn(T) -> bool) -> bool {
    &&& forall|a: T, b: T| #[trigger] a.outranks(&b) && kind(a) && kind(b) ==> !b.outranks(&a)
    &&& forall|a: T, b: T, c: T|
        !(#[trigger] b.outranks(&a)) && !(#[trigger] c.outranks(&b)) && kind(a) && kind(b) && kind(
            c,
        ) ==> !c.outranks(&a)
}

fn place_for<T: Ranked>(v: &Vec<T>, x: &T) -> (i: usize)
    ensures
        i <= v.len(),
        inserted(v@, *x) == v@.insert(i as int, *x),
{
    let mut i: usize = v.len();
    assert(v@.take(v@.len() as int) =~= v@);
    assert(inserted(v@, *x) =~= inserted(v@.take(i as int), *x) + v@.skip(i as int));
    while i > 0 && x.is_before(&v[i - 1])
        invariant
            i <= v.len(),
            inserted(v@, *x) == inserted(v@.take(i as int), *x) + v@.skip(i as int),
        decreases i,
    {
        assert(v@.take(i as int).drop_last() =~= v@.take(i - 1));
        assert(inserted(v@.take(i - 1), *x).push(v@[i - 1]) + v@.skip(i as int) =~= inserted(
            v@.take(i - 1),
            *x,
        ) + v@.skip(i - 1));
        i = i - 1;
    }
    assert(v@.take(i as int).push(*x) + v@.skip(i as int) =~= v@.insert(i as int, *x));
    i
}

/// Puts a list in the order of rank.
pub fn arrange<T: Ranked>(items: Vec<T>) -> (r: Vec<T>)
    ensures
        r@ == arranged(items@),
{
    let ghost all = items@;
    let mut rest: Vec<T> = items;
    let mut flipped: Vec<T> = Vec::new();
    while rest.len() > 0
        invariant
            rest@ + flipped@.reverse() == all,
        decreases rest.len(),
    {
        let ghost before = rest@;
        let ghost turned = flipped@;
        match rest.pop() {
            Some(x) => {
                flipped.push(x);
                assert(rest@ + flipped@.reverse() =~= before + turned.reverse());
            },
            None => {},
        }
    }
    assert(flipped@.reverse() =~= all);
    let mut r: Vec<T> = Vec::new();
    assert(all.take(0) =~= Seq::<T>::empty());
    let ghost mut done: int = 0;
    while flipped.len() > 0
        invariant
            0 <= done <= all.len(),
            flipped@.reverse() == all.skip(done),
            r@ == arranged(all.take(done)),
        decreases flipped.len(),
    {
        let ghost turned = flipped@;
        match flipped.pop() {
            Some(x) => {
                proof {
                    assert(all.skip(done).len() == turned.reverse().len());
                    assert(turned.reverse()[0] == x);
                    assert(all.skip(done)[0] == all[done]);
                    assert(all.take(done + 1).drop_last() =~= all.take(done));
                    assert(flipped@.reverse() =~= turned.reverse().skip(1));
                    assert(all.skip(done).skip(1) =~= all.skip(done + 1));
                }
                let i: usize = place_for(&r, &x);
                r.insert(i, x);
                proof {
                    done = done + 1;
                }
            },
            None => {},
        }
    }
    assert(all.skip(done).len() == 0);
    assert(all.take(done) =~= all);
    r
}

proof fn lemma_inserted<T: Ranked>(s: Seq<T>, x: T, kind: spec_fn(T) -> bool)
    requires
        ranks_consistently::<T>(kind),
        in_order(s),
        kind(x),
        forall|i: int| 0 <= i < s.len() ==> kind(#[trigger] s[i]),
    ensures
        in_order(inserted(s, x)),
    decreases s.len(),
{
    if s.len() > 0 && x.outranks(&s.last()) {
        let t = s.drop_last();
        let front = inserted(t, x);
        assert forall|i: int| 0 <= i < t.len() implies kind(#[trigger] t[i]) by {
            assert(kind(s[i]));
        }
        assert forall|i: int, j: int| 0 <= i < j < t.len() implies !(#[trigger] t[j].outranks(
            &t[i],
        )) by {
            assert(!s[j].outranks(&s[i]));
        }
        lemma_inserted(t, x, kind);
        lemma_inserted_items(t, x);
        assert(kind(s[s.len() - 1]));
        assert forall|i: int| 0 <= i < front.len() implies !(#[trigger] s.last().outranks(
            &front[i],
        )) by {
            assert(front.contains(front[i]));
            if front[i] != x {
                let k = choose|k: int| 0 <= k < t.len() && t[k] == front[i];
                assert(!s[s.len() - 1].outranks(&s[k]));
            }
        }
    } else {
        assert forall|i: int| 0 <= i < s.len() implies !(#[trigger] x.outranks(&s[i])) by {
            if i < s.len() - 1 {
                assert(!s[s.len() - 1].outranks(&s[i]));
                assert(kind(s[i]) && kind(s[s.len() - 1]));
            }
        }
    }
}

/// Arranging a list leaves no item before one that has to stand before it.
pub proof fn lemma_arranged<T: Ranked>(s: Seq<T>, kind: spec_fn(T) -> bool)
    requires
        ranks_consistently::<T>(kind),
        forall|i: int| 0 <= i < s.len() ==> kind(#[trigger] s[i]),
    ensures
        in_order(arranged(s)),
    decreases s.len(),
{
    if s.len() > 0 {
        let t = s.drop_last();
        assert forall|i: int| 0 <= i < t.len() implies kind(#[trigger] t[i]) by {
            assert(kind(s[i]));
        }
        lemma_arranged(t, kind);
        lemma_arranged_items(t);
        let u = arranged(t);
        assert forall|i: int| 0 <= i < u.len() implies kind(#[trigger] u[i]) by {
            assert(u.contains(u[i]));
            let k = choose|k: int| 0 <= k < t.len() && t[k] == u[i];
            assert(kind(t[k]));
        }
        assert(kind(s[s.len() - 1]));
        lemma_inserted(u, s.last(), kind);
    }
}

/// The items of an arranged list are those of the list.
pub proof fn lemma_arranged_items<T: Ranked>(s: Seq<T>)
    ensures
        arranged(s).len() == s.len(),
        forall|x: T| #[trigger] arranged(s).contains(x) <==> s.contains(x),
    decreases s.len(),
{
    if s.len() > 0 {
        lemma_arranged_items(s.drop_last());
        lemma_inserted_items(arranged(s.drop_last()), s.last());
        assert(s =~= s.drop_last().push(s.last()));
        assert forall|x: T| #[trigger] arranged(s).contains(x) <==> s.contains(x) by {
            lemma_pushed_items(s.drop_last(), s.last(), x);
        }
    }
}

proof fn lemma_pushed_items<T>(s: Seq<T>, y: T, x: T)
    ensures
        s.push(y).contains(x) <==> s.contains(x) || x == y,
{
    if s.contains(x) {
        let k = choose|k: int| 0 <= k < s.len() && s[k] == x;
        assert(s.push(y)[k] == x);
    }
    assert(s.push(y)[s.len() as int] == y);
}

proof fn lemma_inserted_items<T: Ranked>(s: Seq<T>, y: T)
    ensures
        inserted(s, y).len() == s.len() + 1,
        forall|x: T| #[trigger] inserted(s, y).contains(x) <==> s.contains(x) || x == y,
    decreases s.len(),
{
    if s.len() > 0 && y.outranks(&s.last()) {
        lemma_inserted_items(s.drop_last(), y);
        assert(s =~= s.drop_last().push(s.last()));
        assert forall|x: T| #[trigger] inserted(s, y).contains(x) <==> s.contains(x) || x == y by {
            lemma_pushed_items(inserted(s.drop_last(), y), s.last(), x);
            lemma_pushed_items(s.drop_last(), s.last(), x);
        }
    } else {
        assert forall|x: T| #[trigger] inserted(s, y).contains(x) <==> s.contains(x) || x == y by {
            lemma_pushed_items(s, y, x);
        }
    }
}

/// What stands behind everything that it does not outrank stays there: arranging puts one more
/// item at the end unless it outranks the last, so that equals keep the order they came in.
pub proof fn law_equals_keep_their_order<T: Ranked>(s: Seq<T>, x: T)
    ensures
        s.len() == 0 ==> arranged(s.push(x)) == seq![x],
        s.len() > 0 && !x.outranks(&arranged(s).last()) ==> arranged(s.push(x)) == arranged(s).push(
            x,
        ),
        s.len() > 0 && x.outranks(&arranged(s).last()) ==> arranged(s.push(x)).last() == arranged(
            s,
        ).last(),
{
    assert(s.push(x).drop_last() =~= s);
    lemma_arranged_items(s);
    if s.len() == 0 {
        assert(arranged(s).push(x) =~= seq![x]);
    }
}

proof fn lemma_inserted_counts<T: Ranked>(s: Seq<T>, x: T)
    ensures
        inserted(s, x).to_multiset() =~= s.to_multiset().insert(x),
    decreases s.len(),
{
    broadcast use vstd::seq_lib::group_to_multiset_ensures;

    if s.len() > 0 && x.outranks(&s.last()) {
        lemma_inserted_counts(s.drop_last(), x);
        assert(s =~= s.drop_last().push(s.last()));
        let front = s.drop_last().to_multiset();
        assert(front.insert(x).insert(s.last()) =~= front.insert(s.last()).insert(x));
    }
}

/// Arranging a list neither adds nor takes away: every item is there as often as before.
pub proof fn law_arranging_keeps_every_item<T: Ranked>(s: Seq<T>)
    ensures
        arranged(s).to_multiset() =~= s.to_multiset(),
    decreases s.len(),
{
    broadcast use vstd::seq_lib::group_to_multiset_ensures;

    if s.len() > 0 {
        law_arranging_keeps_every_item(s.drop_last());
        lemma_inserted_counts(arranged(s.drop_last()), s.last());
        assert(s =~= s.drop_last().push(s.last()));
    }
}

} // verus!
