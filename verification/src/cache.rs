//! Keeping a cache small: entries that were not seen for long go, and so do the ones seen
//! longest ago when there are too many.

use vstd::prelude::*;

use crate::order::arrange;
use crate::order::arranged;
use crate::order::lemma_arranged;
use crate::order::lemma_arranged_items;
use crate::order::Ranked;
use crate::time::Timestamp;
use crate::time::EARLIEST_NANOS;

verus! {

/// An entry of a cache.
pub trait Aging: Sized {
    /// When the entry was last seen to change; `None` where it never was.
    spec fn seen(&self) -> Option<Timestamp>;

    fn last_seen(&self) -> (r: Option<Timestamp>)
        ensures
            r == self.seen(),
    ;
}

/// The items whose flag is set.
pub open spec fn kept<T>(s: Seq<T>, flags: Seq<bool>) -> Seq<T>
    decreases s.len(),
{
    if s.len() == 0 {
        s
    } else {
        let front = kept(s.drop_last(), flags);
        if flags[s.len() - 1] {
            front.push(s.last())
        } else {
            front
        }
    }
}

/// Keeps the items whose flag is set.
pub fn keep<T>(items: Vec<T>, flags: &Vec<bool>) -> (r: Vec<T>)
    requires
        flags.len() == items.len(),
    ensures
        r@ == kept(items@, flags@),
{
    let ghost all = items@;
    let mut rest: Vec<T> = items;
    let mut flipped: Vec<T> = Vec::new();
    assert(all.take(all.len() as int) =~= all);
    while rest.len() > 0
        invariant
            rest.len() <= all.len(),
            flags.len() == all.len(),
            rest@ == all.take(rest.len() as int),
            kept(all, flags@) == kept(rest@, flags@) + flipped@.reverse(),
        decreases rest.len(),
    {
        let ghost before = rest@;
        let ghost turned = flipped@;
        let n: usize = rest.len();
        match rest.pop() {
            Some(x) => {
                assert(rest@ =~= before.drop_last());
                if flags[n - 1] {
                    flipped.push(x);
                    assert(kept(rest@, flags@) + flipped@.reverse() =~= kept(rest@, flags@).push(x)
                        + turned.reverse());
                }
            },
            None => {},
        }
    }
    let ghost result = kept(all, flags@);
    assert(flipped@.reverse() =~= result);
    let mut r: Vec<T> = Vec::new();
    while flipped.len() > 0
        invariant
            r@ + flipped@.reverse() == result,
        decreases flipped.len(),
    {
        let ghost turned = flipped@;
        let ghost done = r@;
        match flipped.pop() {
            Some(x) => {
                r.push(x);
                assert(r@ + flipped@.reverse() =~= done + turned.reverse());
            },
            None => {},
        }
    }
    assert(r@ =~= result);
    r
}

/// The place of an entry, and when it was last seen.
#[derive(Clone, Copy, Debug, PartialEq, Eq, Structural)]
pub struct Aged {
    pub place: usize,
    pub at: Timestamp,
}

impl Ranked for Aged {
    open spec fn outranks(&self, other: &Self) -> bool {
        self.at.before(other.at)
    }

    fn is_before(&self, other: &Self) -> (r: bool) {
        self.at.is_before(other.at)
    }
}

/// The time of an entry that was never seen to change.
pub open spec fn never() -> Timestamp {
    Timestamp { nanos: EARLIEST_NANOS }
}

/// Whether an entry was seen at `cutoff` or later.
pub open spec fn fresh<T: Aging>(x: T, cutoff: Timestamp) -> bool {
    match x.seen() {
        Some(at) => !at.before(cutoff),
        None => false,
    }
}

/// Which entries are fresh enough to stay; the current one always is.
pub open spec fn fresh_flags<T: Aging>(
    s: Seq<T>,
    current: Option<int>,
    cutoff: Timestamp,
) -> Seq<bool> {
    Seq::new(s.len(), |i: int| current == Some(i) || fresh(s[i], cutoff))
}

/// The entries other than the current one, with their ages.
pub open spec fn ages<T: Aging>(s: Seq<T>, current: Option<int>, n: nat) -> Seq<Aged>
    decreases n,
{
    if n == 0 {
        Seq::<Aged>::empty()
    } else {
        let before = ages(s, current, (n - 1) as nat);
        if current == Some(n - 1) {
            before
        } else {
            before.push(
                Aged {
                    place: (n - 1) as usize,
                    at: match s[n - 1].seen() {
                        Some(at) => at,
                        None => never(),
                    },
                },
            )
        }
    }
}

/// The entries that go when `excess` are too many: those seen longest ago.
pub open spec fn leaving<T: Aging>(s: Seq<T>, current: Option<int>, excess: int) -> Seq<Aged> {
    let oldest = arranged(ages(s, current, s.len()));
    if excess <= 0 {
        Seq::<Aged>::empty()
    } else if excess >= oldest.len() {
        oldest
    } else {
        oldest.take(excess)
    }
}

/// Which entries stay when those in `gone` go.
pub open spec fn staying_flags(n: nat, gone: Seq<Aged>) -> Seq<bool> {
    Seq::new(n, |i: int| !(exists|k: int| 0 <= k < gone.len() && (#[trigger] gone[k]).place == i))
}

/// The entries that stay when at most `limit` may.
pub open spec fn limited<T: Aging>(s: Seq<T>, current: Option<int>, limit: nat) -> Seq<T> {
    kept(s, staying_flags(s.len(), leaving(s, current, s.len() - limit)))
}

/// The place of the current entry once the entries without a flag are gone.
pub open spec fn place_after(flags: Seq<bool>, current: Option<int>) -> Option<int> {
    match current {
        Some(i) => Some(kept(flags.take(i), flags).len() as int),
        None => None,
    }
}

/// A cache without the entries last seen before `cutoff`, and then without those seen
/// longest ago as far as there are more than `limit`. The current entry stays.
pub open spec fn pruned<T: Aging>(
    s: Seq<T>,
    current: Option<int>,
    cutoff: Timestamp,
    limit: nat,
) -> Seq<T> {
    let flags = fresh_flags(s, current, cutoff);
    limited(kept(s, flags), place_after(flags, current), limit)
}

fn places<T: Aging>(items: &Vec<T>, current: Option<usize>) -> (r: Vec<Aged>)
    ensures
        r@ == ages(items@, place_option(current), items@.len()),
{
    let mut r: Vec<Aged> = Vec::new();
    let mut i: usize = 0;
    while i < items.len()
        invariant
            i <= items.len(),
            r@ == ages(items@, place_option(current), i as nat),
        decreases items.len() - i,
    {
        let skip: bool = match current {
            Some(c) => c == i,
            None => false,
        };
        if !skip {
            let at: Timestamp = match items[i].last_seen() {
                Some(at) => at,
                None => Timestamp { nanos: EARLIEST_NANOS },
            };
            r.push(Aged { place: i, at });
        }
        i = i + 1;
    }
    r
}

/// A place as an integer.
pub open spec fn place_option(p: Option<usize>) -> Option<int> {
    match p {
        Some(p) => Some(p as int),
        None => None,
    }
}

/// Drops the entries last seen before `cutoff`, and then those seen longest ago as far as
/// there are more than `limit`. The current entry stays.
pub fn prune<T: Aging>(
    items: Vec<T>,
    current: Option<usize>,
    cutoff: Timestamp,
    limit: usize,
) -> (r: Vec<T>)
    requires
        current matches Some(i) ==> i < items.len(),
    ensures
        r@ == pruned(items@, place_option(current), cutoff, limit as nat),
{
    let ghost all = items@;
    let ghost now = place_option(current);
    let ghost wanted = fresh_flags(all, now, cutoff);
    let mut flags: Vec<bool> = Vec::new();
    let mut place: usize = 0;
    let mut staying: usize = 0;
    let mut i: usize = 0;
    assert(wanted.take(0) =~= Seq::<bool>::empty());
    while i < items.len()
        invariant
            i <= items.len(),
            items@ == all,
            now == place_option(current),
            wanted == fresh_flags(all, now, cutoff),
            flags@ == wanted.take(i as int),
            staying <= i,
            staying == kept(wanted.take(i as int), wanted).len(),
            current matches Some(c) ==> c < i ==> place == kept(
                wanted.take(c as int),
                wanted,
            ).len(),
        decreases items.len() - i,
    {
        let is_current: bool = match current {
            Some(c) => c == i,
            None => false,
        };
        if is_current {
            place = staying;
        }
        let flag: bool = is_current || match items[i].last_seen() {
            Some(at) => !at.is_before(cutoff),
            None => false,
        };
        assert(flag == wanted[i as int]);
        assert(wanted.take(i + 1).drop_last() =~= wanted.take(i as int));
        assert(wanted.take(i + 1) =~= wanted.take(i as int).push(flag));
        flags.push(flag);
        if flag {
            staying = staying + 1;
        }
        i = i + 1;
    }
    assert(wanted.take(wanted.len() as int) =~= wanted);
    let left: Vec<T> = keep(items, &flags);
    let ghost after = place_after(wanted, now);
    let there: Option<usize> = match current {
        Some(_) => Some(place),
        None => None,
    };
    let n: usize = left.len();
    let excess: usize = if n > limit {
        n - limit
    } else {
        0
    };
    let ghost gone = leaving(left@, after, n - limit);
    let oldest: Vec<Aged> = arrange(places(&left, there));
    let count: usize = if excess < oldest.len() {
        excess
    } else {
        oldest.len()
    };
    assert(gone =~= oldest@.take(count as int));
    let mut stays: Vec<bool> = Vec::new();
    let mut j: usize = 0;
    while j < n
        invariant
            j <= n,
            stays.len() == j,
            count <= oldest.len(),
            gone == oldest@.take(count as int),
            forall|x: int| 0 <= x < j ==> stays@[x] == staying_flags(n as nat, gone)[x],
        decreases n - j,
    {
        let mut hit: bool = false;
        let mut k: usize = 0;
        while k < count
            invariant
                k <= count <= oldest.len(),
                gone == oldest@.take(count as int),
                hit == (exists|x: int| 0 <= x < k && (#[trigger] gone[x]).place == j),
            decreases count - k,
        {
            if oldest[k].place == j {
                hit = true;
                assert(gone[k as int].place == j);
            }
            k = k + 1;
        }
        stays.push(!hit);
        j = j + 1;
    }
    assert(stays@ =~= staying_flags(n as nat, gone));
    keep(left, &stays)
}

// ---------------------------------------------------------------------------
// Laws
// ---------------------------------------------------------------------------

pub(crate) proof fn lemma_kept_items<T>(s: Seq<T>, flags: Seq<bool>)
    requires
        flags.len() >= s.len(),
    ensures
        kept(s, flags).len() <= s.len(),
        forall|x: T|
            #[trigger] kept(s, flags).contains(x) <==> exists|i: int|
                0 <= i < s.len() && flags[i] && s[i] == x,
    decreases s.len(),
{
    if s.len() > 0 {
        let t = s.drop_last();
        lemma_kept_items(t, flags);
        let f = kept(t, flags);
        assert forall|x: T| #[trigger] kept(s, flags).contains(x) <==> exists|i: int|
            0 <= i < s.len() && flags[i] && s[i] == x by {
            if kept(s, flags).contains(x) {
                let k = choose|k: int| 0 <= k < kept(s, flags).len() && kept(s, flags)[k] == x;
                if k < f.len() {
                    assert(f[k] == x);
                    assert(f.contains(x));
                    let i = choose|i: int| 0 <= i < t.len() && flags[i] && t[i] == x;
                    assert(s[i] == x && flags[i]);
                } else {
                    assert(s[s.len() - 1] == x && flags[s.len() - 1]);
                }
            }
            if exists|i: int| 0 <= i < s.len() && flags[i] && s[i] == x {
                let i = choose|i: int| 0 <= i < s.len() && flags[i] && s[i] == x;
                if i < t.len() {
                    assert(t[i] == x);
                    assert(f.contains(x));
                    let k = choose|k: int| 0 <= k < f.len() && f[k] == x;
                    assert(kept(s, flags)[k] == x);
                } else {
                    assert(kept(s, flags).last() == x);
                }
            }
        }
    }
}

proof fn lemma_kept_place<T>(s: Seq<T>, flags: Seq<bool>, i: int)
    requires
        flags.len() >= s.len(),
        0 <= i < s.len(),
        flags[i],
    ensures
        0 <= kept(flags.take(i), flags).len() < kept(s, flags).len(),
        kept(s, flags)[kept(flags.take(i), flags).len() as int] == s[i],
    decreases s.len(),
{
    let t = s.drop_last();
    if i < t.len() {
        lemma_kept_place(t, flags, i);
    } else {
        lemma_kept_lengths(t, flags.take(i), flags);
    }
}

proof fn lemma_kept_lengths<T, U>(s: Seq<T>, u: Seq<U>, flags: Seq<bool>)
    requires
        s.len() == u.len() <= flags.len(),
    ensures
        kept(s, flags).len() == kept(u, flags).len(),
    decreases s.len(),
{
    if s.len() > 0 {
        lemma_kept_lengths(s.drop_last(), u.drop_last(), flags);
    }
}

proof fn lemma_ages<T: Aging>(s: Seq<T>, current: Option<int>, n: nat)
    requires
        n <= s.len() <= usize::MAX,
    ensures
        forall|k: int|
            0 <= k < ages(s, current, n).len() ==> current != Some(
                (#[trigger] ages(s, current, n)[k]).place as int,
            ) && ages(s, current, n)[k].place < n,
        forall|i: int, j: int|
            0 <= i < j < ages(s, current, n).len() ==> (#[trigger] ages(s, current, n)[i]).place
                != (#[trigger] ages(s, current, n)[j]).place,
        ages(s, current, n).len() == (if current matches Some(c) && 0 <= c < n {
            n - 1
        } else {
            n as int
        }),
    decreases n,
{
    if n > 0 {
        lemma_ages(s, current, (n - 1) as nat);
    }
}

/// The current entry of a cache is still there after pruning.
pub proof fn law_current_entry_survives<T: Aging>(
    s: Seq<T>,
    current: int,
    cutoff: Timestamp,
    limit: nat,
)
    requires
        0 <= current < s.len() <= usize::MAX,
    ensures
        pruned(s, Some(current), cutoff, limit).contains(s[current]),
{
    let flags = fresh_flags(s, Some(current), cutoff);
    let left = kept(s, flags);
    let place = kept(flags.take(current), flags).len() as int;
    lemma_kept_items(s, flags);
    lemma_kept_place(s, flags, current);
    let gone = leaving(left, Some(place), left.len() - limit);
    let all = ages(left, Some(place), left.len());
    lemma_ages(left, Some(place), left.len());
    lemma_arranged_items(all);
    let stays = staying_flags(left.len(), gone);
    assert(stays[place]) by {
        assert forall|k: int| 0 <= k < gone.len() implies (#[trigger] gone[k]).place != place by {
            assert(arranged(all)[k] == gone[k]);
            assert(arranged(all).contains(gone[k]));
            let j = choose|j: int| 0 <= j < all.len() && all[j] == gone[k];
            assert(all[j].place != place);
        }
    }
    lemma_kept_items(left, stays);
    assert(left[place] == s[current] && stays[place]);
}

/// What is left after pruning was there before, and is fresh or the current entry.
pub proof fn law_stale_entries_go<T: Aging>(
    s: Seq<T>,
    current: Option<int>,
    cutoff: Timestamp,
    limit: nat,
    x: T,
)
    requires
        s.len() <= usize::MAX,
        pruned(s, current, cutoff, limit).contains(x),
    ensures
        exists|i: int|
            0 <= i < s.len() && #[trigger] s[i] == x && (current == Some(i) || fresh(x, cutoff)),
{
    let flags = fresh_flags(s, current, cutoff);
    let left = kept(s, flags);
    lemma_kept_items(s, flags);
    let stays = staying_flags(
        left.len(),
        leaving(left, place_after(flags, current), left.len() - limit),
    );
    lemma_kept_items(left, stays);
    let k = choose|k: int| 0 <= k < left.len() && stays[k] && left[k] == x;
    assert(left.contains(x));
    let i = choose|i: int| 0 <= i < s.len() && flags[i] && s[i] == x;
    assert(s[i] == x);
}

proof fn lemma_kept_count<T>(s: Seq<T>, gone: Seq<Aged>, flags: Seq<bool>)
    requires
        flags.len() >= s.len(),
        forall|i: int|
            0 <= i < s.len() ==> #[trigger] flags[i] == !(exists|k: int|
                0 <= k < gone.len() && (#[trigger] gone[k]).place == i),
        forall|k: int| 0 <= k < gone.len() ==> (#[trigger] gone[k]).place < s.len(),
        forall|i: int, j: int|
            0 <= i < j < gone.len() ==> (#[trigger] gone[i]).place != (#[trigger] gone[j]).place,
    ensures
        kept(s, flags).len() == s.len() - gone.len(),
    decreases s.len(),
{
    if s.len() == 0 {
        if gone.len() > 0 {
            assert(gone[0].place < 0);
        }
    } else {
        let t = s.drop_last();
        let last = s.len() - 1;
        if flags[last] {
            assert forall|k: int| 0 <= k < gone.len() implies (#[trigger] gone[k]).place
                < t.len() by {
                assert(gone[k].place != last);
            }
            lemma_kept_count(t, gone, flags);
        } else {
            let k = choose|k: int| 0 <= k < gone.len() && (#[trigger] gone[k]).place == last;
            let rest = gone.remove(k);
            assert forall|j: int| 0 <= j < rest.len() implies (#[trigger] rest[j]).place
                < t.len() by {
                let m = if j < k {
                    j
                } else {
                    j + 1
                };
                assert(rest[j] == gone[m]);
                assert(gone[m].place < s.len());
                assert(gone[m].place != gone[k].place);
            }
            assert forall|i: int, j: int| 0 <= i < j < rest.len() implies (#[trigger] rest[i]).place
                != (#[trigger] rest[j]).place by {
                let m = if i < k {
                    i
                } else {
                    i + 1
                };
                let n = if j < k {
                    j
                } else {
                    j + 1
                };
                assert(rest[i] == gone[m] && rest[j] == gone[n]);
            }
            assert forall|i: int| 0 <= i < t.len() implies #[trigger] flags[i] == !(exists|j: int|
                0 <= j < rest.len() && (#[trigger] rest[j]).place == i) by {
                if exists|j: int| 0 <= j < gone.len() && (#[trigger] gone[j]).place == i {
                    let j = choose|j: int| 0 <= j < gone.len() && (#[trigger] gone[j]).place == i;
                    assert(j != k);
                    let m = if j < k {
                        j
                    } else {
                        j - 1
                    };
                    assert(rest[m] == gone[j]);
                }
                if exists|j: int| 0 <= j < rest.len() && (#[trigger] rest[j]).place == i {
                    let j = choose|j: int| 0 <= j < rest.len() && (#[trigger] rest[j]).place == i;
                    let m = if j < k {
                        j
                    } else {
                        j + 1
                    };
                    assert(rest[j] == gone[m]);
                }
            }
            lemma_kept_count(t, rest, flags);
        }
    }
}

/// A pruned cache holds no more entries than it may, except that the current one stays
/// even where none may.
pub proof fn law_pruned_cache_is_bounded<T: Aging>(
    s: Seq<T>,
    current: Option<int>,
    cutoff: Timestamp,
    limit: nat,
)
    requires
        s.len() <= usize::MAX,
        current matches Some(i) ==> 0 <= i < s.len(),
    ensures
        pruned(s, current, cutoff, limit).len() <= (if limit == 0 {
            1
        } else {
            limit
        }),
{
    let flags = fresh_flags(s, current, cutoff);
    let left = kept(s, flags);
    let there = place_after(flags, current);
    lemma_kept_items(s, flags);
    if current is Some {
        lemma_kept_place(s, flags, current->0);
    }
    let all = ages(left, there, left.len());
    lemma_ages(left, there, left.len());
    let gone = leaving(left, there, left.len() - limit);
    let oldest = arranged(all);
    lemma_distinct_places(all);
    assert forall|k: int| 0 <= k < gone.len() implies (#[trigger] gone[k]).place < left.len() by {
        assert(oldest[k] == gone[k]);
    }
    assert forall|i: int, j: int| 0 <= i < j < gone.len() implies (#[trigger] gone[i]).place != (
    #[trigger] gone[j]).place by {
        assert(oldest[i] == gone[i] && oldest[j] == gone[j]);
    }
    lemma_kept_count(left, gone, staying_flags(left.len(), gone));
}

/// When an entry was last seen; long ago where it never was.
spec fn age_of<T: Aging>(x: T) -> Timestamp {
    match x.seen() {
        Some(at) => at,
        None => never(),
    }
}

proof fn lemma_ages_of<T: Aging>(s: Seq<T>, current: Option<int>, n: nat)
    requires
        n <= s.len() <= usize::MAX,
    ensures
        forall|k: int|
            0 <= k < ages(s, current, n).len() ==> (#[trigger] ages(s, current, n)[k]).place < n
                && ages(s, current, n)[k].at == age_of(s[ages(s, current, n)[k].place as int]),
        forall|i: int|
            0 <= i < n && current != Some(i) ==> ages(s, current, n).contains(
                Aged { place: i as usize, at: age_of(#[trigger] s[i]) },
            ),
    decreases n,
{
    if n > 0 {
        let before = ages(s, current, (n - 1) as nat);
        let all = ages(s, current, n);
        lemma_ages_of(s, current, (n - 1) as nat);
        assert forall|i: int| 0 <= i < n && current != Some(i) implies all.contains(
            Aged { place: i as usize, at: age_of(#[trigger] s[i]) },
        ) by {
            let x = Aged { place: i as usize, at: age_of(s[i]) };
            if i < n - 1 {
                assert(before.contains(x));
                let k = choose|k: int| 0 <= k < before.len() && before[k] == x;
                assert(all[k] == x);
            } else {
                assert(all[all.len() - 1] == x);
            }
        }
    }
}

/// A fresh entry that goes for want of room was seen no later than any that stays, other than
/// the current one.
pub proof fn law_the_oldest_entries_go<T: Aging>(
    s: Seq<T>,
    current: Option<int>,
    cutoff: Timestamp,
    limit: nat,
    gone: T,
    there: T,
)
    requires
        s.len() <= usize::MAX,
        current matches Some(c) ==> 0 <= c < s.len() && there != s[c],
        s.contains(gone),
        fresh(gone, cutoff),
        !pruned(s, current, cutoff, limit).contains(gone),
        pruned(s, current, cutoff, limit).contains(there),
    ensures
        gone.seen() is Some,
        there.seen() is Some,
        !there.seen()->0.before(gone.seen()->0),
{
    let flags = fresh_flags(s, current, cutoff);
    let left = kept(s, flags);
    let place = place_after(flags, current);
    lemma_kept_items(s, flags);
    if current is Some {
        lemma_kept_place(s, flags, current->0);
    }
    let all = ages(left, place, left.len());
    let oldest = arranged(all);
    let leaves = leaving(left, place, left.len() - limit);
    let stays = staying_flags(left.len(), leaves);
    lemma_kept_items(left, stays);
    let i = choose|i: int| 0 <= i < s.len() && s[i] == gone;
    assert(flags[i] && s[i] == gone);
    assert(left.contains(gone));
    let a = choose|a: int| 0 <= a < left.len() && left[a] == gone;
    assert(!stays[a]);
    let k = choose|k: int| 0 <= k < leaves.len() && (#[trigger] leaves[k]).place == a;
    let b = choose|b: int| 0 <= b < left.len() && stays[b] && left[b] == there;
    assert(left.contains(there));
    let o = choose|o: int| 0 <= o < s.len() && flags[o] && s[o] == there;
    lemma_ages_of(left, place, left.len());
    lemma_arranged_items(all);
    lemma_arranged(all, |x: Aged| true);
    let y = Aged { place: b as usize, at: age_of(left[b]) };
    assert(all.contains(y));
    assert(oldest.contains(y));
    let m = choose|m: int| 0 <= m < oldest.len() && oldest[m] == y;
    assert(leaves[k] == oldest[k]);
    if m < leaves.len() {
        assert(leaves[m] == oldest[m]);
        assert(leaves[m].place == b);
    }
    assert(!oldest[m].outranks(&oldest[k]));
    assert(oldest.contains(oldest[k]));
    let n = choose|n: int| 0 <= n < all.len() && all[n] == oldest[k];
    assert(all[n].at == age_of(left[a]));
}

proof fn lemma_distinct_places(s: Seq<Aged>)
    requires
        forall|i: int, j: int|
            0 <= i < j < s.len() ==> (#[trigger] s[i]).place != (#[trigger] s[j]).place,
    ensures
        arranged(s).len() == s.len(),
        forall|i: int, j: int|
            0 <= i < j < s.len() ==> (#[trigger] arranged(s)[i]).place != (#[trigger] arranged(
                s,
            )[j]).place,
        forall|k: int|
            0 <= k < s.len() ==> exists|i: int|
                0 <= i < s.len() && #[trigger] s[i] == #[trigger] arranged(s)[k],
    decreases s.len(),
{
    lemma_arranged_items(s);
    let a = arranged(s);
    assert forall|k: int| 0 <= k < s.len() implies exists|i: int|
        0 <= i < s.len() && #[trigger] s[i] == #[trigger] a[k] by {
        assert(a.contains(a[k]));
        let j = choose|j: int| 0 <= j < s.len() && s[j] == a[k];
        assert(s[j] == a[k]);
    }
    if s.len() > 0 {
        let t = s.drop_last();
        lemma_distinct_places(t);
        lemma_inserted_distinct(arranged(t), s.last());
    }
}

proof fn lemma_inserted_distinct(s: Seq<Aged>, x: Aged)
    requires
        forall|i: int, j: int|
            0 <= i < j < s.len() ==> (#[trigger] s[i]).place != (#[trigger] s[j]).place,
        forall|i: int| 0 <= i < s.len() ==> (#[trigger] s[i]).place != x.place,
    ensures
        ({
            let a = crate::order::inserted(s, x);
            &&& a.len() == s.len() + 1
            &&& forall|i: int, j: int|
                0 <= i < j < a.len() ==> (#[trigger] a[i]).place != (#[trigger] a[j]).place
            &&& forall|i: int|
                0 <= i < a.len() ==> (#[trigger] a[i]) == x || s.contains(a[i])
        }),
    decreases s.len(),
{
    if s.len() > 0 && x.outranks(&s.last()) {
        let t = s.drop_last();
        lemma_inserted_distinct(t, x);
        let f = crate::order::inserted(t, x);
        let a = f.push(s.last());
        assert(crate::order::inserted(s, x) == a);
        assert forall|i: int| 0 <= i < a.len() implies (#[trigger] a[i]) == x || s.contains(
            a[i],
        ) by {
            if i < f.len() {
                if f[i] != x {
                    assert(t.contains(f[i]));
                    let k = choose|k: int| 0 <= k < t.len() && t[k] == f[i];
                    assert(s[k] == f[i]);
                }
            } else {
                assert(s[s.len() - 1] == a[i]);
            }
        }
        assert forall|i: int, j: int| 0 <= i < j < a.len() implies (#[trigger] a[i]).place != (
        #[trigger] a[j]).place by {
            if j == f.len() {
                assert(a[i] == f[i]);
                if f[i] != x {
                    assert(t.contains(f[i]));
                    let k = choose|k: int| 0 <= k < t.len() && t[k] == f[i];
                    assert(s[k].place != s[s.len() - 1].place);
                } else {
                    assert(s[s.len() - 1].place != x.place);
                }
            } else {
                assert(a[i] == f[i] && a[j] == f[j]);
            }
        }
    } else {
        let a = s.push(x);
        assert forall|i: int| 0 <= i < a.len() implies (#[trigger] a[i]) == x || s.contains(
            a[i],
        ) by {
            if i < s.len() {
                assert(s[i] == a[i]);
            }
        }
    }
}

/// As long as there is room, every entry that is fresh stays.
pub proof fn law_fresh_entries_stay_while_there_is_room<T: Aging>(
    s: Seq<T>,
    current: Option<int>,
    cutoff: Timestamp,
    limit: nat,
    i: int,
)
    requires
        0 <= i < s.len() <= limit,
        fresh(s[i], cutoff),
    ensures
        pruned(s, current, cutoff, limit).contains(s[i]),
{
    let flags = fresh_flags(s, current, cutoff);
    let left = kept(s, flags);
    lemma_kept_items(s, flags);
    assert(flags[i]);
    assert(left.contains(s[i]));
    let gone = leaving(left, place_after(flags, current), left.len() - limit);
    assert(gone.len() == 0);
    let stays = staying_flags(left.len(), gone);
    lemma_kept_items(left, stays);
    let a = choose|a: int| 0 <= a < left.len() && left[a] == s[i];
    assert(stays[a] && left[a] == s[i]);
}

/// An entry is fresh exactly where it was seen to change no earlier than the cutoff; one that was
/// never seen to change is not.
pub proof fn law_fresh_entries_were_seen_lately<T: Aging>(x: T, at: Timestamp, cutoff: Timestamp)
    ensures
        x.seen() == Some(at) ==> (fresh(x, cutoff) <==> at.nanos >= cutoff.nanos),
        x.seen() is None ==> !fresh(x, cutoff),
{
}

} // verus!
