//! The order of the notes of a lane: by rank, and among notes of equal rank
//! by the place they hold in the lane.

use crate::item::{ItemView, RetroItem};
use crate::keyed::{
    distinct_keys, has_key, lemma_insert, lemma_position, pairs_view, position, value,
};
use vstd::prelude::*;

verus! {

/// Where a note of rank `order` goes into the ranked sequence `s`: behind the
/// last note whose rank is not greater.
pub open spec fn slot(s: Seq<(Seq<char>, ItemView)>, order: nat) -> int
    decreases s.len(),
{
    if s.len() == 0 || s.last().1.sort_order <= order {
        s.len() as int
    } else {
        slot(s.drop_last(), order)
    }
}

/// The notes of `s` by ascending rank; notes of equal rank keep the order
/// they have in `s`.
pub open spec fn by_sort_order(s: Seq<(Seq<char>, ItemView)>) -> Seq<(Seq<char>, ItemView)>
    decreases s.len(),
{
    if s.len() == 0 {
        s
    } else {
        let head = by_sort_order(s.drop_last());
        head.insert(slot(head, s.last().1.sort_order), s.last())
    }
}

/// The notes of `s`, each with its position in `s` as its rank.
pub open spec fn renumbered(s: Seq<(Seq<char>, ItemView)>) -> Seq<(Seq<char>, ItemView)> {
    Seq::new(s.len(), |i: int| (s[i].0, s[i].1.ranked(i as nat)))
}

/// In `s`, the note `a` comes before the note `b`: its rank is smaller, or
/// the ranks are equal and `a` stands first.
pub open spec fn precedes(s: Seq<(Seq<char>, ItemView)>, a: Seq<char>, b: Seq<char>) -> bool {
    value(s, a).sort_order < value(s, b).sort_order || (value(s, a).sort_order == value(
        s,
        b,
    ).sort_order && position(s, a) < position(s, b))
}

/// `r` holds the same ids as `s`, none twice, each with the note it has in `s`.
pub open spec fn same_items(r: Seq<(Seq<char>, ItemView)>, s: Seq<(Seq<char>, ItemView)>) -> bool {
    &&& r.len() == s.len()
    &&& distinct_keys(r)
    &&& forall|k: Seq<char>| #[trigger] has_key(r, k) == has_key(s, k)
    &&& forall|k: Seq<char>| has_key(s, k) ==> #[trigger] value(r, k) == value(s, k)
}

/// Whatever stands earlier in `r` comes before what stands later, in the
/// order of `s`.
pub open spec fn in_rank_order(
    r: Seq<(Seq<char>, ItemView)>,
    s: Seq<(Seq<char>, ItemView)>,
) -> bool {
    forall|i: int, j: int|
        0 <= i < j < r.len() ==> precedes(s, (#[trigger] r[i]).0, (#[trigger] r[j]).0)
}

/// The slot is a position of `s`; every note at or behind it has a greater
/// rank, and the note just before it has not.
pub proof fn lemma_slot(s: Seq<(Seq<char>, ItemView)>, order: nat)
    ensures
        0 <= slot(s, order) <= s.len(),
        forall|i: int| slot(s, order) <= i < s.len() ==> (#[trigger] s[i]).1.sort_order > order,
        slot(s, order) > 0 ==> s[slot(s, order) - 1].1.sort_order <= order,
    decreases s.len(),
{
    if !(s.len() == 0 || s.last().1.sort_order <= order) {
        let head = s.drop_last();
        lemma_slot(head, order);
        assert(forall|i: int| 0 <= i < head.len() ==> head[i] == s[i]);
    }
}

/// Ranking a lane's notes loses none, adds none and changes none, and lists
/// them in the order that `precedes` describes.
pub proof fn lemma_by_sort_order(s: Seq<(Seq<char>, ItemView)>)
    requires
        distinct_keys(s),
    ensures
        same_items(by_sort_order(s), s),
        in_rank_order(by_sort_order(s), s),
    decreases s.len(),
{
    let r = by_sort_order(s);
    if s.len() > 0 {
        let n = s.len() as int;
        let head = s.drop_last();
        let x = s.last();
        let rh = by_sort_order(head);
        let at = slot(rh, x.1.sort_order);
        assert(forall|i: int| 0 <= i < head.len() ==> head[i] == s[i]);
        assert(distinct_keys(head)) by {
            assert forall|i: int, j: int| 0 <= i < j < head.len() implies (#[trigger] head[i]).0
                != (#[trigger] head[j]).0 by {
                assert(s[i].0 != s[j].0);
            }
        }
        lemma_by_sort_order(head);
        lemma_slot(rh, x.1.sort_order);
        assert(!has_key(head, x.0)) by {
            if has_key(head, x.0) {
                let i = position(head, x.0);
                assert(s[i].0 != s[n - 1].0);
            }
        }
        assert(has_key(rh, x.0) == has_key(head, x.0));
        lemma_insert(rh, at, x);
        assert(s =~= head.insert(n - 1, x));
        lemma_insert(head, n - 1, x);
        // every note of `rh` is the note stored under its id in `head`
        assert forall|i: int| 0 <= i < rh.len() implies has_key(head, (#[trigger] rh[i]).0)
            && rh[i].1 == value(head, rh[i].0) && value(s, rh[i].0) == rh[i].1 && position(
            s,
            rh[i].0,
        ) == position(head, rh[i].0) && position(s, rh[i].0) < n - 1 by {
            let k = rh[i].0;
            lemma_position(rh, k, i);
            assert(has_key(rh, k) == has_key(head, k));
            assert(value(rh, k) == value(head, k));
            let p = position(head, k);
            assert(0 <= p < head.len());
        }
        assert(same_items(r, s)) by {
            assert forall|k: Seq<char>| #[trigger] has_key(r, k) == has_key(s, k) by {
                if k != x.0 {
                    assert(has_key(rh, k) == has_key(head, k));
                }
            }
            assert forall|k: Seq<char>| has_key(s, k) implies #[trigger] value(r, k) == value(
                s,
                k,
            ) by {
                if k != x.0 {
                    assert(has_key(rh, k) == has_key(head, k));
                    assert(value(rh, k) == value(head, k));
                }
            }
        }
        assert(in_rank_order(r, s)) by {
            assert forall|i: int, j: int| 0 <= i < j < r.len() implies precedes(
                s,
                (#[trigger] r[i]).0,
                (#[trigger] r[j]).0,
            ) by {
                let a = if i < at { i } else { i - 1 };
                let b = if j < at { j } else { j - 1 };
                if i == at {
                    assert(r[j] == rh[b]);
                    assert(rh[b].1.sort_order > x.1.sort_order);
                } else if j == at {
                    assert(r[i] == rh[a]);
                    if a < at - 1 {
                        assert(precedes(head, rh[a].0, rh[at - 1].0));
                    }
                    assert(rh[a].1.sort_order <= x.1.sort_order);
                } else {
                    assert(r[i] == rh[a]);
                    assert(r[j] == rh[b]);
                    assert(precedes(head, rh[a].0, rh[b].0));
                }
            }
        }
    }
}

/// Renumbering keeps every note in its place and under its id, and changes
/// nothing of it but the rank, which becomes its position.
pub proof fn lemma_renumbered(s: Seq<(Seq<char>, ItemView)>)
    requires
        distinct_keys(s),
    ensures
        distinct_keys(renumbered(s)),
        renumbered(s).len() == s.len(),
        forall|k: Seq<char>| #[trigger] has_key(renumbered(s), k) == has_key(s, k),
        forall|k: Seq<char>|
            has_key(s, k) ==> #[trigger] position(renumbered(s), k) == position(s, k) && value(
                renumbered(s),
                k,
            ) == value(s, k).ranked(position(s, k) as nat),
{
    let t = renumbered(s);
    assert(distinct_keys(t)) by {
        assert forall|i: int, j: int| 0 <= i < j < t.len() implies (#[trigger] t[i]).0 != (
        #[trigger] t[j]).0 by {
            assert(s[i].0 != s[j].0);
        }
    }
    assert forall|k: Seq<char>| #[trigger] has_key(t, k) == has_key(s, k) by {
        if has_key(s, k) {
            let i = position(s, k);
            assert(t[i].0 == k);
        }
        if has_key(t, k) {
            let i = position(t, k);
            assert(s[i].0 == k);
        }
    }
    assert forall|k: Seq<char>| has_key(s, k) implies #[trigger] position(t, k) == position(s, k)
        && value(t, k) == value(s, k).ranked(position(s, k) as nat) by {
        let i = position(s, k);
        assert(t[i].0 == k);
        lemma_position(t, k, i);
    }
}

/// Sorts notes by rank; notes of equal rank keep their order.
pub fn sort_by_order(items: Vec<(String, RetroItem)>) -> (sorted: Vec<(String, RetroItem)>)
    ensures
        pairs_view(sorted@) == by_sort_order(pairs_view(items@)),
{
    let ghost all = pairs_view(items@);
    let mut items = items;
    let mut sorted: Vec<(String, RetroItem)> = Vec::new();
    let ghost mut done: int = 0;
    assert(all.subrange(0, all.len() as int) =~= all);
    assert(all.subrange(0, 0) =~= Seq::empty());
    assert(pairs_view(sorted@) =~= Seq::empty());
    while items.len() > 0
        invariant
            0 <= done <= all.len(),
            pairs_view(items@) == all.subrange(done, all.len() as int),
            pairs_view(sorted@) == by_sort_order(all.subrange(0, done)),
        decreases items.len(),
    {
        let ghost before = pairs_view(items@);
        let ghost ranked = pairs_view(sorted@);
        assert(before.len() == items@.len() && done < all.len());
        assert(before[0] == all[done]);
        let ghost held = items@;
        let entry = items.remove(0);
        let ghost order = entry.1.sort_order as nat;
        let mut at: usize = sorted.len();
        assert(ranked.subrange(0, at as int) =~= ranked);
        while at > 0 && sorted[at - 1].1.sort_order > entry.1.sort_order
            invariant
                at <= sorted.len(),
                ranked == pairs_view(sorted@),
                order == entry.1.sort_order as nat,
                slot(ranked, order) == slot(ranked.subrange(0, at as int), order),
            decreases at,
        {
            assert(ranked.subrange(0, at as int).drop_last() =~= ranked.subrange(0, at - 1));
            at -= 1;
        }
        assert(slot(ranked, order) == at);
        sorted.insert(at, entry);
        proof {
            let prefix = all.subrange(0, done + 1);
            assert(prefix.drop_last() =~= all.subrange(0, done));
            assert(prefix.last() == all[done]);
            assert(pairs_view(sorted@) =~= ranked.insert(at as int, all[done]));
            assert forall|i: int| 0 <= i < items@.len() implies pairs_view(items@)[i] == all[done
                + 1 + i] by {
                assert(items@[i] == held[i + 1]);
                assert(before[i + 1] == all[done + 1 + i]);
            }
            assert(pairs_view(items@) =~= all.subrange(done + 1, all.len() as int));
            done = done + 1;
        }
    }
    assert(all.subrange(0, done) =~= all);
    sorted
}

/// Gives every note its position in `items` as its rank.
pub fn renumber(items: &mut Vec<(String, RetroItem)>)
    ensures
        pairs_view(final(items)@) == renumbered(pairs_view(old(items)@)),
{
    let ghost target = renumbered(pairs_view(items@));
    let mut i: usize = 0;
    while i < items.len()
        invariant
            i <= items.len(),
            items.len() == old(items).len(),
            target == renumbered(pairs_view(old(items)@)),
            forall|j: int| 0 <= j < i ==> (#[trigger] pairs_view(items@)[j]) == target[j],
            forall|j: int| i <= j < items.len() ==> (#[trigger] items@[j]) == old(items)@[j],
        decreases items.len() - i,
    {
        let ghost held = items@;
        items[i].1.sort_order = i as u64;
        proof {
            assert(items@.len() == held.len());
            assert(forall|j: int| 0 <= j < held.len() && j != i ==> items@[j] == held[j]);
            assert(items@[i as int].0 == held[i as int].0);
            assert(items@[i as int].1@ == held[i as int].1@.ranked(i as nat));
            assert forall|j: int| 0 <= j < i + 1 implies (#[trigger] pairs_view(items@)[j])
                == target[j] by {
                if j < i {
                    assert(pairs_view(held)[j] == target[j]);
                }
            }
        }
        i += 1;
    }
    assert(pairs_view(items@) =~= target);
}

} // verus!
