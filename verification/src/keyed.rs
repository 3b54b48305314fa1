//! Sequences of `(key, value)` pairs in which no key occurs twice.
//!
//! Lanes of a board and notes of a lane are both held this way: a mapping
//! from a string key to a value that also remembers the order in which the
//! keys arrived.

use vstd::prelude::*;

verus! {

/// No key occurs at two positions of `s`.
pub open spec fn distinct_keys<V>(s: Seq<(Seq<char>, V)>) -> bool {
    forall|i: int, j: int| 0 <= i < j < s.len() ==> (#[trigger] s[i]).0 != (#[trigger] s[j]).0
}

/// Some pair of `s` has the key `k`.
pub open spec fn has_key<V>(s: Seq<(Seq<char>, V)>, k: Seq<char>) -> bool {
    exists|i: int| 0 <= i < s.len() && (#[trigger] s[i]).0 == k
}

/// A position at which `k` stands in `s`; the only one where the keys are
/// distinct. Unspecified where `k` is absent.
pub open spec fn position<V>(s: Seq<(Seq<char>, V)>, k: Seq<char>) -> int {
    choose|i: int| 0 <= i < s.len() && (#[trigger] s[i]).0 == k
}

/// The value stored under `k`. Unspecified where `k` is absent.
pub open spec fn value<V>(s: Seq<(Seq<char>, V)>, k: Seq<char>) -> V {
    s[position(s, k)].1
}

/// `s` with `v` stored under `k`: in the place of the old value where `k` was
/// present, at the end otherwise.
pub open spec fn put<V>(s: Seq<(Seq<char>, V)>, k: Seq<char>, v: V) -> Seq<(Seq<char>, V)> {
    if has_key(s, k) {
        s.update(position(s, k), (k, v))
    } else {
        s.push((k, v))
    }
}

/// `s` without the pair stored under `k`; `s` itself where `k` is absent.
pub open spec fn without<V>(s: Seq<(Seq<char>, V)>, k: Seq<char>) -> Seq<(Seq<char>, V)> {
    if has_key(s, k) {
        s.remove(position(s, k))
    } else {
        s
    }
}

/// Where what stood at `p` stands once the place `gone` is given up: where it
/// was if that was before `gone`, one place further up if it was behind.
pub open spec fn closed_up(p: int, gone: int) -> int {
    if p < gone {
        p
    } else {
        p - 1
    }
}

/// Where what stood at `p` stands once a place is made at `at`: where it was
/// if that was before `at`, one place further back otherwise.
pub open spec fn made_room(p: int, at: int) -> int {
    if p < at {
        p
    } else {
        p + 1
    }
}

/// The pairs of a vector of string-keyed values, each taken by its view.
pub open spec fn pairs_view<T: View>(s: Seq<(String, T)>) -> Seq<(Seq<char>, T::V)> {
    Seq::new(s.len(), |i: int| (s[i].0@, s[i].1@))
}

/// With distinct keys, a position that holds `k` is the position of `k`.
pub proof fn lemma_position<V>(s: Seq<(Seq<char>, V)>, k: Seq<char>, i: int)
    requires
        distinct_keys(s),
        0 <= i < s.len(),
        s[i].0 == k,
    ensures
        has_key(s, k),
        position(s, k) == i,
        value(s, k) == s[i].1,
{
    let p = position(s, k);
    assert(0 <= p < s.len() && s[p].0 == k);
    if p < i {
        assert(s[p].0 != s[i].0);
    } else if i < p {
        assert(s[i].0 != s[p].0);
    }
}

/// Storing under a key keeps the keys distinct, makes that key present with
/// the new value, and leaves every other key as it was.
pub proof fn lemma_put<V>(s: Seq<(Seq<char>, V)>, k: Seq<char>, v: V)
    requires
        distinct_keys(s),
    ensures
        distinct_keys(put(s, k, v)),
        has_key(put(s, k, v), k),
        value(put(s, k, v), k) == v,
        has_key(s, k) ==> put(s, k, v).len() == s.len(),
        !has_key(s, k) ==> put(s, k, v).len() == s.len() + 1,
        forall|o: Seq<char>| o != k ==> has_key(put(s, k, v), o) == has_key(s, o),
        forall|o: Seq<char>| o != k && has_key(s, o) ==> value(put(s, k, v), o) == value(s, o),
{
    let t = put(s, k, v);
    let p = if has_key(s, k) { position(s, k) } else { s.len() as int };
    assert(0 <= p < t.len() && t[p] == (k, v));
    assert(forall|i: int| 0 <= i < s.len() && i != p ==> t[i] == s[i]);
    assert(distinct_keys(t)) by {
        assert forall|i: int, j: int| 0 <= i < j < t.len() implies (#[trigger] t[i]).0 != (
        #[trigger] t[j]).0 by {
            if i != p && j != p {
                assert(s[i].0 != s[j].0);
            } else if has_key(s, k) {
                assert(s[i].0 != s[j].0);
            } else {
                assert(t[i] == s[i]);
            }
        }
    }
    lemma_position(t, k, p);
    assert forall|o: Seq<char>| o != k implies has_key(t, o) == has_key(s, o) by {
        if has_key(s, o) {
            let i = position(s, o);
            assert(t[i].0 == o);
        }
        if has_key(t, o) {
            let i = position(t, o);
            assert(s[i].0 == o);
        }
    }
    assert forall|o: Seq<char>| o != k && has_key(s, o) implies value(t, o) == value(s, o) by {
        let i = position(s, o);
        assert(t[i] == s[i]);
        lemma_position(t, o, i);
    }
}

/// Dropping a key keeps the keys distinct, makes that key absent, and leaves
/// every other key as it was.
pub proof fn lemma_without<V>(s: Seq<(Seq<char>, V)>, k: Seq<char>)
    requires
        distinct_keys(s),
    ensures
        distinct_keys(without(s, k)),
        !has_key(without(s, k), k),
        has_key(s, k) ==> without(s, k).len() == s.len() - 1,
        !has_key(s, k) ==> without(s, k).len() == s.len(),
        forall|o: Seq<char>| o != k ==> has_key(without(s, k), o) == has_key(s, o),
        forall|o: Seq<char>| o != k && has_key(s, o) ==> value(without(s, k), o) == value(s, o),
{
    let t = without(s, k);
    if has_key(s, k) {
        let p = position(s, k);
        assert(forall|i: int| 0 <= i < p ==> t[i] == s[i]);
        assert(forall|i: int| p <= i < t.len() ==> t[i] == s[i + 1]);
        assert(distinct_keys(t)) by {
            assert forall|i: int, j: int| 0 <= i < j < t.len() implies (#[trigger] t[i]).0 != (
            #[trigger] t[j]).0 by {
                let a = if i < p { i } else { i + 1 };
                let b = if j < p { j } else { j + 1 };
                assert(s[a].0 != s[b].0);
            }
        }
        assert(!has_key(t, k)) by {
            if has_key(t, k) {
                let i = position(t, k);
                let a = if i < p { i } else { i + 1 };
                assert(s[a].0 == k);
                lemma_position(s, k, a);
            }
        }
        assert forall|o: Seq<char>| o != k implies has_key(t, o) == has_key(s, o) by {
            if has_key(s, o) {
                let i = position(s, o);
                let a = if i < p { i } else { i - 1 };
                assert(t[a].0 == o);
            }
            if has_key(t, o) {
                let i = position(t, o);
                let a = if i < p { i } else { i + 1 };
                assert(s[a].0 == o);
            }
        }
        assert forall|o: Seq<char>| o != k && has_key(s, o) implies value(t, o) == value(s, o) by {
            let i = position(s, o);
            let a = if i < p { i } else { i - 1 };
            assert(t[a] == s[i]);
            lemma_position(t, o, a);
        }
    }
}

/// With distinct keys, storing under the key that stands at `i` replaces the
/// pair at `i` and nothing else.
pub proof fn lemma_put_at<V>(s: Seq<(Seq<char>, V)>, i: int, v: V)
    requires
        distinct_keys(s),
        0 <= i < s.len(),
    ensures
        has_key(s, s[i].0),
        value(s, s[i].0) == s[i].1,
        put(s, s[i].0, v) == s.update(i, (s[i].0, v)),
        distinct_keys(s.update(i, (s[i].0, v))),
{
    lemma_position(s, s[i].0, i);
    lemma_put(s, s[i].0, v);
}

/// Storing again what is stored under a key changes nothing.
pub proof fn lemma_put_same<V>(s: Seq<(Seq<char>, V)>, k: Seq<char>)
    requires
        has_key(s, k),
    ensures
        put(s, k, value(s, k)) == s,
{
    let p = position(s, k);
    assert(s[p] == (k, value(s, k)));
    assert(s.update(p, (k, value(s, k))) =~= s);
}

/// Where the other keys stand once `k` is dropped: those before it stay,
/// those behind it move up by one.
pub proof fn lemma_without_position<V>(s: Seq<(Seq<char>, V)>, k: Seq<char>, o: Seq<char>)
    requires
        distinct_keys(s),
        has_key(s, k),
        has_key(s, o),
        o != k,
    ensures
        position(without(s, k), o) == closed_up(position(s, o), position(s, k)),
{
    let t = without(s, k);
    let p = position(s, k);
    let i = position(s, o);
    let a = if i < p { i } else { i - 1 };
    lemma_without(s, k);
    assert(t[a] == s[i]);
    lemma_position(t, o, a);
}

/// Placing a pair with a new key at position `at` keeps the keys distinct,
/// makes the new key present there, and leaves every other key with its
/// value, those at or behind `at` one position further back.
pub proof fn lemma_insert<V>(s: Seq<(Seq<char>, V)>, at: int, e: (Seq<char>, V))
    requires
        distinct_keys(s),
        !has_key(s, e.0),
        0 <= at <= s.len(),
    ensures
        distinct_keys(s.insert(at, e)),
        has_key(s.insert(at, e), e.0),
        position(s.insert(at, e), e.0) == at,
        value(s.insert(at, e), e.0) == e.1,
        forall|o: Seq<char>| o != e.0 ==> has_key(s.insert(at, e), o) == has_key(s, o),
        forall|o: Seq<char>|
            has_key(s, o) ==> value(s.insert(at, e), o) == value(s, o) && position(
                s.insert(at, e),
                o,
            ) == made_room(position(s, o), at),
{
    let t = s.insert(at, e);
    assert(t[at] == e);
    assert(forall|i: int| 0 <= i < at ==> t[i] == s[i]);
    assert(forall|i: int| at < i < t.len() ==> t[i] == s[i - 1]);
    assert(distinct_keys(t)) by {
        assert forall|i: int, j: int| 0 <= i < j < t.len() implies (#[trigger] t[i]).0 != (
        #[trigger] t[j]).0 by {
            let a = if i < at { i } else { i - 1 };
            let b = if j < at { j } else { j - 1 };
            if i == at {
                assert(s[b].0 != e.0);
            } else if j == at {
                assert(s[a].0 != e.0);
            } else {
                assert(s[a].0 != s[b].0);
            }
        }
    }
    lemma_position(t, e.0, at);
    assert forall|o: Seq<char>| o != e.0 implies has_key(t, o) == has_key(s, o) by {
        if has_key(s, o) {
            let i = position(s, o);
            let a = if i < at { i } else { i + 1 };
            assert(t[a].0 == o);
        }
        if has_key(t, o) {
            let i = position(t, o);
            let a = if i < at { i } else { i - 1 };
            assert(s[a].0 == o);
        }
    }
    assert forall|o: Seq<char>| has_key(s, o) implies value(t, o) == value(s, o) && position(t, o)
        == made_room(position(s, o), at) by {
        let i = position(s, o);
        let a = if i < at { i } else { i + 1 };
        assert(t[a] == s[i]);
        lemma_position(t, o, a);
    }
}

/// Looks for `key` among the keys of `v`.
pub fn find<T: View>(v: &Vec<(String, T)>, key: &String) -> (found: Option<usize>)
    ensures
        found is Some <==> has_key(pairs_view(v@), key@),
        found is Some ==> found->0 < v.len() && pairs_view(v@)[found->0 as int].0 == key@,
        found is Some && distinct_keys(pairs_view(v@)) ==> found->0 == position(
            pairs_view(v@),
            key@,
        ),
{
    let ghost s = pairs_view(v@);
    let mut i: usize = 0;
    while i < v.len()
        invariant
            i <= v.len(),
            s == pairs_view(v@),
            forall|j: int| 0 <= j < i ==> (#[trigger] s[j]).0 != key@,
        decreases v.len() - i,
    {
        if v[i].0 == *key {
            proof {
                assert(s[i as int].0 == key@);
                if distinct_keys(s) {
                    lemma_position(s, key@, i as int);
                }
            }
            return Some(i);
        }
        i += 1;
    }
    None
}

} // verus!
