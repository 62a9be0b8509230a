//! Association lists keyed by device identifier.
//!
//! Both the alias registry and the per-device history store are sequences
//! of `(String, value)` entries with pairwise-distinct keys. `lookup` is
//! their common mathematical reading; the lemmas here say how it reacts to
//! appending a fresh entry and to replacing the value at an existing key,
//! which is all the two stores ever do.

use vstd::prelude::*;

verus! {

/// The value stored under key `k`, if any, scanning entries from the most
/// recently appended one.
pub open spec fn lookup<V>(s: Seq<(String, V)>, k: Seq<char>) -> Option<V>
    decreases s.len(),
{
    if s.len() == 0 {
        None
    } else if s.last().0@ == k {
        Some(s.last().1)
    } else {
        lookup(s.drop_last(), k)
    }
}

/// No two entries share a key.
pub open spec fn keys_unique<V>(s: Seq<(String, V)>) -> bool {
    forall|i: int, j: int| 0 <= i < j < s.len() ==> s[i].0@ != s[j].0@
}

/// The index of the entry whose key equals `id`, if any.
pub fn find_index<V>(entries: &Vec<(String, V)>, id: &String) -> (r: Option<usize>)
    ensures
        match r {
            Some(i) => i < entries@.len() && entries@[i as int].0@ == id@,
            None => forall|j: int| 0 <= j < entries@.len() ==> entries@[j].0@ != id@,
        },
{
    let mut i: usize = 0;
    while i < entries.len()
        invariant
            i <= entries@.len(),
            forall|j: int| 0 <= j < i ==> entries@[j].0@ != id@,
        decreases entries@.len() - i,
    {
        if entries[i].0 == *id {
            return Some(i);
        }
        i = i + 1;
    }
    None
}

/// A key held by no entry looks up to nothing.
pub proof fn lemma_lookup_none<V>(s: Seq<(String, V)>, k: Seq<char>)
    requires
        forall|j: int| 0 <= j < s.len() ==> s[j].0@ != k,
    ensures
        lookup(s, k) is None,
    decreases s.len(),
{
    if s.len() > 0 {
        lemma_lookup_none(s.drop_last(), k);
    }
}

/// With distinct keys, the entry at any index is what its key looks up to.
pub proof fn lemma_lookup_at<V>(s: Seq<(String, V)>, i: int)
    requires
        keys_unique(s),
        0 <= i < s.len(),
    ensures
        lookup(s, s[i].0@) == Some(s[i].1),
    decreases s.len(),
{
    if i < s.len() - 1 {
        assert(keys_unique(s.drop_last()));
        lemma_lookup_at(s.drop_last(), i);
    }
}

/// A key looks up to something exactly when some entry holds it.
pub proof fn lemma_lookup_some_index<V>(s: Seq<(String, V)>, k: Seq<char>)
    ensures
        lookup(s, k) is Some <==> exists|j: int| 0 <= j < s.len() && s[j].0@ == k,
    decreases s.len(),
{
    if s.len() > 0 {
        lemma_lookup_some_index(s.drop_last(), k);
        if s.last().0@ == k {
            assert(s[s.len() - 1].0@ == k);
        } else if exists|j: int| 0 <= j < s.len() && s[j].0@ == k {
            let j = choose|j: int| 0 <= j < s.len() && s[j].0@ == k;
            assert(s.drop_last()[j] == s[j]);
        }
    }
}

/// Appending an entry under a fresh key keeps the keys distinct, makes the
/// new key look up to the new value, and leaves every other key unchanged.
pub proof fn lemma_lookup_push<V>(s: Seq<(String, V)>, id: String, v: V)
    requires
        keys_unique(s),
        forall|j: int| 0 <= j < s.len() ==> s[j].0@ != id@,
    ensures
        keys_unique(s.push((id, v))),
        lookup(s.push((id, v)), id@) == Some(v),
        forall|k2: Seq<char>| k2 != id@ ==> lookup(s.push((id, v)), k2) == lookup(s, k2),
{
    let s2 = s.push((id, v));
    assert(s2.drop_last() =~= s);
    assert forall|i: int, j: int| 0 <= i < j < s2.len() implies s2[i].0@ != s2[j].0@ by {
        if j < s2.len() - 1 {
            assert(s2[i] == s[i] && s2[j] == s[j]);
        } else {
            assert(s2[i] == s[i]);
        }
    }
}

/// Replacing the value at an existing key keeps the keys distinct, makes
/// that key look up to the new value, and leaves every other key unchanged.
pub proof fn lemma_lookup_update<V>(s: Seq<(String, V)>, i: int, v: V)
    requires
        keys_unique(s),
        0 <= i < s.len(),
    ensures
        keys_unique(s.update(i, (s[i].0, v))),
        lookup(s.update(i, (s[i].0, v)), s[i].0@) == Some(v),
        forall|k2: Seq<char>| k2 != s[i].0@ ==> lookup(s.update(i, (s[i].0, v)), k2) == lookup(
            s,
            k2,
        ),
    decreases s.len(),
{
    let s2 = s.update(i, (s[i].0, v));
    assert(keys_unique(s2));
    if i == s.len() - 1 {
        assert(s2.drop_last() =~= s.drop_last());
        assert(keys_unique(s.drop_last()));
        assert forall|k2: Seq<char>| k2 != s[i].0@ implies lookup(s2, k2) == lookup(s, k2) by {
            assert(lookup(s2, k2) == lookup(s2.drop_last(), k2));
        }
    } else {
        assert(s2.drop_last() =~= s.drop_last().update(i, (s[i].0, v)));
        assert(keys_unique(s.drop_last()));
        assert(s.drop_last()[i] == s[i]);
        lemma_lookup_update(s.drop_last(), i, v);
        assert(s2.last() == s.last());
        assert(s.last().0@ != s[i].0@);
        assert forall|k2: Seq<char>| k2 != s[i].0@ implies lookup(s2, k2) == lookup(s, k2) by {
            if s.last().0@ == k2 {
                assert(lookup(s2, k2) == Some(s2.last().1));
                assert(lookup(s, k2) == Some(s.last().1));
            } else {
                assert(lookup(s2, k2) == lookup(s2.drop_last(), k2));
                assert(lookup(s, k2) == lookup(s.drop_last(), k2));
            }
        }
    }
}

} // verus!
