//! Ordered `(key, value)` entries viewed as a map from key text to value.
use vstd::prelude::*;

verus! {

/// The value of the first entry whose key is `k`.
pub open spec fn lookup<V>(s: Seq<(String, V)>, k: Seq<char>) -> Option<V>
    decreases s.len(),
{
    if s.len() == 0 {
        None
    } else if s[0].0@ == k {
        Some(s[0].1)
    } else {
        lookup(s.drop_first(), k)
    }
}

/// No two entries share a key.
pub open spec fn keys_unique<V>(s: Seq<(String, V)>) -> bool {
    forall|i: int, j: int| 0 <= i < s.len() && 0 <= j < s.len() && i != j ==> s[i].0@ != s[j].0@
}

/// Some entry has key `k`.
pub open spec fn has_key<V>(s: Seq<(String, V)>, k: Seq<char>) -> bool {
    exists|j: int| 0 <= j < s.len() && s[j].0@ == k
}

/// The entries as a map from key text to value.
pub open spec fn to_map<V>(s: Seq<(String, V)>) -> Map<Seq<char>, V> {
    Map::new(|k: Seq<char>| lookup(s, k) is Some, |k: Seq<char>| lookup(s, k)->0)
}

/// The key texts of the entries.
pub open spec fn key_set<V>(s: Seq<(String, V)>) -> Set<Seq<char>> {
    Set::new(|k: Seq<char>| has_key(s, k))
}

pub proof fn lemma_lookup_some<V>(s: Seq<(String, V)>, k: Seq<char>)
    ensures
        lookup(s, k) is Some <==> has_key(s, k),
    decreases s.len(),
{
    if s.len() > 0 {
        lemma_lookup_some(s.drop_first(), k);
        if has_key(s, k) && s[0].0@ != k {
            let j = choose|j: int| 0 <= j < s.len() && s[j].0@ == k;
            assert(s.drop_first()[j - 1].0@ == k);
        }
        if has_key(s.drop_first(), k) {
            let j = choose|j: int| 0 <= j < s.drop_first().len() && s.drop_first()[j].0@ == k;
            assert(s[j + 1].0@ == k);
        }
    }
}

pub proof fn lemma_lookup_index<V>(s: Seq<(String, V)>, j: int)
    requires
        keys_unique(s),
        0 <= j < s.len(),
    ensures
        lookup(s, s[j].0@) == Some(s[j].1),
    decreases s.len(),
{
    if j > 0 {
        let t = s.drop_first();
        assert(keys_unique(t)) by {
            assert forall|a: int, b: int|
                0 <= a < t.len() && 0 <= b < t.len() && a != b implies t[a].0@ != t[b].0@ by {
                assert(t[a] == s[a + 1] && t[b] == s[b + 1]);
            }
        }
        assert(s[0].0@ != s[j].0@);
        lemma_lookup_index(t, j - 1);
    }
}

pub proof fn lemma_lookup_push<V>(s: Seq<(String, V)>, e: (String, V), q: Seq<char>)
    ensures
        lookup(s.push(e), q) == (if lookup(s, q) is Some {
            lookup(s, q)
        } else if e.0@ == q {
            Some(e.1)
        } else {
            None::<V>
        }),
    decreases s.len(),
{
    if s.len() > 0 {
        assert(s.push(e).drop_first() =~= s.drop_first().push(e));
        lemma_lookup_push(s.drop_first(), e, q);
    } else {
        assert(s.push(e).drop_first() =~= Seq::<(String, V)>::empty());
        assert(lookup(Seq::<(String, V)>::empty(), q) is None);
    }
}

pub proof fn lemma_unique_push<V>(s: Seq<(String, V)>, e: (String, V))
    requires
        keys_unique(s),
        !has_key(s, e.0@),
    ensures
        keys_unique(s.push(e)),
{
    let t = s.push(e);
    assert forall|i: int, j: int| 0 <= i < t.len() && 0 <= j < t.len() && i != j implies t[i].0@
        != t[j].0@ by {
        if i < s.len() && j < s.len() {
            assert(t[i] == s[i] && t[j] == s[j]);
        } else if i < s.len() {
            assert(t[i] == s[i]);
        } else {
            assert(t[j] == s[j]);
        }
    }
}

pub proof fn lemma_lookup_update<V>(s: Seq<(String, V)>, i: int, e: (String, V), q: Seq<char>)
    requires
        keys_unique(s),
        0 <= i < s.len(),
        e.0@ == s[i].0@,
    ensures
        lookup(s.update(i, e), q) == (if q == e.0@ {
            Some(e.1)
        } else {
            lookup(s, q)
        }),
        keys_unique(s.update(i, e)),
        to_map(s.update(i, e)) == to_map(s).insert(e.0@, e.1),
{
    let t = s.update(i, e);
    assert forall|a: int, b: int| 0 <= a < t.len() && 0 <= b < t.len() && a != b implies t[a].0@
        != t[b].0@ by {
        assert(t[a].0@ == s[a].0@ && t[b].0@ == s[b].0@);
    }
    lemma_lookup_update_aux(s, i, e, q);
    assert forall|k: Seq<char>| lookup(t, k) == (if k == e.0@ {
        Some(e.1)
    } else {
        lookup(s, k)
    }) by {
        lemma_lookup_update_aux(s, i, e, k);
    }
    assert(to_map(t) =~= to_map(s).insert(e.0@, e.1));
}

proof fn lemma_lookup_update_aux<V>(s: Seq<(String, V)>, i: int, e: (String, V), q: Seq<char>)
    requires
        keys_unique(s),
        0 <= i < s.len(),
        e.0@ == s[i].0@,
    ensures
        lookup(s.update(i, e), q) == (if q == e.0@ {
            Some(e.1)
        } else {
            lookup(s, q)
        }),
    decreases s.len(),
{
    let t = s.update(i, e);
    if i > 0 {
        let d = s.drop_first();
        assert(keys_unique(d)) by {
            assert forall|a: int, b: int|
                0 <= a < d.len() && 0 <= b < d.len() && a != b implies d[a].0@ != d[b].0@ by {
                assert(d[a] == s[a + 1] && d[b] == s[b + 1]);
            }
        }
        assert(t.drop_first() =~= d.update(i - 1, e));
        assert(s[0].0@ != s[i].0@);
        lemma_lookup_update_aux(d, i - 1, e, q);
    } else {
        assert(t.drop_first() =~= s.drop_first());
    }
}

pub proof fn lemma_lookup_remove<V>(s: Seq<(String, V)>, i: int, q: Seq<char>)
    requires
        keys_unique(s),
        0 <= i < s.len(),
    ensures
        lookup(s.remove(i), q) == (if q == s[i].0@ {
            None::<V>
        } else {
            lookup(s, q)
        }),
        keys_unique(s.remove(i)),
    decreases s.len(),
{
    let t = s.remove(i);
    assert forall|a: int, b: int| 0 <= a < t.len() && 0 <= b < t.len() && a != b implies t[a].0@
        != t[b].0@ by {
        let a2 = if a < i { a } else { a + 1 };
        let b2 = if b < i { b } else { b + 1 };
        assert(t[a] == s[a2] && t[b] == s[b2]);
    }
    let d = s.drop_first();
    assert(keys_unique(d)) by {
        assert forall|a: int, b: int|
            0 <= a < d.len() && 0 <= b < d.len() && a != b implies d[a].0@ != d[b].0@ by {
            assert(d[a] == s[a + 1] && d[b] == s[b + 1]);
        }
    }
    if i > 0 {
        assert(t.drop_first() =~= d.remove(i - 1));
        assert(s[0].0@ != s[i].0@);
        lemma_lookup_remove(d, i - 1, q);
    } else {
        assert(t =~= d);
        if q == s[0].0@ {
            lemma_lookup_some(d, q);
            if has_key(d, q) {
                let j = choose|j: int| 0 <= j < d.len() && d[j].0@ == q;
                assert(s[j + 1].0@ == q);
            }
        }
    }
}

/// Index of the first entry whose key is `k`.
pub fn find_key<V>(s: &Vec<(String, V)>, k: &String) -> (r: Option<usize>)
    ensures
        r is Some ==> r->0 < s@.len() && s@[r->0 as int].0@ == k@ && lookup(s@, k@) == Some(
            s@[r->0 as int].1,
        ),
        r is None ==> lookup(s@, k@) is None && !has_key(s@, k@),
        lookup(s@, k@) is Some <==> has_key(s@, k@),
{
    proof {
        lemma_lookup_some(s@, k@);
    }
    let n = s.len();
    let mut i: usize = 0;
    assert(s@.subrange(0, n as int) =~= s@);
    while i < n
        invariant
            n == s@.len(),
            i <= n,
            forall|j: int| 0 <= j < i ==> s@[j].0@ != k@,
            lookup(s@, k@) == lookup(s@.subrange(i as int, n as int), k@),
        decreases n - i,
    {
        if s[i].0 == *k {
            return Some(i);
        }
        assert(s@.subrange(i as int, n as int).drop_first() =~= s@.subrange(i + 1, n as int));
        i = i + 1;
    }
    None
}

pub proof fn lemma_map_push<V>(s: Seq<(String, V)>, e: (String, V))
    requires
        keys_unique(s),
        !has_key(s, e.0@),
    ensures
        keys_unique(s.push(e)),
        to_map(s.push(e)) == to_map(s).insert(e.0@, e.1),
{
    lemma_unique_push(s, e);
    assert forall|q: Seq<char>| lookup(s.push(e), q) == (if q == e.0@ {
        Some(e.1)
    } else {
        lookup(s, q)
    }) by {
        lemma_lookup_push(s, e, q);
        lemma_lookup_some(s, q);
    }
    assert(to_map(s.push(e)) =~= to_map(s).insert(e.0@, e.1));
}

/// Sets the value of key `k`, replacing an existing entry in place or
/// appending a new one.
pub fn put<V>(s: &mut Vec<(String, V)>, k: String, v: V)
    requires
        keys_unique(old(s)@),
    ensures
        keys_unique(final(s)@),
        to_map(final(s)@) == to_map(old(s)@).insert(k@, v),
{
    match find_key(s, &k) {
        Some(i) => {
            proof {
                lemma_lookup_update(s@, i as int, (k, v), k@);
            }
            s.set(i, (k, v));
        },
        None => {
            proof {
                lemma_map_push(s@, (k, v));
            }
            s.push((k, v));
        },
    }
}

/// Removes the entry with key `k`; true when there was one.
pub fn remove_key<V>(s: &mut Vec<(String, V)>, k: &String) -> (r: bool)
    requires
        keys_unique(old(s)@),
    ensures
        keys_unique(final(s)@),
        to_map(final(s)@) == to_map(old(s)@).remove(k@),
        r == to_map(old(s)@).contains_key(k@),
{
    match find_key(s, k) {
        Some(i) => {
            let ghost before = s@;
            proof {
                assert forall|q: Seq<char>| lookup(before.remove(i as int), q) == (if q
                    == k@ {
                    None::<V>
                } else {
                    lookup(before, q)
                }) by {
                    lemma_lookup_remove(before, i as int, q);
                }
                lemma_lookup_remove(before, i as int, k@);
            }
            s.remove(i);
            assert(to_map(s@) =~= to_map(before).remove(k@));
            true
        },
        None => {
            assert(to_map(s@) =~= to_map(s@).remove(k@));
            false
        },
    }
}

/// Number of entries with key `k`.
pub open spec fn key_count<V>(s: Seq<(String, V)>, k: Seq<char>) -> nat
    decreases s.len(),
{
    if s.len() == 0 {
        0
    } else {
        key_count(s.drop_last(), k) + if s.last().0@ == k { 1nat } else { 0nat }
    }
}

pub proof fn lemma_key_count<V>(s: Seq<(String, V)>, k: Seq<char>)
    requires
        keys_unique(s),
    ensures
        key_count(s, k) == if has_key(s, k) { 1nat } else { 0nat },
    decreases s.len(),
{
    if s.len() > 0 {
        let d = s.drop_last();
        assert(keys_unique(d)) by {
            assert forall|a: int, b: int| 0 <= a < d.len() && 0 <= b < d.len() && a != b implies d[a].0@ != d[b].0@ by {
                assert(d[a] == s[a] && d[b] == s[b]);
            }
        }
        lemma_key_count(d, k);
        if has_key(d, k) {
            let j = choose|j: int| 0 <= j < d.len() && d[j].0@ == k;
            assert(s[j].0@ == k);
            assert(s.last().0@ != k) by {
                assert(s[j].0@ != s[s.len() - 1].0@);
            }
        } else if has_key(s, k) {
            let j = choose|j: int| 0 <= j < s.len() && s[j].0@ == k;
            if j < s.len() - 1 {
                assert(d[j].0@ == k);
            }
        }
    }
}

} // verus!
