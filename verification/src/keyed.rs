use vstd::prelude::*;

verus! {

/// No two elements of `s` share a key.
pub open spec fn distinct_keys<V>(s: Seq<V>, key: spec_fn(V) -> Seq<char>) -> bool {
    forall|i: int, j: int| 0 <= i < s.len() && 0 <= j < s.len() && i != j ==> key(s[i]) != key(s[j])
}

/// Some element of `s` has key `k`.
pub open spec fn has_key<V>(s: Seq<V>, key: spec_fn(V) -> Seq<char>, k: Seq<char>) -> bool {
    exists|i: int| 0 <= i < s.len() && key(s[i]) == k
}

/// The position of an element of `s` with key `k`.
pub open spec fn key_index<V>(s: Seq<V>, key: spec_fn(V) -> Seq<char>, k: Seq<char>) -> int {
    choose|i: int| 0 <= i < s.len() && key(s[i]) == k
}

/// The elements of `s`, looked up by key.
pub open spec fn keyed_map<V>(s: Seq<V>, key: spec_fn(V) -> Seq<char>) -> Map<Seq<char>, V> {
    Map::new(|k: Seq<char>| has_key(s, key, k), |k: Seq<char>| s[key_index(s, key, k)])
}

pub proof fn lemma_keyed_at<V>(s: Seq<V>, key: spec_fn(V) -> Seq<char>, i: int)
    requires
        distinct_keys(s, key),
        0 <= i < s.len(),
    ensures
        keyed_map(s, key).contains_key(key(s[i])),
        keyed_map(s, key)[key(s[i])] == s[i],
{
    assert(has_key(s, key, key(s[i])));
    let j = key_index(s, key, key(s[i]));
    assert(j == i);
}

pub proof fn lemma_keyed_absent<V>(s: Seq<V>, key: spec_fn(V) -> Seq<char>, k: Seq<char>)
    requires
        forall|i: int| 0 <= i < s.len() ==> key(s[i]) != k,
    ensures
        !keyed_map(s, key).contains_key(k),
{
}

pub proof fn lemma_keyed_push<V>(s: Seq<V>, key: spec_fn(V) -> Seq<char>, x: V)
    requires
        distinct_keys(s, key),
        !keyed_map(s, key).contains_key(key(x)),
    ensures
        distinct_keys(s.push(x), key),
        keyed_map(s.push(x), key) == keyed_map(s, key).insert(key(x), x),
{
    let t = s.push(x);
    assert forall|i: int, j: int|
        0 <= i < t.len() && 0 <= j < t.len() && i != j implies key(t[i]) != key(t[j]) by {
        if i == s.len() {
            assert(key(t[j]) == key(s[j]));
        } else if j == s.len() {
            assert(key(t[i]) == key(s[i]));
        }
    }
    assert forall|k: Seq<char>| #[trigger]
        keyed_map(t, key).contains_key(k) == keyed_map(s, key).insert(key(x), x).contains_key(k) by {
        if has_key(t, key, k) {
            let i = key_index(t, key, k);
            if i < s.len() {
                assert(t[i] == s[i]);
            }
        }
        if has_key(s, key, k) {
            let i = key_index(s, key, k);
            assert(t[i] == s[i]);
        }
        if k == key(x) {
            assert(t[s.len() as int] == x);
        }
    }
    assert forall|k: Seq<char>| #[trigger] keyed_map(t, key).contains_key(k) implies keyed_map(
        t,
        key,
    )[k] == keyed_map(s, key).insert(key(x), x)[k] by {
        let i = key_index(t, key, k);
        lemma_keyed_at(t, key, i);
        if i < s.len() {
            assert(t[i] == s[i]);
            lemma_keyed_at(s, key, i);
        } else {
            assert(t[i] == x);
        }
    }
    assert(keyed_map(t, key) =~= keyed_map(s, key).insert(key(x), x));
}

pub proof fn lemma_keyed_update<V>(s: Seq<V>, key: spec_fn(V) -> Seq<char>, i: int, x: V)
    requires
        distinct_keys(s, key),
        0 <= i < s.len(),
        key(x) == key(s[i]),
    ensures
        distinct_keys(s.update(i, x), key),
        keyed_map(s.update(i, x), key) == keyed_map(s, key).insert(key(x), x),
{
    let t = s.update(i, x);
    assert forall|a: int, b: int|
        0 <= a < t.len() && 0 <= b < t.len() && a != b implies key(t[a]) != key(t[b]) by {
        assert(key(t[a]) == key(s[a]));
        assert(key(t[b]) == key(s[b]));
    }
    assert forall|k: Seq<char>| #[trigger]
        keyed_map(t, key).contains_key(k) == keyed_map(s, key).insert(key(x), x).contains_key(k) by {
        if has_key(t, key, k) {
            let a = key_index(t, key, k);
            assert(key(t[a]) == key(s[a]));
        }
        if has_key(s, key, k) {
            let a = key_index(s, key, k);
            assert(key(t[a]) == key(s[a]));
        }
        if k == key(x) {
            assert(t[i] == x);
        }
    }
    assert forall|k: Seq<char>| #[trigger] keyed_map(t, key).contains_key(k) implies keyed_map(
        t,
        key,
    )[k] == keyed_map(s, key).insert(key(x), x)[k] by {
        let a = key_index(t, key, k);
        lemma_keyed_at(t, key, a);
        if a != i {
            assert(t[a] == s[a]);
            lemma_keyed_at(s, key, a);
        }
    }
    assert(keyed_map(t, key) =~= keyed_map(s, key).insert(key(x), x));
}

pub proof fn lemma_keyed_remove<V>(s: Seq<V>, key: spec_fn(V) -> Seq<char>, i: int)
    requires
        distinct_keys(s, key),
        0 <= i < s.len(),
    ensures
        distinct_keys(s.remove(i), key),
        keyed_map(s.remove(i), key) == keyed_map(s, key).remove(key(s[i])),
{
    let t = s.remove(i);
    assert forall|a: int| 0 <= a < t.len() implies #[trigger] t[a] == s[if a < i {
        a
    } else {
        a + 1
    }] by {}
    assert forall|a: int, b: int|
        0 <= a < t.len() && 0 <= b < t.len() && a != b implies key(t[a]) != key(t[b]) by {
        assert(t[a] == s[if a < i {
            a
        } else {
            a + 1
        }]);
        assert(t[b] == s[if b < i {
            b
        } else {
            b + 1
        }]);
    }
    assert forall|k: Seq<char>| #[trigger]
        keyed_map(t, key).contains_key(k) == keyed_map(s, key).remove(key(s[i])).contains_key(k) by {
        if has_key(t, key, k) {
            let a = key_index(t, key, k);
            let b = if a < i {
                a
            } else {
                a + 1
            };
            assert(t[a] == s[b]);
            assert(b != i);
        }
        if has_key(s, key, k) && k != key(s[i]) {
            let b = key_index(s, key, k);
            assert(b != i);
            let a = if b < i {
                b
            } else {
                b - 1
            };
            assert(t[a] == s[b]);
        }
    }
    assert forall|k: Seq<char>| #[trigger] keyed_map(t, key).contains_key(k) implies keyed_map(
        t,
        key,
    )[k] == keyed_map(s, key).remove(key(s[i]))[k] by {
        let a = key_index(t, key, k);
        lemma_keyed_at(t, key, a);
        let b = if a < i {
            a
        } else {
            a + 1
        };
        assert(t[a] == s[b]);
        lemma_keyed_at(s, key, b);
    }
    assert(keyed_map(t, key) =~= keyed_map(s, key).remove(key(s[i])));
}

} // verus!

verus! {

/// A key-distinct sequence has as many entries as its map.
pub proof fn lemma_keyed_len<V>(s: Seq<V>, key: spec_fn(V) -> Seq<char>)
    requires
        distinct_keys(s, key),
    ensures
        keyed_map(s, key).dom().finite(),
        keyed_map(s, key).len() == s.len(),
    decreases s.len(),
{
    if s.len() == 0 {
        assert(keyed_map(s, key).dom() =~= Set::<Seq<char>>::empty());
    } else {
        let t = s.drop_last();
        assert(distinct_keys(t, key)) by {
            assert forall|i: int, j: int|
                0 <= i < t.len() && 0 <= j < t.len() && i != j implies key(t[i]) != key(t[j]) by {
                assert(t[i] == s[i] && t[j] == s[j]);
            }
        }
        lemma_keyed_len(t, key);
        assert(!keyed_map(t, key).contains_key(key(s.last()))) by {
            if keyed_map(t, key).contains_key(key(s.last())) {
                let i = key_index(t, key, key(s.last()));
                assert(t[i] == s[i]);
            }
        }
        lemma_keyed_push(t, key, s.last());
        assert(t.push(s.last()) == s);
    }
}

} // verus!
