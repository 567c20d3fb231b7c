//! Association sequences: sequences of records addressed by a key function,
//! with unique keys.  The state stores below hold their entries this way; the
//! lemmas here relate membership and lookup before and after an insertion or
//! a removal.

use vstd::prelude::*;

verus! {

/// Whether some entry of `s` has key `k`.
pub open spec fn has_key<T, K>(s: Seq<T>, key: spec_fn(T) -> K, k: K) -> bool {
    exists|i: int| 0 <= i < s.len() && key(s[i]) == k
}

/// An index of the entry with key `k` (the unique one when keys are unique).
pub open spec fn idx_of<T, K>(s: Seq<T>, key: spec_fn(T) -> K, k: K) -> int {
    choose|i: int| 0 <= i < s.len() && key(s[i]) == k
}

/// The entry of `s` with key `k` (meaningful when keys are unique).
pub open spec fn at_key<T, K>(s: Seq<T>, key: spec_fn(T) -> K, k: K) -> T {
    s[idx_of(s, key, k)]
}

/// No two entries of `s` share a key.
pub open spec fn unique_keys<T, K>(s: Seq<T>, key: spec_fn(T) -> K) -> bool {
    forall|i: int, j: int| 0 <= i < j < s.len() ==> key(s[i]) != key(s[j])
}

/// With unique keys, looking up the key of the entry at `j` finds exactly
/// that entry.
pub proof fn lemma_at_index<T, K>(s: Seq<T>, key: spec_fn(T) -> K, j: int)
    requires
        unique_keys(s, key),
        0 <= j < s.len(),
    ensures
        has_key(s, key, key(s[j])),
        idx_of(s, key, key(s[j])) == j,
        at_key(s, key, key(s[j])) == s[j],
{
    let k = key(s[j]);
    assert(has_key(s, key, k));
    let c = idx_of(s, key, k);
    if c < j {
        assert(key(s[c]) != key(s[j]));
    } else if j < c {
        assert(key(s[j]) != key(s[c]));
    }
}

/// Removing the entry at `i` removes its key and nothing else: every other
/// key keeps its membership and its entry.
pub proof fn lemma_remove_frame<T, K>(s: Seq<T>, key: spec_fn(T) -> K, i: int)
    requires
        unique_keys(s, key),
        0 <= i < s.len(),
    ensures
        unique_keys(s.remove(i), key),
        !has_key(s.remove(i), key, key(s[i])),
        forall|k: K|
            k != key(s[i]) ==> #[trigger] has_key(s.remove(i), key, k) == has_key(s, key, k),
        forall|k: K|
            k != key(s[i]) && has_key(s.remove(i), key, k) ==> #[trigger] at_key(
                s.remove(i),
                key,
                k,
            ) == at_key(s, key, k),
{
    let t = s.remove(i);
    assert forall|a: int, b: int| 0 <= a < b < t.len() implies key(t[a]) != key(t[b]) by {
        let a2: int = if a < i {
            a
        } else {
            a + 1
        };
        let b2: int = if b < i {
            b
        } else {
            b + 1
        };
        assert(t[a] == s[a2] && t[b] == s[b2]);
        assert(key(s[a2]) != key(s[b2]));
    }
    if has_key(t, key, key(s[i])) {
        let c = choose|c: int| 0 <= c < t.len() && key(t[c]) == key(s[i]);
        let c2: int = if c < i {
            c
        } else {
            c + 1
        };
        assert(t[c] == s[c2]);
        if c2 < i {
            assert(key(s[c2]) != key(s[i]));
        } else {
            assert(key(s[i]) != key(s[c2]));
        }
    }
    assert forall|k: K| k != key(s[i]) implies #[trigger] has_key(t, key, k) == has_key(
        s,
        key,
        k,
    ) by {
        if has_key(t, key, k) {
            let c = choose|c: int| 0 <= c < t.len() && key(t[c]) == k;
            let c2: int = if c < i {
                c
            } else {
                c + 1
            };
            assert(t[c] == s[c2]);
            assert(has_key(s, key, k));
        }
        if has_key(s, key, k) {
            let j = choose|j: int| 0 <= j < s.len() && key(s[j]) == k;
            assert(j != i);
            if j < i {
                assert(t[j] == s[j]);
            } else {
                assert(t[j - 1] == s[j]);
            }
            assert(has_key(t, key, k));
        }
    }
    assert forall|k: K| k != key(s[i]) && has_key(t, key, k) implies #[trigger] at_key(t, key, k)
        == at_key(s, key, k) by {
        let c = choose|c: int| 0 <= c < t.len() && key(t[c]) == k;
        lemma_at_index(t, key, c);
        let c2: int = if c < i {
            c
        } else {
            c + 1
        };
        assert(t[c] == s[c2]);
        lemma_at_index(s, key, c2);
    }
}

/// Pushing an entry with a fresh key adds exactly that entry: every other key
/// keeps its membership and its entry.
pub proof fn lemma_push_frame<T, K>(s: Seq<T>, key: spec_fn(T) -> K, t: T)
    requires
        unique_keys(s, key),
        !has_key(s, key, key(t)),
    ensures
        unique_keys(s.push(t), key),
        has_key(s.push(t), key, key(t)),
        at_key(s.push(t), key, key(t)) == t,
        forall|k: K| k != key(t) ==> #[trigger] has_key(s.push(t), key, k) == has_key(s, key, k),
        forall|k: K|
            k != key(t) && has_key(s.push(t), key, k) ==> #[trigger] at_key(s.push(t), key, k)
                == at_key(s, key, k),
{
    let u = s.push(t);
    let n = s.len() as int;
    assert(u[n] == t);
    assert forall|a: int, b: int| 0 <= a < b < u.len() implies key(u[a]) != key(u[b]) by {
        if b < n {
            assert(u[a] == s[a] && u[b] == s[b]);
        } else {
            assert(u[a] == s[a] && u[b] == t);
            if key(s[a]) == key(t) {
                assert(has_key(s, key, key(t)));
            }
        }
    }
    lemma_at_index(u, key, n);
    assert forall|k: K| k != key(t) implies #[trigger] has_key(u, key, k) == has_key(s, key, k) by {
        if has_key(u, key, k) {
            let c = choose|c: int| 0 <= c < u.len() && key(u[c]) == k;
            assert(c < n);
            assert(u[c] == s[c]);
            assert(has_key(s, key, k));
        }
        if has_key(s, key, k) {
            let c = choose|c: int| 0 <= c < s.len() && key(s[c]) == k;
            assert(u[c] == s[c]);
            assert(has_key(u, key, k));
        }
    }
    assert forall|k: K| k != key(t) && has_key(u, key, k) implies #[trigger] at_key(u, key, k)
        == at_key(s, key, k) by {
        let c = choose|c: int| 0 <= c < u.len() && key(u[c]) == k;
        assert(c < n);
        lemma_at_index(u, key, c);
        assert(u[c] == s[c]);
        lemma_at_index(s, key, c);
    }
}

/// Replacing the entry at `j` by one with the same key rebinds that key and
/// nothing else.
pub proof fn lemma_update_frame<T, K>(s: Seq<T>, key: spec_fn(T) -> K, j: int, t: T)
    requires
        unique_keys(s, key),
        0 <= j < s.len(),
        key(t) == key(s[j]),
    ensures
        unique_keys(s.update(j, t), key),
        has_key(s.update(j, t), key, key(t)),
        at_key(s.update(j, t), key, key(t)) == t,
        forall|k: K|
            k != key(t) ==> #[trigger] has_key(s.update(j, t), key, k) == has_key(s, key, k),
        forall|k: K|
            k != key(t) && has_key(s.update(j, t), key, k) ==> #[trigger] at_key(
                s.update(j, t),
                key,
                k,
            ) == at_key(s, key, k),
{
    let u = s.update(j, t);
    assert(u[j] == t);
    assert forall|a: int, b: int| 0 <= a < b < u.len() implies key(u[a]) != key(u[b]) by {
        assert(u[a] == if a == j {
            t
        } else {
            s[a]
        });
        assert(u[b] == if b == j {
            t
        } else {
            s[b]
        });
        assert(key(s[a]) != key(s[b]));
    }
    lemma_at_index(u, key, j);
    assert forall|k: K| k != key(t) implies #[trigger] has_key(u, key, k) == has_key(s, key, k) by {
        if has_key(u, key, k) {
            let c = choose|c: int| 0 <= c < u.len() && key(u[c]) == k;
            assert(c != j);
            assert(u[c] == s[c]);
            assert(has_key(s, key, k));
        }
        if has_key(s, key, k) {
            let c = choose|c: int| 0 <= c < s.len() && key(s[c]) == k;
            assert(c != j);
            assert(u[c] == s[c]);
            assert(has_key(u, key, k));
        }
    }
    assert forall|k: K| k != key(t) && has_key(u, key, k) implies #[trigger] at_key(u, key, k)
        == at_key(s, key, k) by {
        let c = choose|c: int| 0 <= c < u.len() && key(u[c]) == k;
        assert(c != j);
        lemma_at_index(u, key, c);
        assert(u[c] == s[c]);
        lemma_at_index(s, key, c);
    }
}

} // verus!
