//! Spec-level views of the query caches: association tables searched
//! from the most recent entry, and counting of tags in a sequence.

use vstd::prelude::*;
use crate::hir::seq_extends;

verus! {

/// The value stored under a key, preferring the most recent entry.
pub open spec fn table_find<K, V>(entries: Seq<(K, V)>, key: K) -> Option<V>
    decreases entries.len(),
{
    if entries.len() == 0 {
        None
    } else if entries.last().0 == key {
        Some(entries.last().1)
    } else {
        table_find(entries.drop_last(), key)
    }
}

/// Every entry's value is the given function of the entry's key.
pub open spec fn table_correct<K, V>(entries: Seq<(K, V)>, f: spec_fn(K) -> V) -> bool {
    forall|e: int| 0 <= e < entries.len() ==> (#[trigger] entries[e]).1 == f(entries[e].0)
}

/// In a correct table, whatever is found under a key is the function's
/// value at that key.
pub proof fn lemma_table_find_correct<K, V>(entries: Seq<(K, V)>, f: spec_fn(K) -> V, key: K)
    requires
        table_correct(entries, f),
        table_find(entries, key) is Some,
    ensures
        table_find(entries, key) == Some(f(key)),
    decreases entries.len(),
{
    if entries.len() > 0 && entries.last().0 != key {
        assert forall|e: int| 0 <= e < entries.drop_last().len() implies (
        #[trigger] entries.drop_last()[e]).1 == f(entries.drop_last()[e].0) by {
            assert(entries.drop_last()[e] == entries[e]);
        }
        lemma_table_find_correct(entries.drop_last(), f, key);
    }
}

/// Appending an entry: the new key is found with the new value, and
/// every other key is found exactly as before.
pub proof fn lemma_table_find_push<K, V>(entries: Seq<(K, V)>, k: K, v: V, key: K)
    ensures
        table_find(entries.push((k, v)), k) == Some(v),
        key != k ==> table_find(entries.push((k, v)), key) == table_find(entries, key),
{
    assert(entries.push((k, v)).last() == (k, v));
    assert(entries.push((k, v)).drop_last() =~= entries);
}

/// A found entry stays found, unchanged, when a correct table grows
/// correctly: new entries for the same key can only repeat the same
/// value.
pub proof fn lemma_table_find_extends<K, V>(
    pre: Seq<(K, V)>,
    post: Seq<(K, V)>,
    f: spec_fn(K) -> V,
    key: K,
)
    requires
        table_correct(pre, f),
        table_correct(post, f),
        seq_extends(post, pre),
        table_find(pre, key) is Some,
    ensures
        table_find(post, key) == table_find(pre, key),
    decreases post.len(),
{
    lemma_table_find_correct(pre, f, key);
    if post.len() == pre.len() {
        assert(post =~= pre);
    } else {
        if post.last().0 == key {
            assert(table_find(post, key) == Some(f(key)));
        } else {
            assert forall|e: int| 0 <= e < post.drop_last().len() implies (
            #[trigger] post.drop_last()[e]).1 == f(post.drop_last()[e].0) by {
                assert(post.drop_last()[e] == post[e]);
            }
            assert(seq_extends(post.drop_last(), pre));
            lemma_table_find_extends(pre, post.drop_last(), f, key);
        }
    }
}

/// How often a value occurs in a sequence.
pub open spec fn seq_count<T>(s: Seq<T>, x: T) -> nat
    decreases s.len(),
{
    if s.len() == 0 {
        0
    } else {
        seq_count(s.drop_last(), x) + (if s.last() == x {
            1nat
        } else {
            0nat
        })
    }
}

/// A value that occurs nowhere counts zero times.
pub proof fn lemma_seq_count_absent<T>(s: Seq<T>, x: T)
    requires
        forall|i: int| 0 <= i < s.len() ==> s[i] != x,
    ensures
        seq_count(s, x) == 0,
    decreases s.len(),
{
    if s.len() > 0 {
        assert forall|i: int| 0 <= i < s.drop_last().len() implies s.drop_last()[i] != x by {
            assert(s.drop_last()[i] == s[i]);
        }
        lemma_seq_count_absent(s.drop_last(), x);
    }
}

/// A value that occurs somewhere counts at least once.
pub proof fn lemma_seq_count_contains<T>(s: Seq<T>, x: T)
    requires
        s.contains(x),
    ensures
        seq_count(s, x) >= 1,
    decreases s.len(),
{
    if s.last() != x {
        let i = choose|i: int| 0 <= i < s.len() && s[i] == x;
        assert(s.drop_last()[i] == x);
        assert(s.drop_last().contains(x));
        lemma_seq_count_contains(s.drop_last(), x);
    }
}

/// In a sequence with pairwise distinct elements, nothing counts more
/// than once.
pub proof fn lemma_seq_count_distinct<T>(s: Seq<T>, x: T)
    requires
        forall|a: int, b: int| 0 <= a < b < s.len() ==> s[a] != s[b],
    ensures
        seq_count(s, x) <= 1,
    decreases s.len(),
{
    if s.len() > 0 {
        assert forall|a: int, b: int|
            0 <= a < b < s.drop_last().len() implies s.drop_last()[a] != s.drop_last()[b] by {
            assert(s.drop_last()[a] == s[a] && s.drop_last()[b] == s[b]);
        }
        lemma_seq_count_distinct(s.drop_last(), x);
        if s.last() == x {
            assert forall|i: int| 0 <= i < s.drop_last().len() implies s.drop_last()[i] != x by {
                assert(s.drop_last()[i] == s[i]);
                assert(s[i] != s[s.len() - 1]);
            }
            lemma_seq_count_absent(s.drop_last(), x);
        }
    }
}

/// Pushing a value onto a sequence makes it occur, whatever was there
/// before.
pub proof fn lemma_push_contains<T>(s: Seq<T>, x: T, y: T)
    ensures
        s.push(x).contains(y) <==> (s.contains(y) || y == x),
{
    if s.contains(y) {
        let i = choose|i: int| 0 <= i < s.len() && s[i] == y;
        assert(s.push(x)[i] == y);
    }
    assert(s.push(x)[s.len() as int] == x);
    if s.push(x).contains(y) && y != x {
        let i = choose|i: int| 0 <= i < s.push(x).len() && s.push(x)[i] == y;
        assert(0 <= i < s.len());
        assert(s[i] == y);
    }
}

} // verus!
