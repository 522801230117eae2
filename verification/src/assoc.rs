//! Keyed sequences: the mathematical model of the maps of this crate.
//!
//! A map from texts to values is modelled as a sequence of pairs in which
//! every key occurs once. A document keeps its pairs in the order in which
//! the keys were first put; a table keeps them sorted by key.

use vstd::prelude::*;
use crate::text::{lemma_lex_irreflexive, lemma_lex_trans, lemma_lex_trichotomy, lex_lt};

verus! {

/// The first position at or after `from` that holds the key `k`, or the
/// length of `d` when there is none.
pub open spec fn key_index<V>(d: Seq<(Seq<char>, V)>, k: Seq<char>, from: int) -> int
    decreases d.len() - from,
{
    if from < 0 || from >= d.len() {
        d.len() as int
    } else if d[from].0 == k {
        from
    } else {
        key_index(d, k, from + 1)
    }
}

/// Whether `d` holds the key `k`.
pub open spec fn has_key<V>(d: Seq<(Seq<char>, V)>, k: Seq<char>) -> bool {
    key_index(d, k, 0) < d.len()
}

/// The value that `d` holds for `k`, if any.
pub open spec fn get<V>(d: Seq<(Seq<char>, V)>, k: Seq<char>) -> Option<V> {
    if has_key(d, k) {
        Some(d[key_index(d, k, 0)].1)
    } else {
        None
    }
}

/// `d` with `v` as the value of `k`: in the place of the old value when `d`
/// holds `k`, at the end when it does not.
pub open spec fn put<V>(d: Seq<(Seq<char>, V)>, k: Seq<char>, v: V) -> Seq<(Seq<char>, V)> {
    if has_key(d, k) {
        d.update(key_index(d, k, 0), (k, v))
    } else {
        d.push((k, v))
    }
}

/// `d` without the key `k`.
pub open spec fn without<V>(d: Seq<(Seq<char>, V)>, k: Seq<char>) -> Seq<(Seq<char>, V)> {
    if has_key(d, k) {
        d.remove(key_index(d, k, 0))
    } else {
        d
    }
}

/// Whether every key of `d` occurs once.
pub open spec fn distinct_keys<V>(d: Seq<(Seq<char>, V)>) -> bool {
    forall|i: int, j: int| 0 <= i < j < d.len() ==> (#[trigger] d[i]).0 != (#[trigger] d[j]).0
}

/// `key_index` returns a position between `from` and the end, passes only
/// other keys, and stops on the key.
pub proof fn lemma_key_index<V>(d: Seq<(Seq<char>, V)>, k: Seq<char>, from: int)
    requires
        0 <= from <= d.len(),
    ensures
        from <= key_index(d, k, from) <= d.len(),
        forall|j: int| from <= j < key_index(d, k, from) ==> (#[trigger] d[j]).0 != k,
        key_index(d, k, from) < d.len() ==> d[key_index(d, k, from)].0 == k,
    decreases d.len() - from,
{
    if from < d.len() && d[from].0 != k {
        lemma_key_index(d, k, from + 1);
    }
}

/// A position reached past other keys, which is the end or holds the key,
/// is what `key_index` finds.
pub proof fn lemma_key_index_is<V>(d: Seq<(Seq<char>, V)>, k: Seq<char>, from: int, n: int)
    requires
        0 <= from <= n <= d.len(),
        forall|j: int| from <= j < n ==> (#[trigger] d[j]).0 != k,
        n < d.len() ==> d[n].0 == k,
    ensures
        key_index(d, k, from) == n,
    decreases n - from,
{
    if from < n {
        lemma_key_index_is(d, k, from + 1, n);
    }
}

/// After `put`, the key holds the new value and every other key holds what
/// it held.
pub proof fn lemma_put_get<V>(d: Seq<(Seq<char>, V)>, k: Seq<char>, v: V, other: Seq<char>)
    ensures
        get(put(d, k, v), other) == if other == k {
            Some(v)
        } else {
            get(d, other)
        },
        put(d, k, v).len() == if has_key(d, k) {
            d.len()
        } else {
            d.len() + 1
        },
{
    let n = put(d, k, v);
    lemma_key_index(d, k, 0);
    lemma_key_index(d, other, 0);
    let i = key_index(d, k, 0);
    let j = key_index(d, other, 0);
    if other == k {
        lemma_key_index_is(n, k, 0, i);
    } else if j < d.len() {
        lemma_key_index_is(n, other, 0, j);
    } else {
        lemma_key_index_is(n, other, 0, n.len() as int);
    }
}

/// `put` keeps the keys distinct.
pub proof fn lemma_put_distinct<V>(d: Seq<(Seq<char>, V)>, k: Seq<char>, v: V)
    requires
        distinct_keys(d),
    ensures
        distinct_keys(put(d, k, v)),
{
    lemma_key_index(d, k, 0);
}

/// Whether the keys of `d` ascend strictly in lexicographic order.
pub open spec fn sorted<V>(d: Seq<(Seq<char>, V)>) -> bool {
    forall|i: int, j: int|
        0 <= i < j < d.len() ==> lex_lt((#[trigger] d[i]).0, (#[trigger] d[j]).0)
}

/// The first position at or after `from` whose key does not come before
/// `k`, or the length of `d` when every key does.
pub open spec fn rank<V>(d: Seq<(Seq<char>, V)>, k: Seq<char>, from: int) -> int
    decreases d.len() - from,
{
    if from < 0 || from >= d.len() {
        d.len() as int
    } else if !lex_lt(d[from].0, k) {
        from
    } else {
        rank(d, k, from + 1)
    }
}

/// `d` with `v` as the value of `k`, at the place that the order of keys
/// gives it.
pub open spec fn sorted_put<V>(d: Seq<(Seq<char>, V)>, k: Seq<char>, v: V) -> Seq<
    (Seq<char>, V),
> {
    let i = rank(d, k, 0);
    if i < d.len() && d[i].0 == k {
        d.update(i, (k, v))
    } else {
        d.insert(i, (k, v))
    }
}

/// `rank` returns a position between `from` and the end, passes only keys
/// that come before `k`, and stops on one that does not.
pub proof fn lemma_rank<V>(d: Seq<(Seq<char>, V)>, k: Seq<char>, from: int)
    requires
        0 <= from <= d.len(),
    ensures
        from <= rank(d, k, from) <= d.len(),
        forall|j: int| from <= j < rank(d, k, from) ==> lex_lt((#[trigger] d[j]).0, k),
        rank(d, k, from) < d.len() ==> !lex_lt(d[rank(d, k, from)].0, k),
    decreases d.len() - from,
{
    if from < d.len() && lex_lt(d[from].0, k) {
        lemma_rank(d, k, from + 1);
    }
}

/// A sorted sequence has distinct keys.
pub proof fn lemma_sorted_distinct<V>(d: Seq<(Seq<char>, V)>)
    requires
        sorted(d),
    ensures
        distinct_keys(d),
{
    assert forall|i: int, j: int| 0 <= i < j < d.len() implies (#[trigger] d[i]).0 != (
    #[trigger] d[j]).0 by {
        lemma_lex_irreflexive(d[i].0, 0);
    }
}

/// `sorted_put` keeps the keys sorted.
pub proof fn lemma_sorted_put_sorted<V>(d: Seq<(Seq<char>, V)>, k: Seq<char>, v: V)
    requires
        sorted(d),
    ensures
        sorted(sorted_put(d, k, v)),
{
    lemma_rank(d, k, 0);
    let i = rank(d, k, 0);
    let n = sorted_put(d, k, v);
    if i < d.len() && d[i].0 == k {
        assert forall|a: int, b: int| 0 <= a < b < n.len() implies lex_lt(
            (#[trigger] n[a]).0,
            (#[trigger] n[b]).0,
        ) by {
            assert(n[a].0 == d[a].0);
            assert(n[b].0 == d[b].0);
        }
    } else {
        assert forall|a: int, b: int| 0 <= a < b < n.len() implies lex_lt(
            (#[trigger] n[a]).0,
            (#[trigger] n[b]).0,
        ) by {
            if b < i {
                assert(n[a] == d[a] && n[b] == d[b]);
            } else if b == i {
                assert(n[a] == d[a]);
            } else if a < i {
                assert(n[a] == d[a] && n[b] == d[b - 1]);
            } else if a == i {
                assert(n[b] == d[b - 1]);
                lemma_lex_trichotomy(d[i].0, k);
                if b - 1 > i {
                    lemma_lex_trans(k, d[i].0, d[b - 1].0, 0);
                }
            } else {
                assert(n[a] == d[a - 1] && n[b] == d[b - 1]);
            }
        }
    }
}

/// After `sorted_put` into a sorted sequence, the key holds the new value
/// and every other key holds what it held.
pub proof fn lemma_sorted_put_get<V>(
    d: Seq<(Seq<char>, V)>,
    k: Seq<char>,
    v: V,
    other: Seq<char>,
)
    requires
        sorted(d),
    ensures
        get(sorted_put(d, k, v), other) == if other == k {
            Some(v)
        } else {
            get(d, other)
        },
{
    lemma_rank(d, k, 0);
    let i = rank(d, k, 0);
    let n = sorted_put(d, k, v);
    lemma_key_index(d, other, 0);
    let j = key_index(d, other, 0);
    assert forall|t: int| 0 <= t < i implies (#[trigger] d[t]).0 != k by {
        lemma_lex_irreflexive(k, 0);
    }
    if i < d.len() && d[i].0 == k {
        if other == k {
            lemma_key_index_is(n, k, 0, i);
        } else if j < d.len() {
            lemma_key_index_is(n, other, 0, j);
        } else {
            lemma_key_index_is(n, other, 0, n.len() as int);
        }
    } else {
        if other == k {
            lemma_key_index_is(n, k, 0, i);
        } else if j < i {
            lemma_key_index_is(n, other, 0, j);
        } else if j < d.len() {
            assert forall|t: int| 0 <= t < j + 1 implies (#[trigger] n[t]).0 != other by {
                if t < i {
                    assert(n[t] == d[t]);
                } else if t > i {
                    assert(n[t] == d[t - 1]);
                }
            }
            lemma_key_index_is(n, other, 0, j + 1);
        } else {
            assert forall|t: int| 0 <= t < n.len() implies (#[trigger] n[t]).0 != other by {
                if t < i {
                    assert(n[t] == d[t]);
                } else if t > i {
                    assert(n[t] == d[t - 1]);
                }
            }
            lemma_key_index_is(n, other, 0, n.len() as int);
        }
    }
}

/// A key that comes after every key of `d` is put at the end.
pub proof fn lemma_sorted_put_last<V>(d: Seq<(Seq<char>, V)>, k: Seq<char>, v: V)
    requires
        forall|j: int| 0 <= j < d.len() ==> lex_lt((#[trigger] d[j]).0, k),
    ensures
        sorted_put(d, k, v) == d.push((k, v)),
{
    lemma_rank(d, k, 0);
    assert(d.insert(d.len() as int, (k, v)) =~= d.push((k, v)));
}

/// In a sequence with distinct keys, each key is found at its own
/// position.
pub proof fn lemma_key_index_at<V>(d: Seq<(Seq<char>, V)>, i: int)
    requires
        distinct_keys(d),
        0 <= i < d.len(),
    ensures
        key_index(d, d[i].0, 0) == i,
        get(d, d[i].0) == Some(d[i].1),
{
    assert forall|j: int| 0 <= j < i implies (#[trigger] d[j]).0 != d[i].0 by {}
    lemma_key_index_is(d, d[i].0, 0, i);
}

/// A key is held exactly when it stands at some position.
pub proof fn lemma_has_key<V>(d: Seq<(Seq<char>, V)>, k: Seq<char>)
    ensures
        has_key(d, k) <==> exists|i: int| 0 <= i < d.len() && (#[trigger] d[i]).0 == k,
{
    lemma_key_index(d, k, 0);
    if has_key(d, k) {
        let i = key_index(d, k, 0);
        assert(0 <= i < d.len() && d[i].0 == k);
    }
}

/// Two sorted sequences that hold the same keys hold them at the same
/// positions.
pub proof fn lemma_sorted_same_keys<V, W>(a: Seq<(Seq<char>, V)>, b: Seq<(Seq<char>, W)>)
    requires
        sorted(a),
        sorted(b),
        forall|k: Seq<char>| has_key(a, k) <==> has_key(b, k),
    ensures
        a.len() == b.len(),
        forall|i: int| 0 <= i < a.len() ==> (#[trigger] a[i]).0 == b[i].0,
    decreases a.len(),
{
    lemma_sorted_distinct(a);
    lemma_sorted_distinct(b);
    if a.len() == 0 {
        if b.len() > 0 {
            lemma_key_index_at(b, 0);
            lemma_has_key(a, b[0].0);
        }
    } else if b.len() == 0 {
        lemma_key_index_at(a, 0);
        lemma_has_key(b, a[0].0);
    } else {
        let ka = a[0].0;
        let kb = b[0].0;
        lemma_key_index_at(a, 0);
        lemma_key_index_at(b, 0);
        lemma_key_index(b, ka, 0);
        lemma_key_index(a, kb, 0);
        let j = key_index(b, ka, 0);
        let i = key_index(a, kb, 0);
        assert(has_key(b, ka));
        assert(has_key(a, kb));
        if j > 0 {
            assert(lex_lt(b[0].0, b[j].0));
            if i > 0 {
                assert(lex_lt(a[0].0, a[i].0));
                lemma_lex_trichotomy(ka, kb);
            } else {
                lemma_lex_irreflexive(ka, 0);
            }
        }
        assert(ka == kb);
        let a1 = a.skip(1);
        let b1 = b.skip(1);
        assert forall|x: int, y: int| 0 <= x < y < a1.len() implies lex_lt(
            (#[trigger] a1[x]).0,
            (#[trigger] a1[y]).0,
        ) by {
            assert(a1[x] == a[x + 1] && a1[y] == a[y + 1]);
        }
        assert forall|x: int, y: int| 0 <= x < y < b1.len() implies lex_lt(
            (#[trigger] b1[x]).0,
            (#[trigger] b1[y]).0,
        ) by {
            assert(b1[x] == b[x + 1] && b1[y] == b[y + 1]);
        }
        assert forall|k: Seq<char>| has_key(a1, k) <==> has_key(b1, k) by {
            lemma_has_key(a1, k);
            lemma_has_key(b1, k);
            lemma_has_key(a, k);
            lemma_has_key(b, k);
            if has_key(a1, k) {
                let x = choose|x: int| 0 <= x < a1.len() && (#[trigger] a1[x]).0 == k;
                assert(a[x + 1].0 == k);
                assert(k != ka) by {
                    assert(a[0].0 != a[x + 1].0);
                }
                let y = choose|y: int| 0 <= y < b.len() && (#[trigger] b[y]).0 == k;
                assert(y > 0);
                assert(b1[y - 1].0 == k);
            }
            if has_key(b1, k) {
                let x = choose|x: int| 0 <= x < b1.len() && (#[trigger] b1[x]).0 == k;
                assert(b[x + 1].0 == k);
                assert(k != kb) by {
                    assert(b[0].0 != b[x + 1].0);
                }
                let y = choose|y: int| 0 <= y < a.len() && (#[trigger] a[y]).0 == k;
                assert(y > 0);
                assert(a1[y - 1].0 == k);
            }
        }
        lemma_sorted_same_keys(a1, b1);
        assert forall|t: int| 0 <= t < a.len() implies (#[trigger] a[t]).0 == b[t].0 by {
            if t > 0 {
                assert(a1[t - 1] == a[t]);
                assert(b1[t - 1] == b[t]);
            }
        }
    }
}

/// Two sorted sequences that hold the same value for every key are equal.
pub proof fn lemma_sorted_equal<V>(a: Seq<(Seq<char>, V)>, b: Seq<(Seq<char>, V)>)
    requires
        sorted(a),
        sorted(b),
        forall|k: Seq<char>| get(a, k) == get(b, k),
    ensures
        a == b,
{
    assert forall|k: Seq<char>| has_key(a, k) <==> has_key(b, k) by {
        assert(get(a, k) == get(b, k));
    }
    lemma_sorted_same_keys(a, b);
    lemma_sorted_distinct(a);
    lemma_sorted_distinct(b);
    assert forall|i: int| 0 <= i < a.len() implies a[i] == b[i] by {
        lemma_key_index_at(a, i);
        lemma_key_index_at(b, i);
        assert(get(a, a[i].0) == get(b, a[i].0));
    }
    assert(a =~= b);
}

/// After `sorted_put` a sequence holds the keys that it held, and the new
/// key.
pub proof fn lemma_sorted_put_keys<V>(d: Seq<(Seq<char>, V)>, k: Seq<char>, v: V, x: Seq<char>)
    ensures
        has_key(sorted_put(d, k, v), x) <==> (x == k || has_key(d, x)),
{
    let n = sorted_put(d, k, v);
    lemma_rank(d, k, 0);
    let i = rank(d, k, 0);
    lemma_has_key(n, x);
    lemma_has_key(d, x);
    if has_key(n, x) && x != k {
        let t = choose|t: int| 0 <= t < n.len() && (#[trigger] n[t]).0 == x;
        if i < d.len() && d[i].0 == k {
            assert(d[t].0 == x);
        } else if t < i {
            assert(d[t].0 == x);
        } else {
            assert(t != i);
            assert(d[t - 1].0 == x);
        }
    }
    if has_key(d, x) {
        let t = choose|t: int| 0 <= t < d.len() && (#[trigger] d[t]).0 == x;
        if i < d.len() && d[i].0 == k {
            assert(n[t].0 == x);
        } else if t < i {
            assert(n[t].0 == x);
        } else {
            assert(n[t + 1].0 == x);
        }
    }
    if x == k {
        assert(n[i].0 == k);
    }
}

/// Without a key a sequence holds no key that it did not hold.
pub proof fn lemma_without_keys<V>(d: Seq<(Seq<char>, V)>, k: Seq<char>, x: Seq<char>)
    ensures
        has_key(without(d, k), x) ==> has_key(d, x),
{
    let n = without(d, k);
    lemma_key_index(d, k, 0);
    let i = key_index(d, k, 0);
    lemma_has_key(n, x);
    lemma_has_key(d, x);
    if has_key(n, x) && has_key(d, k) {
        let t = choose|t: int| 0 <= t < n.len() && (#[trigger] n[t]).0 == x;
        if t < i {
            assert(d[t].0 == x);
        } else {
            assert(d[t + 1].0 == x);
        }
    }
}

/// Without a key a sequence holds for every other key what it held.
pub proof fn lemma_without_get<V>(d: Seq<(Seq<char>, V)>, k: Seq<char>, x: Seq<char>)
    requires
        x != k,
    ensures
        get(without(d, k), x) == get(d, x),
{
    let n = without(d, k);
    lemma_key_index(d, k, 0);
    lemma_key_index(d, x, 0);
    let i = key_index(d, k, 0);
    let j = key_index(d, x, 0);
    if has_key(d, k) {
        if j < i {
            assert forall|t: int| 0 <= t < j implies (#[trigger] n[t]).0 != x by {
                assert(n[t] == d[t]);
            }
            assert(n[j] == d[j]);
            lemma_key_index_is(n, x, 0, j);
        } else if j < d.len() {
            assert forall|t: int| 0 <= t < j - 1 implies (#[trigger] n[t]).0 != x by {
                if t < i {
                    assert(n[t] == d[t]);
                } else {
                    assert(n[t] == d[t + 1]);
                }
            }
            assert(n[j - 1] == d[j]);
            lemma_key_index_is(n, x, 0, j - 1);
        } else {
            assert forall|t: int| 0 <= t < n.len() implies (#[trigger] n[t]).0 != x by {
                if t < i {
                    assert(n[t] == d[t]);
                } else {
                    assert(n[t] == d[t + 1]);
                }
            }
            lemma_key_index_is(n, x, 0, n.len() as int);
        }
    }
}

} // verus!
