use vstd::prelude::*;

verus! {

// Mathematical model of an insertion-ordered association list: a sequence of
// (key, value) pairs in which no key occurs twice.

/// The keys of `s`, in order.
pub open spec fn keys_of<A, B>(s: Seq<(A, B)>) -> Seq<A> {
    s.map_values(|e: (A, B)| e.0)
}

/// Some entry of `s` has key `k`.
pub open spec fn has_key<A, B>(s: Seq<(A, B)>, k: A) -> bool {
    exists|i: int| 0 <= i < s.len() && #[trigger] s[i].0 == k
}

/// No key occurs twice in `s`.
pub open spec fn distinct_keys<A, B>(s: Seq<(A, B)>) -> bool {
    forall|i: int, j: int|
        0 <= i < s.len() && 0 <= j < s.len() && i != j ==> #[trigger] s[i].0 != #[trigger] s[j].0
}

/// The position of key `k` in `s` (meaningful when `has_key(s, k)`).
pub open spec fn key_index<A, B>(s: Seq<(A, B)>, k: A) -> int {
    choose|i: int| 0 <= i < s.len() && #[trigger] s[i].0 == k
}

/// The value stored under `k`, if any.
pub open spec fn lookup<A, B>(s: Seq<(A, B)>, k: A) -> Option<B> {
    if has_key(s, k) {
        Some(s[key_index(s, k)].1)
    } else {
        None
    }
}

/// `s` after storing `v` under `k`: an existing entry keeps its place and
/// takes the new value, a new key is appended at the end.
pub open spec fn inserted<A, B>(s: Seq<(A, B)>, k: A, v: B) -> Seq<(A, B)> {
    if has_key(s, k) {
        s.update(key_index(s, k), (k, v))
    } else {
        s.push((k, v))
    }
}

/// `s` after storing every pair of `items`, first to last.
pub open spec fn inserted_all<A, B>(s: Seq<(A, B)>, items: Seq<(A, B)>) -> Seq<(A, B)>
    decreases items.len(),
{
    if items.len() == 0 {
        s
    } else {
        let rest = items.drop_last();
        inserted(inserted_all(s, rest), items.last().0, items.last().1)
    }
}

/// `a` and `b` hold the same elements and are equally long.
pub open spec fn same_entries<T>(a: Seq<T>, b: Seq<T>) -> bool {
    &&& a.len() == b.len()
    &&& forall|e: T| a.contains(e) <==> b.contains(e)
}

/// `p` is a bijection on `0..before.len()`, with inverse `q`, such that
/// `after[i] == before[p[i]]`.
pub open spec fn reorders<T>(p: Seq<int>, q: Seq<int>, after: Seq<T>, before: Seq<T>) -> bool {
    &&& p.len() == before.len()
    &&& after.len() == before.len()
    &&& forall|i: int| 0 <= i < p.len() ==> 0 <= #[trigger] p[i] < before.len()
    &&& forall|i: int| 0 <= i < p.len() ==> after[i] == before[#[trigger] p[i]]
    &&& forall|i: int, j: int| 0 <= i < p.len() && 0 <= j < p.len() && i != j ==> #[trigger] p[i] != #[trigger] p[j]
    &&& q.len() == before.len()
    &&& forall|j: int| 0 <= j < q.len() ==> 0 <= #[trigger] q[j] < p.len() && p[q[j]] == j
}

/// `after` is `before` with its elements rearranged.
pub open spec fn is_permutation<T>(after: Seq<T>, before: Seq<T>) -> bool {
    exists|p: Seq<int>, q: Seq<int>| reorders(p, q, after, before)
}

/// In a sequence without repeated keys, the chosen position is the only one.
pub proof fn lemma_key_index<A, B>(s: Seq<(A, B)>, k: A, i: int)
    requires
        distinct_keys(s),
        0 <= i < s.len(),
        s[i].0 == k,
    ensures
        has_key(s, k),
        key_index(s, k) == i,
        lookup(s, k) == Some(s[i].1),
{
}

/// Storing a pair keeps keys distinct.
pub proof fn lemma_inserted_distinct<A, B>(s: Seq<(A, B)>, k: A, v: B)
    requires
        distinct_keys(s),
    ensures
        distinct_keys(inserted(s, k, v)),
{
    if has_key(s, k) {
        let i = key_index(s, k);
        assert(s[i].0 == k);
    }
}

/// After storing `v` under `k`, looking up `k` gives `v` and every other key
/// gives what it gave before.
pub proof fn lemma_lookup_inserted<A, B>(s: Seq<(A, B)>, k: A, v: B, q: A)
    requires
        distinct_keys(s),
    ensures
        lookup(inserted(s, k, v), q) == (if q == k {
            Some(v)
        } else {
            lookup(s, q)
        }),
{
    let t = inserted(s, k, v);
    lemma_inserted_distinct(s, k, v);
    if has_key(s, k) {
        let i = key_index(s, k);
        assert(t[i].0 == k);
        if q == k {
            lemma_key_index(t, k, i);
        } else if has_key(s, q) {
            let j = key_index(s, q);
            assert(t[j] == s[j]);
            lemma_key_index(t, q, j);
        } else {
            assert(!has_key(t, q)) by {
                if has_key(t, q) {
                    let j = key_index(t, q);
                    assert(s[j].0 == q);
                }
            }
        }
    } else {
        let n = s.len() as int;
        assert(t[n].0 == k);
        if q == k {
            lemma_key_index(t, k, n);
        } else if has_key(s, q) {
            let j = key_index(s, q);
            assert(t[j] == s[j]);
            lemma_key_index(t, q, j);
        } else {
            assert(!has_key(t, q)) by {
                if has_key(t, q) {
                    let j = key_index(t, q);
                    assert(s[j].0 == q);
                }
            }
        }
    }
}

/// Storing under a present key keeps the order of the keys; storing under a
/// new key appends it at the end.
pub proof fn lemma_inserted_keys<A, B>(s: Seq<(A, B)>, k: A, v: B)
    ensures
        keys_of(inserted(s, k, v)) == (if has_key(s, k) {
            keys_of(s)
        } else {
            keys_of(s).push(k)
        }),
{
    let t = inserted(s, k, v);
    if has_key(s, k) {
        let i = key_index(s, k);
        assert(keys_of(t) =~= keys_of(s));
    } else {
        assert(keys_of(t) =~= keys_of(s).push(k));
    }
}

/// A rearrangement holds the same elements.
pub proof fn lemma_permutation_same_entries<T>(after: Seq<T>, before: Seq<T>)
    requires
        is_permutation(after, before),
    ensures
        same_entries(after, before),
{
    let (p, q) = choose|p: Seq<int>, q: Seq<int>| reorders(p, q, after, before);
    assert forall|e: T| after.contains(e) <==> before.contains(e) by {
        if after.contains(e) {
            let i = choose|i: int| 0 <= i < after.len() && after[i] == e;
            assert(before[p[i]] == e);
        }
        if before.contains(e) {
            let j = choose|j: int| 0 <= j < before.len() && before[j] == e;
            assert(after[q[j]] == before[p[q[j]]]);
        }
    }
}

/// A rearrangement of a sequence without repeated keys has none either.
pub proof fn lemma_permutation_distinct_keys<A, B>(after: Seq<(A, B)>, before: Seq<(A, B)>)
    requires
        is_permutation(after, before),
        distinct_keys(before),
    ensures
        distinct_keys(after),
{
    let (p, q) = choose|p: Seq<int>, q: Seq<int>| reorders(p, q, after, before);
    assert forall|i: int, j: int|
        0 <= i < after.len() && 0 <= j < after.len() && i != j implies #[trigger] after[i].0
        != #[trigger] after[j].0 by {
        assert(after[i] == before[p[i]]);
        assert(after[j] == before[p[j]]);
        assert(p[i] != p[j]);
    }
}

/// Pushing onto a sequence adds exactly the pushed element.
pub proof fn lemma_push_contains<T>(s: Seq<T>, x: T, e: T)
    ensures
        s.push(x).contains(e) <==> (s.contains(e) || e == x),
{
    if s.contains(e) {
        let i = choose|i: int| 0 <= i < s.len() && s[i] == e;
        assert(s.push(x)[i] == e);
    }
    if e == x {
        assert(s.push(x)[s.len() as int] == e);
    }
    if s.push(x).contains(e) {
        let i = choose|i: int| 0 <= i < s.push(x).len() && s.push(x)[i] == e;
        if i < s.len() {
            assert(s[i] == e);
        }
    }
}

/// Inserting into a sequence adds exactly the inserted element.
pub proof fn lemma_insert_contains<T>(s: Seq<T>, pos: int, x: T, e: T)
    requires
        0 <= pos <= s.len(),
    ensures
        s.insert(pos, x).contains(e) <==> (s.contains(e) || e == x),
{
    s.insert_ensures(pos, x);
    let t = s.insert(pos, x);
    if s.contains(e) {
        let i = choose|i: int| 0 <= i < s.len() && s[i] == e;
        if i < pos {
            assert(t[i] == e);
        } else {
            assert(t[i + 1] == e);
        }
    }
    if e == x {
        assert(t[pos] == e);
    }
    if t.contains(e) {
        let i = choose|i: int| 0 <= i < t.len() && t[i] == e;
        if i < pos {
            assert(s[i] == e);
        } else if i > pos {
            assert(s[i - 1] == e);
        }
    }
}

/// `d` followed by the elements of `ks` that are not in it yet, each once, in
/// the order of their first occurrence in `ks`.
pub open spec fn with_new_keys<A>(d: Seq<A>, ks: Seq<A>) -> Seq<A>
    decreases ks.len(),
{
    if ks.len() == 0 {
        d
    } else {
        let r = with_new_keys(d, ks.drop_last());
        if r.contains(ks.last()) {
            r
        } else {
            r.push(ks.last())
        }
    }
}

/// The value of the last pair of `items` whose key is `k`.
pub open spec fn last_value<A, B>(items: Seq<(A, B)>, k: A) -> Option<B>
    decreases items.len(),
{
    if items.len() == 0 {
        None
    } else if items.last().0 == k {
        Some(items.last().1)
    } else {
        last_value(items.drop_last(), k)
    }
}

/// A key is present exactly when it is among the keys.
pub proof fn lemma_has_key_contains<A, B>(s: Seq<(A, B)>, k: A)
    ensures
        has_key(s, k) <==> keys_of(s).contains(k),
{
    if has_key(s, k) {
        let i = key_index(s, k);
        assert(keys_of(s)[i] == k);
    }
    if keys_of(s).contains(k) {
        let i = choose|i: int| 0 <= i < keys_of(s).len() && keys_of(s)[i] == k;
        assert(s[i].0 == k);
    }
}

/// Storing a series of pairs keeps keys distinct.
pub proof fn lemma_inserted_all_distinct<A, B>(s: Seq<(A, B)>, items: Seq<(A, B)>)
    requires
        distinct_keys(s),
    ensures
        distinct_keys(inserted_all(s, items)),
    decreases items.len(),
{
    if items.len() > 0 {
        lemma_inserted_all_distinct(s, items.drop_last());
        lemma_inserted_distinct(inserted_all(s, items.drop_last()), items.last().0, items.last().1);
    }
}

/// After a series of stores the keys are the old ones, in their order,
/// followed by each new key once, in the order of its first store.
pub proof fn lemma_inserted_all_keys<A, B>(s: Seq<(A, B)>, items: Seq<(A, B)>)
    ensures
        keys_of(inserted_all(s, items)) == with_new_keys(keys_of(s), keys_of(items)),
    decreases items.len(),
{
    if items.len() > 0 {
        let rest = items.drop_last();
        lemma_inserted_all_keys(s, rest);
        let t = inserted_all(s, rest);
        lemma_inserted_keys(t, items.last().0, items.last().1);
        lemma_has_key_contains(t, items.last().0);
        assert(keys_of(items).drop_last() =~= keys_of(rest));
    }
}

/// After a series of stores, a key finds the value of its last store, or
/// what it found before when the series never stored it.
pub proof fn lemma_lookup_inserted_all<A, B>(s: Seq<(A, B)>, items: Seq<(A, B)>, q: A)
    requires
        distinct_keys(s),
    ensures
        lookup(inserted_all(s, items), q) == (match last_value(items, q) {
            Some(v) => Some(v),
            None => lookup(s, q),
        }),
    decreases items.len(),
{
    if items.len() > 0 {
        let rest = items.drop_last();
        lemma_lookup_inserted_all(s, rest, q);
        lemma_inserted_all_distinct(s, rest);
        lemma_lookup_inserted(inserted_all(s, rest), items.last().0, items.last().1, q);
    }
}

/// The elements of `with_new_keys(d, ks)` are those of `d` and of `ks`.
pub proof fn lemma_with_new_keys_contains<A>(d: Seq<A>, ks: Seq<A>, x: A)
    ensures
        with_new_keys(d, ks).contains(x) <==> (d.contains(x) || ks.contains(x)),
    decreases ks.len(),
{
    if ks.len() > 0 {
        let rest = ks.drop_last();
        lemma_with_new_keys_contains(d, rest, x);
        lemma_push_contains(with_new_keys(d, rest), ks.last(), x);
        lemma_push_contains(rest, ks.last(), x);
        assert(ks =~= rest.push(ks.last()));
    }
}

/// Without repeated keys, the length is the number of distinct keys.
pub proof fn lemma_distinct_len<A, B>(s: Seq<(A, B)>)
    requires
        distinct_keys(s),
    ensures
        s.len() == keys_of(s).to_set().len(),
{
    let ks = keys_of(s);
    assert(ks.no_duplicates()) by {
        assert forall|i: int, j: int| 0 <= i < ks.len() && 0 <= j < ks.len() && i != j implies ks[i]
            != ks[j] by {
            assert(s[i].0 != s[j].0);
        }
    }
    ks.unique_seq_to_set();
}

/// Starting from `s`, a series of stores leaves as many entries as there are
/// distinct keys in `s` and in the series together.
pub proof fn lemma_inserted_all_len<A, B>(s: Seq<(A, B)>, items: Seq<(A, B)>)
    requires
        distinct_keys(s),
    ensures
        inserted_all(s, items).len() == keys_of(s).to_set().union(keys_of(items).to_set()).len(),
{
    let t = inserted_all(s, items);
    lemma_inserted_all_distinct(s, items);
    lemma_inserted_all_keys(s, items);
    lemma_distinct_len(t);
    assert(keys_of(t).to_set() =~= keys_of(s).to_set().union(keys_of(items).to_set())) by {
        assert forall|x: A| keys_of(t).to_set().contains(x) <==> keys_of(s).to_set().union(
            keys_of(items).to_set(),
        ).contains(x) by {
            lemma_with_new_keys_contains(keys_of(s), keys_of(items), x);
        }
    }
}

/// Changing the value of an entry leaves the keys as they are.
pub proof fn lemma_update_value_keys<A, B>(s: Seq<(A, B)>, i: int, v: B)
    requires
        0 <= i < s.len(),
    ensures
        keys_of(s.update(i, (s[i].0, v))) == keys_of(s),
        distinct_keys(s) ==> distinct_keys(s.update(i, (s[i].0, v))),
{
    assert(keys_of(s.update(i, (s[i].0, v))) =~= keys_of(s));
}

} // verus!
