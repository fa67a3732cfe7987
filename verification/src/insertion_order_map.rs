use vstd::prelude::*;
use rand::seq::SliceRandom;
use crate::entries::{
    distinct_keys, has_key, keys_of, inserted, is_permutation, key_index, lemma_insert_contains,
    lemma_inserted_distinct, lemma_key_index, lemma_permutation_distinct_keys,
    lemma_permutation_same_entries, lemma_push_contains, lookup, reorders, same_entries,
};
use crate::map_key::MapKey;

verus! {

/// Shuffles `items` in place with rand's `SliceRandom::shuffle` and the
/// thread-local generator. The shuffle is a series of swaps, so the result
/// is a rearrangement of the input; which one is left to chance.
/// `rand::thread_rng` panics if the operating system cannot seed the
/// generator.
#[verifier::external_body]
fn shuffle_items<T>(items: &mut Vec<T>)
    ensures
        is_permutation(final(items)@, old(items)@),
{
    items.shuffle(&mut rand::thread_rng());
}

/// Each entry with its key taken by its view.
pub open spec fn key_views<K: View, B>(s: Seq<(K, B)>) -> Seq<(K::V, B)> {
    s.map_values(|e: (K, B)| (e.0@, e.1))
}

/// Keys in strictly increasing key order.
pub open spec fn sorted_by_key<K: MapKey, B>(s: Seq<(K::V, B)>) -> bool {
    forall|i: int, j: int| 0 <= i < j < s.len() ==> K::key_precedes(#[trigger] s[i].0, #[trigger] s[j].0)
}

/// Entries sorted by key are determined by their contents: two sequences
/// with the same entries, both in strictly increasing key order, are equal.
/// So sorting gives the same result whatever order the entries were in.
pub proof fn lemma_sorted_unique<K: MapKey, B>(a: Seq<(K, B)>, b: Seq<(K, B)>)
    requires
        same_entries(a, b),
        sorted_by_key::<K, B>(key_views(a)),
        sorted_by_key::<K, B>(key_views(b)),
    ensures
        a == b,
{
    if a.len() > 0 {
        lemma_sorted_prefix_equal::<K, B>(a, b, a.len() - 1);
    }
    assert(a =~= b);
}

/// Rearranging the entries of a map (as `shuffle` and `sort_by_key` do)
/// changes no lookup: every key still finds the value it found before.
pub proof fn lemma_same_entries_lookup<K: View, B>(a: Seq<(K, B)>, b: Seq<(K, B)>, k: K::V)
    requires
        same_entries(a, b),
        distinct_keys(key_views(a)),
        distinct_keys(key_views(b)),
    ensures
        lookup(key_views(a), k) == lookup(key_views(b), k),
{
    let va = key_views(a);
    let vb = key_views(b);
    if has_key(va, k) {
        let i = key_index(va, k);
        assert(va[i].0 == k);
        assert(a.contains(a[i]));
        let j = choose|j: int| 0 <= j < b.len() && b[j] == a[i];
        assert(vb[j].0 == k);
        lemma_key_index(va, k, i);
        lemma_key_index(vb, k, j);
    } else if has_key(vb, k) {
        let j = key_index(vb, k);
        assert(vb[j].0 == k);
        assert(b.contains(b[j]));
        let i = choose|i: int| 0 <= i < a.len() && a[i] == b[j];
        assert(va[i].0 == k);
    }
}

/// Rearranging the entries keeps the set of keys.
pub proof fn lemma_same_entries_key_set<K: View, B>(a: Seq<(K, B)>, b: Seq<(K, B)>)
    requires
        same_entries(a, b),
    ensures
        keys_of(key_views(a)).to_set() == keys_of(key_views(b)).to_set(),
{
    assert forall|x: K::V| keys_of(key_views(a)).to_set().contains(x) implies keys_of(
        key_views(b),
    ).to_set().contains(x) by {
        let i = choose|i: int| 0 <= i < keys_of(key_views(a)).len() && keys_of(key_views(a))[i] == x;
        assert(a.contains(a[i]));
        let j = choose|j: int| 0 <= j < b.len() && b[j] == a[i];
        assert(keys_of(key_views(b))[j] == x);
    }
    assert forall|x: K::V| keys_of(key_views(b)).to_set().contains(x) implies keys_of(
        key_views(a),
    ).to_set().contains(x) by {
        let j = choose|j: int| 0 <= j < keys_of(key_views(b)).len() && keys_of(key_views(b))[j] == x;
        assert(b.contains(b[j]));
        let i = choose|i: int| 0 <= i < a.len() && a[i] == b[j];
        assert(keys_of(key_views(a))[i] == x);
    }
    assert(keys_of(key_views(a)).to_set() =~= keys_of(key_views(b)).to_set());
}

proof fn lemma_sorted_distinct<K: MapKey, B>(a: Seq<(K, B)>, i: int, j: int)
    requires
        sorted_by_key::<K, B>(key_views(a)),
        0 <= i < a.len(),
        0 <= j < a.len(),
        i != j,
    ensures
        a[i].0@ != a[j].0@,
{
    let v = key_views(a);
    if i < j {
        assert(K::key_precedes(v[i].0, v[j].0));
    } else {
        assert(K::key_precedes(v[j].0, v[i].0));
    }
    if a[i].0@ == a[j].0@ {
        K::lemma_precedes_irreflexive(a[i].0@);
    }
}

proof fn lemma_sorted_prefix_equal<K: MapKey, B>(a: Seq<(K, B)>, b: Seq<(K, B)>, i: int)
    requires
        same_entries(a, b),
        sorted_by_key::<K, B>(key_views(a)),
        sorted_by_key::<K, B>(key_views(b)),
        0 <= i < a.len(),
    ensures
        forall|k: int| 0 <= k <= i ==> a[k] == b[k],
    decreases i,
{
    if i > 0 {
        lemma_sorted_prefix_equal::<K, B>(a, b, i - 1);
    }
    let va = key_views(a);
    let vb = key_views(b);
    let e = a[i];
    let f = b[i];
    assert(a.contains(e));
    assert(b.contains(f));
    let j = choose|j: int| 0 <= j < b.len() && b[j] == e;
    let jj = choose|jj: int| 0 <= jj < a.len() && a[jj] == f;
    if j < i {
        assert(a[j] == b[j]);
        lemma_sorted_distinct::<K, B>(a, i, j);
    }
    if jj < i {
        assert(a[jj] == b[jj]);
        lemma_sorted_distinct::<K, B>(b, i, jj);
    }
    if j > i && jj > i {
        assert(K::key_precedes(vb[i].0, vb[j].0));
        assert(K::key_precedes(va[i].0, va[jj].0));
        K::lemma_precedes_transitive(f.0@, e.0@, f.0@);
        K::lemma_precedes_irreflexive(f.0@);
    }
}

/// A map that remembers the order in which its keys were first inserted.
/// The entries are kept in one vector, in order; a key is found by scanning
/// it, so the entries themselves are the only state to keep consistent.
pub struct InsertionOrderMap<K: MapKey, V> {
    data: Vec<(K, V)>,
}

impl<K: MapKey, V> InsertionOrderMap<K, V> {
    /// The entries in their current order.
    pub closed spec fn entries(&self) -> Seq<(K, V)> {
        self.data@
    }

    /// The entries with each key taken by its view.
    pub open spec fn model(&self) -> Seq<(K::V, V)> {
        key_views(self.entries())
    }

    /// No key occurs twice.
    pub open spec fn wf(&self) -> bool {
        distinct_keys(self.model())
    }

    /// Every map keeps its keys distinct.
    #[verifier::type_invariant]
    pub(crate) open spec fn keys_stay_distinct(self) -> bool {
        self.wf()
    }

    pub fn new() -> (map: Self)
        ensures
            map.wf(),
            map.entries() == Seq::<(K, V)>::empty(),
    {
        InsertionOrderMap { data: Vec::new() }
    }

    /// The position of `key`, if present.
    fn find(&self, key: &K) -> (found: Option<usize>)
        requires
            self.wf(),
        ensures
            match found {
                Some(i) => i < self.entries().len() && key_index(self.model(), key@) == i
                    && has_key(self.model(), key@),
                None => !has_key(self.model(), key@),
            },
    {
        let n = self.data.len();
        let mut i: usize = 0;
        while i < n
            invariant
                n == self.data@.len(),
                i <= n,
                self.wf(),
                forall|j: int| 0 <= j < i ==> self.model()[j].0 != key@,
            decreases n - i,
        {
            if self.data[i].0.same_key(key) {
                proof {
                    assert(self.model()[i as int].0 == key@);
                    lemma_key_index(self.model(), key@, i as int);
                }
                return Some(i);
            }
            i = i + 1;
        }
        assert(!has_key(self.model(), key@)) by {
            if has_key(self.model(), key@) {
                let j = key_index(self.model(), key@);
                assert(self.model()[j].0 == key@);
            }
        }
        None
    }

    /// Stores `value` under `key`. A key already present keeps its place (and
    /// its stored key) and takes the new value; a new key goes to the end.
    pub fn insert(&mut self, key: K, value: V)
        ensures
            final(self).wf(),
            final(self).model() == inserted(old(self).model(), key@, value),
            has_key(old(self).model(), key@) ==> final(self).entries() == old(self).entries().update(
                key_index(old(self).model(), key@),
                (old(self).entries()[key_index(old(self).model(), key@)].0, value),
            ),
            !has_key(old(self).model(), key@) ==> final(self).entries() == old(self).entries().push(
                (key, value),
            ),
    {
        proof {
            use_type_invariant(&*self);
            lemma_inserted_distinct(self.model(), key@, value);
        }
        match self.find(&key) {
            Some(pos) => {
                let ghost old_entry = self.data@[pos as int];
                let mut data: Vec<(K, V)> = Vec::new();
                std::mem::swap(&mut data, &mut self.data);
                data[pos].1 = value;
                assert(data@ == old(self).data@.update(pos as int, (old_entry.0, value)));
                assert(key_views(data@) =~= inserted(old(self).model(), key@, value));
                self.data = data;
            },
            None => {
                let ghost k = key@;
                let mut data: Vec<(K, V)> = Vec::new();
                std::mem::swap(&mut data, &mut self.data);
                data.push((key, value));
                assert(key_views(data@) =~= inserted(old(self).model(), k, value));
                self.data = data;
            },
        }
    }

    /// The value stored under `key`, if any.
    pub fn get(&self, key: &K) -> (value: Option<&V>)
        ensures
            match value {
                Some(v) => lookup(self.model(), key@) == Some(*v),
                None => lookup(self.model(), key@) is None,
            },
    {
        proof {
            use_type_invariant(self);
        }
        match self.find(key) {
            Some(pos) => Some(&self.data[pos].1),
            None => None,
        }
    }

    /// The entries, in order, as pairs of references.
    pub fn iter(&self) -> (items: Vec<(&K, &V)>)
        ensures
            items@.len() == self.entries().len(),
            forall|i: int|
                0 <= i < items@.len() ==> *(#[trigger] items@[i]).0 == self.entries()[i].0
                    && *items@[i].1 == self.entries()[i].1,
    {
        let n = self.data.len();
        let mut items: Vec<(&K, &V)> = Vec::new();
        let mut i: usize = 0;
        while i < n
            invariant
                n == self.data@.len(),
                i <= n,
                items@.len() == i,
                forall|j: int|
                    0 <= j < i ==> *(#[trigger] items@[j]).0 == self.entries()[j].0 && *items@[j].1
                        == self.entries()[j].1,
            decreases n - i,
        {
            let entry = &self.data[i];
            items.push((&entry.0, &entry.1));
            i = i + 1;
        }
        items
    }

    /// The entries, in order, by value.
    pub fn into_iter(self) -> (items: Vec<(K, V)>)
        ensures
            items@ == self.entries(),
    {
        self.data
    }

    /// The number of entries.
    pub fn len(&self) -> (n: usize)
        ensures
            n == self.entries().len(),
    {
        self.data.len()
    }

    /// The keys, in order.
    pub fn keys(&self) -> (keys: Vec<&K>)
        ensures
            keys@.len() == self.entries().len(),
            forall|i: int| 0 <= i < keys@.len() ==> *(#[trigger] keys@[i]) == self.entries()[i].0,
    {
        let n = self.data.len();
        let mut keys: Vec<&K> = Vec::new();
        let mut i: usize = 0;
        while i < n
            invariant
                n == self.data@.len(),
                i <= n,
                keys@.len() == i,
                forall|j: int| 0 <= j < i ==> *(#[trigger] keys@[j]) == self.entries()[j].0,
            decreases n - i,
        {
            keys.push(&self.data[i].0);
            i = i + 1;
        }
        keys
    }

    /// Applies `update_fn` to the value stored under `key`; does nothing when
    /// the key is absent.
    pub fn update_value_for_key<F: FnOnce(&mut V)>(&mut self, key: &K, update_fn: F)
        requires
            has_key(old(self).model(), key@) ==> forall|r: &mut V|
                *r == lookup(old(self).model(), key@).unwrap() ==> call_requires(update_fn, (r,)),
        ensures
            final(self).wf(),
            !has_key(old(self).model(), key@) ==> final(self).entries() == old(self).entries(),
            has_key(old(self).model(), key@) ==> exists|r: &mut V|
                *r == lookup(old(self).model(), key@).unwrap() && call_ensures(update_fn, (r,), ())
                    && final(self).entries() == old(self).entries().update(
                    key_index(old(self).model(), key@),
                    (old(self).entries()[key_index(old(self).model(), key@)].0, *final(r)),
                ),
    {
        proof {
            use_type_invariant(&*self);
        }
        match self.find(key) {
            Some(pos) => {
                let ghost old_entry = self.data@[pos as int];
                let mut data: Vec<(K, V)> = Vec::new();
                std::mem::swap(&mut data, &mut self.data);
                let entry = &mut data[pos];
                let slot = &mut entry.1;
                update_fn(slot);
                assert(key_views(data@) =~= old(self).model().update(pos as int, (old_entry.0@, data@[pos as int].1)));
                self.data = data;
            },
            None => {},
        }
    }

    /// Puts the entries in an order left to chance.
    pub fn shuffle(&mut self)
        ensures
            final(self).wf(),
            is_permutation(final(self).entries(), old(self).entries()),
            same_entries(final(self).entries(), old(self).entries()),
    {
        proof {
            use_type_invariant(&*self);
        }
        let mut data: Vec<(K, V)> = Vec::new();
        std::mem::swap(&mut data, &mut self.data);
        shuffle_items(&mut data);
        proof {
            let (p, q) = choose|p: Seq<int>, q: Seq<int>|
                reorders(p, q, data@, old(self).entries());
            assert(reorders(p, q, key_views(data@), old(self).model()));
            lemma_permutation_distinct_keys(key_views(data@), old(self).model());
            lemma_permutation_same_entries(data@, old(self).entries());
        }
        self.data = data;
    }

    /// Puts the entries in increasing key order.
    pub fn sort_by_key(&mut self)
        ensures
            final(self).wf(),
            same_entries(final(self).entries(), old(self).entries()),
            sorted_by_key::<K, V>(final(self).model()),
    {
        proof {
            use_type_invariant(&*self);
        }
        let mut rest: Vec<(K, V)> = Vec::new();
        std::mem::swap(&mut rest, &mut self.data);
        let ghost orig = rest@;
        let mut out: Vec<(K, V)> = Vec::new();
        while rest.len() > 0
            invariant
                distinct_keys(key_views(rest@)),
                sorted_by_key::<K, V>(key_views(out@)),
                forall|i: int, j: int|
                    0 <= i < out@.len() && 0 <= j < rest@.len() ==> #[trigger] out@[i].0@
                        != #[trigger] rest@[j].0@,
                out@.len() + rest@.len() == orig.len(),
                forall|e: (K, V)| orig.contains(e) <==> (out@.contains(e) || rest@.contains(e)),
            decreases rest@.len(),
        {
            let ghost rest0 = rest@;
            let ghost out0 = out@;
            let item = rest.pop().unwrap();
            assert(rest0 == rest@.push(item));
            let mut pos: usize = 0;
            loop
                invariant
                    out@ == out0,
                    pos <= out@.len(),
                    forall|j: int| 0 <= j < pos ==> K::key_precedes(#[trigger] out@[j].0@, item.0@),
                ensures
                    pos <= out@.len(),
                    forall|j: int| 0 <= j < pos ==> K::key_precedes(#[trigger] out@[j].0@, item.0@),
                    pos < out@.len() ==> !K::key_precedes(out@[pos as int].0@, item.0@),
                decreases out@.len() - pos,
            {
                if pos >= out.len() {
                    break;
                }
                if !out[pos].0.precedes(&item.0) {
                    break;
                }
                pos = pos + 1;
            }
            proof {
                let k = item.0@;
                let ov = key_views(out0);
                assert forall|j: int| pos <= j < ov.len() implies K::key_precedes(k, #[trigger] ov[j].0) by {
                    assert(ov[j].0 == out0[j].0@);
                    assert(out0[j].0@ != rest0[rest0.len() - 1].0@);
                    K::lemma_precedes_total(k, ov[pos as int].0);
                    if j > pos {
                        K::lemma_precedes_transitive(k, ov[pos as int].0, ov[j].0);
                    }
                }
            }
            out.insert(pos, item);
            proof {
                let k = item.0@;
                let ov = key_views(out0);
                let nv = key_views(out@);
                assert(nv =~= ov.insert(pos as int, (k, item.1)));
                ov.insert_ensures(pos as int, (k, item.1));
                assert forall|i: int, j: int| 0 <= i < j < nv.len() implies K::key_precedes(
                    #[trigger] nv[i].0,
                    #[trigger] nv[j].0,
                ) by {
                    if j < pos {
                    } else if j == pos {
                    } else if i < pos {
                        assert(K::key_precedes(ov[i].0, k));
                        K::lemma_precedes_transitive(ov[i].0, k, ov[j - 1].0);
                    } else if i == pos {
                    } else {
                        assert(nv[i] == ov[i - 1]);
                        assert(nv[j] == ov[j - 1]);
                    }
                }
                assert forall|i: int, j: int|
                    0 <= i < out@.len() && 0 <= j < rest@.len() implies #[trigger] out@[i].0@
                    != #[trigger] rest@[j].0@ by {
                    assert(rest@[j] == rest0[j]);
                    if i < pos {
                        assert(out@[i] == out0[i]);
                    } else if i == pos {
                        assert(key_views(rest0)[j].0 != key_views(rest0)[rest0.len() - 1].0);
                    } else {
                        assert(out@[i] == out0[i - 1]);
                    }
                }
                assert(distinct_keys(key_views(rest@))) by {
                    assert forall|i: int, j: int|
                        0 <= i < rest@.len() && 0 <= j < rest@.len() && i != j implies
                        #[trigger] key_views(rest@)[i].0 != #[trigger] key_views(rest@)[j].0 by {
                        assert(key_views(rest0)[i].0 != key_views(rest0)[j].0);
                    }
                }
                assert forall|e: (K, V)| orig.contains(e) <==> (out@.contains(e) || rest@.contains(e)) by {
                    lemma_insert_contains(out0, pos as int, item, e);
                    lemma_push_contains(rest@, item, e);
                }
            }
        }
        proof {
            let ov = key_views(out@);
            assert forall|i: int, j: int|
                0 <= i < ov.len() && 0 <= j < ov.len() && i != j implies #[trigger] ov[i].0
                != #[trigger] ov[j].0 by {
                if i < j {
                    assert(K::key_precedes(ov[i].0, ov[j].0));
                    if ov[i].0 == ov[j].0 {
                        K::lemma_precedes_irreflexive(ov[i].0);
                    }
                } else {
                    assert(K::key_precedes(ov[j].0, ov[i].0));
                    if ov[i].0 == ov[j].0 {
                        K::lemma_precedes_irreflexive(ov[i].0);
                    }
                }
            }
            assert forall|e: (K, V)| out@.contains(e) <==> orig.contains(e) by {
                if rest@.contains(e) {
                    let j = choose|j: int| 0 <= j < rest@.len() && rest@[j] == e;
                }
            }
        }
        self.data = out;
    }
}

impl<K: MapKey, V> Default for InsertionOrderMap<K, V> {
    fn default() -> (map: Self)
        ensures
            map.wf(),
            map.entries() == Seq::<(K, V)>::empty(),
    {
        InsertionOrderMap::new()
    }
}

} // verus!
