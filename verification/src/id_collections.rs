//! Ordered sets and maps keyed by entity identifiers, kept as vectors sorted
//! by strictly increasing key so that iterating them visits keys in order.
use vstd::prelude::*;

verus! {

/// Whether the keys are strictly increasing.
pub open spec fn strictly_increasing(keys: Seq<u64>) -> bool {
    forall|i: int, j: int| 0 <= i < j < keys.len() ==> keys[i] < keys[j]
}

/// Number of keys smaller than `k`: where `k` stands, or would be inserted,
/// in strictly increasing keys.
pub open spec fn count_less(keys: Seq<u64>, k: u64) -> nat
    decreases keys.len(),
{
    if keys.len() == 0 {
        0
    } else {
        count_less(keys.drop_last(), k) + (if keys.last() < k {
            1nat
        } else {
            0nat
        })
    }
}

/// In strictly increasing keys, the first position holding a key of at
/// least `k` is the number of keys smaller than `k`.
pub proof fn lemma_count_less(keys: Seq<u64>, k: u64, i: int)
    requires
        strictly_increasing(keys),
        0 <= i <= keys.len(),
        forall|j: int| 0 <= j < i ==> keys[j] < k,
        i == keys.len() || keys[i] >= k,
    ensures
        count_less(keys, k) == i,
    decreases keys.len(),
{
    if keys.len() > 0 {
        let t = keys.drop_last();
        if i == keys.len() {
            lemma_count_less(t, k, i - 1);
        } else {
            assert(keys.last() >= k) by {
                if i < keys.len() - 1 {
                    assert(keys[i] < keys[keys.len() - 1]);
                }
            }
            if i < t.len() {
                assert(t[i] == keys[i]);
            }
            lemma_count_less(t, k, i);
        }
    }
}

/// `ids` with `id` added in order.
pub open spec fn set_insert(ids: Seq<u64>, id: u64) -> Seq<u64> {
    if ids.contains(id) {
        ids
    } else {
        ids.insert(count_less(ids, id) as int, id)
    }
}

/// `ids` without `id`.
pub open spec fn set_remove(ids: Seq<u64>, id: u64) -> Seq<u64> {
    if ids.contains(id) {
        ids.remove(count_less(ids, id) as int)
    } else {
        ids
    }
}

/// `entries` with `v` stored for `k`, in key order.
pub open spec fn map_insert<V>(entries: Seq<(u64, V)>, k: u64, v: V) -> Seq<(u64, V)> {
    let keys = entry_keys(entries);
    if keys.contains(k) {
        entries.update(count_less(keys, k) as int, (k, v))
    } else {
        entries.insert(count_less(keys, k) as int, (k, v))
    }
}

/// `entries` without the entry for `k`.
pub open spec fn map_remove<V>(entries: Seq<(u64, V)>, k: u64) -> Seq<(u64, V)> {
    let keys = entry_keys(entries);
    if keys.contains(k) {
        entries.remove(count_less(keys, k) as int)
    } else {
        entries
    }
}

/// A set of identifiers, iterated in increasing order.
#[derive(Debug, Clone)]
pub struct IdSet {
    pub ids: Vec<u64>,
}

impl IdSet {
    /// The identifiers, in increasing order.
    pub open spec fn view(&self) -> Seq<u64> {
        self.ids@
    }

    /// The identifiers are strictly increasing.
    pub open spec fn wf(&self) -> bool {
        strictly_increasing(self.ids@)
    }

    /// An empty set.
    pub fn new() -> (s: IdSet)
        ensures
            s.wf(),
            s@ == Seq::<u64>::empty(),
    {
        IdSet { ids: Vec::new() }
    }

    /// Number of identifiers.
    pub fn len(&self) -> (n: usize)
        ensures
            n == self@.len(),
    {
        self.ids.len()
    }

    /// Whether the set is empty.
    pub fn is_empty(&self) -> (b: bool)
        ensures
            b == (self@.len() == 0),
    {
        self.ids.len() == 0
    }

    /// Whether `id` is in the set.
    pub fn contains(&self, id: u64) -> (b: bool)
        ensures
            b == self@.contains(id),
    {
        let mut i: usize = 0;
        while i < self.ids.len()
            invariant
                i <= self.ids@.len(),
                forall|j: int| 0 <= j < i ==> self.ids@[j] != id,
            decreases self.ids@.len() - i,
        {
            if self.ids[i] == id {
                return true;
            }
            i = i + 1;
        }
        false
    }

    /// Adds `id`, keeping the identifiers in order.
    pub fn insert(&mut self, id: u64)
        requires
            old(self).wf(),
        ensures
            final(self).wf(),
            final(self)@.to_set() == old(self)@.to_set().insert(id),
            old(self)@.contains(id) ==> final(self)@ == old(self)@,
            !old(self)@.contains(id) ==> final(self)@ == old(self)@.insert(
                count_less(old(self)@, id) as int,
                id,
            ),
            final(self)@ == set_insert(old(self)@, id),
    {
        let mut i: usize = 0;
        while i < self.ids.len() && self.ids[i] < id
            invariant
                i <= self.ids@.len(),
                forall|j: int| 0 <= j < i ==> self.ids@[j] < id,
            decreases self.ids@.len() - i,
        {
            i = i + 1;
        }
        if i < self.ids.len() && self.ids[i] == id {
            return;
        }
        let ghost before = self.ids@;
        proof {
            lemma_count_less(before, id, i as int);
        }
        self.ids.insert(i, id);
        proof {
            assert(!before.contains(id)) by {
                if before.contains(id) {
                    let k = choose|k: int| 0 <= k < before.len() && before[k] == id;
                    if k < i {
                    } else {
                        assert(before[i as int] > id);
                        if k > i {
                            assert(before[i as int] < before[k]);
                        }
                    }
                }
            }
            assert(self.ids@.to_set() =~= before.to_set().insert(id)) by {
                assert forall|x: u64| self.ids@.to_set().contains(x) implies before.to_set().insert(
                    id,
                ).contains(x) by {
                    let k = choose|k: int| 0 <= k < self.ids@.len() && self.ids@[k] == x;
                    if k < i {
                        assert(before[k] == x);
                    } else if k > i {
                        assert(before[k - 1] == x);
                    }
                }
                assert forall|x: u64| before.to_set().insert(id).contains(x) implies self.ids@.to_set().contains(
                    x,
                ) by {
                    if x == id {
                        assert(self.ids@[i as int] == id);
                    } else {
                        let k = choose|k: int| 0 <= k < before.len() && before[k] == x;
                        if k < i {
                            assert(self.ids@[k] == x);
                        } else {
                            assert(self.ids@[k + 1] == x);
                        }
                    }
                }
            }
        }
    }

    /// Removes `id`, keeping the others in order.
    pub fn remove(&mut self, id: u64)
        requires
            old(self).wf(),
        ensures
            final(self).wf(),
            final(self)@.to_set() == old(self)@.to_set().remove(id),
            !old(self)@.contains(id) ==> final(self)@ == old(self)@,
            old(self)@.contains(id) ==> final(self)@ == old(self)@.remove(
                count_less(old(self)@, id) as int,
            ),
            final(self)@ == set_remove(old(self)@, id),
    {
        let mut i: usize = 0;
        while i < self.ids.len() && self.ids[i] != id
            invariant
                i <= self.ids@.len(),
                forall|j: int| 0 <= j < i ==> self.ids@[j] != id,
            decreases self.ids@.len() - i,
        {
            i = i + 1;
        }
        if i == self.ids.len() {
            proof {
                assert(!self.ids@.contains(id));
                assert(self.ids@.to_set() =~= self.ids@.to_set().remove(id));
            }
            return;
        }
        let ghost before = self.ids@;
        proof {
            assert forall|j: int| 0 <= j < i implies before[j] < id by {
                assert(before[j] < before[i as int]);
            }
            lemma_count_less(before, id, i as int);
        }
        self.ids.remove(i);
        proof {
            assert(self.ids@.to_set() =~= before.to_set().remove(id)) by {
                assert forall|x: u64| self.ids@.to_set().contains(x) implies before.to_set().remove(
                    id,
                ).contains(x) by {
                    let k = choose|k: int| 0 <= k < self.ids@.len() && self.ids@[k] == x;
                    if k < i {
                        assert(before[k] == x);
                        assert(before[k] < before[i as int]);
                    } else {
                        assert(before[k + 1] == x);
                        assert(before[i as int] < before[k + 1]);
                    }
                }
                assert forall|x: u64| before.to_set().remove(id).contains(x) implies self.ids@.to_set().contains(
                    x,
                ) by {
                    let k = choose|k: int| 0 <= k < before.len() && before[k] == x;
                    if k < i {
                        assert(self.ids@[k] == x);
                    } else {
                        assert(k != i);
                        assert(self.ids@[k - 1] == x);
                    }
                }
            }
        }
    }
}

/// Keys of a list of entries.
pub open spec fn entry_keys<V>(entries: Seq<(u64, V)>) -> Seq<u64> {
    entries.map_values(|e: (u64, V)| e.0)
}

/// The value stored for `k` in `entries`, which has an entry for it.
pub open spec fn map_value<V>(entries: Seq<(u64, V)>, k: u64) -> V {
    entries[count_less(entry_keys(entries), k) as int].1
}

/// In strictly increasing keys, a key found at position `j` has `j` smaller
/// keys before it.
pub proof fn lemma_key_position(keys: Seq<u64>, j: int)
    requires
        strictly_increasing(keys),
        0 <= j < keys.len(),
    ensures
        count_less(keys, keys[j]) == j,
{
    lemma_count_less(keys, keys[j], j);
}

/// Storing a value for `a` keeps keys in order, adds `a`, and leaves the
/// values of the other keys unchanged.
pub proof fn lemma_map_insert<V>(entries: Seq<(u64, V)>, a: u64, v: V, k: u64)
    requires
        strictly_increasing(entry_keys(entries)),
    ensures
        strictly_increasing(entry_keys(map_insert(entries, a, v))),
        entry_keys(map_insert(entries, a, v)).contains(k) <==> (entry_keys(entries).contains(k)
            || k == a),
        map_value(map_insert(entries, a, v), a) == v,
        k != a && entry_keys(entries).contains(k) ==> map_value(map_insert(entries, a, v), k)
            == map_value(entries, k),
{
    let keys = entry_keys(entries);
    let n = map_insert(entries, a, v);
    let nk = entry_keys(n);
    let c = count_less(keys, a) as int;
    if keys.contains(a) {
        let ja = choose|j: int| 0 <= j < keys.len() && keys[j] == a;
        lemma_key_position(keys, ja);
        assert(nk =~= keys);
        if keys.contains(k) && k != a {
            let jk = choose|j: int| 0 <= j < keys.len() && keys[j] == k;
            lemma_key_position(keys, jk);
        }
    } else {
        assert forall|j: int| 0 <= j < c implies keys[j] < a by {
            lemma_count_less_prefix(keys, a, j);
        }
        lemma_count_less_bound(keys, a);
        if c < keys.len() {
            lemma_count_less_at(keys, a);
        }
        assert(nk =~= keys.insert(c, a));
        assert forall|x: int, y: int| 0 <= x < y < nk.len() implies nk[x] < nk[y] by {
            if y < c {
            } else if y == c {
            } else if x < c {
                assert(keys[y - 1] > a) by {
                    if y - 1 > c {
                        assert(keys[c] < keys[y - 1]);
                    }
                }
            } else if x == c {
                assert(keys[y - 1] > a) by {
                    if y - 1 > c {
                        assert(keys[c] < keys[y - 1]);
                    }
                }
            } else {
                assert(keys[x - 1] < keys[y - 1]);
            }
        }
        assert(nk[c] == a);
        lemma_key_position(nk, c);
        if keys.contains(k) && k != a {
            let jk = choose|j: int| 0 <= j < keys.len() && keys[j] == k;
            lemma_key_position(keys, jk);
            if jk < c {
                assert(nk[jk] == k);
                lemma_key_position(nk, jk);
            } else {
                assert(nk[jk + 1] == k);
                lemma_key_position(nk, jk + 1);
            }
        }
        if nk.contains(k) && k != a {
            let jn = choose|j: int| 0 <= j < nk.len() && nk[j] == k;
            if jn < c {
                assert(keys[jn] == k);
            } else {
                assert(keys[jn - 1] == k);
            }
        }
    }
}

/// Keys before position `count_less(keys, k)` are smaller than `k`.
pub proof fn lemma_count_less_prefix(keys: Seq<u64>, k: u64, j: int)
    requires
        strictly_increasing(keys),
        0 <= j < count_less(keys, k),
    ensures
        keys[j] < k,
    decreases keys.len(),
{
    lemma_count_less_bound(keys, k);
    let t = keys.drop_last();
    if keys.last() < k {
        if j < t.len() {
            assert forall|x: int, y: int| 0 <= x < y < t.len() implies t[x] < t[y] by {
                assert(t[x] == keys[x] && t[y] == keys[y]);
            }
            if j < count_less(t, k) {
                lemma_count_less_prefix(t, k, j);
                assert(keys[j] == t[j]);
            } else {
                assert(keys[j] < keys.last());
            }
        } else {
            assert(keys[j] == keys.last());
        }
    } else {
        assert forall|x: int, y: int| 0 <= x < y < t.len() implies t[x] < t[y] by {
            assert(t[x] == keys[x] && t[y] == keys[y]);
        }
        lemma_count_less_bound(t, k);
        lemma_count_less_prefix(t, k, j);
        assert(keys[j] == t[j]);
    }
}

/// `count_less` never exceeds the number of keys.
pub proof fn lemma_count_less_bound(keys: Seq<u64>, k: u64)
    ensures
        count_less(keys, k) <= keys.len(),
    decreases keys.len(),
{
    if keys.len() > 0 {
        lemma_count_less_bound(keys.drop_last(), k);
    }
}

/// A key that is present has fewer smaller keys than there are keys.
pub proof fn lemma_count_less_contains(keys: Seq<u64>, k: u64)
    requires
        keys.contains(k),
    ensures
        count_less(keys, k) < keys.len(),
    decreases keys.len(),
{
    let t = keys.drop_last();
    lemma_count_less_bound(t, k);
    if keys.last() != k {
        let j = choose|j: int| 0 <= j < keys.len() && keys[j] == k;
        assert(t[j] == k);
        lemma_count_less_contains(t, k);
    }
}

/// The key at position `count_less(keys, k)`, if any, is at least `k`.
pub proof fn lemma_count_less_at(keys: Seq<u64>, k: u64)
    requires
        strictly_increasing(keys),
        count_less(keys, k) < keys.len(),
    ensures
        keys[count_less(keys, k) as int] >= k,
    decreases keys.len(),
{
    let t = keys.drop_last();
    lemma_count_less_bound(t, k);
    assert forall|x: int, y: int| 0 <= x < y < t.len() implies t[x] < t[y] by {
        assert(t[x] == keys[x] && t[y] == keys[y]);
    }
    if keys.last() < k {
        assert forall|m: int| 0 <= m < t.len() implies t[m] < k by {
            assert(keys[m] < keys[keys.len() - 1]);
        }
        lemma_count_less(t, k, t.len() as int);
        assert(count_less(keys, k) == keys.len());
    } else {
        if count_less(t, k) < t.len() {
            lemma_count_less_at(t, k);
        }
    }
}

/// A map from identifiers to values, iterated in increasing key order.
#[derive(Debug, Clone)]
pub struct IdMap<V> {
    pub entries: Vec<(u64, V)>,
}

impl<V> IdMap<V> {
    /// The entries, in increasing key order.
    pub open spec fn view(&self) -> Seq<(u64, V)> {
        self.entries@
    }

    /// The keys, in increasing order.
    pub open spec fn keys(&self) -> Seq<u64> {
        entry_keys(self.entries@)
    }

    /// Keys are strictly increasing.
    pub open spec fn wf(&self) -> bool {
        strictly_increasing(self.keys())
    }

    /// Whether `k` has an entry.
    pub open spec fn has(&self, k: u64) -> bool {
        self.keys().contains(k)
    }

    /// The value stored for `k`, which has an entry.
    pub open spec fn value(&self, k: u64) -> V {
        map_value(self.entries@, k)
    }

    /// The only key, if there is exactly one entry.
    pub fn exactly_one(&self) -> (k: Option<u64>)
        ensures
            k == (if self@.len() == 1 {
                Some(self@[0].0)
            } else {
                None
            }),
    {
        if self.entries.len() == 1 {
            Some(self.entries[0].0)
        } else {
            None
        }
    }

    /// An empty map.
    pub fn new() -> (m: IdMap<V>)
        ensures
            m.wf(),
            m@ == Seq::<(u64, V)>::empty(),
    {
        IdMap { entries: Vec::new() }
    }

    /// Number of entries.
    pub fn len(&self) -> (n: usize)
        ensures
            n == self@.len(),
    {
        self.entries.len()
    }

    /// Whether the map is empty.
    pub fn is_empty(&self) -> (b: bool)
        ensures
            b == (self@.len() == 0),
    {
        self.entries.len() == 0
    }

    /// Position of the entry for `k`, if any.
    pub fn find(&self, k: u64) -> (pos: Option<usize>)
        requires
            self.wf(),
        ensures
            pos is None <==> !self.has(k),
            pos matches Some(i) ==> i == count_less(self.keys(), k) && i < self@.len()
                && self@[i as int].0 == k,
    {
        let mut i: usize = 0;
        while i < self.entries.len() && self.entries[i].0 < k
            invariant
                i <= self.entries@.len(),
                forall|j: int| 0 <= j < i ==> self.entries@[j].0 < k,
            decreases self.entries@.len() - i,
        {
            i = i + 1;
        }
        proof {
            let keys = self.keys();
            assert forall|j: int| 0 <= j < i implies keys[j] < k by {
                assert(keys[j] == self.entries@[j].0);
            }
            if i < self.entries@.len() {
                assert(keys[i as int] == self.entries@[i as int].0);
            }
            lemma_count_less(keys, k, i as int);
        }
        if i < self.entries.len() && self.entries[i].0 == k {
            proof {
                assert(self.keys()[i as int] == k);
            }
            Some(i)
        } else {
            proof {
                let keys = self.keys();
                if keys.contains(k) {
                    let j = choose|j: int| 0 <= j < keys.len() && keys[j] == k;
                    if j < i {
                    } else if j == i {
                        assert(keys[i as int] == self.entries@[i as int].0);
                    } else {
                        assert(keys[i as int] < keys[j]);
                        assert(keys[i as int] == self.entries@[i as int].0);
                    }
                }
            }
            None
        }
    }

    /// Whether `k` has an entry.
    pub fn contains_key(&self, k: u64) -> (b: bool)
        requires
            self.wf(),
        ensures
            b == self.has(k),
    {
        self.find(k).is_some()
    }

    /// The value stored for `k`, if any.
    pub fn get(&self, k: u64) -> (v: Option<&V>)
        requires
            self.wf(),
        ensures
            v is None <==> !self.has(k),
            v matches Some(x) ==> *x == self.value(k),
    {
        match self.find(k) {
            Some(i) => Some(&self.entries[i].1),
            None => None,
        }
    }

    /// Stores `v` for `k`, replacing any earlier value and keeping keys in
    /// order.
    pub fn insert(&mut self, k: u64, v: V)
        requires
            old(self).wf(),
        ensures
            final(self).wf(),
            old(self).has(k) ==> final(self)@ == old(self)@.update(
                count_less(old(self).keys(), k) as int,
                (k, v),
            ),
            !old(self).has(k) ==> final(self)@ == old(self)@.insert(
                count_less(old(self).keys(), k) as int,
                (k, v),
            ),
            final(self)@ == map_insert(old(self)@, k, v),
    {
        let mut i: usize = 0;
        while i < self.entries.len() && self.entries[i].0 < k
            invariant
                i <= self.entries@.len(),
                forall|j: int| 0 <= j < i ==> self.entries@[j].0 < k,
            decreases self.entries@.len() - i,
        {
            i = i + 1;
        }
        let ghost before = self.entries@;
        let ghost keys = entry_keys(before);
        proof {
            assert forall|j: int| 0 <= j < i implies keys[j] < k by {
                assert(keys[j] == before[j].0);
            }
            if i < before.len() {
                assert(keys[i as int] == before[i as int].0);
            }
            lemma_count_less(keys, k, i as int);
        }
        if i < self.entries.len() && self.entries[i].0 == k {
            self.entries.set(i, (k, v));
            proof {
                assert(keys[i as int] == k);
                assert(entry_keys(self.entries@) =~= keys);
            }
        } else {
            self.entries.insert(i, (k, v));
            proof {
                let nk = entry_keys(self.entries@);
                assert(nk =~= keys.insert(i as int, k));
                assert forall|a: int, b: int| 0 <= a < b < nk.len() implies nk[a] < nk[b] by {
                    if b < i {
                    } else if b == i {
                    } else if a < i {
                        assert(keys[a] < k);
                        assert(keys[i as int] > k);
                        if b - 1 > i {
                            assert(keys[i as int] < keys[b - 1]);
                        }
                    } else if a == i {
                        assert(keys[i as int] > k);
                        if b - 1 > i {
                            assert(keys[i as int] < keys[b - 1]);
                        }
                    } else {
                        assert(keys[a - 1] < keys[b - 1]);
                    }
                }
                assert(!keys.contains(k)) by {
                    if keys.contains(k) {
                        let j = choose|j: int| 0 <= j < keys.len() && keys[j] == k;
                        if j >= i {
                            if j > i {
                                assert(keys[i as int] < keys[j]);
                            }
                        }
                    }
                }
            }
        }
    }

    /// Removes the entry for `k`, if any.
    pub fn remove(&mut self, k: u64)
        requires
            old(self).wf(),
        ensures
            final(self).wf(),
            !old(self).has(k) ==> final(self)@ == old(self)@,
            old(self).has(k) ==> final(self)@ == old(self)@.remove(
                count_less(old(self).keys(), k) as int,
            ),
            final(self)@ == map_remove(old(self)@, k),
    {
        match self.find(k) {
            None => {},
            Some(i) => {
                let ghost keys = self.keys();
                self.entries.remove(i);
                proof {
                    let nk = entry_keys(self.entries@);
                    assert(nk =~= keys.remove(i as int));
                    assert forall|a: int, b: int| 0 <= a < b < nk.len() implies nk[a] < nk[b] by {
                        if b < i {
                        } else if a < i {
                            assert(keys[a] < keys[b + 1]);
                        } else {
                            assert(keys[a + 1] < keys[b + 1]);
                        }
                    }
                }
            },
        }
    }
}

/// The contents of lists stored by key.
pub open spec fn lists_view(entries: Seq<(u64, Vec<u64>)>) -> Seq<(u64, Seq<u64>)> {
    entries.map_values(|e: (u64, Vec<u64>)| (e.0, e.1@))
}

/// Viewing the lists keeps the keys.
pub proof fn lemma_lists_view_keys(entries: Seq<(u64, Vec<u64>)>)
    ensures
        entry_keys(lists_view(entries)) == entry_keys(entries),
{
    assert(entry_keys(lists_view(entries)) =~= entry_keys(entries));
}

/// Storing a list and then viewing is viewing and then storing its contents.
pub proof fn lemma_lists_view_insert(entries: Seq<(u64, Vec<u64>)>, k: u64, v: Vec<u64>)
    ensures
        lists_view(map_insert(entries, k, v)) == map_insert(lists_view(entries), k, v@),
{
    lemma_lists_view_keys(entries);
    lemma_count_less_bound(entry_keys(entries), k);
    if entry_keys(entries).contains(k) {
        lemma_count_less_contains(entry_keys(entries), k);
    }
    assert(lists_view(map_insert(entries, k, v)) =~= map_insert(lists_view(entries), k, v@));
}

/// Removing a key and then viewing is viewing and then removing it.
pub proof fn lemma_lists_view_remove(entries: Seq<(u64, Vec<u64>)>, k: u64)
    ensures
        lists_view(map_remove(entries, k)) == map_remove(lists_view(entries), k),
{
    lemma_lists_view_keys(entries);
    if entry_keys(entries).contains(k) {
        lemma_count_less_contains(entry_keys(entries), k);
    }
    assert(lists_view(map_remove(entries, k)) =~= map_remove(lists_view(entries), k));
}

/// Every entry after storing `v` for `k` is the new one or an earlier one.
pub proof fn lemma_map_insert_entries<V>(entries: Seq<(u64, V)>, k: u64, v: V, i: int)
    requires
        0 <= i < map_insert(entries, k, v).len(),
    ensures
        map_insert(entries, k, v)[i] == (k, v) || exists|j: int|
            0 <= j < entries.len() && map_insert(entries, k, v)[i] == entries[j],
{
    let keys = entry_keys(entries);
    let c = count_less(keys, k) as int;
    lemma_count_less_bound(keys, k);
    if keys.contains(k) {
        lemma_count_less_contains(keys, k);
        if i != c {
            assert(map_insert(entries, k, v)[i] == entries[i]);
        }
    } else {
        if i < c {
            assert(map_insert(entries, k, v)[i] == entries[i]);
        } else if i > c {
            assert(map_insert(entries, k, v)[i] == entries[i - 1]);
        }
    }
}

/// Every entry after removing `k` is an earlier one.
pub proof fn lemma_map_remove_entries<V>(entries: Seq<(u64, V)>, k: u64, i: int)
    requires
        0 <= i < map_remove(entries, k).len(),
    ensures
        exists|j: int| 0 <= j < entries.len() && map_remove(entries, k)[i] == entries[j],
{
    let keys = entry_keys(entries);
    let c = count_less(keys, k) as int;
    lemma_count_less_bound(keys, k);
    if keys.contains(k) {
        lemma_count_less_contains(keys, k);
        if i < c {
            assert(map_remove(entries, k)[i] == entries[i]);
        } else {
            assert(map_remove(entries, k)[i] == entries[i + 1]);
        }
    } else {
        assert(map_remove(entries, k)[i] == entries[i]);
    }
}

/// After `id` is inserted where it belongs, the keys below it are the ones
/// that were below it before.
proof fn lemma_count_after_insert(s: Seq<u64>, id: u64)
    requires
        strictly_increasing(s),
        !s.contains(id),
    ensures
        count_less(s.insert(count_less(s, id) as int, id), id) == count_less(s, id),
        s.insert(count_less(s, id) as int, id).contains(id),
{
    let c = count_less(s, id) as int;
    lemma_count_less_bound(s, id);
    let t = s.insert(c, id);
    assert(t[c] == id);
    assert forall|j: int| 0 <= j < c implies #[trigger] s[j] < id by {
        lemma_count_less_prefix(s, id, j);
    }
    if c < s.len() {
        lemma_count_less_at(s, id);
        assert(s[c] != id);
    }
    assert forall|j: int| c <= j < s.len() implies #[trigger] s[j] > id by {
        if j > c {
            assert(s[c] < s[j]);
        }
    }
    assert forall|x: int, y: int| 0 <= x < y < t.len() implies t[x] < t[y] by {
        if y < c {
            assert(t[x] == s[x] && t[y] == s[y]);
        } else if y == c {
            assert(t[x] == s[x]);
        } else if x < c {
            assert(t[x] == s[x] && t[y] == s[y - 1]);
        } else if x == c {
            assert(t[y] == s[y - 1]);
        } else {
            assert(t[x] == s[x - 1] && t[y] == s[y - 1]);
        }
    }
    assert forall|j: int| 0 <= j < c implies t[j] < id by {
        assert(t[j] == s[j]);
    }
    lemma_count_less(t, id, c);
}

/// Adding an identifier that was absent and then removing it gives back the
/// set.
pub proof fn lemma_set_insert_then_remove(s: Seq<u64>, id: u64)
    requires
        strictly_increasing(s),
        !s.contains(id),
    ensures
        set_remove(set_insert(s, id), id) == s,
{
    let c = count_less(s, id) as int;
    lemma_count_less_bound(s, id);
    lemma_count_after_insert(s, id);
    assert(s.insert(c, id).remove(c) =~= s);
}

/// Storing a value for an absent key and then removing the key gives back
/// the map.
pub proof fn lemma_map_insert_then_remove<V>(entries: Seq<(u64, V)>, k: u64, v: V)
    requires
        strictly_increasing(entry_keys(entries)),
        !entry_keys(entries).contains(k),
    ensures
        map_remove(map_insert(entries, k, v), k) == entries,
{
    let keys = entry_keys(entries);
    let c = count_less(keys, k) as int;
    lemma_count_less_bound(keys, k);
    lemma_count_after_insert(keys, k);
    let n = entries.insert(c, (k, v));
    assert(entry_keys(n) =~= keys.insert(c, k));
    assert(n.remove(c) =~= entries);
}

} // verus!
