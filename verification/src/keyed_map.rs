//! Maps that keep their keys in insertion order: by ISIN, or by day and ISIN.
use vstd::prelude::*;

verus! {

/// Whether the keys of a sequence of entries are pairwise distinct.
pub open spec fn keys_distinct<K, V>(s: Seq<(K, V)>) -> bool {
    forall|i: int, j: int| 0 <= i < s.len() && 0 <= j < s.len() && i != j ==> s[i].0 != s[j].0
}

/// Whether some entry has key `k`.
pub open spec fn has_key<K, V>(s: Seq<(K, V)>, k: K) -> bool {
    exists|i: int| 0 <= i < s.len() && s[i].0 == k
}

/// The index of the entry with key `k` (meaningful when there is one).
pub open spec fn key_index<K, V>(s: Seq<(K, V)>, k: K) -> int {
    choose|i: int| 0 <= i < s.len() && s[i].0 == k
}

/// The value stored under `k`, if any.
pub open spec fn lookup<K, V>(s: Seq<(K, V)>, k: K) -> Option<V> {
    if has_key(s, k) {
        Some(s[key_index(s, k)].1)
    } else {
        None
    }
}

/// The entries after storing `v` under `k`: in place when the key is present,
/// appended otherwise.
pub open spec fn store<K, V>(s: Seq<(K, V)>, k: K, v: V) -> Seq<(K, V)> {
    if has_key(s, k) {
        s.update(key_index(s, k), (k, v))
    } else {
        s.push((k, v))
    }
}

/// Without the key, the lookup finds nothing.
pub proof fn lemma_lookup_none<K, V>(s: Seq<(K, V)>, k: K)
    requires
        !has_key(s, k),
    ensures
        lookup(s, k) is None,
{
}

/// With distinct keys, the entry at index `i` is the one `lookup` finds.
pub proof fn lemma_lookup_at<K, V>(s: Seq<(K, V)>, i: int)
    requires
        keys_distinct(s),
        0 <= i < s.len(),
    ensures
        has_key(s, s[i].0),
        key_index(s, s[i].0) == i,
        lookup(s, s[i].0) == Some(s[i].1),
{
    assert(0 <= i < s.len() && s[i].0 == s[i].0);
}

/// Storing keeps keys distinct, makes `k` map to `v` and leaves other keys alone.
pub proof fn lemma_store<K, V>(s: Seq<(K, V)>, k: K, v: V)
    requires
        keys_distinct(s),
    ensures
        keys_distinct(store(s, k, v)),
        lookup(store(s, k, v), k) == Some(v),
        forall|k2: K| k2 != k ==> lookup(store(s, k, v), k2) == lookup(s, k2),
        forall|k2: K| has_key(store(s, k, v), k2) <==> (has_key(s, k2) || k2 == k),
{
    let t = store(s, k, v);
    if has_key(s, k) {
        let idx = key_index(s, k);
        assert(t.len() == s.len());
        assert(t[idx] == (k, v));
        lemma_lookup_at(t, idx);
        assert forall|k2: K| k2 != k implies lookup(t, k2) == lookup(s, k2) by {
            if has_key(s, k2) {
                let j = key_index(s, k2);
                assert(j != idx);
                assert(t[j] == s[j]);
                lemma_lookup_at(t, j);
            } else {
                if has_key(t, k2) {
                    let j = key_index(t, k2);
                    assert(t[j] == s[j]);
                }
            }
        }
        assert forall|k2: K| has_key(t, k2) <==> (has_key(s, k2) || k2 == k) by {
            if has_key(t, k2) {
                let j = key_index(t, k2);
                if j != idx {
                    assert(t[j] == s[j]);
                }
            }
            if has_key(s, k2) {
                let j = key_index(s, k2);
                if j != idx {
                    assert(t[j] == s[j]);
                } else {
                    assert(t[idx].0 == k);
                }
            }
        }
    } else {
        let idx = s.len() as int;
        assert(t[idx] == (k, v));
        lemma_lookup_at(t, idx);
        assert forall|k2: K| k2 != k implies lookup(t, k2) == lookup(s, k2) by {
            if has_key(s, k2) {
                let j = key_index(s, k2);
                assert(t[j] == s[j]);
                lemma_lookup_at(t, j);
            } else {
                if has_key(t, k2) {
                    let j = key_index(t, k2);
                    assert(j < s.len());
                    assert(t[j] == s[j]);
                }
            }
        }
        assert forall|k2: K| has_key(t, k2) <==> (has_key(s, k2) || k2 == k) by {
            if has_key(t, k2) {
                let j = key_index(t, k2);
                if j < s.len() {
                    assert(t[j] == s[j]);
                }
            }
            if has_key(s, k2) {
                let j = key_index(s, k2);
                assert(t[j] == s[j]);
            }
        }
    }
}

/// Entries whose values are strings, with each value taken by its view.
pub open spec fn entries_view_str<K>(s: Seq<(K, String)>) -> Seq<(K, Seq<char>)> {
    Seq::new(s.len(), |i: int| (s[i].0, s[i].1@))
}

/// Keys are found at the same places once the string values are viewed.
pub proof fn lemma_view_str_keys<K>(s: Seq<(K, String)>, k: K)
    ensures
        has_key(entries_view_str(s), k) == has_key(s, k),
        has_key(s, k) ==> key_index(entries_view_str(s), k) == key_index(s, k) || !keys_distinct(s),
        keys_distinct(entries_view_str(s)) == keys_distinct(s),
{
    let t = entries_view_str(s);
    if has_key(s, k) {
        let i = key_index(s, k);
        assert(t[i].0 == k);
    }
    if has_key(t, k) {
        let i = key_index(t, k);
        assert(s[i].0 == k);
    }
    if has_key(s, k) && keys_distinct(s) {
        let i = key_index(s, k);
        let j = key_index(t, k);
        assert(t[j].0 == s[j].0);
    }
    assert(keys_distinct(t) == keys_distinct(s)) by {
        if keys_distinct(s) {
            assert forall|i: int, j: int| 0 <= i < t.len() && 0 <= j < t.len() && i != j implies t[i].0 != t[j].0 by {
                assert(t[i].0 == s[i].0 && t[j].0 == s[j].0);
            }
        }
        if keys_distinct(t) {
            assert forall|i: int, j: int| 0 <= i < s.len() && 0 <= j < s.len() && i != j implies s[i].0 != s[j].0 by {
                assert(t[i].0 == s[i].0 && t[j].0 == s[j].0);
            }
        }
    }
}

/// Storing a string commutes with viewing the values.
pub proof fn lemma_store_str<K>(s: Seq<(K, String)>, k: K, v: String)
    requires
        keys_distinct(s),
    ensures
        entries_view_str(store(s, k, v)) == store(entries_view_str(s), k, v@),
        lookup(entries_view_str(s), k) == (match lookup(s, k) {
            Some(x) => Some(x@),
            None => None::<Seq<char>>,
        }),
{
    lemma_view_str_keys(s, k);
    let t = entries_view_str(s);
    if has_key(s, k) {
        assert(entries_view_str(store(s, k, v)) =~= store(t, k, v@));
    } else {
        assert(entries_view_str(store(s, k, v)) =~= store(t, k, v@));
    }
}

/// Entries with each value transformed by `f`.
pub open spec fn map_values<K, V, W>(s: Seq<(K, V)>, f: spec_fn(V) -> W) -> Seq<(K, W)> {
    Seq::new(s.len(), |i: int| (s[i].0, f(s[i].1)))
}

/// Transforming the values keeps the keys where they are.
pub proof fn lemma_map_values_keys<K, V, W>(s: Seq<(K, V)>, f: spec_fn(V) -> W, k: K)
    ensures
        has_key(map_values(s, f), k) == has_key(s, k),
        keys_distinct(map_values(s, f)) == keys_distinct(s),
        keys_distinct(s) ==> lookup(map_values(s, f), k) == (match lookup(s, k) {
            Some(x) => Some(f(x)),
            None => None::<W>,
        }),
{
    let t = map_values(s, f);
    if has_key(s, k) {
        let i = key_index(s, k);
        assert(t[i].0 == k);
    }
    if has_key(t, k) {
        let i = key_index(t, k);
        assert(s[i].0 == k);
    }
    assert(keys_distinct(t) == keys_distinct(s)) by {
        if keys_distinct(s) {
            assert forall|i: int, j: int| 0 <= i < t.len() && 0 <= j < t.len() && i != j implies t[i].0 != t[j].0 by {
                assert(t[i].0 == s[i].0 && t[j].0 == s[j].0);
            }
        }
        if keys_distinct(t) {
            assert forall|i: int, j: int| 0 <= i < s.len() && 0 <= j < s.len() && i != j implies s[i].0 != s[j].0 by {
                assert(t[i].0 == s[i].0 && t[j].0 == s[j].0);
            }
        }
    }
    if keys_distinct(s) && has_key(s, k) {
        let i = key_index(s, k);
        lemma_lookup_at(s, i);
        lemma_lookup_at(t, i);
    }
}

/// Storing commutes with transforming the values.
pub proof fn lemma_store_map_values<K, V, W>(s: Seq<(K, V)>, f: spec_fn(V) -> W, k: K, v: V)
    requires
        keys_distinct(s),
    ensures
        map_values(store(s, k, v), f) == store(map_values(s, f), k, f(v)),
{
    lemma_map_values_keys(s, f, k);
    let t = map_values(s, f);
    if has_key(s, k) {
        let i = key_index(s, k);
        lemma_lookup_at(s, i);
        lemma_lookup_at(t, i);
        assert(map_values(store(s, k, v), f) =~= store(t, k, f(v)));
    } else {
        assert(map_values(store(s, k, v), f) =~= store(t, k, f(v)));
    }
}

/// A key of a map: compared by its view.
pub trait MapKey: Sized {
    type KV;

    spec fn key_view(&self) -> Self::KV;

    fn same_key(&self, other: &Self) -> (r: bool)
        ensures
            r == (self.key_view() == other.key_view());

    fn copy_key(&self) -> (r: Self)
        ensures
            r.key_view() == self.key_view();
}

impl MapKey for String {
    type KV = Seq<char>;

    open spec fn key_view(&self) -> Seq<char> {
        self@
    }

    fn same_key(&self, other: &Self) -> (r: bool) {
        *self == *other
    }

    fn copy_key(&self) -> (r: Self) {
        self.clone()
    }
}

impl MapKey for i64 {
    type KV = i64;

    open spec fn key_view(&self) -> i64 {
        *self
    }

    fn same_key(&self, other: &Self) -> (r: bool) {
        *self == *other
    }

    fn copy_key(&self) -> (r: Self) {
        *self
    }
}

impl MapKey for i32 {
    type KV = i32;

    open spec fn key_view(&self) -> i32 {
        *self
    }

    fn same_key(&self, other: &Self) -> (r: bool) {
        *self == *other
    }

    fn copy_key(&self) -> (r: Self) {
        *self
    }
}

/// A day and an ISIN, as one key.
impl MapKey for (i32, String) {
    type KV = (i32, Seq<char>);

    open spec fn key_view(&self) -> (i32, Seq<char>) {
        (self.0, self.1@)
    }

    fn same_key(&self, other: &Self) -> (r: bool) {
        self.0 == other.0 && self.1 == other.1
    }

    fn copy_key(&self) -> (r: Self) {
        (self.0, self.1.clone())
    }
}

/// A map from keys to values, iterated in insertion order.
pub struct KeyedMap<K: MapKey, V> {
    entries: Vec<(K, V)>,
}

/// A map from ISIN to `V`.
pub type IsinMap<V> = KeyedMap<String, V>;

/// The entries with each key taken by its view.
pub open spec fn entries_view<K: MapKey, V>(s: Seq<(K, V)>) -> Seq<(K::KV, V)> {
    Seq::new(s.len(), |i: int| (s[i].0.key_view(), s[i].1))
}

impl<K: MapKey, V> View for KeyedMap<K, V> {
    type V = Seq<(K::KV, V)>;

    closed spec fn view(&self) -> Seq<(K::KV, V)> {
        entries_view::<K, V>(self.entries@)
    }
}

impl<K: MapKey, V> KeyedMap<K, V> {
    #[verifier::type_invariant]
    spec fn inv(self) -> bool {
        keys_distinct(self@)
    }
}

impl<K: MapKey, V> KeyedMap<K, V> {
    /// An empty map.
    pub fn new() -> (m: Self)
        ensures
            m@ == Seq::<(K::KV, V)>::empty(),
    {
        let m = KeyedMap { entries: Vec::new() };
        assert(m@ =~= Seq::<(K::KV, V)>::empty());
        m
    }

    /// The number of entries (whose keys are pairwise distinct).
    pub fn len(&self) -> (n: usize)
        ensures
            n == self@.len(),
            keys_distinct(self@),
    {
        proof {
            use_type_invariant(self);
        }
        self.entries.len()
    }

    /// The key of the `i`-th entry.
    pub fn key_at(&self, i: usize) -> (k: &K)
        requires
            i < self@.len(),
        ensures
            k.key_view() == self@[i as int].0,
    {
        &self.entries[i].0
    }

    /// The value of the `i`-th entry.
    pub fn value_ref(&self, i: usize) -> (v: &V)
        requires
            i < self@.len(),
        ensures
            *v == self@[i as int].1,
    {
        &self.entries[i].1
    }

    /// The index of the entry with key `k`, if any.
    pub fn find(&self, k: &K) -> (r: Option<usize>)
        ensures
            r is Some <==> has_key(self@, k.key_view()),
            r is Some ==> r->0 < self@.len() && r->0 == key_index(self@, k.key_view()) && self@[r->0 as int].0
                == k.key_view(),
            keys_distinct(self@),
    {
        proof {
            use_type_invariant(self);
        }
        let n = self.entries.len();
        let mut i: usize = 0;
        while i < n
            invariant
                n == self@.len(),
                i <= n,
                keys_distinct(self@),
                forall|j: int| 0 <= j < i ==> self@[j].0 != k.key_view(),
            decreases n - i,
        {
            assert(self@[i as int].0 == self.entries@[i as int].0.key_view());
            if self.entries[i].0.same_key(k) {
                proof {
                    lemma_lookup_at(self@, i as int);
                }
                return Some(i);
            }
            i = i + 1;
        }
        None
    }

    /// Whether `k` is stored.
    pub fn contains_key(&self, k: &K) -> (r: bool)
        ensures
            r == has_key(self@, k.key_view()),
    {
        self.find(k).is_some()
    }

    /// Stores `v` under `k`, replacing a previous value in place.
    pub fn insert(&mut self, k: K, v: V)
        ensures
            final(self)@ == store(old(self)@, k.key_view(), v),
            keys_distinct(old(self)@),
    {
        proof {
            use_type_invariant(&*self);
        }
        let ghost old_view = self@;
        let ghost kv = k.key_view();
        let n = self.entries.len();
        let mut i: usize = 0;
        let mut found = false;
        while i < n && !found
            invariant
                n == self@.len(),
                self@ == old_view,
                kv == k.key_view(),
                i <= n,
                keys_distinct(self@),
                found ==> i < n && self@[i as int].0 == kv,
                !found ==> forall|j: int| 0 <= j < i ==> self@[j].0 != kv,
            decreases n - i + (if found { 0int } else { 1int }),
        {
            assert(self@[i as int].0 == self.entries@[i as int].0.key_view());
            if self.entries[i].0.same_key(&k) {
                found = true;
            } else {
                i = i + 1;
            }
        }
        proof {
            lemma_store(self@, kv, v);
            if found {
                lemma_lookup_at(self@, i as int);
            }
        }
        let mut entries = Vec::new();
        std::mem::swap(&mut entries, &mut self.entries);
        if found {
            entries.set(i, (k, v));
        } else {
            entries.push((k, v));
        }
        assert(entries_view::<K, V>(entries@) =~= store(old_view, kv, v));
        self.entries = entries;
    }
}

impl<K: MapKey, V: Copy> KeyedMap<K, V> {
    /// The value of the `i`-th entry.
    pub fn value_at(&self, i: usize) -> (v: V)
        requires
            i < self@.len(),
        ensures
            v == self@[i as int].1,
    {
        self.entries[i].1
    }

    /// The value stored under `k`.
    pub fn get(&self, k: &K) -> (r: Option<V>)
        ensures
            r == lookup(self@, k.key_view()),
    {
        match self.find(k) {
            Some(i) => {
                proof {
                    lemma_lookup_at(self@, i as int);
                }
                Some(self.entries[i].1)
            },
            None => None,
        }
    }
}

impl<K: MapKey, V: Copy> KeyedMap<K, V> {
    /// A copy of the map.
    pub fn copy(&self) -> (r: Self)
        ensures
            r@ == self@,
    {
        let n = self.len();
        let mut entries: Vec<(K, V)> = Vec::new();
        let mut i: usize = 0;
        while i < n
            invariant
                n == self@.len(),
                i <= n,
                keys_distinct(self@),
                entries_view::<K, V>(entries@) =~= self@.take(i as int),
            decreases n - i,
        {
            let k = self.entries[i].0.copy_key();
            let ghost before = entries@;
            assert(entries_view::<K, V>(before).len() == before.len());
            assert(before.len() == i);
            let e = (k, self.entries[i].1);
            let ghost eg = e;
            entries.push(e);
            assert(entries@ == before.push(eg));
            assert(self@[i as int] == (self.entries@[i as int].0.key_view(), self.entries@[i as int].1));
            assert(entries_view::<K, V>(entries@) =~= self@.take(i + 1)) by {
                assert forall|j: int| 0 <= j < i implies entries_view::<K, V>(entries@)[j]
                    == entries_view::<K, V>(before)[j] by {
                    assert(before.push(eg)[j] == before[j]);
                }
            }
            i = i + 1;
        }
        assert(self@.take(n as int) =~= self@);
        KeyedMap { entries }
    }
}

/// The entries whose day is not `d`, in order.
pub open spec fn without_day<V>(s: Seq<((i32, Seq<char>), V)>, d: i32) -> Seq<((i32, Seq<char>), V)>
    decreases s.len(),
{
    if s.len() == 0 {
        Seq::empty()
    } else {
        let rest = without_day(s.drop_last(), d);
        if s.last().0.0 == d {
            rest
        } else {
            rest.push(s.last())
        }
    }
}

/// Every key kept is a key of the entries before the removal.
proof fn lemma_without_day_keys<V>(s: Seq<((i32, Seq<char>), V)>, d: i32, k: (i32, Seq<char>))
    ensures
        has_key(without_day(s, d), k) ==> has_key(s, k),
    decreases s.len(),
{
    if s.len() > 0 {
        let rest = without_day(s.drop_last(), d);
        lemma_without_day_keys(s.drop_last(), d, k);
        if has_key(without_day(s, d), k) {
            let i = key_index(without_day(s, d), k);
            if i < rest.len() {
                assert(has_key(rest, k));
                let j = key_index(s.drop_last(), k);
                assert(s[j] == s.drop_last()[j]);
            } else {
                assert(s[s.len() - 1].0 == k);
            }
        }
    }
}

impl<V: Copy> KeyedMap<(i32, String), V> {
    /// Removes the entries of day `d`.
    pub fn drop_day(&mut self, d: i32)
        ensures
            final(self)@ == without_day(old(self)@, d),
    {
        proof {
            use_type_invariant(&*self);
        }
        let ghost s = self@;
        let n = self.entries.len();
        let mut kept: Vec<((i32, String), V)> = Vec::new();
        let mut i: usize = 0;
        while i < n
            invariant
                n == s.len(),
                s == self@,
                keys_distinct(s),
                i <= n,
                entries_view::<(i32, String), V>(kept@) == without_day(s.take(i as int), d),
                keys_distinct(entries_view::<(i32, String), V>(kept@)),
            decreases n - i,
        {
            assert(s.take(i + 1).drop_last() =~= s.take(i as int));
            assert(s.take(i + 1).last() == s[i as int]);
            let day = self.entries[i].0.0;
            if day != d {
                let ghost before = entries_view::<(i32, String), V>(kept@);
                let e = ((day, self.entries[i].0.1.clone()), self.entries[i].1);
                assert(e.0.key_view() == s[i as int].0);
                kept.push(e);
                assert(entries_view::<(i32, String), V>(kept@) =~= before.push(s[i as int]));
                proof {
                    lemma_without_day_keys(s.take(i as int), d, s[i as int].0);
                    assert(!has_key(s.take(i as int), s[i as int].0)) by {
                        if has_key(s.take(i as int), s[i as int].0) {
                            let j = key_index(s.take(i as int), s[i as int].0);
                            assert(s[j].0 == s[i as int].0);
                        }
                    }
                    let t = entries_view::<(i32, String), V>(kept@);
                    assert forall|a: int, b: int| 0 <= a < t.len() && 0 <= b < t.len() && a != b implies t[a].0 != t[b].0 by {
                        if a == t.len() - 1 && b < a {
                            assert(before[b] == t[b]);
                            assert(has_key(before, t[b].0));
                        } else if b == t.len() - 1 && a < b {
                            assert(before[a] == t[a]);
                            assert(has_key(before, t[a].0));
                        } else {
                            assert(before[a] == t[a] && before[b] == t[b]);
                        }
                    }
                }
            }
            i = i + 1;
        }
        assert(s.take(n as int) =~= s);
        let m = KeyedMap { entries: kept };
        *self = m;
    }
}

} // verus!
