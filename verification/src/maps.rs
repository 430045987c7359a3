use vstd::prelude::*;

verus! {

/// A key that can be compared and duplicated in executable code, with a
/// mathematical value that the maps of this crate are indexed by.
pub trait MapKey: Sized {
    type KeyView;

    spec fn key_view(&self) -> Self::KeyView;

    fn same_key(&self, other: &Self) -> (b: bool)
        ensures
            b == (self.key_view() == other.key_view()),
    ;

    fn copy_key(&self) -> (r: Self)
        ensures
            r == *self,
    ;
}

impl MapKey for String {
    type KeyView = Seq<char>;

    open spec fn key_view(&self) -> Seq<char> {
        self@
    }

    fn same_key(&self, other: &Self) -> (b: bool) {
        *self == *other
    }

    fn copy_key(&self) -> (r: Self) {
        self.clone()
    }
}

impl MapKey for usize {
    type KeyView = usize;

    open spec fn key_view(&self) -> usize {
        *self
    }

    fn same_key(&self, other: &Self) -> (b: bool) {
        *self == *other
    }

    fn copy_key(&self) -> (r: Self) {
        *self
    }
}

/// An insertion-ordered map stored as a list of entries with pairwise distinct keys.
///
/// Iteration (through `entries`) visits the keys in the order in which they were
/// first inserted; replacing the value of a present key keeps its position.
#[derive(Debug)]
pub struct AssocMap<K: MapKey, V> {
    entries: Vec<(K, V)>,
}

/// No key occurs twice in the entry list.
pub open spec fn unique_keys<K: MapKey, V>(s: Seq<(K, V)>) -> bool {
    forall|i: int, j: int|
        0 <= i < s.len() && 0 <= j < s.len() && i != j ==> #[trigger] s[i].0.key_view()
            != #[trigger] s[j].0.key_view()
}

/// The map that a list of entries with distinct keys denotes.
pub open spec fn entries_map<K: MapKey, V>(s: Seq<(K, V)>) -> Map<K::KeyView, V> {
    Map::new(
        |k: K::KeyView| exists|i: int| 0 <= i < s.len() && s[i].0.key_view() == k,
        |k: K::KeyView| s[choose|i: int| 0 <= i < s.len() && s[i].0.key_view() == k].1,
    )
}

impl<K: MapKey, V> AssocMap<K, V> {
    #[verifier::type_invariant]
    spec fn inv(self) -> bool {
        unique_keys(self.entries@)
    }

    /// The entries in iteration order.
    pub closed spec fn pairs(self) -> Seq<(K, V)> {
        self.entries@
    }

    /// The map from keys to values.
    pub closed spec fn view(self) -> Map<K::KeyView, V> {
        entries_map(self.pairs())
    }

    /// The map is the one that the entries denote.
    pub proof fn lemma_view_pairs(self)
        ensures
            self@ == entries_map(self.pairs()),
    {
    }

    pub fn new() -> (m: Self)
        ensures
            m@ == Map::<K::KeyView, V>::empty(),
            m.pairs().len() == 0,
    {
        let m = AssocMap { entries: Vec::new() };
        assert(m@ =~= Map::<K::KeyView, V>::empty());
        m
    }

    pub fn len(&self) -> (n: usize)
        ensures
            n == self.pairs().len(),
            n == self@.len(),
            unique_keys(self.pairs()),
    {
        proof {
            use_type_invariant(self);
            lemma_entries_map_len(self.entries@);
        }
        self.entries.len()
    }

    /// The position of `k` in the entry list, if present.
    pub fn position(&self, k: &K) -> (r: Option<usize>)
        ensures
            match r {
                Some(i) => i < self.pairs().len() && self.pairs()[i as int].0.key_view()
                    == k.key_view(),
                None => !self@.contains_key(k.key_view()),
            },
    {
        let mut i: usize = 0;
        while i < self.entries.len()
            invariant
                i <= self.entries@.len(),
                forall|j: int| 0 <= j < i ==> self.entries@[j].0.key_view() != k.key_view(),
            decreases self.entries@.len() - i,
        {
            if self.entries[i].0.same_key(k) {
                return Some(i);
            }
            i = i + 1;
        }
        None
    }

    pub fn contains_key(&self, k: &K) -> (b: bool)
        ensures
            b == self@.contains_key(k.key_view()),
    {
        match self.position(k) {
            Some(i) => {
                proof {
                    use_type_invariant(self);
                    lemma_entries_map_at(self.entries@, i as int);
                }
                true
            },
            None => false,
        }
    }

    pub fn get(&self, k: &K) -> (r: Option<&V>)
        ensures
            match r {
                Some(v) => self@.contains_key(k.key_view()) && *v == self@[k.key_view()],
                None => !self@.contains_key(k.key_view()),
            },
    {
        match self.position(k) {
            Some(i) => {
                proof {
                    use_type_invariant(self);
                    lemma_entries_map_at(self.entries@, i as int);
                }
                Some(&self.entries[i].1)
            },
            None => None,
        }
    }

    /// The key and value at position `i`.
    pub fn entry_at(&self, i: usize) -> (r: (&K, &V))
        requires
            i < self.pairs().len(),
        ensures
            *r.0 == self.pairs()[i as int].0,
            *r.1 == self.pairs()[i as int].1,
            self@.contains_key(r.0.key_view()),
            self@[r.0.key_view()] == *r.1,
    {
        proof {
            use_type_invariant(self);
            lemma_entries_map_at(self.entries@, i as int);
        }
        (&self.entries[i].0, &self.entries[i].1)
    }

    /// A copy with the same entries in the same order.
    pub fn duplicate(&self) -> (r: Self)
        where V: Copy,
        ensures
            r.pairs() == self.pairs(),
            r@ == self@,
    {
        proof {
            use_type_invariant(self);
        }
        let mut entries: Vec<(K, V)> = Vec::new();
        let mut i: usize = 0;
        while i < self.entries.len()
            invariant
                i <= self.entries@.len(),
                entries@ == self.entries@.take(i as int),
            decreases self.entries@.len() - i,
        {
            let k = self.entries[i].0.copy_key();
            let v = self.entries[i].1;
            entries.push((k, v));
            assert(entries@ =~= self.entries@.take(i + 1));
            i = i + 1;
        }
        assert(entries@ =~= self.entries@);
        AssocMap { entries }
    }

    /// The values in iteration order.
    pub fn values(&self) -> (r: Vec<V>)
        where V: Copy,
        ensures
            r@.len() == self.pairs().len(),
            forall|i: int| 0 <= i < r@.len() ==> #[trigger] r@[i] == self.pairs()[i].1,
    {
        let mut r: Vec<V> = Vec::new();
        let mut i: usize = 0;
        while i < self.entries.len()
            invariant
                i <= self.entries@.len(),
                r@.len() == i,
                forall|j: int| 0 <= j < i ==> #[trigger] r@[j] == self.entries@[j].1,
            decreases self.entries@.len() - i,
        {
            r.push(self.entries[i].1);
            i = i + 1;
        }
        r
    }

    /// The keys in iteration order.
    pub fn keys(&self) -> (r: Vec<K>)
        ensures
            r@.len() == self.pairs().len(),
            forall|i: int| 0 <= i < r@.len() ==> #[trigger] r@[i] == self.pairs()[i].0,
            forall|i: int| 0 <= i < r@.len() ==> self@.contains_key(#[trigger] r@[i].key_view()),
    {
        proof {
            use_type_invariant(self);
        }
        let mut r: Vec<K> = Vec::new();
        let mut i: usize = 0;
        while i < self.entries.len()
            invariant
                i <= self.entries@.len(),
                unique_keys(self.entries@),
                r@.len() == i,
                forall|j: int| 0 <= j < i ==> #[trigger] r@[j] == self.entries@[j].0,
                forall|j: int| 0 <= j < i ==> self@.contains_key(#[trigger] r@[j].key_view()),
            decreases self.entries@.len() - i,
        {
            proof {
                lemma_entries_map_at(self.entries@, i as int);
            }
            r.push(self.entries[i].0.copy_key());
            i = i + 1;
        }
        r
    }

    /// Sets the value of `k`, keeping the position of a present key and appending a new one.
    pub fn insert(&mut self, k: K, v: V)
        ensures
            final(self)@ == old(self)@.insert(k.key_view(), v),
            old(self)@.contains_key(k.key_view()) ==> final(self).pairs().len() == old(
                self,
            ).pairs().len(),
            !old(self)@.contains_key(k.key_view()) ==> final(self).pairs() == old(
                self,
            ).pairs().push((k, v)),
            forall|j: int|
                0 <= j < old(self).pairs().len() ==> #[trigger] final(self).pairs()[j].0.key_view()
                    == old(self).pairs()[j].0.key_view(),
    {
        proof {
            use_type_invariant(&*self);
        }
        let ghost old_entries = self.entries@;
        match self.position(&k) {
            Some(i) => {
                let mut entries = Vec::new();
                std::mem::swap(&mut entries, &mut self.entries);
                entries.set(i, (k, v));
                proof {
                    lemma_entries_map_set(old_entries, i as int, entries@);
                }
                self.entries = entries;
            },
            None => {
                let mut entries = Vec::new();
                std::mem::swap(&mut entries, &mut self.entries);
                entries.push((k, v));
                proof {
                    assert(entries@.drop_last() =~= old_entries);
                    lemma_entries_map_push(old_entries, entries@);
                }
                self.entries = entries;
            },
        }
    }

    /// Removes `k`, keeping the order of the other entries.
    pub fn remove(&mut self, k: &K) -> (r: Option<V>)
        ensures
            final(self)@ == old(self)@.remove(k.key_view()),
            match r {
                Some(v) => old(self)@.contains_key(k.key_view()) && v == old(self)@[k.key_view()],
                None => !old(self)@.contains_key(k.key_view()) && final(self).pairs() == old(
                    self,
                ).pairs(),
            },
    {
        proof {
            use_type_invariant(&*self);
        }
        let ghost old_entries = self.entries@;
        match self.position(k) {
            Some(i) => {
                proof {
                    lemma_entries_map_at(old_entries, i as int);
                }
                let mut entries = Vec::new();
                std::mem::swap(&mut entries, &mut self.entries);
                let (_, v) = entries.remove(i);
                proof {
                    lemma_entries_map_remove(old_entries, i as int, entries@);
                }
                self.entries = entries;
                Some(v)
            },
            None => {
                assert(self@.remove(k.key_view()) =~= self@);
                None
            },
        }
    }

    /// Removes every entry.
    pub fn clear(&mut self)
        ensures
            final(self)@ == Map::<K::KeyView, V>::empty(),
            final(self).pairs().len() == 0,
    {
        self.entries = Vec::new();
        assert(self@ =~= Map::<K::KeyView, V>::empty());
    }
}

/// Adding the next entry of a list with distinct keys adds its key to the prefix's map.
pub proof fn lemma_entries_map_take_step<K: MapKey, V>(s: Seq<(K, V)>, k: int)
    requires
        unique_keys(s),
        0 <= k < s.len(),
    ensures
        entries_map(s.take(k + 1)) == entries_map(s.take(k)).insert(s[k].0.key_view(), s[k].1),
        !entries_map(s.take(k)).contains_key(s[k].0.key_view()),
{
    let a = s.take(k);
    let b = s.take(k + 1);
    assert(unique_keys(a));
    if entries_map(a).contains_key(s[k].0.key_view()) {
        let j = choose|j: int| 0 <= j < a.len() && a[j].0.key_view() == s[k].0.key_view();
        assert(s[j].0.key_view() == s[k].0.key_view());
    }
    assert(b.drop_last() =~= a);
    lemma_entries_map_push(a, b);
}

/// The whole list is its own prefix.
pub proof fn lemma_entries_map_take_all<K: MapKey, V>(s: Seq<(K, V)>)
    ensures
        entries_map(s.take(s.len() as int)) == entries_map(s),
{
    assert(s.take(s.len() as int) =~= s);
}

/// The empty prefix denotes the empty map.
pub proof fn lemma_entries_map_take_none<K: MapKey, V>(s: Seq<(K, V)>)
    ensures
        entries_map(s.take(0)) == Map::<K::KeyView, V>::empty(),
{
    assert(entries_map(s.take(0)) =~= Map::<K::KeyView, V>::empty());
}

proof fn lemma_entries_map_at<K: MapKey, V>(s: Seq<(K, V)>, i: int)
    requires
        unique_keys(s),
        0 <= i < s.len(),
    ensures
        entries_map(s).contains_key(s[i].0.key_view()),
        entries_map(s)[s[i].0.key_view()] == s[i].1,
{
    let k = s[i].0.key_view();
    assert(exists|j: int| 0 <= j < s.len() && s[j].0.key_view() == k);
    let j = choose|j: int| 0 <= j < s.len() && s[j].0.key_view() == k;
    assert(j == i);
}

proof fn lemma_entries_map_len<K: MapKey, V>(s: Seq<(K, V)>)
    requires
        unique_keys(s),
    ensures
        entries_map(s).len() == s.len(),
        entries_map(s).dom().finite(),
    decreases s.len(),
{
    if s.len() == 0 {
        assert(entries_map(s).dom() =~= Set::<K::KeyView>::empty());
    } else {
        let t = s.drop_last();
        let k = s.last().0.key_view();
        assert(unique_keys(t));
        lemma_entries_map_len(t);
        assert forall|x: K::KeyView| #[trigger] entries_map(s).dom().contains(x) == entries_map(
            t,
        ).dom().insert(k).contains(x) by {
            if entries_map(s).dom().contains(x) {
                let j = choose|j: int| 0 <= j < s.len() && s[j].0.key_view() == x;
                if j < t.len() {
                    assert(t[j] == s[j]);
                }
            }
            if entries_map(t).dom().contains(x) {
                let j = choose|j: int| 0 <= j < t.len() && t[j].0.key_view() == x;
                assert(t[j] == s[j]);
            }
        }
        assert(entries_map(s).dom() =~= entries_map(t).dom().insert(k));
        if entries_map(t).dom().contains(k) {
            let j = choose|j: int| 0 <= j < t.len() && t[j].0.key_view() == k;
            assert(t[j] == s[j]);
        }
        assert(!entries_map(t).dom().contains(k));
    }
}

proof fn lemma_entries_map_set<K: MapKey, V>(s: Seq<(K, V)>, i: int, t: Seq<(K, V)>)
    requires
        unique_keys(s),
        0 <= i < s.len(),
        t == s.update(i, t[i]),
        t[i].0.key_view() == s[i].0.key_view(),
    ensures
        entries_map(t) == entries_map(s).insert(t[i].0.key_view(), t[i].1),
{
    assert(unique_keys(t));
    let m = entries_map(s).insert(t[i].0.key_view(), t[i].1);
    assert forall|k: K::KeyView| #[trigger] entries_map(t).contains_key(k) == m.contains_key(k) by {
        if m.contains_key(k) && k != t[i].0.key_view() {
            let j = choose|j: int| 0 <= j < s.len() && s[j].0.key_view() == k;
            assert(t[j].0.key_view() == k);
        }
    }
    assert forall|k: K::KeyView| entries_map(t).contains_key(k) implies #[trigger] entries_map(
        t,
    )[k] == m[k] by {
        let j = choose|j: int| 0 <= j < t.len() && t[j].0.key_view() == k;
        lemma_entries_map_at(t, j);
        if j != i {
            lemma_entries_map_at(s, j);
        }
    }
    assert(entries_map(t) =~= m);
}

proof fn lemma_entries_map_push<K: MapKey, V>(s: Seq<(K, V)>, t: Seq<(K, V)>)
    requires
        unique_keys(s),
        t.len() == s.len() + 1,
        t.drop_last() == s,
        !entries_map(s).contains_key(t.last().0.key_view()),
    ensures
        unique_keys(t),
        entries_map(t) == entries_map(s).insert(t.last().0.key_view(), t.last().1),
{
    let n = s.len() as int;
    assert forall|i: int| 0 <= i < n implies #[trigger] t[i] == s[i] by {
        assert(t.drop_last()[i] == t[i]);
    }
    assert forall|i: int, j: int|
        0 <= i < t.len() && 0 <= j < t.len() && i != j implies #[trigger] t[i].0.key_view()
        != #[trigger] t[j].0.key_view() by {
        if i < n && j < n {
        } else if i == n {
            assert(t[j].0.key_view() == s[j].0.key_view());
        } else {
            assert(t[i].0.key_view() == s[i].0.key_view());
        }
    }
    let m = entries_map(s).insert(t.last().0.key_view(), t.last().1);
    assert forall|k: K::KeyView| #[trigger] entries_map(t).contains_key(k) == m.contains_key(k) by {
        if entries_map(t).contains_key(k) {
            let j = choose|j: int| 0 <= j < t.len() && t[j].0.key_view() == k;
            if j < n {
                assert(s[j].0.key_view() == k);
            }
        }
        if m.contains_key(k) && k != t.last().0.key_view() {
            let j = choose|j: int| 0 <= j < s.len() && s[j].0.key_view() == k;
            assert(t[j].0.key_view() == k);
        }
    }
    assert forall|k: K::KeyView| entries_map(t).contains_key(k) implies #[trigger] entries_map(
        t,
    )[k] == m[k] by {
        let j = choose|j: int| 0 <= j < t.len() && t[j].0.key_view() == k;
        lemma_entries_map_at(t, j);
        if j < n {
            lemma_entries_map_at(s, j);
        }
    }
    assert(entries_map(t) =~= m);
}

proof fn lemma_entries_map_remove<K: MapKey, V>(s: Seq<(K, V)>, i: int, t: Seq<(K, V)>)
    requires
        unique_keys(s),
        0 <= i < s.len(),
        t == s.remove(i),
    ensures
        unique_keys(t),
        entries_map(t) == entries_map(s).remove(s[i].0.key_view()),
{
    let k0 = s[i].0.key_view();
    assert forall|a: int, b: int|
        0 <= a < t.len() && 0 <= b < t.len() && a != b implies #[trigger] t[a].0.key_view()
        != #[trigger] t[b].0.key_view() by {
        let a2 = if a < i { a } else { a + 1 };
        let b2 = if b < i { b } else { b + 1 };
        assert(t[a] == s[a2]);
        assert(t[b] == s[b2]);
    }
    let m = entries_map(s).remove(k0);
    assert forall|k: K::KeyView| #[trigger] entries_map(t).contains_key(k) == m.contains_key(k) by {
        if entries_map(t).contains_key(k) {
            let j = choose|j: int| 0 <= j < t.len() && t[j].0.key_view() == k;
            let j2 = if j < i { j } else { j + 1 };
            assert(t[j] == s[j2]);
            assert(s[j2].0.key_view() == k);
        }
        if m.contains_key(k) {
            let j = choose|j: int| 0 <= j < s.len() && s[j].0.key_view() == k;
            assert(j != i);
            let j2 = if j < i { j } else { j - 1 };
            assert(t[j2] == s[j]);
        }
    }
    assert forall|k: K::KeyView| entries_map(t).contains_key(k) implies #[trigger] entries_map(
        t,
    )[k] == m[k] by {
        let j = choose|j: int| 0 <= j < t.len() && t[j].0.key_view() == k;
        let j2 = if j < i { j } else { j + 1 };
        assert(t[j] == s[j2]);
        lemma_entries_map_at(t, j);
        lemma_entries_map_at(s, j2);
    }
    assert(entries_map(t) =~= m);
}

} // verus!
