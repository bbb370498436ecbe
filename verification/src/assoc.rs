//! Association maps keyed by strings or qualified names, with a `Map` view.
use vstd::prelude::*;

verus! {

/// Keys compared by their mathematical value.
pub trait MapKey: Sized {
    type KV;

    spec fn kview(&self) -> Self::KV;

    fn same_key(&self, other: &Self) -> (r: bool)
        ensures
            r == (self.kview() == other.kview()),
    ;

    fn copy_key(&self) -> (r: Self)
        ensures
            r.kview() == self.kview(),
    ;
}

impl MapKey for String {
    type KV = Seq<char>;

    open spec fn kview(&self) -> Seq<char> {
        self@
    }

    fn same_key(&self, other: &Self) -> (r: bool) {
        *self == *other
    }

    fn copy_key(&self) -> (r: Self) {
        self.clone()
    }
}

impl MapKey for Vec<String> {
    type KV = Seq<Seq<char>>;

    open spec fn kview(&self) -> Seq<Seq<char>> {
        self.deep_view()
    }

    fn same_key(&self, other: &Self) -> (r: bool) {
        qn_eq(self, other)
    }

    fn copy_key(&self) -> (r: Self) {
        let r = self.clone();
        assert(r.deep_view() =~= self.deep_view());
        r
    }
}

/// Equality of two qualified names, part by part.
pub fn qn_eq(a: &Vec<String>, b: &Vec<String>) -> (r: bool)
    ensures
        r == (a.deep_view() == b.deep_view()),
{
    if a.len() != b.len() {
        assert(a.deep_view().len() != b.deep_view().len());
        return false;
    }
    let mut i: usize = 0;
    while i < a.len()
        invariant
            a@.len() == b@.len(),
            i <= a@.len(),
            forall|j: int| 0 <= j < i ==> a@[j]@ == b@[j]@,
        decreases a.len() - i,
    {
        if a[i] != b[i] {
            assert(a.deep_view()[i as int] != b.deep_view()[i as int]);
            return false;
        }
        i += 1;
    }
    assert(a.deep_view() =~= b.deep_view());
    true
}

/// The map of a list of entries, later entries winning.
pub open spec fn entries_map<K: MapKey, V>(s: Seq<(K, V)>) -> Map<K::KV, V>
    decreases s.len(),
{
    if s.len() == 0 {
        Map::empty()
    } else {
        entries_map(s.drop_last()).insert(s.last().0.kview(), s.last().1)
    }
}

/// No two entries have the same key.
pub open spec fn keys_unique<K: MapKey, V>(s: Seq<(K, V)>) -> bool {
    forall|i: int, j: int|
        0 <= i < s.len() && 0 <= j < s.len() && i != j ==> #[trigger] s[i].0.kview()
            != #[trigger] s[j].0.kview()
}

pub proof fn lemma_entries_map<K: MapKey, V>(s: Seq<(K, V)>)
    requires
        keys_unique(s),
    ensures
        forall|k: K::KV|
            #![trigger entries_map(s).dom().contains(k)]
            entries_map(s).dom().contains(k) <==> exists|i: int|
                0 <= i < s.len() && #[trigger] s[i].0.kview() == k,
        forall|i: int| 0 <= i < s.len() ==> #[trigger] entries_map(s)[s[i].0.kview()] == s[i].1,
    decreases s.len(),
{
    if s.len() > 0 {
        let t = s.drop_last();
        let n = s.len() - 1;
        assert(keys_unique(t)) by {
            assert forall|i: int, j: int|
                0 <= i < t.len() && 0 <= j < t.len() && i != j implies #[trigger] t[i].0.kview()
                != #[trigger] t[j].0.kview() by {
                assert(s[i] == t[i] && s[j] == t[j]);
            }
        }
        lemma_entries_map(t);
        assert forall|k: K::KV|
            entries_map(s).dom().contains(k) implies exists|i: int|
                0 <= i < s.len() && #[trigger] s[i].0.kview() == k by {
            if k == s[n].0.kview() {
            } else {
                assert(entries_map(t).dom().contains(k));
                let i = choose|i: int| 0 <= i < t.len() && #[trigger] t[i].0.kview() == k;
                assert(s[i] == t[i]);
            }
        }
        assert forall|i: int| 0 <= i < s.len() implies #[trigger] entries_map(s)[s[i].0.kview()]
            == s[i].1 by {
            if i < n {
                assert(s[i] == t[i]);
                assert(s[i].0.kview() != s[n].0.kview());
                assert(entries_map(t)[t[i].0.kview()] == t[i].1);
            }
        }
        assert forall|k: K::KV|
            (exists|i: int| 0 <= i < s.len() && #[trigger] s[i].0.kview() == k) implies
            entries_map(s).dom().contains(k) by {
            let i = choose|i: int| 0 <= i < s.len() && #[trigger] s[i].0.kview() == k;
            if i < n {
                assert(s[i] == t[i]);
                assert(t[i].0.kview() == k);
                assert(entries_map(t).dom().contains(k));
            }
        }
    }
}

/// A finite map stored as a list of entries with distinct keys.
pub struct AssocMap<K, V> {
    pub entries: Vec<(K, V)>,
}

impl<K: MapKey, V> AssocMap<K, V> {
    pub open spec fn wf(&self) -> bool {
        keys_unique(self.entries@)
    }

    pub open spec fn map(&self) -> Map<K::KV, V> {
        entries_map(self.entries@)
    }

    /// The empty map.
    pub fn new() -> (r: Self)
        ensures
            r.wf(),
            r.map() == Map::<K::KV, V>::empty(),
            r.entries@.len() == 0,
    {
        AssocMap { entries: Vec::new() }
    }

    /// Position of the entry with key `k`, if any.
    pub fn position(&self, k: &K) -> (r: Option<usize>)
        requires
            self.wf(),
        ensures
            match r {
                Some(i) => i < self.entries@.len() && self.entries@[i as int].0.kview() == k.kview(),
                None => !self.map().dom().contains(k.kview()),
            },
    {
        proof {
            lemma_entries_map(self.entries@);
        }
        let mut i: usize = 0;
        while i < self.entries.len()
            invariant
                i <= self.entries@.len(),
                forall|j: int| 0 <= j < i ==> #[trigger] self.entries@[j].0.kview() != k.kview(),
            decreases self.entries.len() - i,
        {
            if self.entries[i].0.same_key(k) {
                return Some(i);
            }
            i += 1;
        }
        None
    }

    /// Whether `k` has an entry.
    pub fn contains_key(&self, k: &K) -> (r: bool)
        requires
            self.wf(),
        ensures
            r == self.map().dom().contains(k.kview()),
    {
        proof {
            lemma_entries_map(self.entries@);
        }
        match self.position(k) {
            Some(i) => true,
            None => false,
        }
    }

    /// The value stored under `k`.
    pub fn get(&self, k: &K) -> (r: Option<&V>)
        requires
            self.wf(),
        ensures
            match r {
                Some(v) => self.map().dom().contains(k.kview()) && self.map()[k.kview()] == *v,
                None => !self.map().dom().contains(k.kview()),
            },
    {
        proof {
            lemma_entries_map(self.entries@);
        }
        match self.position(k) {
            Some(i) => Some(&self.entries[i].1),
            None => None,
        }
    }

    /// Removes the entry for `k` and hands back its value.
    pub fn take_value(&mut self, k: &K) -> (r: Option<V>)
        requires
            old(self).wf(),
        ensures
            final(self).wf(),
            final(self).map() == old(self).map().remove(k.kview()),
            match r {
                Some(v) => old(self).map().dom().contains(k.kview()) && old(self).map()[k.kview()] == v,
                None => !old(self).map().dom().contains(k.kview()),
            },
    {
        proof {
            lemma_entries_map(self.entries@);
        }
        match self.position(k) {
            None => {
                assert(old(self).map().remove(k.kview()) =~= old(self).map());
                None
            },
            Some(i) => {
                let ghost before = self.entries@;
                let (_key, v) = self.entries.remove(i);
                proof {
                    let after = self.entries@;
                    assert(after == before.remove(i as int));
                    assert(keys_unique(after)) by {
                        assert forall|a: int, b: int|
                            0 <= a < after.len() && 0 <= b < after.len() && a != b implies #[trigger] after[a].0.kview()
                            != #[trigger] after[b].0.kview() by {
                            let a2 = if a < i { a } else { a + 1 };
                            let b2 = if b < i { b } else { b + 1 };
                            assert(after[a] == before[a2]);
                            assert(after[b] == before[b2]);
                        }
                    }
                    lemma_entries_map(after);
                    let target = entries_map(before).remove(k.kview());
                    assert forall|key: K::KV| entries_map(after).dom().contains(key) implies target.dom().contains(key)
                        && entries_map(after)[key] == target[key] by {
                        let j = choose|j: int| 0 <= j < after.len() && #[trigger] after[j].0.kview() == key;
                        let j2 = if j < i { j } else { j + 1 };
                        assert(after[j] == before[j2]);
                        assert(j2 != i);
                        assert(entries_map(before)[before[j2].0.kview()] == before[j2].1);
                    }
                    assert forall|key: K::KV| target.dom().contains(key) implies entries_map(after).dom().contains(key) by {
                        let j = choose|j: int| 0 <= j < before.len() && #[trigger] before[j].0.kview() == key;
                        assert(j != i);
                        let j2 = if j < i { j } else { j - 1 };
                        assert(after[j2] == before[j]);
                        assert(after[j2].0.kview() == key);
                    }
                    assert(entries_map(after) =~= target);
                }
                Some(v)
            },
        }
    }

    /// Stores `v` under `k`, replacing any earlier value.
    pub fn insert(&mut self, k: K, v: V)
        requires
            old(self).wf(),
        ensures
            final(self).wf(),
            final(self).map() == old(self).map().insert(k.kview(), v),
    {
        proof {
            lemma_entries_map(self.entries@);
        }
        let ghost kv = k.kview();
        match self.position(&k) {
            Some(i) => {
                let ghost before = self.entries@;
                self.entries.set(i, (k, v));
                proof {
                    let after = self.entries@;
                    assert(keys_unique(after)) by {
                        assert forall|a: int, b: int|
                            0 <= a < after.len() && 0 <= b < after.len() && a != b implies #[trigger] after[a].0.kview()
                            != #[trigger] after[b].0.kview() by {
                            assert(a != i ==> after[a] == before[a]);
                            assert(b != i ==> after[b] == before[b]);
                        }
                    }
                    lemma_entries_map(after);
                    let target = entries_map(before).insert(kv, v);
                    assert forall|key: K::KV| entries_map(after).dom().contains(key) implies target.dom().contains(key)
                        && entries_map(after)[key] == target[key] by {
                        let j = choose|j: int| 0 <= j < after.len() && #[trigger] after[j].0.kview() == key;
                        if j != i {
                            assert(after[j] == before[j]);
                            assert(entries_map(before)[before[j].0.kview()] == before[j].1);
                            assert(before[j].0.kview() != kv);
                        }
                    }
                    assert forall|key: K::KV| target.dom().contains(key) implies entries_map(after).dom().contains(key) by {
                        if key != kv {
                            assert(entries_map(before).dom().contains(key));
                            let j = choose|j: int| 0 <= j < before.len() && #[trigger] before[j].0.kview() == key;
                            assert(after[j] == before[j]);
                            assert(after[j].0.kview() == key);
                        } else {
                            assert(after[i as int].0.kview() == key);
                        }
                    }
                    assert(entries_map(after) =~= target);
                }
            },
            None => {
                let ghost before = self.entries@;
                self.entries.push((k, v));
                proof {
                    let after = self.entries@;
                    assert(after.drop_last() == before);
                    assert(keys_unique(after)) by {
                        assert forall|a: int, b: int|
                            0 <= a < after.len() && 0 <= b < after.len() && a != b implies #[trigger] after[a].0.kview()
                            != #[trigger] after[b].0.kview() by {
                            if a < before.len() && b < before.len() {
                                assert(after[a] == before[a] && after[b] == before[b]);
                            } else if a < before.len() {
                                assert(after[a] == before[a]);
                                assert(entries_map(before).dom().contains(before[a].0.kview()));
                            } else {
                                assert(after[b] == before[b]);
                                assert(entries_map(before).dom().contains(before[b].0.kview()));
                            }
                        }
                    }
                }
            },
        }
    }
}

} // verus!
