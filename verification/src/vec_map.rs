//! A small finite map kept as a vector of entries with distinct keys.
use vstd::prelude::*;

verus! {

/// Keys whose executable equality is spec equality.
pub trait KeyEq: Copy + Sized {
    fn key_eq(&self, other: &Self) -> (r: bool)
        ensures
            r == (*self == *other);
}

impl KeyEq for u16 {
    fn key_eq(&self, other: &Self) -> (r: bool) {
        *self == *other
    }
}

/// A finite map whose entries keep their order of first insertion (until removed).
pub struct VecMap<K, V> {
    entries: Vec<(K, V)>,
}

/// The keys of `s` are pairwise distinct.
pub open spec fn keys_distinct<K, V>(s: Seq<(K, V)>) -> bool {
    forall|i: int, j: int| 0 <= i < s.len() && 0 <= j < s.len() && i != j ==> s[i].0 != s[j].0
}

/// The map that a sequence of entries with distinct keys stands for.
pub open spec fn seq_to_map<K, V>(s: Seq<(K, V)>) -> Map<K, V> {
    Map::new(
        |k: K| exists|i: int| 0 <= i < s.len() && s[i].0 == k,
        |k: K| s[choose|i: int| 0 <= i < s.len() && s[i].0 == k].1,
    )
}

pub proof fn lemma_seq_to_map_index<K, V>(s: Seq<(K, V)>, i: int)
    requires
        keys_distinct(s),
        0 <= i < s.len(),
    ensures
        seq_to_map(s).dom().contains(s[i].0),
        seq_to_map(s)[s[i].0] == s[i].1,
{
    let k = s[i].0;
    assert(exists|j: int| 0 <= j < s.len() && s[j].0 == k);
    let j = choose|j: int| 0 <= j < s.len() && s[j].0 == k;
    assert(j == i);
}

pub proof fn lemma_seq_to_map_push<K, V>(s: Seq<(K, V)>, k: K, v: V)
    requires
        keys_distinct(s),
        !seq_to_map(s).dom().contains(k),
    ensures
        keys_distinct(s.push((k, v))),
        seq_to_map(s.push((k, v))) == seq_to_map(s).insert(k, v),
{
    let t = s.push((k, v));
    assert(keys_distinct(t)) by {
        assert forall|i: int, j: int| 0 <= i < t.len() && 0 <= j < t.len() && i != j implies t[i].0 != t[j].0 by {
            if i < s.len() && j < s.len() {
            } else if i < s.len() {
                assert(t[i] == s[i]);
            } else {
                assert(t[j] == s[j]);
            }
        }
    }
    assert forall|x: K| #[trigger] seq_to_map(t).dom().contains(x) <==> seq_to_map(s).insert(k, v).dom().contains(x) by {
        if seq_to_map(s).dom().contains(x) {
            let i = choose|i: int| 0 <= i < s.len() && s[i].0 == x;
            assert(t[i].0 == x);
        }
        if x == k {
            assert(t[s.len() as int].0 == x);
        }
        if seq_to_map(t).dom().contains(x) {
            let i = choose|i: int| 0 <= i < t.len() && t[i].0 == x;
            if i < s.len() {
                assert(s[i].0 == x);
            }
        }
    }
    assert forall|x: K| #[trigger] seq_to_map(t).dom().contains(x) implies seq_to_map(t)[x] == seq_to_map(s).insert(k, v)[x] by {
        let i = choose|i: int| 0 <= i < t.len() && t[i].0 == x;
        lemma_seq_to_map_index(t, i);
        if i < s.len() {
            assert(t[i] == s[i]);
            lemma_seq_to_map_index(s, i);
        }
    }
    assert(seq_to_map(t) =~= seq_to_map(s).insert(k, v));
}

pub proof fn lemma_seq_to_map_update<K, V>(s: Seq<(K, V)>, i: int, v: V)
    requires
        keys_distinct(s),
        0 <= i < s.len(),
    ensures
        keys_distinct(s.update(i, (s[i].0, v))),
        seq_to_map(s.update(i, (s[i].0, v))) == seq_to_map(s).insert(s[i].0, v),
{
    let k = s[i].0;
    let t = s.update(i, (k, v));
    assert(keys_distinct(t)) by {
        assert forall|a: int, b: int| 0 <= a < t.len() && 0 <= b < t.len() && a != b implies t[a].0 != t[b].0 by {
            assert(t[a].0 == s[a].0);
            assert(t[b].0 == s[b].0);
        }
    }
    lemma_seq_to_map_index(s, i);
    assert forall|x: K| #[trigger] seq_to_map(t).dom().contains(x) <==> seq_to_map(s).insert(k, v).dom().contains(x) by {
        if seq_to_map(s).dom().contains(x) {
            let j = choose|j: int| 0 <= j < s.len() && s[j].0 == x;
            assert(t[j].0 == x);
        }
        if seq_to_map(t).dom().contains(x) {
            let j = choose|j: int| 0 <= j < t.len() && t[j].0 == x;
            assert(s[j].0 == x);
        }
    }
    assert forall|x: K| #[trigger] seq_to_map(t).dom().contains(x) implies seq_to_map(t)[x] == seq_to_map(s).insert(k, v)[x] by {
        let j = choose|j: int| 0 <= j < t.len() && t[j].0 == x;
        lemma_seq_to_map_index(t, j);
        if j != i {
            lemma_seq_to_map_index(s, j);
        }
    }
    assert(seq_to_map(t) =~= seq_to_map(s).insert(k, v));
}

pub proof fn lemma_seq_to_map_remove<K, V>(s: Seq<(K, V)>, i: int)
    requires
        keys_distinct(s),
        0 <= i < s.len(),
    ensures
        keys_distinct(s.remove(i)),
        seq_to_map(s.remove(i)) == seq_to_map(s).remove(s[i].0),
{
    let k = s[i].0;
    let t = s.remove(i);
    assert forall|a: int| 0 <= a < t.len() implies #[trigger] t[a] == (if a < i { s[a] } else { s[a + 1] }) by {}
    assert(keys_distinct(t)) by {
        assert forall|a: int, b: int| 0 <= a < t.len() && 0 <= b < t.len() && a != b implies t[a].0 != t[b].0 by {
            let a2 = if a < i { a } else { a + 1 };
            let b2 = if b < i { b } else { b + 1 };
            assert(t[a] == s[a2]);
            assert(t[b] == s[b2]);
        }
    }
    assert forall|x: K| #[trigger] seq_to_map(t).dom().contains(x) <==> seq_to_map(s).remove(k).dom().contains(x) by {
        if seq_to_map(s).dom().contains(x) && x != k {
            let j = choose|j: int| 0 <= j < s.len() && s[j].0 == x;
            assert(j != i);
            let j2 = if j < i { j } else { j - 1 };
            assert(t[j2] == s[j]);
        }
        if seq_to_map(t).dom().contains(x) {
            let j = choose|j: int| 0 <= j < t.len() && t[j].0 == x;
            let j2 = if j < i { j } else { j + 1 };
            assert(t[j] == s[j2]);
            assert(j2 != i);
        }
    }
    assert forall|x: K| #[trigger] seq_to_map(t).dom().contains(x) implies seq_to_map(t)[x] == seq_to_map(s).remove(k)[x] by {
        let j = choose|j: int| 0 <= j < t.len() && t[j].0 == x;
        let j2 = if j < i { j } else { j + 1 };
        assert(t[j] == s[j2]);
        lemma_seq_to_map_index(t, j);
        lemma_seq_to_map_index(s, j2);
    }
    assert(seq_to_map(t) =~= seq_to_map(s).remove(k));
}

impl<K: KeyEq, V> VecMap<K, V> {
    /// The entries, in order.
    pub closed spec fn entries_spec(&self) -> Seq<(K, V)> {
        self.entries@
    }

    /// Keys are distinct.
    pub closed spec fn wf(&self) -> bool {
        keys_distinct(self.entries@)
    }

    /// The map the entries stand for.
    pub open spec fn view(&self) -> Map<K, V> {
        seq_to_map(self.entries_spec())
    }

    pub proof fn lemma_wf(&self)
        requires
            self.wf(),
        ensures
            keys_distinct(self.entries_spec()),
    {
    }

    pub fn new() -> (r: VecMap<K, V>)
        ensures
            r.wf(),
            r.view() == Map::<K, V>::empty(),
            r.entries_spec() == Seq::<(K, V)>::empty(),
    {
        let r = VecMap { entries: Vec::new() };
        assert(r.view() =~= Map::<K, V>::empty());
        r
    }

    pub fn len(&self) -> (r: usize)
        ensures
            r == self.entries_spec().len(),
    {
        self.entries.len()
    }

    /// The entry at position `i`.
    pub fn entry_at(&self, i: usize) -> (r: &(K, V))
        requires
            i < self.entries_spec().len(),
        ensures
            *r == self.entries_spec()[i as int],
    {
        &self.entries[i]
    }

    /// The position of `k`, if present.
    pub fn find(&self, k: &K) -> (r: Option<usize>)
        requires
            self.wf(),
        ensures
            match r {
                Some(i) => i < self.entries_spec().len() && self.entries_spec()[i as int].0 == *k
                    && self.view().dom().contains(*k) && self.view()[*k] == self.entries_spec()[i as int].1,
                None => !self.view().dom().contains(*k),
            },
    {
        let mut i: usize = 0;
        while i < self.entries.len()
            invariant
                i <= self.entries@.len(),
                keys_distinct(self.entries@),
                forall|j: int| 0 <= j < i ==> self.entries@[j].0 != *k,
            decreases self.entries@.len() - i,
        {
            if self.entries[i].0.key_eq(k) {
                proof {
                    lemma_seq_to_map_index(self.entries@, i as int);
                }
                return Some(i);
            }
            i = i + 1;
        }
        None
    }

    pub fn contains_key(&self, k: &K) -> (r: bool)
        requires
            self.wf(),
        ensures
            r == self.view().dom().contains(*k),
    {
        self.find(k).is_some()
    }

    pub fn get(&self, k: &K) -> (r: Option<&V>)
        requires
            self.wf(),
        ensures
            match r {
                Some(v) => self.view().dom().contains(*k) && self.view()[*k] == *v,
                None => !self.view().dom().contains(*k),
            },
    {
        match self.find(k) {
            Some(i) => Some(&self.entries[i].1),
            None => None,
        }
    }

    /// Replaces the value at position `i`, returning the previous one.
    pub fn replace_value_at(&mut self, i: usize, v: V) -> (r: V)
        requires
            old(self).wf(),
            i < old(self).entries_spec().len(),
        ensures
            final(self).wf(),
            r == old(self).entries_spec()[i as int].1,
            final(self).entries_spec() == old(self).entries_spec().update(i as int, (old(self).entries_spec()[i as int].0, v)),
            final(self).view() == old(self).view().insert(old(self).entries_spec()[i as int].0, v),
    {
        let ghost s = self.entries@;
        let ghost key = s[i as int].0;
        proof {
            lemma_seq_to_map_update(s, i as int, v);
        }
        let (k, prev) = self.entries.remove(i);
        self.entries.insert(i, (k, v));
        assert(self.entries@ =~= s.update(i as int, (key, v)));
        prev
    }

    /// Sets `k` to `v`, returning the previous value.
    pub fn insert(&mut self, k: K, v: V) -> (r: Option<V>)
        requires
            old(self).wf(),
        ensures
            final(self).wf(),
            final(self).view() == old(self).view().insert(k, v),
            match r {
                Some(p) => old(self).view().dom().contains(k) && old(self).view()[k] == p,
                None => !old(self).view().dom().contains(k),
            },
            !old(self).view().dom().contains(k) ==> final(self).entries_spec() == old(self).entries_spec().push((k, v)),
    {
        match self.find(&k) {
            Some(i) => {
                let ghost s = self.entries@;
                let ghost key = s[i as int].0;
                proof {
                    lemma_seq_to_map_update(s, i as int, v);
                }
                let (_, prev) = self.entries.remove(i);
                self.entries.insert(i, (k, v));
                assert(self.entries@ =~= s.update(i as int, (key, v)));
                Some(prev)
            },
            None => {
                proof {
                    lemma_seq_to_map_push(self.entries@, k, v);
                }
                self.entries.push((k, v));
                None
            },
        }
    }

    /// Removes `k`, returning its value.
    pub fn remove(&mut self, k: &K) -> (r: Option<V>)
        requires
            old(self).wf(),
        ensures
            final(self).wf(),
            final(self).view() == old(self).view().remove(*k),
            match r {
                Some(p) => old(self).view().dom().contains(*k) && old(self).view()[*k] == p,
                None => !old(self).view().dom().contains(*k) && final(self).entries_spec() == old(self).entries_spec(),
            },
    {
        match self.find(k) {
            Some(i) => {
                proof {
                    lemma_seq_to_map_remove(self.entries@, i as int);
                }
                let (_, v) = self.entries.remove(i);
                Some(v)
            },
            None => {
                assert(old(self).view().remove(*k) =~= old(self).view());
                None
            },
        }
    }
}

} // verus!
