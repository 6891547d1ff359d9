//! Maps keyed by an execution and a name, kept as a vector of entries with
//! one entry per key. Used for signals, timers, tags and the step index.

use vstd::prelude::*;
use crate::types::ExecutionId;

verus! {

/// The second part of a key: compared by its view.
pub trait NameKey: Sized {
    type KV;

    spec fn key_view(&self) -> Self::KV;

    fn key_eq(&self, other: &Self) -> (r: bool)
        ensures
            r == (self.key_view() == other.key_view()),
    ;

    fn key_copy(&self) -> (r: Self)
        ensures
            r.key_view() == self.key_view(),
    ;
}

impl NameKey for String {
    type KV = Seq<char>;

    open spec fn key_view(&self) -> Seq<char> {
        self@
    }

    fn key_eq(&self, other: &Self) -> (r: bool) {
        *self == *other
    }

    fn key_copy(&self) -> (r: Self) {
        self.clone()
    }
}

impl NameKey for u64 {
    type KV = u64;

    open spec fn key_view(&self) -> u64 {
        *self
    }

    fn key_eq(&self, other: &Self) -> (r: bool) {
        *self == *other
    }

    fn key_copy(&self) -> (r: Self) {
        *self
    }
}

/// The key of an entry.
pub open spec fn entry_key<K: NameKey, V>(e: (ExecutionId, K, V)) -> (ExecutionId, K::KV) {
    (e.0, e.1.key_view())
}

/// The map the entries denote (later entries win, though keys are unique).
pub open spec fn fold_view<K: NameKey, V>(s: Seq<(ExecutionId, K, V)>) -> Map<(ExecutionId, K::KV), V>
    decreases s.len(),
{
    if s.len() == 0 {
        Map::empty()
    } else {
        fold_view(s.drop_last()).insert(entry_key(s.last()), s.last().2)
    }
}

/// No two entries share a key.
pub open spec fn keys_unique<K: NameKey, V>(s: Seq<(ExecutionId, K, V)>) -> bool {
    forall|i: int, j: int|
        0 <= i < s.len() && 0 <= j < s.len() && i != j ==> entry_key(#[trigger] s[i]) != entry_key(
            #[trigger] s[j],
        )
}

/// The map without the keys of one execution.
pub open spec fn without_execution<KV, V>(m: Map<(ExecutionId, KV), V>, id: ExecutionId) -> Map<
    (ExecutionId, KV),
    V,
> {
    Map::new(|k: (ExecutionId, KV)| m.dom().contains(k) && k.0 != id, |k: (ExecutionId, KV)| m[k])
}

pub proof fn lemma_fold_dom<K: NameKey, V>(s: Seq<(ExecutionId, K, V)>, k: (ExecutionId, K::KV))
    ensures
        fold_view(s).dom().contains(k) <==> exists|i: int| 0 <= i < s.len() && entry_key(s[i]) == k,
    decreases s.len(),
{
    if s.len() > 0 {
        lemma_fold_dom(s.drop_last(), k);
        if fold_view(s.drop_last()).dom().contains(k) {
            let i = choose|i: int| 0 <= i < s.drop_last().len() && entry_key(s.drop_last()[i]) == k;
            assert(s[i] == s.drop_last()[i]);
        }
        if exists|i: int| 0 <= i < s.len() && entry_key(s[i]) == k {
            let i = choose|i: int| 0 <= i < s.len() && entry_key(s[i]) == k;
            if i < s.len() - 1 {
                assert(s.drop_last()[i] == s[i]);
            }
        }
    }
}

pub proof fn lemma_fold_get<K: NameKey, V>(s: Seq<(ExecutionId, K, V)>, i: int)
    requires
        keys_unique(s),
        0 <= i < s.len(),
    ensures
        fold_view(s).dom().contains(entry_key(s[i])),
        fold_view(s)[entry_key(s[i])] == s[i].2,
    decreases s.len(),
{
    if i < s.len() - 1 {
        let t = s.drop_last();
        assert(t[i] == s[i]);
        assert(keys_unique(t)) by {
            assert forall|a: int, b: int|
                0 <= a < t.len() && 0 <= b < t.len() && a != b implies entry_key(#[trigger] t[a])
                != entry_key(#[trigger] t[b]) by {
                assert(t[a] == s[a] && t[b] == s[b]);
            }
        }
        lemma_fold_get(t, i);
        assert(entry_key(s[i]) != entry_key(s[s.len() - 1]));
    }
}

pub proof fn lemma_unique_drop_last<K: NameKey, V>(s: Seq<(ExecutionId, K, V)>)
    requires
        keys_unique(s),
        s.len() > 0,
    ensures
        keys_unique(s.drop_last()),
        !fold_view(s.drop_last()).dom().contains(entry_key(s.last())),
{
    let t = s.drop_last();
    assert forall|a: int, b: int|
        0 <= a < t.len() && 0 <= b < t.len() && a != b implies entry_key(#[trigger] t[a]) != entry_key(
        #[trigger] t[b],
    ) by {
        assert(t[a] == s[a] && t[b] == s[b]);
    }
    lemma_fold_dom(t, entry_key(s.last()));
    if fold_view(t).dom().contains(entry_key(s.last())) {
        let i = choose|i: int| 0 <= i < t.len() && entry_key(t[i]) == entry_key(s.last());
        assert(t[i] == s[i]);
    }
}

pub proof fn lemma_fold_update<K: NameKey, V>(s: Seq<(ExecutionId, K, V)>, i: int, e: (ExecutionId, K, V))
    requires
        keys_unique(s),
        0 <= i < s.len(),
        entry_key(e) == entry_key(s[i]),
    ensures
        keys_unique(s.update(i, e)),
        fold_view(s.update(i, e)) == fold_view(s).insert(entry_key(e), e.2),
    decreases s.len(),
{
    let u = s.update(i, e);
    assert(keys_unique(u)) by {
        assert forall|a: int, b: int|
            0 <= a < u.len() && 0 <= b < u.len() && a != b implies entry_key(#[trigger] u[a])
            != entry_key(#[trigger] u[b]) by {
            assert(entry_key(u[a]) == entry_key(s[a]));
            assert(entry_key(u[b]) == entry_key(s[b]));
        }
    }
    if i == s.len() - 1 {
        assert(u.drop_last() =~= s.drop_last());
        lemma_unique_drop_last(s);
        assert(fold_view(u) =~= fold_view(s).insert(entry_key(e), e.2));
    } else {
        lemma_unique_drop_last(s);
        lemma_fold_update(s.drop_last(), i, e);
        assert(u.drop_last() =~= s.drop_last().update(i, e));
        assert(entry_key(s.last()) != entry_key(e));
        assert(fold_view(u) =~= fold_view(s).insert(entry_key(e), e.2));
    }
}

pub proof fn lemma_fold_remove<K: NameKey, V>(s: Seq<(ExecutionId, K, V)>, i: int)
    requires
        keys_unique(s),
        0 <= i < s.len(),
    ensures
        keys_unique(s.remove(i)),
        fold_view(s.remove(i)) == fold_view(s).remove(entry_key(s[i])),
    decreases s.len(),
{
    let r = s.remove(i);
    assert(keys_unique(r)) by {
        assert forall|a: int, b: int|
            0 <= a < r.len() && 0 <= b < r.len() && a != b implies entry_key(#[trigger] r[a])
            != entry_key(#[trigger] r[b]) by {
            let a2 = if a < i { a } else { a + 1 };
            let b2 = if b < i { b } else { b + 1 };
            assert(r[a] == s[a2] && r[b] == s[b2]);
        }
    }
    lemma_unique_drop_last(s);
    if i == s.len() - 1 {
        assert(r =~= s.drop_last());
        assert(fold_view(r) =~= fold_view(s).remove(entry_key(s[i])));
    } else {
        lemma_fold_remove(s.drop_last(), i);
        assert(r.drop_last() =~= s.drop_last().remove(i));
        assert(r.last() == s.last());
        assert(entry_key(s.last()) != entry_key(s[i]));
        assert(fold_view(r) =~= fold_view(s).remove(entry_key(s[i])));
    }
}

pub proof fn lemma_push_unique<K: NameKey, V>(s: Seq<(ExecutionId, K, V)>, e: (ExecutionId, K, V))
    requires
        keys_unique(s),
        !fold_view(s).dom().contains(entry_key(e)),
    ensures
        keys_unique(s.push(e)),
        fold_view(s.push(e)) == fold_view(s).insert(entry_key(e), e.2),
{
    lemma_fold_dom(s, entry_key(e));
    let p = s.push(e);
    assert forall|a: int, b: int|
        0 <= a < p.len() && 0 <= b < p.len() && a != b implies entry_key(#[trigger] p[a])
        != entry_key(#[trigger] p[b]) by {
        if a < s.len() && b < s.len() {
            assert(p[a] == s[a] && p[b] == s[b]);
        } else if a < s.len() {
            assert(p[a] == s[a]);
        } else {
            assert(p[b] == s[b]);
        }
    }
    assert(p.drop_last() =~= s);
}

/// Entries keyed by an execution and a name, one entry per key.
pub struct KeyedMap<K, V> {
    entries: Vec<(ExecutionId, K, V)>,
}

impl<K: NameKey, V> KeyedMap<K, V> {
    /// The map the entries denote.
    pub closed spec fn view(&self) -> Map<(ExecutionId, K::KV), V> {
        fold_view(self.entries@)
    }

    /// One entry per key.
    pub closed spec fn wf(&self) -> bool {
        keys_unique(self.entries@)
    }

    /// The entries in storage order.
    pub closed spec fn entries(&self) -> Seq<(ExecutionId, K, V)> {
        self.entries@
    }

    /// An empty map.
    pub fn new() -> (m: Self)
        ensures
            m.wf(),
            m@ == Map::<(ExecutionId, K::KV), V>::empty(),
    {
        KeyedMap { entries: Vec::new() }
    }

    fn find(&self, id: &ExecutionId, name: &K) -> (r: Option<usize>)
        requires
            self.wf(),
        ensures
            r matches Some(i) ==> i < self.entries@.len() && entry_key(self.entries@[i as int]) == (*id, name.key_view()),
            r is None ==> !self@.dom().contains((*id, name.key_view())),
    {
        let mut i: usize = 0;
        while i < self.entries.len()
            invariant
                i <= self.entries@.len(),
                forall|j: int| 0 <= j < i ==> entry_key(#[trigger] self.entries@[j]) != (*id, name.key_view()),
            decreases self.entries@.len() - i,
        {
            let e = &self.entries[i];
            if e.0.same(id) && e.1.key_eq(name) {
                return Some(i);
            }
            i += 1;
        }
        proof {
            lemma_fold_dom(self.entries@, (*id, name.key_view()));
        }
        None
    }

    /// The value stored under a key.
    pub fn get(&self, id: &ExecutionId, name: &K) -> (r: Option<&V>)
        requires
            self.wf(),
        ensures
            r is Some <==> self@.dom().contains((*id, name.key_view())),
            r matches Some(v) ==> *v == self@[(*id, name.key_view())],
    {
        match self.find(id, name) {
            Some(i) => {
                proof {
                    lemma_fold_get(self.entries@, i as int);
                }
                Some(&self.entries[i].2)
            },
            None => None,
        }
    }

    /// Store a value under a key, replacing any previous value.
    pub fn insert(&mut self, id: ExecutionId, name: K, v: V)
        requires
            old(self).wf(),
        ensures
            final(self).wf(),
            final(self)@ == old(self)@.insert((id, name.key_view()), v),
    {
        match self.find(&id, &name) {
            Some(i) => {
                proof {
                    lemma_fold_update(self.entries@, i as int, (id, name, v));
                }
                self.entries.set(i, (id, name, v));
            },
            None => {
                let ghost e = (id, name, v);
                proof {
                    lemma_push_unique(self.entries@, e);
                }
                self.entries.push((id, name, v));
            },
        }
    }

    /// Remove the value stored under a key, returning it.
    pub fn remove(&mut self, id: &ExecutionId, name: &K) -> (r: Option<V>)
        requires
            old(self).wf(),
        ensures
            final(self).wf(),
            r is Some <==> old(self)@.dom().contains((*id, name.key_view())),
            r matches Some(v) ==> v == old(self)@[(*id, name.key_view())],
            final(self)@ == old(self)@.remove((*id, name.key_view())),
    {
        match self.find(id, name) {
            Some(i) => {
                proof {
                    lemma_fold_get(self.entries@, i as int);
                    lemma_fold_remove(self.entries@, i as int);
                }
                let e = self.entries.remove(i);
                Some(e.2)
            },
            None => {
                assert(old(self)@.remove((*id, name.key_view())) =~= old(self)@);
                None
            },
        }
    }

    /// Remove every entry of one execution.
    pub fn remove_execution(&mut self, id: &ExecutionId)
        requires
            old(self).wf(),
        ensures
            final(self).wf(),
            final(self)@ == without_execution(old(self)@, *id),
    {
        let ghost s = self.entries@;
        let mut kept: Vec<(ExecutionId, K, V)> = Vec::new();
        let mut entries = Vec::new();
        std::mem::swap(&mut entries, &mut self.entries);
        let mut j: usize = 0;
        let n = entries.len();
        let mut rest: Vec<(ExecutionId, K, V)> = Vec::new();
        while entries.len() > 0
            invariant
                n == s.len(),
                entries@ == s.take(n - rest@.len()),
                rest@.len() <= n,
                forall|a: int| 0 <= a < rest@.len() ==> #[trigger] rest@[a] == s[n - 1 - a],
            decreases entries@.len(),
        {
            let e = entries.pop().unwrap();
            proof {
                assert(s.take(n - rest@.len() - 1) =~= s.take(n - rest@.len()).drop_last());
            }
            rest.push(e);
        }
        assert(rest@.len() == n) by {
            assert(s.take(n - rest@.len()).len() == 0);
        }
        while j < n
            invariant
                n == s.len(),
                j <= n,
                keys_unique(s),
                rest@.len() == n - j,
                forall|a: int| 0 <= a < n - j ==> #[trigger] rest@[a] == s[n - 1 - a],
                keys_unique(kept@),
                fold_view(kept@) == without_execution(fold_view(s.take(j as int)), *id),
            decreases n - j,
        {
            let e = rest.pop().unwrap();
            assert(e == s[j as int]);
            proof {
                lemma_unique_drop_last(s.take(j + 1));
                assert(s.take(j + 1).drop_last() =~= s.take(j as int));
                assert(s.take(j + 1).last() == s[j as int]);
            }
            if e.0.same(id) {
                assert(without_execution(fold_view(s.take(j + 1)), *id) =~= without_execution(
                    fold_view(s.take(j as int)),
                    *id,
                ));
            } else {
                proof {
                    lemma_push_unique(kept@, e);
                    assert(without_execution(fold_view(s.take(j + 1)), *id) =~= without_execution(
                        fold_view(s.take(j as int)),
                        *id,
                    ).insert(entry_key(e), e.2));
                }
                kept.push(e);
            }
            j += 1;
        }
        assert(s.take(n as int) =~= s);
        self.entries = kept;
    }

    /// Number of entries.
    pub fn len(&self) -> (r: usize)
        ensures
            r == self.entries().len(),
    {
        self.entries.len()
    }

    /// The entry at a position in storage order.
    pub fn entry_at(&self, i: usize) -> (r: &(ExecutionId, K, V))
        requires
            i < self.entries().len(),
        ensures
            *r == self.entries()[i as int],
    {
        &self.entries[i]
    }

    /// Every stored entry is in the map, and every key of the map is stored.
    pub proof fn lemma_entries(&self)
        requires
            self.wf(),
        ensures
            keys_unique(self.entries()),
            forall|i: int| 0 <= i < self.entries().len() ==> self@.dom().contains(entry_key(#[trigger] self.entries()[i])) && self@[entry_key(self.entries()[i])] == self.entries()[i].2,
            forall|k: (ExecutionId, K::KV)| self@.dom().contains(k) ==> exists|i: int| 0 <= i < self.entries().len() && entry_key(self.entries()[i]) == k,
    {
        assert forall|i: int| 0 <= i < self.entries().len() implies self@.dom().contains(entry_key(#[trigger] self.entries()[i])) && self@[entry_key(self.entries()[i])] == self.entries()[i].2 by {
            lemma_fold_get(self.entries@, i);
        }
        assert forall|k: (ExecutionId, K::KV)| self@.dom().contains(k) implies exists|i: int| 0 <= i < self.entries().len() && entry_key(self.entries()[i]) == k by {
            lemma_fold_dom(self.entries@, k);
            let i = choose|i: int| 0 <= i < self.entries@.len() && entry_key(self.entries@[i]) == k;
            assert(entry_key(self.entries()[i]) == k);
        }
    }
}

} // verus!
