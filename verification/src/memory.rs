//! In-memory execution log: fast, ephemeral storage for executions, step
//! records, signals, timers and tags. All state is lost when dropped.

use vstd::prelude::*;
use vstd::multiset::Multiset;
use crate::error::SuspendReason;
use crate::keyed::{entry_key, without_execution, KeyedMap, NameKey};
use crate::time::now_millis;
use crate::tool::{lemma_text_lt_irreflexive, lemma_text_lt_total, lemma_text_lt_transitive, str_lt, text_lt};
use crate::uuid::{hyphenated, lemma_hyphenated_injective};
use crate::types::{ExecutionId, ExecutionMetadata, ExecutionStatus, StepKey, StepRecord, StepStatus};

verus! {

/// The text by which executions are ordered: their hyphenated identifier.
pub open spec fn id_text(id: ExecutionId) -> Seq<char> {
    hyphenated(id.0@)
}

/// Executions in strictly ascending order of identifier text.
pub open spec fn ids_ascending(s: Seq<ExecutionMetadata>) -> bool {
    forall|a: int, b: int| 0 <= a < b < s.len() ==> text_lt(id_text(#[trigger] s[a].id), id_text(#[trigger] s[b].id))
}

/// Inserts an execution at its place in a list ascending by identifier
/// text; returns the position.
fn insert_by_id(t: &mut Vec<ExecutionMetadata>, m: ExecutionMetadata) -> (k: usize)
    requires
        ids_ascending(old(t)@),
        forall|a: int| 0 <= a < old(t)@.len() ==> old(t)@[a].id != m.id,
    ensures
        ids_ascending(final(t)@),
        k <= old(t)@.len(),
        final(t)@ == old(t)@.insert(k as int, m),
{
    let key = m.id.to_text();
    let mut k: usize = 0;
    while k < t.len() && !str_lt(key.as_str(), t[k].id.to_text().as_str())
        invariant
            k <= t@.len(),
            key@ == id_text(m.id),
            ids_ascending(t@),
            forall|a: int| 0 <= a < t@.len() ==> t@[a].id != m.id,
            forall|j: int| 0 <= j < k ==> text_lt(id_text(#[trigger] t@[j].id), key@),
        decreases t@.len() - k,
    {
        proof {
            let x = t@[k as int].id;
            lemma_text_lt_total(id_text(x), key@);
            if id_text(x) == key@ {
                lemma_hyphenated_injective(x.0, m.id.0);
            }
        }
        k += 1;
    }
    let ghost t0 = t@;
    proof {
        assert forall|j: int| k <= j < t0.len() implies text_lt(key@, id_text(#[trigger] t0[j].id)) by {
            if j > k {
                lemma_text_lt_transitive(key@, id_text(t0[k as int].id), id_text(t0[j].id));
            }
        }
    }
    t.insert(k, m);
    proof {
        assert forall|a: int, b: int| 0 <= a < b < t@.len() implies text_lt(id_text(#[trigger] t@[a].id), id_text(#[trigger] t@[b].id)) by {
            if b < k {
            } else if b == k {
            } else if a < k {
                assert(t@[b] == t0[b - 1]);
                lemma_text_lt_transitive(id_text(t@[a].id), key@, id_text(t0[b - 1].id));
            } else if a == k {
                assert(t@[b] == t0[b - 1]);
            } else {
                assert(t@[a] == t0[a - 1] && t@[b] == t0[b - 1]);
            }
        }
    }
    k
}

/// The executions reordered by identifier text.
fn sort_by_id(v: Vec<ExecutionMetadata>) -> (r: Vec<ExecutionMetadata>)
    requires
        forall|a: int, b: int| 0 <= a < b < v@.len() ==> v@[a].id != v@[b].id,
    ensures
        ids_ascending(r@),
        r@.to_multiset() == v@.to_multiset(),
{
    let ghost orig = v@;
    let mut rest = v;
    let mut out: Vec<ExecutionMetadata> = Vec::new();
    proof {
        assert(out@.to_multiset() =~= Multiset::empty()) by {
            broadcast use vstd::seq_lib::group_to_multiset_ensures;
        }
        assert(rest@ =~= orig.subrange(0, rest@.len() as int));
    }
    while rest.len() > 0
        invariant
            rest@ == orig.subrange(0, rest@.len() as int),
            rest@.len() <= orig.len(),
            forall|a: int, b: int| 0 <= a < b < orig.len() ==> orig[a].id != orig[b].id,
            ids_ascending(out@),
            forall|a: int, b: int| 0 <= a < out@.len() && 0 <= b < rest@.len() ==> out@[a].id != rest@[b].id,
            out@.to_multiset().add(rest@.to_multiset()) == orig.to_multiset(),
        decreases rest@.len(),
    {
        let ghost r0 = rest@;
        let ghost o0 = out@;
        let ghost n = rest@.len() - 1;
        match rest.pop() {
            Some(m) => {
                proof {
                    assert(r0 =~= rest@.push(m));
                    vstd::seq_lib::to_multiset_build(rest@, m);
                    assert forall|a: int| 0 <= a < o0.len() implies o0[a].id != m.id by {
                        assert(r0[n] == m);
                    }
                }
                let k = insert_by_id(&mut out, m);
                proof {
                    vstd::seq_lib::to_multiset_insert(o0, k as int, m);
                    assert(out@.to_multiset().add(rest@.to_multiset()) =~= o0.to_multiset().add(r0.to_multiset())) by {
                        broadcast use vstd::multiset::group_multiset_axioms;
                    }
                    assert(rest@ =~= orig.subrange(0, rest@.len() as int));
                    assert forall|a: int, b: int| 0 <= a < out@.len() && 0 <= b < rest@.len() implies out@[a].id != rest@[b].id by {
                        assert(rest@[b] == r0[b]);
                        if a < k {
                            assert(out@[a] == o0[a]);
                        } else if a == k {
                            assert(r0[b] == orig[b] && m == orig[n]);
                        } else {
                            assert(out@[a] == o0[a - 1]);
                        }
                    }
                }
            },
            None => {},
        }
    }
    proof {
        assert(rest@.to_multiset() =~= Multiset::empty()) by {
            broadcast use vstd::seq_lib::group_to_multiset_ensures;
        }
        assert(out@.to_multiset().add(Multiset::empty()) =~= out@.to_multiset()) by {
            broadcast use vstd::multiset::group_multiset_axioms;
        }
    }
    out
}

/// The empty name: a key made of the execution alone.
pub struct NoName;

impl NameKey for NoName {
    type KV = ();

    open spec fn key_view(&self) -> () {
        ()
    }

    fn key_eq(&self, other: &Self) -> (r: bool) {
        true
    }

    fn key_copy(&self) -> (r: Self) {
        NoName
    }
}

/// The part of a step key after the execution: number, name and parameter hash.
pub struct StepName {
    pub number: u64,
    pub name: String,
    pub hash: u64,
}

impl NameKey for StepName {
    type KV = (u64, Seq<char>, u64);

    open spec fn key_view(&self) -> (u64, Seq<char>, u64) {
        (self.number, self.name@, self.hash)
    }

    fn key_eq(&self, other: &Self) -> (r: bool) {
        self.number == other.number && self.name == other.name && self.hash == other.hash
    }

    fn key_copy(&self) -> (r: Self) {
        StepName { number: self.number, name: self.name.clone(), hash: self.hash }
    }
}

/// The identity of a step key as stored.
pub open spec fn step_key_view(k: StepKey) -> (ExecutionId, (u64, Seq<char>, u64)) {
    (k.execution_id, (k.step_number, k.step_name@, k.param_hash))
}

fn step_name_of(k: &StepKey) -> (r: StepName)
    ensures
        r.key_view() == step_key_view(*k).1,
{
    StepName { number: k.step_number, name: k.step_name.clone(), hash: k.param_hash }
}

/// The stored state of an execution (its tags are kept alongside).
pub struct ExecRecord {
    pub status: ExecutionStatus,
    pub created_at: u64,
    pub updated_at: u64,
    pub step_count: u64,
    pub suspend_reason: Option<SuspendReason>,
}

impl ExecRecord {
    /// A copy of the record.
    pub fn copy(&self) -> (r: ExecRecord)
        ensures
            r == *self,
    {
        ExecRecord {
            status: self.status,
            created_at: self.created_at,
            updated_at: self.updated_at,
            step_count: self.step_count,
            suspend_reason: match &self.suspend_reason {
                Some(x) => Some(x.copy()),
                None => None,
            },
        }
    }
}

/// The tag pairs as a map (later pairs win).
pub open spec fn pairs_map(v: Seq<(String, String)>) -> Map<Seq<char>, Seq<char>>
    decreases v.len(),
{
    if v.len() == 0 {
        Map::empty()
    } else {
        pairs_map(v.drop_last()).insert(v.last().0@, v.last().1@)
    }
}

/// The entries of one execution in a map keyed by execution and name.
pub open spec fn of_execution<V>(m: Map<(ExecutionId, Seq<char>), V>, id: ExecutionId) -> Map<Seq<char>, V> {
    Map::new(|k: Seq<char>| m.dom().contains((id, k)), |k: Seq<char>| m[(id, k)])
}

/// Fast, ephemeral in-memory storage.
pub struct InMemoryStorage {
    executions: KeyedMap<NoName, ExecRecord>,
    meta_tags: KeyedMap<String, String>,
    steps: KeyedMap<StepName, StepRecord>,
    step_index: KeyedMap<u64, StepKey>,
    signals: KeyedMap<String, String>,
    timers: KeyedMap<String, u64>,
    tags: KeyedMap<String, String>,
}

impl InMemoryStorage {
    /// The executions and their stored state.
    pub closed spec fn executions(&self) -> Map<ExecutionId, ExecRecord> {
        Map::new(|id: ExecutionId| self.executions@.dom().contains((id, ())), |id: ExecutionId| self.executions@[(id, ())])
    }

    /// The tags recorded in each execution's metadata.
    pub closed spec fn meta_tags(&self) -> Map<(ExecutionId, Seq<char>), String> {
        self.meta_tags@
    }

    /// The step records by key.
    pub closed spec fn steps(&self) -> Map<(ExecutionId, (u64, Seq<char>, u64)), StepRecord> {
        self.steps@
    }

    /// The key last started at each (execution, step number).
    pub closed spec fn step_index(&self) -> Map<(ExecutionId, u64), StepKey> {
        self.step_index@
    }

    /// Signals awaiting consumption, by (execution, name).
    pub closed spec fn signals(&self) -> Map<(ExecutionId, Seq<char>), String> {
        self.signals@
    }

    /// Timers' fire times, by (execution, name).
    pub closed spec fn timers(&self) -> Map<(ExecutionId, Seq<char>), u64> {
        self.timers@
    }

    /// Tags, by (execution, key).
    pub closed spec fn tags(&self) -> Map<(ExecutionId, Seq<char>), String> {
        self.tags@
    }

    /// The stores are consistent: one entry per key, each step record
    /// stored under its own key, and each indexed key has a record.
    pub closed spec fn wf(&self) -> bool {
        &&& self.executions.wf()
        &&& self.meta_tags.wf()
        &&& self.steps.wf()
        &&& self.step_index.wf()
        &&& self.signals.wf()
        &&& self.timers.wf()
        &&& self.tags.wf()
        &&& forall|k| #[trigger] self.steps@.dom().contains(k) ==> step_key_view(self.steps@[k].key) == k
            && self.step_index@.dom().contains((k.0, k.1.0))
        &&& forall|k: (ExecutionId, u64)| #[trigger] self.step_index@.dom().contains(k) ==> {
            &&& self.steps@.dom().contains(step_key_view(self.step_index@[k]))
            &&& self.step_index@[k].execution_id == k.0
            &&& self.step_index@[k].step_number == k.1
        }
    }

    /// Empty storage.
    pub fn new() -> (s: Self)
        ensures
            s.wf(),
            s.executions() == Map::<ExecutionId, ExecRecord>::empty(),
            s.steps() == Map::<(ExecutionId, (u64, Seq<char>, u64)), StepRecord>::empty(),
            s.step_index() == Map::<(ExecutionId, u64), StepKey>::empty(),
            s.signals() == Map::<(ExecutionId, Seq<char>), String>::empty(),
            s.timers() == Map::<(ExecutionId, Seq<char>), u64>::empty(),
            s.tags() == Map::<(ExecutionId, Seq<char>), String>::empty(),
            s.meta_tags() == Map::<(ExecutionId, Seq<char>), String>::empty(),
    {
        let s = InMemoryStorage {
            executions: KeyedMap::new(),
            meta_tags: KeyedMap::new(),
            steps: KeyedMap::new(),
            step_index: KeyedMap::new(),
            signals: KeyedMap::new(),
            timers: KeyedMap::new(),
            tags: KeyedMap::new(),
        };
        assert(s.executions() =~= Map::<ExecutionId, ExecRecord>::empty());
        s
    }

    /// Create (or reset) an execution record: running, no steps, no
    /// suspension, no metadata tags, created and updated now.
    pub fn create_execution(&mut self, id: ExecutionId) -> (r: Result<(), String>)
        requires
            old(self).wf(),
        ensures
            final(self).wf(),
            r is Ok,
            final(self).executions().dom() == old(self).executions().dom().insert(id),
            forall|x: ExecutionId| x != id && old(self).executions().dom().contains(x) ==> final(self).executions()[x] == old(self).executions()[x],
            final(self).executions()[id].status == ExecutionStatus::Running,
            final(self).executions()[id].step_count == 0,
            final(self).executions()[id].suspend_reason is None,
            final(self).executions()[id].created_at == final(self).executions()[id].updated_at,
            of_execution(final(self).meta_tags(), id) == Map::<Seq<char>, String>::empty(),
            forall|x: ExecutionId| x != id ==> of_execution(final(self).meta_tags(), x) == of_execution(old(self).meta_tags(), x),
            final(self).steps() == old(self).steps(),
            final(self).step_index() == old(self).step_index(),
            final(self).signals() == old(self).signals(),
            final(self).timers() == old(self).timers(),
            final(self).tags() == old(self).tags(),
    {
        let now = now_millis();
        let rec = ExecRecord {
            status: ExecutionStatus::Running,
            created_at: now,
            updated_at: now,
            step_count: 0,
            suspend_reason: None,
        };
        self.executions.insert(id, NoName, rec);
        self.meta_tags.remove_execution(&id);
        proof {
            assert(self.executions().dom() =~= old(self).executions().dom().insert(id));
            assert(of_execution(self.meta_tags(), id) =~= Map::<Seq<char>, String>::empty());
            assert forall|x: ExecutionId| x != id implies of_execution(self.meta_tags(), x) == of_execution(old(self).meta_tags(), x) by {
                assert(of_execution(self.meta_tags(), x) =~= of_execution(old(self).meta_tags(), x));
            }
        }
        Ok(())
    }

    /// The metadata of an execution, if it exists.
    pub fn get_execution(&self, id: ExecutionId) -> (r: Result<Option<ExecutionMetadata>, String>)
        requires
            self.wf(),
        ensures
            r matches Ok(o) && (o is Some <==> self.executions().dom().contains(id)),
            r matches Ok(Some(m)) ==> meta_matches(m, id, self.executions()[id], of_execution(self.meta_tags(), id)),
    {
        match self.executions.get(&id, &NoName) {
            Some(rec) => {
                let tags = self.meta_tag_pairs(&id);
                Ok(Some(ExecutionMetadata {
                    id,
                    status: rec.status,
                    created_at: rec.created_at,
                    updated_at: rec.updated_at,
                    step_count: rec.step_count,
                    suspend_reason: match &rec.suspend_reason {
                        Some(x) => Some(x.copy()),
                        None => None,
                    },
                    tags,
                }))
            },
            None => Ok(None),
        }
    }

    fn not_found(id: &ExecutionId) -> (m: String)
        ensures
            m@ == "execution "@ + hyphenated(id.0@) + " not found"@,
    {
        let mut m = "execution ".to_owned();
        m.push_str(id.to_text().as_str());
        m.push_str(" not found");
        m
    }

    /// Set the status of an existing execution (and its update time).
    pub fn update_execution_status(&mut self, id: ExecutionId, status: ExecutionStatus) -> (r: Result<(), String>)
        requires
            old(self).wf(),
        ensures
            final(self).wf(),
            r is Ok <==> old(self).executions().dom().contains(id),
            r matches Err(m) ==> m@ == "execution "@ + hyphenated(id.0@) + " not found"@,
            r is Ok ==> final(self).executions() == old(self).executions().insert(id, ExecRecord {
                status,
                updated_at: final(self).executions()[id].updated_at,
                ..old(self).executions()[id]
            }),
            r is Err ==> final(self).executions() == old(self).executions(),
            final(self).steps() == old(self).steps(),
            final(self).step_index() == old(self).step_index(),
            final(self).signals() == old(self).signals(),
            final(self).timers() == old(self).timers(),
            final(self).tags() == old(self).tags(),
            final(self).meta_tags() == old(self).meta_tags(),
    {
        match self.executions.remove(&id, &NoName) {
            Some(rec) => {
                let now = now_millis();
                let new_rec = ExecRecord { status, updated_at: now, ..rec };
                self.executions.insert(id, NoName, new_rec);
                assert(self.executions() =~= old(self).executions().insert(id, ExecRecord {
                    status,
                    updated_at: self.executions()[id].updated_at,
                    ..old(self).executions()[id]
                }));
                Ok(())
            },
            None => {
                assert(self.executions() =~= old(self).executions());
                Err(Self::not_found(&id))
            },
        }
    }

    /// Set (or clear) the suspend reason of an existing execution.
    pub fn set_suspend_reason(&mut self, id: ExecutionId, reason: Option<SuspendReason>) -> (r: Result<(), String>)
        requires
            old(self).wf(),
        ensures
            final(self).wf(),
            r is Ok <==> old(self).executions().dom().contains(id),
            r matches Err(m) ==> m@ == "execution "@ + hyphenated(id.0@) + " not found"@,
            r is Ok ==> final(self).executions() == old(self).executions().insert(id, ExecRecord {
                suspend_reason: reason,
                updated_at: final(self).executions()[id].updated_at,
                ..old(self).executions()[id]
            }),
            r is Err ==> final(self).executions() == old(self).executions(),
            final(self).steps() == old(self).steps(),
            final(self).step_index() == old(self).step_index(),
            final(self).signals() == old(self).signals(),
            final(self).timers() == old(self).timers(),
            final(self).tags() == old(self).tags(),
            final(self).meta_tags() == old(self).meta_tags(),
    {
        match self.executions.remove(&id, &NoName) {
            Some(rec) => {
                let now = now_millis();
                let new_rec = ExecRecord { suspend_reason: reason, updated_at: now, ..rec };
                self.executions.insert(id, NoName, new_rec);
                assert(self.executions() =~= old(self).executions().insert(id, ExecRecord {
                    suspend_reason: reason,
                    updated_at: self.executions()[id].updated_at,
                    ..old(self).executions()[id]
                }));
                Ok(())
            },
            None => {
                assert(self.executions() =~= old(self).executions());
                Err(Self::not_found(&id))
            },
        }
    }

    /// Store a signal for an execution, replacing any earlier one of that name.
    pub fn store_signal(&mut self, execution_id: ExecutionId, name: &str, data: &str) -> (r: Result<(), String>)
        requires
            old(self).wf(),
        ensures
            final(self).wf(),
            r is Ok,
            final(self).signals().dom() == old(self).signals().dom().insert((execution_id, name@)),
            final(self).signals()[(execution_id, name@)]@ == data@,
            forall|k| k != (execution_id, name@) && old(self).signals().dom().contains(k) ==> final(self).signals()[k] == old(self).signals()[k],
            final(self).executions() == old(self).executions(),
            final(self).steps() == old(self).steps(),
            final(self).step_index() == old(self).step_index(),
            final(self).timers() == old(self).timers(),
            final(self).tags() == old(self).tags(),
            final(self).meta_tags() == old(self).meta_tags(),
    {
        self.signals.insert(execution_id, name.to_owned(), data.to_owned());
        assert(self.signals().dom() =~= old(self).signals().dom().insert((execution_id, name@)));
        Ok(())
    }

    /// Take a signal: return and remove it (None if it has not arrived).
    pub fn consume_signal(&mut self, execution_id: ExecutionId, name: &str) -> (r: Result<Option<String>, String>)
        requires
            old(self).wf(),
        ensures
            final(self).wf(),
            r matches Ok(o) && (o is Some <==> old(self).signals().dom().contains((execution_id, name@))),
            r matches Ok(Some(d)) ==> d == old(self).signals()[(execution_id, name@)],
            final(self).signals() == old(self).signals().remove((execution_id, name@)),
            final(self).executions() == old(self).executions(),
            final(self).steps() == old(self).steps(),
            final(self).step_index() == old(self).step_index(),
            final(self).timers() == old(self).timers(),
            final(self).tags() == old(self).tags(),
            final(self).meta_tags() == old(self).meta_tags(),
    {
        let key = name.to_owned();
        Ok(self.signals.remove(&execution_id, &key))
    }

    /// Look at a signal without consuming it.
    pub fn peek_signal(&self, execution_id: ExecutionId, name: &str) -> (r: Result<Option<String>, String>)
        requires
            self.wf(),
        ensures
            r matches Ok(o) && (o is Some <==> self.signals().dom().contains((execution_id, name@))),
            r matches Ok(Some(d)) ==> d == self.signals()[(execution_id, name@)],
    {
        let key = name.to_owned();
        match self.signals.get(&execution_id, &key) {
            Some(d) => Ok(Some(d.clone())),
            None => Ok(None),
        }
    }

    /// Register (or move) a timer.
    pub fn create_timer(&mut self, execution_id: ExecutionId, name: &str, fire_at_millis: u64) -> (r: Result<(), String>)
        requires
            old(self).wf(),
        ensures
            final(self).wf(),
            r is Ok,
            final(self).timers() == old(self).timers().insert((execution_id, name@), fire_at_millis),
            final(self).executions() == old(self).executions(),
            final(self).steps() == old(self).steps(),
            final(self).step_index() == old(self).step_index(),
            final(self).signals() == old(self).signals(),
            final(self).tags() == old(self).tags(),
            final(self).meta_tags() == old(self).meta_tags(),
    {
        self.timers.insert(execution_id, name.to_owned(), fire_at_millis);
        Ok(())
    }

    /// The timers due at time `now`: each (execution, name, fire time) with a
    /// fire time no later than `now`, each once.
    pub fn expired_timers_at(&self, now: u64) -> (r: Vec<(ExecutionId, String, u64)>)
        requires
            self.wf(),
        ensures
            forall|i: int| 0 <= i < r@.len() ==> {
                &&& self.timers().dom().contains((#[trigger] r@[i].0, r@[i].1@))
                &&& self.timers()[(r@[i].0, r@[i].1@)] == r@[i].2
                &&& r@[i].2 <= now
            },
            forall|k: (ExecutionId, Seq<char>)| self.timers().dom().contains(k) && self.timers()[k] <= now ==> exists|i: int| 0 <= i < r@.len() && (r@[i].0, r@[i].1@) == k,
            forall|i: int, j: int| 0 <= i < j < r@.len() ==> (r@[i].0, r@[i].1@) != (r@[j].0, r@[j].1@),
    {
        let mut out: Vec<(ExecutionId, String, u64)> = Vec::new();
        let n = self.timers.len();
        proof {
            self.timers.lemma_entries();
        }
        let mut i: usize = 0;
        while i < n
            invariant
                n == self.timers.entries().len(),
                i <= n,
                self.wf(),
                forall|j: int| 0 <= j < n ==> self.timers@.dom().contains(entry_key(#[trigger] self.timers.entries()[j])) && self.timers@[entry_key(self.timers.entries()[j])] == self.timers.entries()[j].2,
                forall|k: (ExecutionId, Seq<char>)| self.timers@.dom().contains(k) ==> exists|j: int| 0 <= j < n && entry_key(self.timers.entries()[j]) == k,
                crate::keyed::keys_unique(self.timers.entries()),
                forall|a: int| 0 <= a < out@.len() ==> exists|j: int| 0 <= j < i && timer_key(#[trigger] out@[a]) == entry_key(self.timers.entries()[j]) && out@[a].2 == self.timers.entries()[j].2,
                forall|j: int| 0 <= j < i && self.timers.entries()[j].2 <= now ==> exists|a: int| 0 <= a < out@.len() && (out@[a].0, out@[a].1@) == entry_key(#[trigger] self.timers.entries()[j]),
                forall|a: int| 0 <= a < out@.len() ==> out@[a].2 <= now,
                forall|a: int, b: int| 0 <= a < b < out@.len() ==> (out@[a].0, out@[a].1@) != (out@[b].0, out@[b].1@),
            decreases n - i,
        {
            let e = self.timers.entry_at(i);
            let ghost es = self.timers.entries();
            if e.2 <= now {
                let ghost old_out = out@;
                proof {
                    assert forall|a: int| 0 <= a < old_out.len() implies (old_out[a].0, old_out[a].1@) != entry_key(es[i as int]) by {
                        let j = choose|j: int| 0 <= j < i && timer_key(old_out[a]) == entry_key(es[j]) && old_out[a].2 == es[j].2;
                        assert(entry_key(es[j]) != entry_key(es[i as int]));
                    }
                }
                out.push((e.0, e.1.clone(), e.2));
                proof {
                    assert forall|a: int| 0 <= a < out@.len() implies exists|j: int| 0 <= j < i + 1 && timer_key(#[trigger] out@[a]) == entry_key(es[j]) && out@[a].2 == es[j].2 by {
                        if a < old_out.len() {
                            assert(out@[a] == old_out[a]);
                        } else {
                            assert((out@[a].0, out@[a].1@) == entry_key(es[i as int]));
                        }
                    }
                    assert forall|j: int| 0 <= j < i + 1 && es[j].2 <= now implies exists|a: int| 0 <= a < out@.len() && (out@[a].0, out@[a].1@) == entry_key(#[trigger] es[j]) by {
                        if j < i {
                            let a = choose|a: int| 0 <= a < old_out.len() && (old_out[a].0, old_out[a].1@) == entry_key(es[j]);
                            assert(out@[a] == old_out[a]);
                        } else {
                            assert((out@[old_out.len() as int].0, out@[old_out.len() as int].1@) == entry_key(es[j]));
                        }
                    }
                }
            }
            i += 1;
        }
        proof {
            assert forall|k: (ExecutionId, Seq<char>)| self.timers().dom().contains(k) && self.timers()[k] <= now implies exists|i: int| 0 <= i < out@.len() && (out@[i].0, out@[i].1@) == k by {
                let j = choose|j: int| 0 <= j < n && entry_key(self.timers.entries()[j]) == k;
                assert(self.timers.entries()[j].2 <= now);
            }
            assert forall|a: int| 0 <= a < out@.len() implies self.timers().dom().contains((#[trigger] out@[a].0, out@[a].1@)) && self.timers()[(out@[a].0, out@[a].1@)] == out@[a].2 && out@[a].2 <= now by {
                let j = choose|j: int| 0 <= j < n && timer_key(out@[a]) == entry_key(self.timers.entries()[j]) && out@[a].2 == self.timers.entries()[j].2;
            }
        }
        out
    }

    /// The timers due now (by the wall clock).
    pub fn get_expired_timers(&self) -> (r: Result<Vec<(ExecutionId, String, u64)>, String>)
        requires
            self.wf(),
        ensures
            r matches Ok(v) && forall|i: int| 0 <= i < v@.len() ==> self.timers().dom().contains((#[trigger] v@[i].0, v@[i].1@)) && self.timers()[(v@[i].0, v@[i].1@)] == v@[i].2,
            r is Ok && exists|now: u64| #[trigger] due_listed(self.timers(), r->Ok_0@, now),
    {
        let now = now_millis();
        let v = self.expired_timers_at(now);
        assert forall|i: int| 0 <= i < v@.len() implies #[trigger] v@[i].2 <= now by {
            assert(self.timers().dom().contains((v@[i].0, v@[i].1@)));
        }
        assert(due_listed(self.timers(), v@, now));
        let r: Result<Vec<(ExecutionId, String, u64)>, String> = Ok(v);
        assert(r->Ok_0@ == v@);
        r
    }

    /// Remove a timer after it fires.
    pub fn delete_timer(&mut self, execution_id: ExecutionId, name: &str) -> (r: Result<(), String>)
        requires
            old(self).wf(),
        ensures
            final(self).wf(),
            r is Ok,
            final(self).timers() == old(self).timers().remove((execution_id, name@)),
            final(self).executions() == old(self).executions(),
            final(self).steps() == old(self).steps(),
            final(self).step_index() == old(self).step_index(),
            final(self).signals() == old(self).signals(),
            final(self).tags() == old(self).tags(),
            final(self).meta_tags() == old(self).meta_tags(),
    {
        let key = name.to_owned();
        let _ = self.timers.remove(&execution_id, &key);
        Ok(())
    }

    /// Set a tag; an existing execution also records it in its metadata.
    pub fn set_tag(&mut self, execution_id: ExecutionId, key: &str, value: &str) -> (r: Result<(), String>)
        requires
            old(self).wf(),
        ensures
            final(self).wf(),
            r is Ok,
            final(self).tags().dom() == old(self).tags().dom().insert((execution_id, key@)),
            final(self).tags()[(execution_id, key@)]@ == value@,
            forall|k| k != (execution_id, key@) && old(self).tags().dom().contains(k) ==> final(self).tags()[k] == old(self).tags()[k],
            old(self).executions().dom().contains(execution_id) ==> {
                &&& final(self).meta_tags().dom() == old(self).meta_tags().dom().insert((execution_id, key@))
                &&& final(self).meta_tags()[(execution_id, key@)]@ == value@
                &&& forall|k| k != (execution_id, key@) && old(self).meta_tags().dom().contains(k) ==> final(self).meta_tags()[k] == old(self).meta_tags()[k]
            },
            !old(self).executions().dom().contains(execution_id) ==> final(self).meta_tags() == old(self).meta_tags(),
            final(self).executions() == old(self).executions(),
            final(self).steps() == old(self).steps(),
            final(self).step_index() == old(self).step_index(),
            final(self).signals() == old(self).signals(),
            final(self).timers() == old(self).timers(),
    {
        self.tags.insert(execution_id, key.to_owned(), value.to_owned());
        assert(self.tags().dom() =~= old(self).tags().dom().insert((execution_id, key@)));
        if self.executions.get(&execution_id, &NoName).is_some() {
            self.meta_tags.insert(execution_id, key.to_owned(), value.to_owned());
            assert(self.meta_tags().dom() =~= old(self).meta_tags().dom().insert((execution_id, key@)));
        }
        Ok(())
    }

    /// The value of a tag.
    pub fn get_tag(&self, execution_id: ExecutionId, key: &str) -> (r: Result<Option<String>, String>)
        requires
            self.wf(),
        ensures
            r matches Ok(o) && (o is Some <==> self.tags().dom().contains((execution_id, key@))),
            r matches Ok(Some(v)) ==> v == self.tags()[(execution_id, key@)],
    {
        let k = key.to_owned();
        match self.tags.get(&execution_id, &k) {
            Some(v) => Ok(Some(v.clone())),
            None => Ok(None),
        }
    }

    /// Delete an execution and everything recorded for it.
    pub fn delete_execution(&mut self, id: ExecutionId) -> (r: Result<(), String>)
        requires
            old(self).wf(),
        ensures
            final(self).wf(),
            r is Ok,
            final(self).executions() == old(self).executions().remove(id),
            final(self).steps() == without_execution(old(self).steps(), id),
            final(self).step_index() == without_execution(old(self).step_index(), id),
            final(self).signals() == without_execution(old(self).signals(), id),
            final(self).timers() == without_execution(old(self).timers(), id),
            final(self).tags() == without_execution(old(self).tags(), id),
            final(self).meta_tags() == without_execution(old(self).meta_tags(), id),
    {
        self.executions.remove_execution(&id);
        self.meta_tags.remove_execution(&id);
        self.steps.remove_execution(&id);
        self.step_index.remove_execution(&id);
        self.signals.remove_execution(&id);
        self.timers.remove_execution(&id);
        self.tags.remove_execution(&id);
        proof {
            assert(self.executions() =~= old(self).executions().remove(id));
            assert forall|k: (ExecutionId, u64)| #[trigger] self.step_index@.dom().contains(k) implies {
                &&& self.steps@.dom().contains(step_key_view(self.step_index@[k]))
                &&& self.step_index@[k].execution_id == k.0
                &&& self.step_index@[k].step_number == k.1
            } by {
                assert(old(self).step_index@.dom().contains(k));
            }
        }
        Ok(())
    }

    /// Record the start of a step: a running record (one attempt, started
    /// now) stored under its key, the key indexed under its number, and the
    /// execution's step count raised to cover it.
    pub fn log_step_start(&mut self, key: StepKey) -> (r: Result<StepRecord, String>)
        requires
            old(self).wf(),
            key.step_number < u64::MAX,
        ensures
            final(self).wf(),
            r matches Ok(rec) && {
                &&& rec.key == key
                &&& rec.status == StepStatus::Running
                &&& rec.result is None
                &&& rec.error is None
                &&& !rec.retryable
                &&& rec.attempts == 1
                &&& rec.completed_at is None
                &&& final(self).steps() == old(self).steps().insert(step_key_view(key), rec)
            },
            final(self).step_index() == old(self).step_index().insert((key.execution_id, key.step_number), key),
            old(self).executions().dom().contains(key.execution_id) ==> final(self).executions() == old(self).executions().insert(key.execution_id, ExecRecord {
                step_count: if old(self).executions()[key.execution_id].step_count > key.step_number + 1 {
                    old(self).executions()[key.execution_id].step_count
                } else {
                    (key.step_number + 1) as u64
                },
                updated_at: final(self).executions()[key.execution_id].updated_at,
                ..old(self).executions()[key.execution_id]
            }),
            !old(self).executions().dom().contains(key.execution_id) ==> final(self).executions() == old(self).executions(),
            final(self).signals() == old(self).signals(),
            final(self).timers() == old(self).timers(),
            final(self).tags() == old(self).tags(),
            final(self).meta_tags() == old(self).meta_tags(),
    {
        let now = now_millis();
        let record = StepRecord {
            key: key.copy(),
            status: StepStatus::Running,
            result: None,
            error: None,
            retryable: false,
            attempts: 1,
            started_at: now,
            completed_at: None,
        };
        let id = key.execution_id;
        let name = step_name_of(&key);
        let out = record.copy();
        self.steps.insert(id, name, record);
        self.step_index.insert(id, key.step_number, key.copy());
        match self.executions.remove(&id, &NoName) {
            Some(rec) => {
                let count = if rec.step_count > key.step_number + 1 { rec.step_count } else { key.step_number + 1 };
                let new_rec = ExecRecord { step_count: count, updated_at: now, ..rec };
                self.executions.insert(id, NoName, new_rec);
                assert(self.executions() =~= old(self).executions().insert(id, ExecRecord {
                    step_count: count,
                    updated_at: self.executions()[id].updated_at,
                    ..old(self).executions()[id]
                }));
            },
            None => {
                assert(self.executions() =~= old(self).executions());
            },
        }
        proof {
            assert forall|k| #[trigger] self.steps@.dom().contains(k) implies step_key_view(self.steps@[k].key) == k by {
                if k != step_key_view(key) {
                    assert(old(self).steps@.dom().contains(k));
                }
            }
        }
        Ok(out)
    }

    /// Record the outcome of a started step: failed when an error is given,
    /// completed otherwise, with the result, error, retryability and the
    /// completion time. A step never started is an error.
    pub fn log_step_completion(
        &mut self,
        key: &StepKey,
        result: Option<String>,
        error: Option<String>,
        retryable: bool,
    ) -> (r: Result<(), String>)
        requires
            old(self).wf(),
        ensures
            final(self).wf(),
            r is Ok <==> old(self).steps().dom().contains(step_key_view(*key)),
            r is Ok ==> final(self).steps() == old(self).steps().insert(step_key_view(*key), StepRecord {
                status: if error is Some { StepStatus::Failed } else { StepStatus::Completed },
                result,
                error,
                retryable,
                completed_at: final(self).steps()[step_key_view(*key)].completed_at,
                ..old(self).steps()[step_key_view(*key)]
            }),
            r is Ok ==> final(self).steps()[step_key_view(*key)].completed_at is Some,
            r is Err ==> final(self).steps() == old(self).steps(),
            final(self).executions() == old(self).executions(),
            final(self).step_index() == old(self).step_index(),
            final(self).signals() == old(self).signals(),
            final(self).timers() == old(self).timers(),
            final(self).tags() == old(self).tags(),
            final(self).meta_tags() == old(self).meta_tags(),
    {
        let name = step_name_of(key);
        match self.steps.remove(&key.execution_id, &name) {
            Some(rec) => {
                let now = now_millis();
                let status = if error.is_some() { StepStatus::Failed } else { StepStatus::Completed };
                let new_rec = StepRecord { status, result, error, retryable, completed_at: Some(now), ..rec };
                let ghost expected = new_rec;
                self.steps.insert(key.execution_id, name, new_rec);
                proof {
                    assert(self.steps() =~= old(self).steps().insert(step_key_view(*key), expected));
                    assert forall|k| #[trigger] self.steps@.dom().contains(k) implies step_key_view(self.steps@[k].key) == k by {
                        assert(old(self).steps@.dom().contains(k));
                    }
                }
                Ok(())
            },
            None => {
                assert(self.steps() =~= old(self).steps());
                let mut m = "step ".to_owned();
                m.push_str(key.key_text().as_str());
                m.push_str(" not found");
                Err(m)
            },
        }
    }

    /// The record stored under a step key.
    pub fn get_step(&self, key: &StepKey) -> (r: Result<Option<StepRecord>, String>)
        requires
            self.wf(),
        ensures
            r matches Ok(o) && (o is Some <==> self.steps().dom().contains(step_key_view(*key))),
            r matches Ok(Some(rec)) ==> rec == self.steps()[step_key_view(*key)],
    {
        let name = step_name_of(key);
        match self.steps.get(&key.execution_id, &name) {
            Some(rec) => Ok(Some(rec.copy())),
            None => Ok(None),
        }
    }

    /// The record of the step last started at a step number.
    pub fn get_step_by_number(&self, execution_id: ExecutionId, step_number: u64) -> (r: Result<Option<StepRecord>, String>)
        requires
            self.wf(),
        ensures
            r matches Ok(o) && (o is Some <==> self.step_index().dom().contains((execution_id, step_number))),
            r matches Ok(Some(rec)) ==> rec == self.steps()[step_key_view(self.step_index()[(execution_id, step_number)])],
    {
        match self.step_index.get(&execution_id, &step_number) {
            Some(key) => {
                assert(self.step_index@.dom().contains((execution_id, step_number)));
                self.get_step(key)
            },
            None => Ok(None),
        }
    }

    /// All step records of an execution, ordered by step number.
    pub fn get_steps(&self, execution_id: ExecutionId) -> (r: Result<Vec<StepRecord>, String>)
        requires
            self.wf(),
        ensures
            r matches Ok(v) && {
                &&& sorted_by_number(v@)
                &&& distinct_keys(v@)
                &&& forall|a: int| 0 <= a < v@.len() ==> (#[trigger] v@[a]).key.execution_id == execution_id
                    && self.steps().dom().contains(step_key_view(v@[a].key))
                    && self.steps()[step_key_view(v@[a].key)] == v@[a]
                &&& forall|k| #[trigger] self.steps().dom().contains(k) && k.0 == execution_id ==> exists|a: int| 0 <= a < v@.len() && step_key_view(v@[a].key) == k
            },
    {
        let mut out: Vec<StepRecord> = Vec::new();
        let n = self.steps.len();
        let ghost es = self.steps.entries();
        proof {
            self.steps.lemma_entries();
            assert forall|j: int| 0 <= j < n implies entry_key(#[trigger] es[j]) == step_key_view(es[j].2.key) by {
                assert(self.steps@.dom().contains(entry_key(es[j])));
            }
        }
        let mut i: usize = 0;
        let ghost mut src: Seq<int> = Seq::empty();
        while i < n
            invariant
                n == es.len(),
                es == self.steps.entries(),
                i <= n,
                crate::keyed::keys_unique(es),
                forall|j: int| 0 <= j < n ==> entry_key(#[trigger] es[j]) == step_key_view(es[j].2.key),
                sorted_by_number(out@),
                distinct_keys(out@),
                src.len() == out@.len(),
                forall|a: int| 0 <= a < out@.len() ==> 0 <= #[trigger] src[a] < i && es[src[a]].0 == execution_id && out@[a] == es[src[a]].2,
                forall|j: int| 0 <= j < i && (#[trigger] es[j]).0 == execution_id ==> exists|a: int| 0 <= a < src.len() && src[a] == j,
            decreases n - i,
        {
            let e = self.steps.entry_at(i);
            if e.0.same(&execution_id) {
                let rec = e.2.copy();
                let mut p: usize = 0;
                while p < out.len() && out[p].key.step_number <= rec.key.step_number
                    invariant
                        p <= out@.len(),
                        forall|a: int| 0 <= a < p ==> out@[a].key.step_number <= rec.key.step_number,
                    decreases out@.len() - p,
                {
                    p += 1;
                }
                let ghost old_out = out@;
                let ghost old_src = src;
                proof {
                    assert forall|a: int| 0 <= a < old_out.len() implies step_key_view(old_out[a].key) != step_key_view(rec.key) by {
                        let j = old_src[a];
                        assert(entry_key(es[j]) != entry_key(es[i as int]));
                    }
                }
                out.insert(p, rec);
                proof {
                    lemma_insert_sorted(old_out, p as int, rec);
                    old_src.insert_ensures(p as int, i as int);
                    src = old_src.insert(p as int, i as int);
                    assert forall|j: int| 0 <= j < i + 1 && (#[trigger] es[j]).0 == execution_id implies exists|a: int| 0 <= a < src.len() && src[a] == j by {
                        if j == i {
                            assert(src[p as int] == j);
                        } else {
                            let a = choose|a: int| 0 <= a < old_src.len() && old_src[a] == j;
                            if a < p {
                                assert(src[a] == old_src[a]);
                            } else {
                                assert(src[a + 1] == old_src[a]);
                            }
                        }
                    }
                }
            }
            i += 1;
        }
        proof {
            assert forall|a: int| 0 <= a < out@.len() implies (#[trigger] out@[a]).key.execution_id == execution_id
                && self.steps().dom().contains(step_key_view(out@[a].key))
                && self.steps()[step_key_view(out@[a].key)] == out@[a] by {
                let j = src[a];
                assert(entry_key(es[j]) == step_key_view(es[j].2.key));
            }
            assert forall|k| #[trigger] self.steps().dom().contains(k) && k.0 == execution_id implies exists|a: int| 0 <= a < out@.len() && step_key_view(out@[a].key) == k by {
                let j = choose|j: int| 0 <= j < n && entry_key(es[j]) == k;
                assert(es[j].0 == execution_id);
                let a = choose|a: int| 0 <= a < src.len() && src[a] == j;
                assert(step_key_view(out@[a].key) == k);
            }
        }
        Ok(out)
    }

    /// The metadata of all executions, or of those with a given status, in
    /// ascending order of identifier text.
    pub fn list_executions(&self, status: Option<ExecutionStatus>) -> (r: Result<Vec<ExecutionMetadata>, String>)
        requires
            self.wf(),
        ensures
            r matches Ok(v) && {
                &&& ids_ascending(v@)
                &&& forall|a: int| 0 <= a < v@.len() ==> {
                    &&& self.executions().dom().contains((#[trigger] v@[a]).id)
                    &&& (status matches Some(st) ==> self.executions()[v@[a].id].status == st)
                    &&& meta_matches(v@[a], v@[a].id, self.executions()[v@[a].id], of_execution(self.meta_tags(), v@[a].id))
                }
                &&& forall|id: ExecutionId| #[trigger] self.executions().dom().contains(id) && (status matches Some(st) ==> self.executions()[id].status == st) ==> exists|a: int| 0 <= a < v@.len() && v@[a].id == id
                &&& forall|a: int, b: int| 0 <= a < b < v@.len() ==> v@[a].id != v@[b].id
            },
    {
        let mut out: Vec<ExecutionMetadata> = Vec::new();
        let n = self.executions.len();
        let ghost es = self.executions.entries();
        proof {
            self.executions.lemma_entries();
        }
        let mut i: usize = 0;
        let ghost mut src: Seq<int> = Seq::empty();
        while i < n
            invariant
                n == es.len(),
                es == self.executions.entries(),
                i <= n,
                self.wf(),
                crate::keyed::keys_unique(es),
                forall|j: int| 0 <= j < n ==> self.executions@.dom().contains(entry_key(#[trigger] es[j])) && self.executions@[entry_key(es[j])] == es[j].2,
                src.len() == out@.len(),
                forall|a: int| 0 <= a < out@.len() ==> 0 <= #[trigger] src[a] < i && es[src[a]].0 == out@[a].id
                    && self.executions().dom().contains(out@[a].id)
                    && (status matches Some(st) ==> self.executions()[out@[a].id].status == st)
                    && meta_matches(out@[a], out@[a].id, self.executions()[out@[a].id], of_execution(self.meta_tags(), out@[a].id)),
                forall|a: int, b: int| 0 <= a < b < out@.len() ==> src[a] < src[b],
                forall|j: int| 0 <= j < i && (status matches Some(st) ==> (#[trigger] es[j]).2.status == st) ==> exists|a: int| 0 <= a < src.len() && src[a] == j,
            decreases n - i,
        {
            let e = self.executions.entry_at(i);
            let keep = match &status {
                Some(st) => e.2.status.same(st),
                None => true,
            };
            proof {
                assert(self.executions@.dom().contains(entry_key(es[i as int])));
                assert(self.executions()[e.0] == es[i as int].2);
            }
            if keep {
                let m = self.get_execution(e.0);
                match m {
                    Ok(Some(meta)) => {
                        let ghost old_src = src;
                        let ghost old_out = out@;
                        out.push(meta);
                        proof {
                            src = old_src.push(i as int);
                            assert forall|a: int| 0 <= a < out@.len() implies 0 <= #[trigger] src[a] < i + 1 && es[src[a]].0 == out@[a].id
                                && self.executions().dom().contains(out@[a].id)
                                && (status matches Some(st) ==> self.executions()[out@[a].id].status == st)
                                && meta_matches(out@[a], out@[a].id, self.executions()[out@[a].id], of_execution(self.meta_tags(), out@[a].id)) by {
                                if a < old_out.len() {
                                    assert(out@[a] == old_out[a]);
                                    assert(src[a] == old_src[a]);
                                }
                            }
                            assert forall|a: int, b: int| 0 <= a < b < out@.len() implies src[a] < src[b] by {
                                if b < old_out.len() {
                                    assert(src[a] == old_src[a] && src[b] == old_src[b]);
                                } else {
                                    assert(src[a] == old_src[a]);
                                }
                            }
                            assert forall|j: int| 0 <= j < i + 1 && (status matches Some(st) ==> (#[trigger] es[j]).2.status == st) implies exists|a: int| 0 <= a < src.len() && src[a] == j by {
                                if j == i {
                                    assert(src[old_src.len() as int] == j);
                                } else {
                                    let a = choose|a: int| 0 <= a < old_src.len() && old_src[a] == j;
                                    assert(src[a] == old_src[a]);
                                }
                            }
                        }
                    },
                    _ => {},
                }
            }
            i += 1;
        }
        proof {
            assert forall|a: int, b: int| 0 <= a < b < out@.len() implies out@[a].id != out@[b].id by {
                assert(src[a] < src[b]);
                assert(entry_key(es[src[a]]) != entry_key(es[src[b]]));
            }
            assert forall|a: int| 0 <= a < out@.len() implies {
                &&& self.executions().dom().contains((#[trigger] out@[a]).id)
                &&& (status matches Some(st) ==> self.executions()[out@[a].id].status == st)
                &&& meta_matches(out@[a], out@[a].id, self.executions()[out@[a].id], of_execution(self.meta_tags(), out@[a].id))
            } by {
                assert(0 <= src[a] < n);
            }
            assert forall|id: ExecutionId| #[trigger] self.executions().dom().contains(id) && (status matches Some(st) ==> self.executions()[id].status == st) implies exists|a: int| 0 <= a < out@.len() && out@[a].id == id by {
                assert(self.executions@.dom().contains((id, ())));
                let j = choose|j: int| 0 <= j < n && entry_key(es[j]) == (id, ());
                let a = choose|a: int| 0 <= a < src.len() && src[a] == j;
                assert(out@[a].id == id);
            }
        }
        let sorted = sort_by_id(out);
        proof {
            assert forall|a: int| 0 <= a < sorted@.len() implies exists|j: int| 0 <= j < out@.len() && out@[j] == #[trigger] sorted@[a] by {
                vstd::seq_lib::to_multiset_contains(sorted@, sorted@[a]);
                vstd::seq_lib::to_multiset_contains(out@, sorted@[a]);
                assert(sorted@.contains(sorted@[a]));
            }
            assert forall|id: ExecutionId| #[trigger] self.executions().dom().contains(id) && (status matches Some(st) ==> self.executions()[id].status == st) implies exists|b: int| 0 <= b < sorted@.len() && sorted@[b].id == id by {
                let a = choose|a: int| 0 <= a < out@.len() && out@[a].id == id;
                vstd::seq_lib::to_multiset_contains(sorted@, out@[a]);
                vstd::seq_lib::to_multiset_contains(out@, out@[a]);
                assert(out@.contains(out@[a]));
            }
            assert forall|a: int, b: int| 0 <= a < b < sorted@.len() implies sorted@[a].id != sorted@[b].id by {
                lemma_text_lt_irreflexive(id_text(sorted@[a].id));
            }
        }
        Ok(sorted)
    }

    /// Delete every execution created before `cutoff` (and all its data).
    /// Returns how many were deleted.
    pub fn cleanup_created_before(&mut self, cutoff: u64) -> (r: u64)
        requires
            old(self).wf(),
        ensures
            final(self).wf(),
            r == old(self).executions().dom().filter(|id: ExecutionId| old(self).executions()[id].created_at < cutoff).len(),
            final(self).executions() == old(self).executions().restrict(old(self).executions().dom().filter(|id: ExecutionId| old(self).executions()[id].created_at >= cutoff)),
            forall|k| #[trigger] final(self).steps().dom().contains(k) <==> old(self).steps().dom().contains(k) && !(old(self).executions().dom().contains(k.0) && old(self).executions()[k.0].created_at < cutoff),
            forall|k| #[trigger] final(self).signals().dom().contains(k) <==> old(self).signals().dom().contains(k) && !(old(self).executions().dom().contains(k.0) && old(self).executions()[k.0].created_at < cutoff),
            forall|k| #[trigger] final(self).timers().dom().contains(k) <==> old(self).timers().dom().contains(k) && !(old(self).executions().dom().contains(k.0) && old(self).executions()[k.0].created_at < cutoff),
            forall|k| #[trigger] final(self).tags().dom().contains(k) <==> old(self).tags().dom().contains(k) && !(old(self).executions().dom().contains(k.0) && old(self).executions()[k.0].created_at < cutoff),
    {
        let mut ids: Vec<ExecutionId> = Vec::new();
        let n = self.executions.len();
        let ghost es = self.executions.entries();
        let ghost old_execs = self.executions();
        proof {
            self.executions.lemma_entries();
        }
        let mut i: usize = 0;
        while i < n
            invariant
                n == es.len(),
                es == self.executions.entries(),
                old_execs == self.executions(),
                i <= n,
                crate::keyed::keys_unique(es),
                forall|j: int| 0 <= j < n ==> self.executions@.dom().contains(entry_key(#[trigger] es[j])) && self.executions@[entry_key(es[j])] == es[j].2,
                ids@.no_duplicates(),
                forall|a: int| 0 <= a < ids@.len() ==> old_execs.dom().contains(#[trigger] ids@[a]) && old_execs[ids@[a]].created_at < cutoff && exists|j: int| 0 <= j < i && es[j].0 == ids@[a],
                forall|j: int| 0 <= j < i && (#[trigger] es[j]).2.created_at < cutoff ==> ids@.contains(es[j].0),
            decreases n - i,
        {
            let e = self.executions.entry_at(i);
            proof {
                assert(self.executions@.dom().contains(entry_key(es[i as int])));
            }
            if e.2.created_at < cutoff {
                proof {
                    assert(!ids@.contains(e.0)) by {
                        if ids@.contains(e.0) {
                            let a = choose|a: int| 0 <= a < ids@.len() && ids@[a] == e.0;
                            let j = choose|j: int| 0 <= j < i && es[j].0 == ids@[a];
                            assert(entry_key(es[j]) == entry_key(es[i as int]));
                        }
                    }
                }
                let ghost old_ids = ids@;
                ids.push(e.0);
                proof {
                    assert forall|j: int| 0 <= j < i + 1 && (#[trigger] es[j]).2.created_at < cutoff implies ids@.contains(es[j].0) by {
                        if j < i {
                            let a = choose|a: int| 0 <= a < old_ids.len() && old_ids[a] == es[j].0;
                            assert(ids@[a] == old_ids[a]);
                        } else {
                            assert(ids@[old_ids.len() as int] == es[j].0);
                        }
                    }
                    assert forall|a: int| 0 <= a < ids@.len() implies old_execs.dom().contains(#[trigger] ids@[a]) && old_execs[ids@[a]].created_at < cutoff && exists|j: int| 0 <= j < i + 1 && es[j].0 == ids@[a] by {
                        if a == ids@.len() - 1 {
                            assert(es[i as int].0 == ids@[a]);
                        } else {
                            let j = choose|j: int| 0 <= j < i && es[j].0 == ids@[a];
                        }
                    }
                }
            }
            i += 1;
        }
        let ghost doomed = old_execs.dom().filter(|id: ExecutionId| old_execs[id].created_at < cutoff);
        proof {
            assert(ids@.to_set() =~= doomed) by {
                assert forall|id: ExecutionId| doomed.contains(id) implies ids@.contains(id) by {
                    assert(self.executions@.dom().contains((id, ())));
                    let j = choose|j: int| 0 <= j < n && entry_key(es[j]) == (id, ());
                    assert(es[j].2 == old_execs[id]);
                }
            }
            ids@.unique_seq_to_set();
        }
        let count = ids.len() as u64;
        let mut k: usize = 0;
        while k < ids.len()
            invariant
                k <= ids@.len(),
                self.wf(),
                ids@.to_set() == doomed,
                forall|x: ExecutionId| #[trigger] self.executions().dom().contains(x) <==> old(self).executions().dom().contains(x) && !in_prefix(ids@, k as int, x),
                forall|x: ExecutionId| #[trigger] self.executions().dom().contains(x) ==> self.executions()[x] == old(self).executions()[x],
                forall|q| #[trigger] self.steps().dom().contains(q) <==> old(self).steps().dom().contains(q) && !in_prefix(ids@, k as int, q.0),
                forall|q| #[trigger] self.signals().dom().contains(q) <==> old(self).signals().dom().contains(q) && !in_prefix(ids@, k as int, q.0),
                forall|q| #[trigger] self.timers().dom().contains(q) <==> old(self).timers().dom().contains(q) && !in_prefix(ids@, k as int, q.0),
                forall|q| #[trigger] self.tags().dom().contains(q) <==> old(self).tags().dom().contains(q) && !in_prefix(ids@, k as int, q.0),
            decreases ids@.len() - k,
        {
            let id = ids[k];
            let _ = self.delete_execution(id);
            proof {
                lemma_in_prefix_step(ids@, k as int);
            }
            k += 1;
        }
        proof {
            broadcast use vstd::set::group_set_axioms;
            assert(ids@.subrange(0, ids@.len() as int) =~= ids@);
            assert forall|x: ExecutionId| #[trigger] in_prefix(ids@, ids@.len() as int, x) <==> (old(self).executions().dom().contains(x) && old(self).executions()[x].created_at < cutoff) by {
                assert(ids@.to_set().contains(x) <==> ids@.contains(x));
                assert(doomed.contains(x) <==> (old_execs.dom().contains(x) && old_execs[x].created_at < cutoff));
            }
            let keep = old(self).executions().dom().filter(|id: ExecutionId| old(self).executions()[id].created_at >= cutoff);
            assert forall|x: ExecutionId| keep.contains(x) <==> old(self).executions().dom().contains(x) && old(self).executions()[x].created_at >= cutoff by {}
            assert(self.executions() =~= old(self).executions().restrict(keep));
            assert(doomed == old(self).executions().dom().filter(|id: ExecutionId| old(self).executions()[id].created_at < cutoff));
        }
        count
    }

    /// Delete every execution older than `age_millis` by the wall clock.
    pub fn cleanup_older_than(&mut self, age_millis: u64) -> (r: Result<u64, String>)
        requires
            old(self).wf(),
        ensures
            final(self).wf(),
            r is Ok && exists|cutoff: u64| #[trigger] cleaned_before(old(self).executions(), final(self).executions(), r->Ok_0, cutoff),
    {
        let now = now_millis();
        let cutoff = now.saturating_sub(age_millis);
        let n = self.cleanup_created_before(cutoff);
        assert(cleaned_before(old(self).executions(), self.executions(), n, cutoff));
        let r: Result<u64, String> = Ok(n);
        assert(r->Ok_0 == n);
        r
    }

    /// The metadata tags of an execution, as pairs.
    fn meta_tag_pairs(&self, id: &ExecutionId) -> (r: Vec<(String, String)>)
        requires
            self.wf(),
        ensures
            pairs_map(r@) == text_values(of_execution(self.meta_tags(), *id)),
    {
        let mut out: Vec<(String, String)> = Vec::new();
        let n = self.meta_tags.len();
        let mut i: usize = 0;
        proof {
            self.meta_tags.lemma_entries();
            assert(pairs_map(out@) =~= prefix_pairs(self.meta_tags.entries(), self.meta_tags@, *id, 0));
        }
        while i < n
            invariant
                n == self.meta_tags.entries().len(),
                i <= n,
                self.wf(),
                forall|j: int| 0 <= j < n ==> self.meta_tags@.dom().contains(entry_key(#[trigger] self.meta_tags.entries()[j])) && self.meta_tags@[entry_key(self.meta_tags.entries()[j])] == self.meta_tags.entries()[j].2,
                forall|k: (ExecutionId, Seq<char>)| self.meta_tags@.dom().contains(k) ==> exists|j: int| 0 <= j < n && entry_key(self.meta_tags.entries()[j]) == k,
                pairs_map(out@) == prefix_pairs(self.meta_tags.entries(), self.meta_tags@, *id, i as int),
            decreases n - i,
        {
            let e = self.meta_tags.entry_at(i);
            let ghost es = self.meta_tags.entries();
            if e.0.same(id) {
                let ghost old_out = out@;
                out.push((e.1.clone(), e.2.clone()));
                proof {
                    assert(out@.drop_last() =~= old_out);
                    assert(entry_key(es[i as int]) == (*id, e.1@));
                    assert(prefix_pairs(es, self.meta_tags@, *id, i + 1) =~= prefix_pairs(es, self.meta_tags@, *id, i as int).insert(e.1@, e.2@));
                }
            } else {
                assert(prefix_pairs(es, self.meta_tags@, *id, i + 1) =~= prefix_pairs(es, self.meta_tags@, *id, i as int));
            }
            i += 1;
        }
        proof {
            assert(prefix_pairs(self.meta_tags.entries(), self.meta_tags@, *id, n as int) =~= text_values(of_execution(self.meta_tags(), *id)));
        }
        out
    }
}

/// The listed timers are due at `now`, and every timer due then is
/// listed.
pub open spec fn due_listed(timers: Map<(ExecutionId, Seq<char>), u64>, v: Seq<(ExecutionId, String, u64)>, now: u64) -> bool {
    &&& forall|i: int| 0 <= i < v.len() ==> #[trigger] v[i].2 <= now
    &&& forall|k: (ExecutionId, Seq<char>)| #[trigger] timers.dom().contains(k) && timers[k] <= now ==> exists|i: int| 0 <= i < v.len() && (v[i].0, v[i].1@) == k
}

/// The executions created before `cutoff` are gone, the others stay, and
/// `n` counts the ones removed.
pub open spec fn cleaned_before(before: Map<ExecutionId, ExecRecord>, after: Map<ExecutionId, ExecRecord>, n: u64, cutoff: u64) -> bool {
    &&& n == before.dom().filter(|id: ExecutionId| before[id].created_at < cutoff).len()
    &&& after == before.restrict(before.dom().filter(|id: ExecutionId| before[id].created_at >= cutoff))
}

/// Whether `x` is among the first `k` identifiers.
pub open spec fn in_prefix(ids: Seq<ExecutionId>, k: int, x: ExecutionId) -> bool {
    ids.subrange(0, k).contains(x)
}

proof fn lemma_in_prefix_step(ids: Seq<ExecutionId>, k: int)
    requires
        0 <= k < ids.len(),
    ensures
        forall|x: ExecutionId| #[trigger] in_prefix(ids, k + 1, x) <==> in_prefix(ids, k, x) || x == ids[k],
{
    assert forall|x: ExecutionId| #[trigger] in_prefix(ids, k + 1, x) <==> in_prefix(ids, k, x) || x == ids[k] by {
        let s1 = ids.subrange(0, k + 1);
        let s0 = ids.subrange(0, k);
        if in_prefix(ids, k + 1, x) {
            let a = choose|a: int| 0 <= a < s1.len() && s1[a] == x;
            if a < k {
                assert(s0[a] == x);
            }
        }
        if in_prefix(ids, k, x) {
            let a = choose|a: int| 0 <= a < s0.len() && s0[a] == x;
            assert(s1[a] == x);
        }
        if x == ids[k] {
            assert(s1[k] == x);
        }
    }
}

/// Records ordered by step number.
pub open spec fn sorted_by_number(s: Seq<StepRecord>) -> bool {
    forall|a: int, b: int| 0 <= a < b < s.len() ==> s[a].key.step_number <= s[b].key.step_number
}

/// Records with pairwise distinct keys.
pub open spec fn distinct_keys(s: Seq<StepRecord>) -> bool {
    forall|a: int, b: int| 0 <= a < b < s.len() ==> step_key_view(s[a].key) != step_key_view(s[b].key)
}

#[verifier::spinoff_prover]
#[verifier::rlimit(40)]
proof fn lemma_insert_sorted(s: Seq<StepRecord>, p: int, rec: StepRecord)
    requires
        sorted_by_number(s),
        distinct_keys(s),
        0 <= p <= s.len(),
        forall|a: int| 0 <= a < p ==> s[a].key.step_number <= rec.key.step_number,
        p < s.len() ==> s[p].key.step_number > rec.key.step_number,
        forall|a: int| 0 <= a < s.len() ==> step_key_view(s[a].key) != step_key_view(rec.key),
    ensures
        sorted_by_number(s.insert(p, rec)),
        distinct_keys(s.insert(p, rec)),
        s.insert(p, rec).len() == s.len() + 1,
        s.insert(p, rec)[p] == rec,
        forall|a: int| 0 <= a < p ==> s.insert(p, rec)[a] == s[a],
        forall|a: int| p < a < s.len() + 1 ==> s.insert(p, rec)[a] == s[a - 1],
{
    s.insert_ensures(p, rec);
    let no = s.insert(p, rec);
    assert forall|a: int, b: int| 0 <= a < b < no.len() implies no[a].key.step_number <= no[b].key.step_number by {
        if b < p {
        } else if b == p {
        } else if a < p {
            assert(no[b] == s[b - 1]);
            if p < s.len() {
                assert(s[p].key.step_number <= s[b - 1].key.step_number);
            }
        } else if a == p {
            assert(no[b] == s[b - 1]);
            assert(s[p].key.step_number <= s[b - 1].key.step_number);
        } else {
            assert(no[a] == s[a - 1] && no[b] == s[b - 1]);
        }
    }
    assert forall|a: int, b: int| 0 <= a < b < no.len() implies step_key_view(no[a].key) != step_key_view(no[b].key) by {
        if b < p {
        } else if b == p {
        } else if a < p {
            assert(no[b] == s[b - 1]);
        } else if a == p {
            assert(no[b] == s[b - 1]);
        } else {
            assert(no[a] == s[a - 1] && no[b] == s[b - 1]);
        }
    }
}

/// The key of a timer entry.
pub open spec fn timer_key(t: (ExecutionId, String, u64)) -> (ExecutionId, Seq<char>) {
    (t.0, t.1@)
}

impl crate::storage::ExecutionLog for InMemoryStorage {
    open spec fn log_wf(&self) -> bool {
        self.wf()
    }

    open spec fn log_executions(&self) -> Map<ExecutionId, ExecRecord> {
        self.executions()
    }

    open spec fn log_steps(&self) -> Map<(ExecutionId, (u64, Seq<char>, u64)), StepRecord> {
        self.steps()
    }

    open spec fn log_signals(&self) -> Map<(ExecutionId, Seq<char>), String> {
        self.signals()
    }

    open spec fn log_timers(&self) -> Map<(ExecutionId, Seq<char>), u64> {
        self.timers()
    }

    open spec fn log_tags(&self) -> Map<(ExecutionId, Seq<char>), String> {
        self.tags()
    }

    open spec fn log_reliable(&self) -> bool {
        true
    }

    fn create_execution(&mut self, id: ExecutionId) -> (r: Result<(), String>) {
        InMemoryStorage::create_execution(self, id)
    }

    fn get_execution(&self, id: ExecutionId) -> (r: Result<Option<ExecutionMetadata>, String>) {
        InMemoryStorage::get_execution(self, id)
    }

    fn update_execution_status(&mut self, id: ExecutionId, status: ExecutionStatus) -> (r: Result<(), String>) {
        InMemoryStorage::update_execution_status(self, id, status)
    }

    fn set_suspend_reason(&mut self, id: ExecutionId, reason: Option<SuspendReason>) -> (r: Result<(), String>) {
        InMemoryStorage::set_suspend_reason(self, id, reason)
    }

    fn list_executions(&self, status: Option<ExecutionStatus>) -> (r: Result<Vec<ExecutionMetadata>, String>) {
        InMemoryStorage::list_executions(self, status)
    }

    fn log_step_start(&mut self, key: StepKey) -> (r: Result<StepRecord, String>) {
        InMemoryStorage::log_step_start(self, key)
    }

    fn log_step_completion(&mut self, key: &StepKey, result: Option<String>, error: Option<String>, retryable: bool) -> (r: Result<(), String>) {
        InMemoryStorage::log_step_completion(self, key, result, error, retryable)
    }

    fn get_step(&self, key: &StepKey) -> (r: Result<Option<StepRecord>, String>) {
        InMemoryStorage::get_step(self, key)
    }

    fn get_step_by_number(&self, execution_id: ExecutionId, step_number: u64) -> (r: Result<Option<StepRecord>, String>)
        ensures
            r matches Ok(o) && (o is Some <==> self.step_index().dom().contains((execution_id, step_number))),
            r matches Ok(Some(rec)) ==> rec == self.steps()[step_key_view(self.step_index()[(execution_id, step_number)])],
    {
        let r = InMemoryStorage::get_step_by_number(self, execution_id, step_number);
        proof {
            if self.step_index().dom().contains((execution_id, step_number)) {
                let k = step_key_view(self.step_index@[(execution_id, step_number)]);
                assert(self.steps@.dom().contains(k));
                assert(step_key_view(self.steps@[k].key) == k);
            }
        }
        r
    }

    fn get_steps(&self, execution_id: ExecutionId) -> (r: Result<Vec<StepRecord>, String>) {
        InMemoryStorage::get_steps(self, execution_id)
    }

    fn store_signal(&mut self, execution_id: ExecutionId, name: &str, data: &str) -> (r: Result<(), String>) {
        InMemoryStorage::store_signal(self, execution_id, name, data)
    }

    fn consume_signal(&mut self, execution_id: ExecutionId, name: &str) -> (r: Result<Option<String>, String>) {
        InMemoryStorage::consume_signal(self, execution_id, name)
    }

    fn peek_signal(&self, execution_id: ExecutionId, name: &str) -> (r: Result<Option<String>, String>) {
        InMemoryStorage::peek_signal(self, execution_id, name)
    }

    fn create_timer(&mut self, execution_id: ExecutionId, name: &str, fire_at_millis: u64) -> (r: Result<(), String>) {
        InMemoryStorage::create_timer(self, execution_id, name, fire_at_millis)
    }

    fn get_expired_timers(&self) -> (r: Result<Vec<(ExecutionId, String, u64)>, String>) {
        let r = InMemoryStorage::get_expired_timers(self);
        proof {
            let now = choose|now: u64| #[trigger] due_listed(self.timers(), r->Ok_0@, now);
            assert(due_listed(self.log_timers(), r->Ok_0@, now));
        }
        r
    }

    fn delete_timer(&mut self, execution_id: ExecutionId, name: &str) -> (r: Result<(), String>) {
        InMemoryStorage::delete_timer(self, execution_id, name)
    }

    fn set_tag(&mut self, execution_id: ExecutionId, key: &str, value: &str) -> (r: Result<(), String>) {
        InMemoryStorage::set_tag(self, execution_id, key, value)
    }

    fn get_tag(&self, execution_id: ExecutionId, key: &str) -> (r: Result<Option<String>, String>) {
        InMemoryStorage::get_tag(self, execution_id, key)
    }

    fn delete_execution(&mut self, id: ExecutionId) -> (r: Result<(), String>) {
        InMemoryStorage::delete_execution(self, id)
    }

    fn cleanup_older_than(&mut self, age_millis: u64) -> (r: Result<u64, String>) {
        let r = InMemoryStorage::cleanup_older_than(self, age_millis);
        proof {
            let c = choose|c: u64| #[trigger] cleaned_before(old(self).executions(), self.executions(), r->Ok_0, c);
            assert(cleaned_before(old(self).log_executions(), self.log_executions(), r->Ok_0, c));
        }
        r
    }
}

/// The metadata returned for an execution agrees with its stored record
/// and its metadata tags.
pub open spec fn meta_matches(m: ExecutionMetadata, id: ExecutionId, rec: ExecRecord, tags: Map<Seq<char>, String>) -> bool {
    &&& m.id == id
    &&& m.status == rec.status
    &&& m.created_at == rec.created_at
    &&& m.updated_at == rec.updated_at
    &&& m.step_count == rec.step_count
    &&& m.suspend_reason == rec.suspend_reason
    &&& pairs_map(m.tags@) == text_values(tags)
}

/// The texts of a map of strings.
pub open spec fn text_values(m: Map<Seq<char>, String>) -> Map<Seq<char>, Seq<char>> {
    Map::new(|k: Seq<char>| m.dom().contains(k), |k: Seq<char>| m[k]@)
}

/// The pairs of one execution among the first `i` entries.
pub open spec fn prefix_pairs(
    es: Seq<(ExecutionId, String, String)>,
    m: Map<(ExecutionId, Seq<char>), String>,
    id: ExecutionId,
    i: int,
) -> Map<Seq<char>, Seq<char>> {
    Map::new(
        |k: Seq<char>| exists|j: int| 0 <= j < i && entry_key(es[j]) == (id, k),
        |k: Seq<char>| m[(id, k)]@,
    )
}

} // verus!
