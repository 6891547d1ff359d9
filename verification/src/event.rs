//! Events of an execution's history, and the state they project to.
//!
//! The history is the source of truth: the state of an execution is the
//! fold of `apply` over its events, starting from the initial state.

use vstd::prelude::*;
use crate::keyed::KeyedMap;
use crate::types::{ExecutionId, ExecutionStatus};
use crate::uuid::hyphenated;
use crate::time::now_millis;

verus! {

/// Budget consumption carried by events. The dollar amount is the bit
/// pattern of a 64-bit float (`f64::to_bits`); it is only carried.
#[derive(Clone, Copy, Debug)]
pub struct BudgetUsage {
    pub dollars_used_bits: u64,
    pub llm_calls_used: u64,
    pub tool_calls_used: u64,
    pub start_time_millis: u64,
}

/// All possible event types in the execution lifecycle.
#[derive(Clone, Debug)]
pub enum EventType {
    /// Execution was created, with the hash and text of its system prompt.
    ExecutionCreated { version: Option<String>, prompt_hash: Option<u64>, prompt_text: Option<String> },
    /// A step began executing (parameters as JSON text).
    StepStarted { step_number: u64, step_name: String, param_hash: u64, params: String },
    /// A step completed successfully (result as JSON text).
    StepCompleted { step_number: u64, step_name: String, result: String },
    /// A step failed.
    StepFailed { step_number: u64, step_name: String, error: String, retryable: bool },
    /// Execution suspended (reason as JSON text).
    Suspended { reason: String },
    /// Execution resumed, with a new generation for fencing.
    Resumed { generation: u64 },
    /// An external signal was received.
    SignalReceived { name: String, data: String },
    /// A signal was consumed by the execution.
    SignalConsumed { name: String },
    /// A timer was created.
    TimerCreated { name: String, fire_at_millis: u64 },
    /// A timer fired.
    TimerFired { name: String },
    /// Execution completed successfully.
    ExecutionCompleted { result: String },
    /// Execution failed permanently.
    ExecutionFailed { error: String },
    /// A tag was set on the execution.
    TagSet { key: String, value: String },
    /// Compensation started for a step.
    CompensationStarted { step_name: String },
    /// Compensation completed for a step.
    CompensationCompleted { step_name: String, result: String },
    /// Compensation failed for a step.
    CompensationFailed { step_name: String, error: String },
    /// A snapshot of the state (as JSON text) covering events up to an id.
    Snapshot { state_json: String, up_to_event_id: u64 },
    /// A child flow was started from this execution.
    ChildFlowStarted { child_id: ExecutionId, input: String },
    /// A child flow completed (result delivered to the parent).
    ChildFlowCompleted { child_id: ExecutionId, result: String },
    /// A lease was acquired for mutual exclusion.
    LeaseAcquired { generation: u64, holder: String, ttl_millis: u64, acquired_at: u64 },
    /// A lease was released.
    LeaseReleased { generation: u64 },
    /// A contract was checked before tool execution.
    ContractChecked { step_name: String, contract_name: String, passed: bool, reason: Option<String> },
    /// Budget usage was updated (dollars as the bits of a 64-bit float).
    BudgetUpdated { dollars_used_bits: u64, llm_calls_used: u64, tool_calls_used: u64 },
    /// Budget was exhausted.
    BudgetExhausted { dimension: String },
}

/// A single immutable event in the execution history.
#[derive(Clone, Debug)]
pub struct Event {
    /// Increasing id within the execution.
    pub event_id: u64,
    pub execution_id: ExecutionId,
    /// When the event was created (millis since epoch).
    pub timestamp: u64,
    pub event_type: EventType,
    /// Key that makes a retried append return the existing event.
    pub idempotency_key: Option<String>,
    /// Hash of the previous event's serialised form (0 for the first).
    pub prev_hash: u64,
    /// Schema version of the payload.
    pub schema_version: u32,
    /// Lamport timestamp for ordering across executions.
    pub lamport_ts: u64,
}

/// Current schema version for newly created events.
pub const CURRENT_SCHEMA_VERSION: u32 = 1;

/// A step as the history knows it.
#[derive(Clone, Debug)]
pub struct StepSnapshot {
    pub step_number: u64,
    pub step_name: String,
    /// Which occurrence of this step name (0-based).
    pub occurrence: u64,
    pub param_hash: u64,
    pub params: String,
    pub result: Option<String>,
    pub error: Option<String>,
    pub retryable: bool,
    pub completed: bool,
}

/// A copy of an optional text.
pub fn copy_opt(t: &Option<String>) -> (r: Option<String>)
    ensures
        r == *t,
{
    match t {
        Some(s) => Some(s.clone()),
        None => None,
    }
}

impl StepSnapshot {
    /// A copy of the snapshot.
    pub fn copy(&self) -> (r: StepSnapshot)
        ensures
            r == *self,
    {
        StepSnapshot {
            step_number: self.step_number,
            step_name: self.step_name.clone(),
            occurrence: self.occurrence,
            param_hash: self.param_hash,
            params: self.params.clone(),
            result: copy_opt(&self.result),
            error: copy_opt(&self.error),
            retryable: self.retryable,
            completed: self.completed,
        }
    }
}

/// The projected state of an execution, as plain values.
pub struct StateModel {
    pub execution_id: ExecutionId,
    pub status: ExecutionStatus,
    pub generation: u64,
    pub version: Option<String>,
    pub prompt_hash: Option<u64>,
    pub prompt_text: Option<String>,
    pub step_count: u64,
    pub created_at: u64,
    pub updated_at: u64,
    pub suspend_reason: Option<String>,
    pub tags: Map<Seq<char>, String>,
    pub signals: Map<Seq<char>, String>,
    pub timers: Map<Seq<char>, u64>,
    pub steps: Map<u64, StepSnapshot>,
    pub by_name: Map<Seq<char>, Seq<StepSnapshot>>,
    pub children: Map<Seq<char>, Option<String>>,
    pub budget: BudgetUsage,
    pub lease_holder: Option<String>,
    pub lease_ttl_millis: u64,
    pub lease_acquired_at: u64,
    pub lease_generation: u64,
}

/// The state before any event: running, generation 1, nothing recorded.
pub open spec fn initial_model(id: ExecutionId) -> StateModel {
    StateModel {
        execution_id: id,
        status: ExecutionStatus::Running,
        generation: 1,
        version: None,
        prompt_hash: None,
        prompt_text: None,
        step_count: 0,
        created_at: 0,
        updated_at: 0,
        suspend_reason: None,
        tags: Map::empty(),
        signals: Map::empty(),
        timers: Map::empty(),
        steps: Map::empty(),
        by_name: Map::empty(),
        children: Map::empty(),
        budget: BudgetUsage { dollars_used_bits: 0, llm_calls_used: 0, tool_calls_used: 0, start_time_millis: 0 },
        lease_holder: None,
        lease_ttl_millis: 0,
        lease_acquired_at: 0,
        lease_generation: 0,
    }
}

/// The steps already named `name`, in order of their start.
pub open spec fn occurrences(m: StateModel, name: Seq<char>) -> Seq<StepSnapshot> {
    if m.by_name.dom().contains(name) {
        m.by_name[name]
    } else {
        Seq::empty()
    }
}

/// Mark the step started at `n` as finished: its record and its entry
/// under `name` (at the record's occurrence) take `f` applied.
pub open spec fn finish_step(m: StateModel, n: u64, name: Seq<char>, f: spec_fn(StepSnapshot) -> StepSnapshot) -> StateModel {
    if m.steps.dom().contains(n) {
        let occ = m.steps[n].occurrence;
        let by_name = if m.by_name.dom().contains(name) && occ < m.by_name[name].len() {
            m.by_name.insert(name, m.by_name[name].update(occ as int, f(m.by_name[name][occ as int])))
        } else {
            m.by_name
        };
        StateModel { steps: m.steps.insert(n, f(m.steps[n])), by_name, ..m }
    } else {
        m
    }
}

/// An event can be applied: a started step's number leaves room for the
/// step count after it.
pub open spec fn applicable(e: Event) -> bool {
    e.event_type matches EventType::StepStarted { step_number, .. } ==> step_number < u64::MAX
}

/// The state after one more event.
pub open spec fn apply_model(m0: StateModel, e: Event) -> StateModel {
    let m = StateModel { updated_at: e.timestamp, ..m0 };
    match e.event_type {
        EventType::ExecutionCreated { version, prompt_hash, prompt_text } => StateModel {
            created_at: e.timestamp,
            version,
            prompt_hash,
            prompt_text,
            status: ExecutionStatus::Running,
            ..m
        },
        EventType::StepStarted { step_number, step_name, param_hash, params } => {
            let occ = occurrences(m, step_name@);
            let snap = StepSnapshot {
                step_number,
                step_name,
                occurrence: occ.len() as u64,
                param_hash,
                params,
                result: None,
                error: None,
                retryable: false,
                completed: false,
            };
            StateModel {
                step_count: if m.step_count >= step_number + 1 { m.step_count } else { (step_number + 1) as u64 },
                by_name: m.by_name.insert(step_name@, occ.push(snap)),
                steps: m.steps.insert(step_number, snap),
                ..m
            }
        },
        EventType::StepCompleted { step_number, step_name, result } => finish_step(
            m,
            step_number,
            step_name@,
            |s: StepSnapshot| StepSnapshot { result: Some(result), completed: true, ..s },
        ),
        EventType::StepFailed { step_number, step_name, error, retryable } => finish_step(
            m,
            step_number,
            step_name@,
            |s: StepSnapshot| StepSnapshot { error: Some(error), retryable, completed: true, ..s },
        ),
        EventType::Suspended { reason } => StateModel {
            status: ExecutionStatus::Suspended,
            suspend_reason: Some(reason),
            ..m
        },
        EventType::Resumed { generation } => StateModel {
            status: ExecutionStatus::Running,
            generation,
            suspend_reason: None,
            ..m
        },
        EventType::SignalReceived { name, data } => StateModel { signals: m.signals.insert(name@, data), ..m },
        EventType::SignalConsumed { name } => StateModel { signals: m.signals.remove(name@), ..m },
        EventType::TimerCreated { name, fire_at_millis } => StateModel {
            timers: m.timers.insert(name@, fire_at_millis),
            ..m
        },
        EventType::TimerFired { name } => StateModel { timers: m.timers.remove(name@), ..m },
        EventType::ExecutionCompleted { .. } => StateModel { status: ExecutionStatus::Completed, ..m },
        EventType::ExecutionFailed { .. } => StateModel { status: ExecutionStatus::Failed, ..m },
        EventType::TagSet { key, value } => StateModel { tags: m.tags.insert(key@, value), ..m },
        EventType::CompensationStarted { .. } => StateModel { status: ExecutionStatus::Compensating, ..m },
        EventType::CompensationCompleted { .. } => m,
        EventType::CompensationFailed { .. } => StateModel { status: ExecutionStatus::CompensationFailed, ..m },
        EventType::Snapshot { .. } => m,
        EventType::ChildFlowStarted { child_id, .. } => StateModel {
            children: m.children.insert(hyphenated(child_id.0@), None),
            ..m
        },
        EventType::ChildFlowCompleted { child_id, result } => StateModel {
            children: m.children.insert(hyphenated(child_id.0@), Some(result)),
            ..m
        },
        EventType::LeaseAcquired { generation, holder, ttl_millis, acquired_at } => StateModel {
            generation,
            lease_holder: Some(holder),
            lease_ttl_millis: ttl_millis,
            lease_acquired_at: acquired_at,
            lease_generation: generation,
            ..m
        },
        EventType::LeaseReleased { generation } => if m.lease_generation == generation {
            StateModel { lease_holder: None, lease_ttl_millis: 0, lease_acquired_at: 0, ..m }
        } else {
            m
        },
        EventType::ContractChecked { .. } => m,
        EventType::BudgetUpdated { dollars_used_bits, llm_calls_used, tool_calls_used } => StateModel {
            budget: BudgetUsage { dollars_used_bits, llm_calls_used, tool_calls_used, ..m.budget },
            ..m
        },
        EventType::BudgetExhausted { .. } => m,
    }
}

/// The state after a sequence of events.
pub open spec fn fold_events(m: StateModel, events: Seq<Event>) -> StateModel
    decreases events.len(),
{
    if events.len() == 0 {
        m
    } else {
        apply_model(fold_events(m, events.drop_last()), events.last())
    }
}

/// The state of an execution projected from its history.
pub open spec fn project(id: ExecutionId, events: Seq<Event>) -> StateModel {
    fold_events(initial_model(id), events)
}

/// Every event of a sequence can be applied.
pub open spec fn all_applicable(events: Seq<Event>) -> bool {
    forall|i: int| 0 <= i < events.len() ==> applicable(#[trigger] events[i])
}

/// The entries of one execution, keyed by the second component.
pub open spec fn own<KV, V>(m: Map<(ExecutionId, KV), V>, id: ExecutionId) -> Map<KV, V> {
    Map::new(|k: KV| m.dom().contains((id, k)), |k: KV| m[(id, k)])
}

/// The texts of a sequence of step snapshots kept per name.
pub open spec fn snap_seqs(m: Map<Seq<char>, Vec<StepSnapshot>>) -> Map<Seq<char>, Seq<StepSnapshot>> {
    Map::new(|k: Seq<char>| m.dom().contains(k), |k: Seq<char>| m[k]@)
}

pub proof fn lemma_own_insert<KV, V>(m: Map<(ExecutionId, KV), V>, id: ExecutionId, k: KV, v: V)
    ensures
        own(m.insert((id, k), v), id) == own(m, id).insert(k, v),
{
    assert(own(m.insert((id, k), v), id) =~= own(m, id).insert(k, v));
}

pub proof fn lemma_own_remove<KV, V>(m: Map<(ExecutionId, KV), V>, id: ExecutionId, k: KV)
    ensures
        own(m.remove((id, k)), id) == own(m, id).remove(k),
{
    assert(own(m.remove((id, k)), id) =~= own(m, id).remove(k));
}

/// Current state of an execution, derived from its event history.
pub struct ExecutionState {
    pub execution_id: ExecutionId,
    pub status: ExecutionStatus,
    pub generation: u64,
    pub version: Option<String>,
    /// FNV-1a hash of the system prompt recorded at creation.
    pub prompt_hash: Option<u64>,
    /// The system prompt recorded at creation.
    pub prompt_text: Option<String>,
    pub step_count: u64,
    pub created_at: u64,
    pub updated_at: u64,
    /// The reason of the last suspension, as JSON text.
    pub suspend_reason: Option<String>,
    tags: KeyedMap<String, String>,
    /// Signals received but not yet consumed.
    pending_signals: KeyedMap<String, String>,
    active_timers: KeyedMap<String, u64>,
    /// Steps by step number.
    step_results: KeyedMap<u64, StepSnapshot>,
    /// Steps by name, in order of occurrence: the primary replay lookup.
    step_results_by_name: KeyedMap<String, Vec<StepSnapshot>>,
    /// Child flows by id text, with their results once completed.
    child_flows: KeyedMap<String, Option<String>>,
    pub budget_state: BudgetUsage,
    pub lease_holder: Option<String>,
    pub lease_ttl_millis: u64,
    pub lease_acquired_at: u64,
    pub lease_generation: u64,
}

/// The lease has expired at a time: there is no holder, or the time is
/// at or past the lease's end.
pub open spec fn lease_expired(m: StateModel, now: u64) -> bool {
    m.lease_holder is None || now >= m.lease_acquired_at + m.lease_ttl_millis
}

impl ExecutionState {
    /// The state as plain values.
    pub closed spec fn model(&self) -> StateModel {
        StateModel {
            execution_id: self.execution_id,
            status: self.status,
            generation: self.generation,
            version: self.version,
            prompt_hash: self.prompt_hash,
            prompt_text: self.prompt_text,
            step_count: self.step_count,
            created_at: self.created_at,
            updated_at: self.updated_at,
            suspend_reason: self.suspend_reason,
            tags: own(self.tags@, self.execution_id),
            signals: own(self.pending_signals@, self.execution_id),
            timers: own(self.active_timers@, self.execution_id),
            steps: own(self.step_results@, self.execution_id),
            by_name: snap_seqs(own(self.step_results_by_name@, self.execution_id)),
            children: own(self.child_flows@, self.execution_id),
            budget: self.budget_state,
            lease_holder: self.lease_holder,
            lease_ttl_millis: self.lease_ttl_millis,
            lease_acquired_at: self.lease_acquired_at,
            lease_generation: self.lease_generation,
        }
    }

    /// The maps are consistent.
    pub closed spec fn wf(&self) -> bool {
        &&& self.tags.wf()
        &&& self.pending_signals.wf()
        &&& self.active_timers.wf()
        &&& self.step_results.wf()
        &&& self.step_results_by_name.wf()
        &&& self.child_flows.wf()
    }

    /// The state before any event.
    pub fn initial(execution_id: ExecutionId) -> (s: Self)
        ensures
            s.wf(),
            s.model() == initial_model(execution_id),
    {
        let s = ExecutionState {
            execution_id,
            status: ExecutionStatus::Running,
            generation: 1,
            version: None,
            prompt_hash: None,
            prompt_text: None,
            step_count: 0,
            created_at: 0,
            updated_at: 0,
            suspend_reason: None,
            tags: KeyedMap::new(),
            pending_signals: KeyedMap::new(),
            active_timers: KeyedMap::new(),
            step_results: KeyedMap::new(),
            step_results_by_name: KeyedMap::new(),
            child_flows: KeyedMap::new(),
            budget_state: BudgetUsage { dollars_used_bits: 0, llm_calls_used: 0, tool_calls_used: 0, start_time_millis: 0 },
            lease_holder: None,
            lease_ttl_millis: 0,
            lease_acquired_at: 0,
            lease_generation: 0,
        };
        assert(s.model().tags =~= Map::empty());
        assert(s.model().signals =~= Map::empty());
        assert(s.model().timers =~= Map::empty());
        assert(s.model().steps =~= Map::empty());
        assert(s.model().by_name =~= Map::empty());
        assert(s.model().children =~= Map::empty());
        s
    }

    /// Reconstruct execution state from an event sequence.
    pub fn from_events(execution_id: ExecutionId, events: &[Event]) -> (s: Self)
        requires
            all_applicable(events@),
        ensures
            s.wf(),
            s.model() == project(execution_id, events@),
    {
        let mut state = Self::initial(execution_id);
        let mut i: usize = 0;
        while i < events.len()
            invariant
                i <= events@.len(),
                all_applicable(events@),
                state.wf(),
                state.model() == fold_events(initial_model(execution_id), events@.take(i as int)),
            decreases events@.len() - i,
        {
            assert(applicable(events@[i as int]));
            state.apply(&events[i]);
            assert(events@.take(i + 1).drop_last() =~= events@.take(i as int));
            i += 1;
        }
        assert(events@.take(events@.len() as int) =~= events@);
        state
    }

    /// The execution the state belongs to.
    pub fn id(&self) -> (r: ExecutionId)
        ensures
            r == self.model().execution_id,
    {
        self.execution_id
    }

    /// The code version recorded at creation.
    pub fn recorded_version(&self) -> (r: &Option<String>)
        ensures
            *r == self.model().version,
    {
        &self.version
    }

    /// The prompt hash recorded at creation.
    pub fn recorded_prompt_hash(&self) -> (r: Option<u64>)
        ensures
            r == self.model().prompt_hash,
    {
        self.prompt_hash
    }

    /// The generation.
    pub fn current_generation(&self) -> (r: u64)
        ensures
            r == self.model().generation,
    {
        self.generation
    }

    /// A signal received but not yet consumed.
    pub fn pending_signal(&self, name: &String) -> (r: Option<&String>)
        requires
            self.wf(),
        ensures
            r is Some <==> self.model().signals.dom().contains(name@),
            r matches Some(d) ==> *d == self.model().signals[name@],
    {
        self.pending_signals.get(&self.execution_id, name)
    }

    /// The value of a tag.
    pub fn tag(&self, key: &String) -> (r: Option<&String>)
        requires
            self.wf(),
        ensures
            r is Some <==> self.model().tags.dom().contains(key@),
            r matches Some(v) ==> *v == self.model().tags[key@],
    {
        self.tags.get(&self.execution_id, key)
    }

    /// The fire time of an active timer.
    pub fn timer(&self, name: &String) -> (r: Option<u64>)
        requires
            self.wf(),
        ensures
            r is Some <==> self.model().timers.dom().contains(name@),
            r matches Some(v) ==> v == self.model().timers[name@],
    {
        match self.active_timers.get(&self.execution_id, name) {
            Some(v) => Some(*v),
            None => None,
        }
    }

    /// The numbers of the recorded steps, in ascending order.
    pub fn step_numbers(&self) -> (r: Vec<u64>)
        requires
            self.wf(),
        ensures
            forall|a: int, b: int| 0 <= a < b < r@.len() ==> r@[a] < r@[b],
            forall|a: int| 0 <= a < r@.len() ==> self.model().steps.dom().contains(#[trigger] r@[a]),
            forall|n: u64| #[trigger] self.model().steps.dom().contains(n) ==> r@.contains(n),
    {
        let ghost es = self.step_results.entries();
        proof {
            self.step_results.lemma_entries();
        }
        let len = self.step_results.len();
        let mut out: Vec<u64> = Vec::new();
        let mut i: usize = 0;
        while i < len
            invariant
                len == es.len(),
                es == self.step_results.entries(),
                i <= len,
                self.wf(),
                forall|j: int| 0 <= j < len ==> self.step_results@.dom().contains(crate::keyed::entry_key(#[trigger] es[j])),
                forall|a: int, b: int| 0 <= a < b < out@.len() ==> out@[a] < out@[b],
                forall|a: int| 0 <= a < out@.len() ==> self.model().steps.dom().contains(#[trigger] out@[a]),
                forall|j: int| 0 <= j < i && (#[trigger] es[j]).0 == self.execution_id ==> out@.contains(es[j].1),
            decreases len - i,
        {
            let e = self.step_results.entry_at(i);
            proof {
                assert(self.step_results@.dom().contains(crate::keyed::entry_key(es[i as int])));
            }
            if e.0.same(&self.execution_id) {
                let n = e.1;
                let mut k: usize = 0;
                while k < out.len() && out[k] < n
                    invariant
                        k <= out@.len(),
                        forall|a: int| 0 <= a < k ==> out@[a] < n,
                    decreases out@.len() - k,
                {
                    k += 1;
                }
                if k == out.len() || out[k] != n {
                    let ghost o0 = out@;
                    out.insert(k, n);
                    proof {
                        assert(self.model().steps.dom().contains(n));
                        assert forall|a: int, b: int| 0 <= a < b < out@.len() implies out@[a] < out@[b] by {
                            if b < k {
                                assert(out@[a] == o0[a] && out@[b] == o0[b]);
                            } else if b == k {
                                assert(out@[a] == o0[a]);
                            } else if a < k {
                                assert(out@[a] == o0[a] && out@[b] == o0[b - 1]);
                                assert(o0[k as int] > n);
                                if b - 1 > k {
                                    assert(o0[k as int] < o0[b - 1]);
                                }
                            } else if a == k {
                                assert(out@[b] == o0[b - 1]);
                                assert(o0[k as int] > n);
                                if b - 1 > k {
                                    assert(o0[k as int] < o0[b - 1]);
                                }
                            } else {
                                assert(out@[a] == o0[a - 1] && out@[b] == o0[b - 1]);
                            }
                        }
                        assert forall|a: int| 0 <= a < out@.len() implies self.model().steps.dom().contains(#[trigger] out@[a]) by {
                            if a < k {
                                assert(out@[a] == o0[a]);
                            } else if a > k {
                                assert(out@[a] == o0[a - 1]);
                            }
                        }
                        assert forall|j: int| 0 <= j < i + 1 && (#[trigger] es[j]).0 == self.execution_id implies out@.contains(es[j].1) by {
                            if j < i {
                                let a = choose|a: int| 0 <= a < o0.len() && o0[a] == es[j].1;
                                if a < k {
                                    assert(out@[a] == o0[a]);
                                } else {
                                    assert(out@[a + 1] == o0[a]);
                                }
                            } else {
                                assert(out@[k as int] == n);
                            }
                        }
                    }
                } else {
                    proof {
                        assert(out@[k as int] == n);
                        assert forall|j: int| 0 <= j < i + 1 && (#[trigger] es[j]).0 == self.execution_id implies out@.contains(es[j].1) by {
                            if j == i {
                                assert(out@[k as int] == es[j].1);
                            }
                        }
                    }
                }
            }
            i += 1;
        }
        proof {
            assert forall|n: u64| #[trigger] self.model().steps.dom().contains(n) implies out@.contains(n) by {
                assert(self.step_results@.dom().contains((self.execution_id, n)));
                let j = choose|j: int| 0 <= j < es.len() && crate::keyed::entry_key(es[j]) == (self.execution_id, n);
                assert(es[j].0 == self.execution_id);
            }
        }
        out
    }

    /// The step started with a step number.
    pub fn step_at(&self, n: u64) -> (r: Option<&StepSnapshot>)
        requires
            self.wf(),
        ensures
            r is Some <==> self.model().steps.dom().contains(n),
            r matches Some(v) ==> *v == self.model().steps[n],
    {
        self.step_results.get(&self.execution_id, &n)
    }

    /// The occurrence of a step name, in order of start.
    pub fn step_occurrence(&self, name: &String, occurrence: u64) -> (r: Option<&StepSnapshot>)
        requires
            self.wf(),
        ensures
            r is Some <==> occurrence < occurrences(self.model(), name@).len(),
            r matches Some(v) ==> *v == occurrences(self.model(), name@)[occurrence as int],
    {
        match self.step_results_by_name.get(&self.execution_id, name) {
            Some(v) => {
                if occurrence < v.len() as u64 {
                    Some(&v[occurrence as usize])
                } else {
                    None
                }
            },
            None => None,
        }
    }

    /// The known child flow with an id text, and its result if completed.
    pub fn child_flow(&self, child: &String) -> (r: Option<&Option<String>>)
        requires
            self.wf(),
        ensures
            r is Some <==> self.model().children.dom().contains(child@),
            r matches Some(v) ==> *v == self.model().children[child@],
    {
        self.child_flows.get(&self.execution_id, child)
    }

    /// Whether the lease has expired at a time: there is no holder, or
    /// the time is at or past the lease's end.
    pub fn lease_expired_at(&self, now: u64) -> (r: bool)
        requires
            self.model().lease_holder is Some ==> self.model().lease_acquired_at + self.model().lease_ttl_millis <= u64::MAX,
        ensures
            r == lease_expired(self.model(), now),
    {
        match &self.lease_holder {
            None => true,
            Some(_) => now >= self.lease_acquired_at + self.lease_ttl_millis,
        }
    }

    /// Whether the lease has expired now.
    pub fn is_lease_expired(&self) -> (r: bool)
        requires
            self.model().lease_holder is Some ==> self.model().lease_acquired_at + self.model().lease_ttl_millis <= u64::MAX,
        ensures
            self.model().lease_holder is None ==> r,
            exists|now: u64| r == #[trigger] lease_expired(self.model(), now),
    {
        let now = now_millis();
        let r = self.lease_expired_at(now);
        assert(r == lease_expired(self.model(), now));
        r
    }

    /// Apply one event to the state.
    pub fn apply(&mut self, event: &Event)
        requires
            old(self).wf(),
            applicable(*event),
        ensures
            final(self).wf(),
            final(self).model() == apply_model(old(self).model(), *event),
    {
        let id = self.execution_id;
        self.updated_at = event.timestamp;
        let ghost m = old(self).model();
        match &event.event_type {
            EventType::ExecutionCreated { version, prompt_hash, prompt_text } => {
                self.created_at = event.timestamp;
                self.version = copy_opt(version);
                self.prompt_hash = *prompt_hash;
                self.prompt_text = copy_opt(prompt_text);
                self.status = ExecutionStatus::Running;
            },
            EventType::StepStarted { step_number, step_name, param_hash, params } => {
                let n = *step_number;
                if self.step_count < n + 1 {
                    self.step_count = n + 1;
                }
                let mut occ: Vec<StepSnapshot> = match self.step_results_by_name.remove(&id, step_name) {
                    Some(v) => v,
                    None => Vec::new(),
                };
                let snapshot = StepSnapshot {
                    step_number: n,
                    step_name: step_name.clone(),
                    occurrence: occ.len() as u64,
                    param_hash: *param_hash,
                    params: params.clone(),
                    result: None,
                    error: None,
                    retryable: false,
                    completed: false,
                };
                assert(occ@ == occurrences(m, step_name@));
                occ.push(snapshot.copy());
                self.step_results_by_name.insert(id, step_name.clone(), occ);
                self.step_results.insert(id, n, snapshot);
                proof {
                    lemma_own_remove(old(self).step_results_by_name@, id, step_name@);
                    lemma_own_insert(old(self).step_results_by_name@.remove((id, step_name@)), id, step_name@, occ);
                    lemma_own_insert(old(self).step_results@, id, n, snapshot);
                    assert(self.model().by_name =~= m.by_name.insert(step_name@, occurrences(m, step_name@).push(snapshot)));
                }
            },
            EventType::StepCompleted { step_number, step_name, result } => {
                let ghost f = |s: StepSnapshot| StepSnapshot { result: Some(*result), completed: true, ..s };
                self.finish(*step_number, step_name, Some(result.clone()), None, false, Ghost(f));
            },
            EventType::StepFailed { step_number, step_name, error, retryable } => {
                let ghost f = |s: StepSnapshot| StepSnapshot { error: Some(*error), retryable: *retryable, completed: true, ..s };
                self.finish(*step_number, step_name, None, Some(error.clone()), *retryable, Ghost(f));
            },
            EventType::Suspended { reason } => {
                self.status = ExecutionStatus::Suspended;
                self.suspend_reason = Some(reason.clone());
            },
            EventType::Resumed { generation } => {
                self.status = ExecutionStatus::Running;
                self.generation = *generation;
                self.suspend_reason = None;
            },
            EventType::SignalReceived { name, data } => {
                self.pending_signals.insert(id, name.clone(), data.clone());
                proof {
                    lemma_own_insert(old(self).pending_signals@, id, name@, *data);
                }
            },
            EventType::SignalConsumed { name } => {
                self.pending_signals.remove(&id, name);
                proof {
                    lemma_own_remove(old(self).pending_signals@, id, name@);
                }
            },
            EventType::TimerCreated { name, fire_at_millis } => {
                self.active_timers.insert(id, name.clone(), *fire_at_millis);
                proof {
                    lemma_own_insert(old(self).active_timers@, id, name@, *fire_at_millis);
                }
            },
            EventType::TimerFired { name } => {
                self.active_timers.remove(&id, name);
                proof {
                    lemma_own_remove(old(self).active_timers@, id, name@);
                }
            },
            EventType::ExecutionCompleted { .. } => {
                self.status = ExecutionStatus::Completed;
            },
            EventType::ExecutionFailed { .. } => {
                self.status = ExecutionStatus::Failed;
            },
            EventType::TagSet { key, value } => {
                self.tags.insert(id, key.clone(), value.clone());
                proof {
                    lemma_own_insert(old(self).tags@, id, key@, *value);
                }
            },
            EventType::CompensationStarted { .. } => {
                self.status = ExecutionStatus::Compensating;
            },
            EventType::CompensationCompleted { .. } => {},
            EventType::CompensationFailed { .. } => {
                self.status = ExecutionStatus::CompensationFailed;
            },
            EventType::Snapshot { .. } => {},
            EventType::ChildFlowStarted { child_id, .. } => {
                let key = child_id.to_text();
                self.child_flows.insert(id, key, None);
                proof {
                    lemma_own_insert(old(self).child_flows@, id, hyphenated(child_id.0@), None::<String>);
                }
            },
            EventType::ChildFlowCompleted { child_id, result } => {
                let key = child_id.to_text();
                self.child_flows.insert(id, key, Some(result.clone()));
                proof {
                    lemma_own_insert(old(self).child_flows@, id, hyphenated(child_id.0@), Some(*result));
                }
            },
            EventType::LeaseAcquired { generation, holder, ttl_millis, acquired_at } => {
                self.generation = *generation;
                self.lease_holder = Some(holder.clone());
                self.lease_ttl_millis = *ttl_millis;
                self.lease_acquired_at = *acquired_at;
                self.lease_generation = *generation;
            },
            EventType::LeaseReleased { generation } => {
                if self.lease_generation == *generation {
                    self.lease_holder = None;
                    self.lease_ttl_millis = 0;
                    self.lease_acquired_at = 0;
                }
            },
            EventType::ContractChecked { .. } => {},
            EventType::BudgetUpdated { dollars_used_bits, llm_calls_used, tool_calls_used } => {
                self.budget_state.dollars_used_bits = *dollars_used_bits;
                self.budget_state.llm_calls_used = *llm_calls_used;
                self.budget_state.tool_calls_used = *tool_calls_used;
            },
            EventType::BudgetExhausted { .. } => {},
        }
    }

    /// Finish the step started at `n`: record a result or an error, by
    /// number and, at its occurrence, under `name`.
    fn finish(
        &mut self,
        n: u64,
        name: &String,
        result: Option<String>,
        error: Option<String>,
        retryable: bool,
        Ghost(f): Ghost<spec_fn(StepSnapshot) -> StepSnapshot>,
    )
        requires
            old(self).wf(),
            forall|s: StepSnapshot| #[trigger] f(s) == (StepSnapshot {
                result: if result is Some { result } else { s.result },
                error: if error is Some { error } else { s.error },
                retryable: if error is Some { retryable } else { s.retryable },
                completed: true,
                ..s
            }),
        ensures
            final(self).wf(),
            final(self).model() == finish_step(old(self).model(), n, name@, f),
    {
        let id = self.execution_id;
        let ghost m = old(self).model();
        let found = match self.step_results.get(&id, &n) {
            Some(snap) => Some(snap.copy()),
            None => None,
        };
        match found {
            Some(snap) => {
                let occ = snap.occurrence;
                let mut updated = snap;
                if result.is_some() {
                    updated.result = copy_opt(&result);
                }
                if error.is_some() {
                    updated.error = copy_opt(&error);
                    updated.retryable = retryable;
                }
                updated.completed = true;
                assert(updated == f(m.steps[n]));
                self.step_results.insert(id, n, updated);
                proof {
                    lemma_own_insert(old(self).step_results@, id, n, f(m.steps[n]));
                }
                let ghost mid = self.step_results_by_name@;
                match self.step_results_by_name.remove(&id, name) {
                    Some(mut v) => {
                        let ghost v0 = v@;
                        if occ < v.len() as u64 {
                            let mut e = v[occ as usize].copy();
                            if result.is_some() {
                                e.result = copy_opt(&result);
                            }
                            if error.is_some() {
                                e.error = copy_opt(&error);
                                e.retryable = retryable;
                            }
                            e.completed = true;
                            assert(e == f(v0[occ as int]));
                            v.set(occ as usize, e);
                        }
                        self.step_results_by_name.insert(id, name.clone(), v);
                        proof {
                            lemma_own_remove(mid, id, name@);
                            lemma_own_insert(mid.remove((id, name@)), id, name@, v);
                            assert(self.model().by_name =~= finish_step(m, n, name@, f).by_name);
                        }
                    },
                    None => {
                        proof {
                            lemma_own_remove(mid, id, name@);
                            assert(self.model().by_name =~= m.by_name);
                        }
                    },
                }
            },
            None => {},
        }
    }
}

/// The projection is incremental: the state after a history extended by
/// more events is the state after the history with those events applied.
pub proof fn law_projection_extends(id: ExecutionId, history: Seq<Event>, more: Seq<Event>)
    ensures
        project(id, history + more) == fold_events(project(id, history), more),
    decreases more.len(),
{
    if more.len() == 0 {
        assert(history + more =~= history);
    } else {
        law_projection_extends(id, history, more.drop_last());
        assert((history + more).drop_last() =~= history + more.drop_last());
        assert((history + more).last() == more.last());
    }
}

/// The projected status follows the last lifecycle event of a history:
/// whatever came before, a history that ends in `ExecutionCompleted` is
/// projected as completed, one that ends in `ExecutionFailed` as failed,
/// one that ends in `Suspended` as suspended, one that ends in `Resumed`
/// or `ExecutionCreated` as running, one that ends in a compensation's
/// start as compensating and one that ends in a compensation's failure
/// as failed to compensate. No event changes the execution a projection
/// belongs to.
pub proof fn law_status_follows_last_event(id: ExecutionId, history: Seq<Event>, last: Event)
    ensures
        ({
            let before = project(id, history);
            let after = project(id, history.push(last));
            &&& last.event_type is ExecutionCompleted ==> after.status == ExecutionStatus::Completed
            &&& last.event_type is ExecutionFailed ==> after.status == ExecutionStatus::Failed
            &&& last.event_type is Suspended ==> after.status == ExecutionStatus::Suspended
            &&& (last.event_type is Resumed || last.event_type is ExecutionCreated) ==> after.status
                == ExecutionStatus::Running
            &&& last.event_type is CompensationStarted ==> after.status == ExecutionStatus::Compensating
            &&& last.event_type is CompensationFailed ==> after.status == ExecutionStatus::CompensationFailed
            &&& after.execution_id == before.execution_id
            &&& after.execution_id == id
        }),
{
    let one = seq![last];
    law_projection_extends(id, history, one);
    assert(history + one =~= history.push(last));
    assert(one.drop_last() =~= Seq::<Event>::empty());
    assert(fold_events(project(id, history), one.drop_last()) == project(id, history));
    assert(project(id, history.push(last)) == apply_model(project(id, history), last));
    lemma_projection_keeps_id(id, history);
}

/// Every event keeps the execution a projected state belongs to.
proof fn lemma_projection_keeps_id(id: ExecutionId, events: Seq<Event>)
    ensures
        project(id, events).execution_id == id,
    decreases events.len(),
{
    if events.len() > 0 {
        lemma_projection_keeps_id(id, events.drop_last());
    }
}

/// A step that starts and then completes is found, under its name at the
/// next occurrence and under its number, with its result and completed.
pub proof fn law_completed_step_is_recorded(m: StateModel, start: Event, done: Event)
    requires
        start.event_type matches EventType::StepStarted { step_number: n, step_name: name, .. }
            && done.event_type matches EventType::StepCompleted { step_number: n2, step_name: name2, .. }
            && n == n2 && name@ == name2@,
        occurrences(m, start.event_type->StepStarted_step_name@).len() < u64::MAX,
    ensures
        ({
            let after = apply_model(apply_model(m, start), done);
            let n = start.event_type->StepStarted_step_number;
            let name = start.event_type->StepStarted_step_name@;
            let k = occurrences(m, name).len();
            &&& occurrences(after, name).len() == k + 1
            &&& occurrences(after, name).subrange(0, k as int) == occurrences(m, name)
            &&& occurrences(after, name)[k as int] == after.steps[n]
            &&& after.steps[n].completed
            &&& after.steps[n].occurrence == k
            &&& after.steps[n].result == Some(done.event_type->StepCompleted_result)
            &&& after.steps[n].error is None
        }),
{
    let mid = apply_model(m, start);
    let name = start.event_type->StepStarted_step_name@;
    let k = occurrences(m, name).len();
    assert(mid.by_name.dom().contains(name));
    assert(occurrences(mid, name) == occurrences(m, name).push(mid.steps[start.event_type->StepStarted_step_number]));
    let n = start.event_type->StepStarted_step_number;
    let r = done.event_type->StepCompleted_result;
    let f = |s: StepSnapshot| StepSnapshot { result: Some(r), completed: true, ..s };
    assert(mid.steps.dom().contains(n));
    assert(mid.steps[n].occurrence == k);
    let after = apply_model(mid, done);
    assert(after == finish_step(StateModel { updated_at: done.timestamp, ..mid }, n, name, f));
    let seq1 = occurrences(mid, name);
    assert(seq1.len() == k + 1);
    assert(after.by_name[name] == seq1.update(k as int, f(seq1[k as int])));
    assert(after.steps[n] == f(mid.steps[n]));
    assert(seq1[k as int] == mid.steps[n]);
    assert(occurrences(after, name).subrange(0, k as int) =~= occurrences(m, name));
}

/// A signal that is received and then consumed is no longer pending, and
/// the other pending signals are as before.
pub proof fn law_consumed_signal_is_gone(m: StateModel, received: Event, consumed: Event)
    requires
        received.event_type matches EventType::SignalReceived { name: a, .. }
            && consumed.event_type matches EventType::SignalConsumed { name: b } && a@ == b@,
    ensures
        apply_model(apply_model(m, received), consumed).signals == m.signals.remove(
            received.event_type->SignalReceived_name@,
        ),
{
    let after = apply_model(apply_model(m, received), consumed);
    assert(after.signals =~= m.signals.remove(received.event_type->SignalReceived_name@));
}

} // verus!
