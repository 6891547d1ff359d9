//! The storage interface for execution state, with the model its
//! implementations keep: executions, step records, signals and timers.

use vstd::prelude::*;
use crate::error::SuspendReason;
use crate::keyed::without_execution;
use crate::memory::{cleaned_before, distinct_keys, due_listed, sorted_by_number, step_key_view, ExecRecord};
use crate::types::{ExecutionId, ExecutionMetadata, ExecutionStatus, StepKey, StepRecord, StepStatus};

verus! {

/// The executions listed are stored (with the status asked for, if any),
/// each with its stored status, once each, and every such execution is
/// listed.
pub open spec fn listed(execs: Map<ExecutionId, ExecRecord>, status: Option<ExecutionStatus>, v: Seq<ExecutionMetadata>) -> bool {
    &&& forall|a: int| 0 <= a < v.len() ==> {
        &&& execs.dom().contains((#[trigger] v[a]).id)
        &&& v[a].status == execs[v[a].id].status
        &&& (status matches Some(st) ==> execs[v[a].id].status == st)
    }
    &&& forall|id: ExecutionId| #[trigger] execs.dom().contains(id) && (status matches Some(st) ==> execs[id].status == st)
        ==> exists|a: int| 0 <= a < v.len() && v[a].id == id
    &&& forall|a: int, b: int| 0 <= a < b < v.len() ==> v[a].id != v[b].id
}

/// The step records listed are all those of the execution, once each, in
/// order of step number.
pub open spec fn steps_listed(steps: Map<(ExecutionId, (u64, Seq<char>, u64)), StepRecord>, id: ExecutionId, v: Seq<StepRecord>) -> bool {
    &&& sorted_by_number(v)
    &&& distinct_keys(v)
    &&& forall|k| #[trigger] steps.dom().contains(k) && k.0 == id ==> exists|a: int| 0 <= a < v.len() && step_key_view(v[a].key) == k
}

/// Every record of a listing belongs to the execution and is the record
/// stored under its own key.
pub open spec fn listed_from(steps: Map<(ExecutionId, (u64, Seq<char>, u64)), StepRecord>, id: ExecutionId, v: Seq<StepRecord>) -> bool {
    forall|a: int| 0 <= a < v.len() ==> (#[trigger] v[a]).key.execution_id == id && steps.dom().contains(
        step_key_view(v[a].key),
    ) && steps[step_key_view(v[a].key)] == v[a]
}

/// No two stored steps of the execution share a step number.
pub open spec fn numbers_distinct(steps: Map<(ExecutionId, (u64, Seq<char>, u64)), StepRecord>, id: ExecutionId) -> bool {
    forall|k1: (ExecutionId, (u64, Seq<char>, u64)), k2: (ExecutionId, (u64, Seq<char>, u64))|
        #[trigger] steps.dom().contains(k1) && #[trigger] steps.dom().contains(k2) && k1.0 == id && k2.0 == id
            && k1.1.0 == k2.1.0 ==> k1 == k2
}

/// Two listings of an execution's steps taken from the same stored steps
/// are the same listing, where no two of its steps share a number: the
/// inspector's listing is the store's.
pub proof fn law_step_listing_is_determined(
    steps: Map<(ExecutionId, (u64, Seq<char>, u64)), StepRecord>,
    id: ExecutionId,
    v1: Seq<StepRecord>,
    v2: Seq<StepRecord>,
)
    requires
        steps_listed(steps, id, v1),
        steps_listed(steps, id, v2),
        listed_from(steps, id, v1),
        listed_from(steps, id, v2),
        numbers_distinct(steps, id),
    ensures
        v1 == v2,
    decreases v1.len(),
{
    if v1.len() == 0 || v2.len() == 0 {
        if v2.len() > 0 {
            let k = step_key_view(v2[0].key);
            assert(steps.dom().contains(k) && k.0 == id);
        }
        if v1.len() > 0 {
            let k = step_key_view(v1[0].key);
            assert(steps.dom().contains(k) && k.0 == id);
        }
        assert(v1 =~= v2);
    } else {
        let k1 = step_key_view(v1[0].key);
        let k2 = step_key_view(v2[0].key);
        assert(steps.dom().contains(k1) && k1.0 == id);
        assert(steps.dom().contains(k2) && k2.0 == id);
        let a = choose|a: int| 0 <= a < v1.len() && step_key_view(v1[a].key) == k2;
        let b = choose|b: int| 0 <= b < v2.len() && step_key_view(v2[b].key) == k1;
        assert(v1[0].key.step_number <= v1[a].key.step_number);
        assert(v2[0].key.step_number <= v2[b].key.step_number);
        assert(k1 == k2);
        assert(v1[0] == v2[0]);
        let rest = steps.remove(k1);
        let t1 = v1.drop_first();
        let t2 = v2.drop_first();
        assert forall|k| #[trigger] rest.dom().contains(k) && k.0 == id implies exists|c: int| 0 <= c < t1.len()
            && step_key_view(t1[c].key) == k by {
            let c = choose|c: int| 0 <= c < v1.len() && step_key_view(v1[c].key) == k;
            assert(c != 0);
            assert(t1[c - 1] == v1[c]);
        }
        assert forall|k| #[trigger] rest.dom().contains(k) && k.0 == id implies exists|c: int| 0 <= c < t2.len()
            && step_key_view(t2[c].key) == k by {
            let c = choose|c: int| 0 <= c < v2.len() && step_key_view(v2[c].key) == k;
            assert(c != 0);
            assert(t2[c - 1] == v2[c]);
        }
        assert forall|c: int| 0 <= c < t1.len() implies (#[trigger] t1[c]).key.execution_id == id && rest.dom().contains(
            step_key_view(t1[c].key),
        ) && rest[step_key_view(t1[c].key)] == t1[c] by {
            assert(t1[c] == v1[c + 1]);
            assert(step_key_view(v1[0].key) != step_key_view(v1[c + 1].key));
        }
        assert forall|c: int| 0 <= c < t2.len() implies (#[trigger] t2[c]).key.execution_id == id && rest.dom().contains(
            step_key_view(t2[c].key),
        ) && rest[step_key_view(t2[c].key)] == t2[c] by {
            assert(t2[c] == v2[c + 1]);
            assert(step_key_view(v2[0].key) != step_key_view(v2[c + 1].key));
        }
        assert forall|a: int, b: int| 0 <= a < b < t1.len() implies t1[a].key.step_number <= t1[b].key.step_number by {
            assert(t1[a] == v1[a + 1] && t1[b] == v1[b + 1]);
        }
        assert forall|a: int, b: int| 0 <= a < b < t2.len() implies t2[a].key.step_number <= t2[b].key.step_number by {
            assert(t2[a] == v2[a + 1] && t2[b] == v2[b + 1]);
        }
        assert forall|a: int, b: int| 0 <= a < b < t1.len() implies step_key_view(t1[a].key) != step_key_view(t1[b].key) by {
            assert(t1[a] == v1[a + 1] && t1[b] == v1[b + 1]);
        }
        assert forall|a: int, b: int| 0 <= a < b < t2.len() implies step_key_view(t2[a].key) != step_key_view(t2[b].key) by {
            assert(t2[a] == v2[a + 1] && t2[b] == v2[b + 1]);
        }
        law_step_listing_is_determined(rest, id, t1, t2);
        assert(v1 =~= seq![v1[0]] + t1);
        assert(v2 =~= seq![v2[0]] + t2);
    }
}

/// Storage for all execution state. Implementations keep a model of what
/// they store; every operation states its effect on it when it succeeds
/// (a backend may fail for reasons of its own, such as I/O).
pub trait ExecutionLog: Sized {
    /// The storage is in a consistent state.
    spec fn log_wf(&self) -> bool;

    /// The stored executions.
    spec fn log_executions(&self) -> Map<ExecutionId, ExecRecord>;

    /// The stored step records, by key.
    spec fn log_steps(&self) -> Map<(ExecutionId, (u64, Seq<char>, u64)), StepRecord>;

    /// The signals awaiting consumption.
    spec fn log_signals(&self) -> Map<(ExecutionId, Seq<char>), String>;

    /// The registered timers.
    spec fn log_timers(&self) -> Map<(ExecutionId, Seq<char>), u64>;

    /// The tags, by execution and key.
    spec fn log_tags(&self) -> Map<(ExecutionId, Seq<char>), String>;

    /// The backend does not fail on its own: reads succeed, and a write
    /// succeeds whenever the record it needs exists (an in-memory backend;
    /// not a file or network one).
    spec fn log_reliable(&self) -> bool;

    /// Create (or reset) an execution record, running.
    fn create_execution(&mut self, id: ExecutionId) -> (r: Result<(), String>)
        requires
            old(self).log_wf(),
        ensures
            final(self).log_wf(),
            final(self).log_reliable() == old(self).log_reliable(),
            old(self).log_reliable() ==> r is Ok,
            r is Ok ==> final(self).log_executions().dom().contains(id) && final(self).log_executions()[id].status == ExecutionStatus::Running,
            r is Ok ==> final(self).log_executions().dom() == old(self).log_executions().dom().insert(id)
                && final(self).log_executions()[id].step_count == 0
                && final(self).log_executions()[id].suspend_reason is None
                && forall|x: ExecutionId| x != id && #[trigger] old(self).log_executions().dom().contains(x)
                    ==> final(self).log_executions()[x] == old(self).log_executions()[x],
            r is Ok ==> final(self).log_steps() == old(self).log_steps() && final(self).log_signals() == old(self).log_signals()
                && final(self).log_timers() == old(self).log_timers() && final(self).log_tags() == old(self).log_tags(),
    ;

    /// Execution metadata.
    fn get_execution(&self, id: ExecutionId) -> (r: Result<Option<ExecutionMetadata>, String>)
        requires
            self.log_wf(),
        ensures
            self.log_reliable() ==> r is Ok,
            r matches Ok(o) ==> (o is Some <==> self.log_executions().dom().contains(id)),
            r matches Ok(Some(m)) ==> m.id == id && m.status == self.log_executions()[id].status
                && m.suspend_reason == self.log_executions()[id].suspend_reason,
    ;

    /// Update an execution's status.
    fn update_execution_status(&mut self, id: ExecutionId, status: ExecutionStatus) -> (r: Result<(), String>)
        requires
            old(self).log_wf(),
        ensures
            !old(self).log_executions().dom().contains(id) ==> r is Err,
            final(self).log_executions().dom() == old(self).log_executions().dom(),
            final(self).log_wf(),
            final(self).log_reliable() == old(self).log_reliable(),
            old(self).log_reliable() && old(self).log_executions().dom().contains(id) ==> r is Ok,
            r is Ok ==> final(self).log_executions().dom().contains(id) && final(self).log_executions()[id].status == status
                && final(self).log_executions()[id].suspend_reason == old(self).log_executions()[id].suspend_reason,
            final(self).log_steps() == old(self).log_steps(),
            final(self).log_signals() == old(self).log_signals(),
            final(self).log_timers() == old(self).log_timers(),
    ;

    /// Set (or clear) an execution's suspend reason.
    fn set_suspend_reason(&mut self, id: ExecutionId, reason: Option<SuspendReason>) -> (r: Result<(), String>)
        requires
            old(self).log_wf(),
        ensures
            !old(self).log_executions().dom().contains(id) ==> r is Err,
            final(self).log_executions().dom() == old(self).log_executions().dom(),
            final(self).log_wf(),
            final(self).log_reliable() == old(self).log_reliable(),
            old(self).log_reliable() && old(self).log_executions().dom().contains(id) ==> r is Ok,
            r is Ok ==> final(self).log_executions().dom().contains(id) && final(self).log_executions()[id].suspend_reason == reason
                && final(self).log_executions()[id].status == old(self).log_executions()[id].status,
            final(self).log_steps() == old(self).log_steps(),
            final(self).log_signals() == old(self).log_signals(),
            final(self).log_timers() == old(self).log_timers(),
    ;

    /// All executions, or those with a status.
    fn list_executions(&self, status: Option<ExecutionStatus>) -> (r: Result<Vec<ExecutionMetadata>, String>)
        requires
            self.log_wf(),
        ensures
            self.log_reliable() ==> r is Ok,
            r matches Ok(v) ==> listed(self.log_executions(), status, v@),
    ;

    /// Record the start of a step.
    fn log_step_start(&mut self, key: StepKey) -> (r: Result<StepRecord, String>)
        requires
            old(self).log_wf(),
            key.step_number < u64::MAX,
        ensures
            final(self).log_wf(),
            final(self).log_reliable() == old(self).log_reliable(),
            old(self).log_reliable() ==> r is Ok,
            r is Ok ==> final(self).log_steps().dom().contains(step_key_view(key))
                && final(self).log_steps()[step_key_view(key)].status == StepStatus::Running
                && final(self).log_steps()[step_key_view(key)].key == key,
            final(self).log_signals() == old(self).log_signals(),
            final(self).log_timers() == old(self).log_timers(),
    ;

    /// Record the outcome of a step.
    fn log_step_completion(&mut self, key: &StepKey, result: Option<String>, error: Option<String>, retryable: bool) -> (r: Result<(), String>)
        requires
            old(self).log_wf(),
        ensures
            final(self).log_wf(),
            final(self).log_reliable() == old(self).log_reliable(),
            old(self).log_reliable() && old(self).log_steps().dom().contains(step_key_view(*key)) ==> r is Ok,
            r is Ok ==> final(self).log_steps().dom().contains(step_key_view(*key)) && final(self).log_steps()[step_key_view(*key)] == (StepRecord {
                status: if error is Some { StepStatus::Failed } else { StepStatus::Completed },
                result,
                error,
                retryable,
                completed_at: final(self).log_steps()[step_key_view(*key)].completed_at,
                ..old(self).log_steps()[step_key_view(*key)]
            }),
            final(self).log_signals() == old(self).log_signals(),
            final(self).log_timers() == old(self).log_timers(),
    ;

    /// A step record by key.
    fn get_step(&self, key: &StepKey) -> (r: Result<Option<StepRecord>, String>)
        requires
            self.log_wf(),
        ensures
            self.log_reliable() ==> r is Ok,
            r matches Ok(o) ==> (o is Some <==> self.log_steps().dom().contains(step_key_view(*key))),
            r matches Ok(Some(rec)) ==> rec == self.log_steps()[step_key_view(*key)],
    ;

    /// The record of the step last started at a number.
    fn get_step_by_number(&self, execution_id: ExecutionId, step_number: u64) -> (r: Result<Option<StepRecord>, String>)
        requires
            self.log_wf(),
        ensures
            self.log_reliable() ==> r is Ok,
            r matches Ok(Some(rec)) ==> self.log_steps().dom().contains(step_key_view(rec.key)) && self.log_steps()[step_key_view(rec.key)] == rec && rec.key.step_number == step_number,
            r matches Ok(o) ==> (o is Some <==> exists|k: (ExecutionId, (u64, Seq<char>, u64))| #[trigger] self.log_steps().dom().contains(k)
                && k.0 == execution_id && k.1.0 == step_number),
    ;

    /// All step records of an execution, by step number.
    fn get_steps(&self, execution_id: ExecutionId) -> (r: Result<Vec<StepRecord>, String>)
        requires
            self.log_wf(),
        ensures
            self.log_reliable() ==> r is Ok,
            r matches Ok(v) ==> forall|a: int| 0 <= a < v@.len() ==> (#[trigger] v@[a]).key.execution_id == execution_id
                && self.log_steps().dom().contains(step_key_view(v@[a].key)) && self.log_steps()[step_key_view(v@[a].key)] == v@[a],
            r matches Ok(v) ==> steps_listed(self.log_steps(), execution_id, v@),
    ;

    /// Store a signal.
    fn store_signal(&mut self, execution_id: ExecutionId, name: &str, data: &str) -> (r: Result<(), String>)
        requires
            old(self).log_wf(),
        ensures
            final(self).log_wf(),
            final(self).log_reliable() == old(self).log_reliable(),
            old(self).log_reliable() ==> r is Ok,
            r is Ok ==> final(self).log_signals().dom().contains((execution_id, name@)) && final(self).log_signals()[(execution_id, name@)]@ == data@,
            r is Ok ==> forall|k| k != (execution_id, name@) ==> (#[trigger] final(self).log_signals().dom().contains(k)
                <==> old(self).log_signals().dom().contains(k)) && (old(self).log_signals().dom().contains(k)
                ==> final(self).log_signals()[k] == old(self).log_signals()[k]),
            final(self).log_executions() == old(self).log_executions(),
            final(self).log_steps() == old(self).log_steps(),
            final(self).log_timers() == old(self).log_timers(),
    ;

    /// Take a signal.
    fn consume_signal(&mut self, execution_id: ExecutionId, name: &str) -> (r: Result<Option<String>, String>)
        requires
            old(self).log_wf(),
        ensures
            final(self).log_wf(),
            final(self).log_reliable() == old(self).log_reliable(),
            old(self).log_reliable() ==> r is Ok,
            r matches Ok(o) ==> (o is Some <==> old(self).log_signals().dom().contains((execution_id, name@))),
            r matches Ok(Some(d)) ==> d == old(self).log_signals()[(execution_id, name@)],
            r is Ok ==> final(self).log_signals() == old(self).log_signals().remove((execution_id, name@)),
            final(self).log_executions() == old(self).log_executions(),
            final(self).log_steps() == old(self).log_steps(),
            final(self).log_timers() == old(self).log_timers(),
    ;

    /// Look at a signal without consuming it.
    fn peek_signal(&self, execution_id: ExecutionId, name: &str) -> (r: Result<Option<String>, String>)
        requires
            self.log_wf(),
        ensures
            self.log_reliable() ==> r is Ok,
            r matches Ok(o) ==> (o is Some <==> self.log_signals().dom().contains((execution_id, name@))),
            r matches Ok(Some(d)) ==> d == self.log_signals()[(execution_id, name@)],
    ;

    /// Register a timer.
    fn create_timer(&mut self, execution_id: ExecutionId, name: &str, fire_at_millis: u64) -> (r: Result<(), String>)
        requires
            old(self).log_wf(),
        ensures
            final(self).log_wf(),
            final(self).log_reliable() == old(self).log_reliable(),
            old(self).log_reliable() ==> r is Ok,
            r is Ok ==> final(self).log_timers() == old(self).log_timers().insert((execution_id, name@), fire_at_millis),
            final(self).log_executions() == old(self).log_executions(),
            final(self).log_steps() == old(self).log_steps(),
            final(self).log_signals() == old(self).log_signals(),
    ;

    /// The timers that are due.
    fn get_expired_timers(&self) -> (r: Result<Vec<(ExecutionId, String, u64)>, String>)
        requires
            self.log_wf(),
        ensures
            self.log_reliable() ==> r is Ok,
            r matches Ok(v) ==> forall|i: int| 0 <= i < v@.len() ==> self.log_timers().dom().contains((#[trigger] v@[i].0, v@[i].1@)) && self.log_timers()[(v@[i].0, v@[i].1@)] == v@[i].2,
            r is Ok ==> exists|now: u64| #[trigger] due_listed(self.log_timers(), r->Ok_0@, now),
    ;

    /// Remove a timer.
    fn delete_timer(&mut self, execution_id: ExecutionId, name: &str) -> (r: Result<(), String>)
        requires
            old(self).log_wf(),
        ensures
            final(self).log_wf(),
            final(self).log_reliable() == old(self).log_reliable(),
            old(self).log_reliable() ==> r is Ok,
            r is Ok ==> final(self).log_timers() == old(self).log_timers().remove((execution_id, name@)),
            final(self).log_executions() == old(self).log_executions(),
            final(self).log_steps() == old(self).log_steps(),
            final(self).log_signals() == old(self).log_signals(),
    ;

    /// Set a tag.
    fn set_tag(&mut self, execution_id: ExecutionId, key: &str, value: &str) -> (r: Result<(), String>)
        requires
            old(self).log_wf(),
        ensures
            final(self).log_wf(),
            final(self).log_reliable() == old(self).log_reliable(),
            old(self).log_reliable() ==> r is Ok,
            r is Ok ==> final(self).log_tags().dom() == old(self).log_tags().dom().insert((execution_id, key@))
                && final(self).log_tags()[(execution_id, key@)]@ == value@
                && forall|k| k != (execution_id, key@) && #[trigger] old(self).log_tags().dom().contains(k)
                    ==> final(self).log_tags()[k] == old(self).log_tags()[k],
            final(self).log_executions() == old(self).log_executions(),
            final(self).log_steps() == old(self).log_steps(),
            final(self).log_signals() == old(self).log_signals(),
            final(self).log_timers() == old(self).log_timers(),
    ;

    /// A tag's value.
    fn get_tag(&self, execution_id: ExecutionId, key: &str) -> (r: Result<Option<String>, String>)
        requires
            self.log_wf(),
        ensures
            self.log_reliable() ==> r is Ok,
            r matches Ok(o) ==> (o is Some <==> self.log_tags().dom().contains((execution_id, key@))),
            r matches Ok(Some(v)) ==> v == self.log_tags()[(execution_id, key@)],
    ;

    /// Delete an execution and all its data.
    fn delete_execution(&mut self, id: ExecutionId) -> (r: Result<(), String>)
        requires
            old(self).log_wf(),
        ensures
            final(self).log_wf(),
            final(self).log_reliable() == old(self).log_reliable(),
            old(self).log_reliable() ==> r is Ok,
            r is Ok ==> final(self).log_executions() == old(self).log_executions().remove(id)
                && final(self).log_steps() == without_execution(old(self).log_steps(), id)
                && final(self).log_signals() == without_execution(old(self).log_signals(), id)
                && final(self).log_timers() == without_execution(old(self).log_timers(), id)
                && final(self).log_tags() == without_execution(old(self).log_tags(), id),
    ;

    /// Delete executions older than `age_millis`; returns how many.
    fn cleanup_older_than(&mut self, age_millis: u64) -> (r: Result<u64, String>)
        requires
            old(self).log_wf(),
        ensures
            final(self).log_wf(),
            final(self).log_reliable() == old(self).log_reliable(),
            old(self).log_reliable() ==> r is Ok,
            r is Ok ==> exists|cutoff: u64| #[trigger] cleaned_before(old(self).log_executions(), final(self).log_executions(), r->Ok_0, cutoff),
    ;
}

} // verus!
