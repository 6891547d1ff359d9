//! Observability: query execution state without mutation.

use vstd::prelude::*;
use crate::error::{DurableError, DurableResult, SuspendReason};
use crate::memory::step_key_view;
use crate::storage::{listed, steps_listed, ExecutionLog};
use crate::uuid::hyphenated;
use crate::types::{ExecutionId, ExecutionMetadata, ExecutionStatus, StepRecord, StepStatus};

verus! {

/// How many records of a sequence have a status.
pub open spec fn count_status(s: Seq<StepRecord>, st: StepStatus) -> nat
    decreases s.len(),
{
    if s.len() == 0 {
        0
    } else {
        count_status(s.drop_last(), st) + if s.last().status == st {
            1nat
        } else {
            0nat
        }
    }
}

/// The step an execution is at: its number, name and status.
#[derive(Debug, Clone)]
pub struct CurrentStep {
    pub number: u64,
    pub name: String,
    pub status: StepStatus,
}

/// A summary of an execution: its status, how many of its steps are in
/// each state, the last step, and its suspension and times.
#[derive(Debug, Clone)]
pub struct ExecutionSummary {
    pub execution_id: ExecutionId,
    pub status: ExecutionStatus,
    pub total_steps: usize,
    pub completed_steps: usize,
    pub failed_steps: usize,
    pub running_steps: usize,
    pub current_step: Option<CurrentStep>,
    pub suspend_reason: Option<SuspendReason>,
    pub created_at: u64,
    pub updated_at: u64,
}

/// The summary of an execution's metadata and step records.
pub open spec fn summarises(r: ExecutionSummary, id: ExecutionId, meta: ExecutionMetadata, steps: Seq<StepRecord>) -> bool {
    &&& r.execution_id == id
    &&& r.status == meta.status
    &&& r.total_steps == steps.len()
    &&& r.completed_steps == count_status(steps, StepStatus::Completed)
    &&& r.failed_steps == count_status(steps, StepStatus::Failed)
    &&& r.running_steps == count_status(steps, StepStatus::Running)
    &&& (steps.len() == 0 ==> r.current_step is None)
    &&& (steps.len() > 0 ==> (r.current_step matches Some(c) && c.number == steps.last().key.step_number
        && c.name == steps.last().key.step_name && c.status == steps.last().status))
    &&& r.suspend_reason == meta.suspend_reason
    &&& r.created_at == meta.created_at
    &&& r.updated_at == meta.updated_at
}

/// Count the records of a slice by status.
pub fn count_steps(steps: &Vec<StepRecord>) -> (r: (usize, usize, usize))
    ensures
        r.0 == count_status(steps@, StepStatus::Completed),
        r.1 == count_status(steps@, StepStatus::Failed),
        r.2 == count_status(steps@, StepStatus::Running),
{
    let mut completed: usize = 0;
    let mut failed: usize = 0;
    let mut running: usize = 0;
    let mut i: usize = 0;
    while i < steps.len()
        invariant
            i <= steps@.len(),
            completed == count_status(steps@.take(i as int), StepStatus::Completed),
            failed == count_status(steps@.take(i as int), StepStatus::Failed),
            running == count_status(steps@.take(i as int), StepStatus::Running),
            completed + failed + running <= i,
        decreases steps@.len() - i,
    {
        assert(steps@.take(i + 1).drop_last() =~= steps@.take(i as int));
        match steps[i].status {
            StepStatus::Completed => completed += 1,
            StepStatus::Failed => failed += 1,
            StepStatus::Running => running += 1,
            _ => {},
        }
        i += 1;
    }
    assert(steps@.take(steps@.len() as int) =~= steps@);
    (completed, failed, running)
}

/// Read-only view into execution state for monitoring and debugging.
pub struct ExecutionInspector<'a, S: ExecutionLog> {
    storage: &'a S,
}

impl<'a, S: ExecutionLog> ExecutionInspector<'a, S> {
    /// The storage inspected.
    pub closed spec fn log(&self) -> S {
        *self.storage
    }

    /// An inspector of a storage.
    pub fn new(storage: &'a S) -> (i: Self)
        ensures
            i.log() == *storage,
    {
        ExecutionInspector { storage }
    }

    /// Execution metadata.
    pub fn get_execution(&self, id: ExecutionId) -> (r: DurableResult<Option<ExecutionMetadata>>)
        requires
            self.log().log_wf(),
        ensures
            self.log().log_reliable() ==> r is Ok,
            r matches Ok(o) ==> (o is Some <==> self.log().log_executions().dom().contains(id)),
            r matches Ok(Some(m)) ==> m.id == id && m.status == self.log().log_executions()[id].status,
            r matches Err(e) ==> e is Storage,
    {
        match self.storage.get_execution(id) {
            Ok(o) => Ok(o),
            Err(e) => Err(DurableError::Storage(e)),
        }
    }

    /// All executions, or those with a status.
    pub fn list_executions(&self, status: Option<ExecutionStatus>) -> (r: DurableResult<Vec<ExecutionMetadata>>)
        requires
            self.log().log_wf(),
        ensures
            self.log().log_reliable() ==> r is Ok,
            r matches Ok(v) ==> listed(self.log().log_executions(), status, v@),
            r matches Err(e) ==> e is Storage,
    {
        match self.storage.list_executions(status) {
            Ok(v) => Ok(v),
            Err(e) => Err(DurableError::Storage(e)),
        }
    }

    /// All steps of an execution.
    pub fn get_steps(&self, exec_id: ExecutionId) -> (r: DurableResult<Vec<StepRecord>>)
        requires
            self.log().log_wf(),
        ensures
            r matches Ok(v) ==> forall|a: int| 0 <= a < v@.len() ==> (#[trigger] v@[a]).key.execution_id == exec_id
                && self.log().log_steps().dom().contains(step_key_view(v@[a].key)) && self.log().log_steps()[step_key_view(
                v@[a].key,
            )] == v@[a],
            self.log().log_reliable() ==> r is Ok,
            r matches Ok(v) ==> steps_listed(self.log().log_steps(), exec_id, v@),
            r matches Err(e) ==> e is Storage,
    {
        match self.storage.get_steps(exec_id) {
            Ok(v) => Ok(v),
            Err(e) => Err(DurableError::Storage(e)),
        }
    }

    /// The step recorded at a number.
    pub fn get_step(&self, exec_id: ExecutionId, step_number: u64) -> (r: DurableResult<Option<StepRecord>>)
        requires
            self.log().log_wf(),
        ensures
            self.log().log_reliable() ==> r is Ok,
            r matches Ok(Some(rec)) ==> self.log().log_steps().dom().contains(step_key_view(rec.key))
                && self.log().log_steps()[step_key_view(rec.key)] == rec && rec.key.step_number == step_number,
            r matches Ok(o) ==> (o is Some <==> exists|k: (ExecutionId, (u64, Seq<char>, u64))| #[trigger] self.log().log_steps().dom().contains(k)
                && k.0 == exec_id && k.1.0 == step_number),
            r matches Err(e) ==> e is Storage,
    {
        match self.storage.get_step_by_number(exec_id, step_number) {
            Ok(o) => Ok(o),
            Err(e) => Err(DurableError::Storage(e)),
        }
    }

    /// A summary of an execution: `NotFound` when it does not exist.
    pub fn execution_summary(&self, id: ExecutionId) -> (r: DurableResult<ExecutionSummary>)
        requires
            self.log().log_wf(),
        ensures
            self.log().log_reliable() ==> (r is Ok <==> self.log().log_executions().dom().contains(id)),
            r matches Err(DurableError::NotFound(m)) ==> !self.log().log_executions().dom().contains(id)
                && m@ == "execution "@ + hyphenated(id.0@),
            r matches Ok(s) ==> self.log().log_executions().dom().contains(id) && s.status
                == self.log().log_executions()[id].status && s.execution_id == id,
            r matches Ok(s) ==> exists|meta: ExecutionMetadata, v: Seq<StepRecord>| #[trigger] summarises(s, id, meta, v)
                && steps_listed(self.log().log_steps(), id, v)
                && forall|a: int| 0 <= a < v.len() ==> (#[trigger] v[a]).key.execution_id == id
                    && self.log().log_steps().dom().contains(step_key_view(v[a].key))
                    && self.log().log_steps()[step_key_view(v[a].key)] == v[a],
            r is Err ==> (r matches Err(DurableError::NotFound(_))) || (r matches Err(DurableError::Storage(_))),
    {
        let meta = match self.storage.get_execution(id) {
            Ok(Some(m)) => m,
            Ok(None) => {
                let mut m = "execution ".to_string();
                m.push_str(id.to_text().as_str());
                return Err(DurableError::NotFound(m));
            },
            Err(e) => return Err(DurableError::Storage(e)),
        };
        let steps = match self.storage.get_steps(id) {
            Ok(v) => v,
            Err(e) => return Err(DurableError::Storage(e)),
        };
        let ghost m0 = meta;
        let s = summarise(id, meta, &steps);
        assert(summarises(s, id, m0, steps@));
        Ok(s)
    }
}

/// The summary of an execution's metadata and step records.
pub fn summarise(id: ExecutionId, meta: ExecutionMetadata, steps: &Vec<StepRecord>) -> (r: ExecutionSummary)
    ensures
        summarises(r, id, meta, steps@),
{
    let (completed, failed, running) = count_steps(steps);
    let current_step = if steps.len() > 0 {
        let last = &steps[steps.len() - 1];
        Some(CurrentStep { number: last.key.step_number, name: last.key.step_name.clone(), status: last.status })
    } else {
        None
    };
    ExecutionSummary {
        execution_id: id,
        status: meta.status,
        total_steps: steps.len(),
        completed_steps: completed,
        failed_steps: failed,
        running_steps: running,
        current_step,
        suspend_reason: meta.suspend_reason,
        created_at: meta.created_at,
        updated_at: meta.updated_at,
    }
}

} // verus!
