//! The decisions of replay: which steps the history answers, which run
//! live, and what each live step records.
//!
//! A step's identity is semantic: its name and the occurrence of that name
//! (0 for the first step of a name, 1 for the second, ...). During replay
//! a step is looked up by that identity in the history; a step the history
//! does not answer runs live and its events are appended. The store that
//! holds the history is driven by the caller.

use vstd::prelude::*;
use vstd::string::StringSliceAdditionalSpecFns;
use crate::cancel::CancellationToken;
use crate::error::{message_spec, DurableError, DurableResult, SuspendReason};
use crate::event::{applicable, apply_model, finish_step, occurrences, own, Event, EventType, ExecutionState, StateModel, StepSnapshot};
use crate::hash::{fnv1a_spec, hash_params};
use crate::keyed::KeyedMap;
use crate::text::{dec_text, hex_text, push_decimal, push_hex};
use crate::types::ExecutionId;
use crate::uuid::hyphenated;
use crate::context::outcome_retryable;

verus! {

/// How the history answers a step.
pub enum Route {
    /// The history holds the step's outcome.
    Cached(StepSnapshot),
    /// The history holds the step under a legacy positional record, whose
    /// result (or `null`) is given back whatever error it holds.
    CachedResult(StepSnapshot),
    /// The step was recorded with other parameters.
    BadParams(StepSnapshot),
    /// Another step was recorded at this number.
    WrongName(StepSnapshot),
    /// The history does not answer: run the step.
    Live,
}

/// A finished step whose failure allows a retry is run again.
pub open spec fn reusable(s: StepSnapshot) -> bool {
    s.completed && !(s.error is Some && s.retryable)
}

/// How the history `h` answers the `occ`-th step named `name`, numbered
/// `n`, with parameters `params` hashing to `hash`. A lenient step does not
/// compare parameters and ignores a legacy record of another name.
pub open spec fn route(h: StateModel, name: Seq<char>, occ: u64, n: u64, params: Seq<char>, hash: u64, lenient: bool) -> Route {
    let by = occurrences(h, name);
    if occ < by.len() {
        let s = by[occ as int];
        if !lenient && s.params@ != params && s.params@.len() > 0 && s.param_hash != hash {
            Route::BadParams(s)
        } else if reusable(s) {
            Route::Cached(s)
        } else {
            Route::Live
        }
    } else if h.steps.dom().contains(n) {
        let s = h.steps[n];
        if s.step_name@ == name && s.completed {
            if lenient {
                Route::CachedResult(s)
            } else if reusable(s) {
                Route::Cached(s)
            } else {
                Route::Live
            }
        } else if s.step_name@ != name && !lenient {
            Route::WrongName(s)
        } else {
            Route::Live
        }
    } else {
        Route::Live
    }
}

/// The answer the history gives for a recorded step: its permanent
/// failure, or its result (`null` when it has none).
pub open spec fn cached_answer(s: StepSnapshot, r: DurableResult<String>, name: Seq<char>, id: ExecutionId, n: u64) -> bool {
    match s.error {
        Some(e) => r matches Err(DurableError::StepFailed { step_name, message, retryable, execution_id, step_number })
            && step_name@ == name && message@ == e@ && !retryable && (execution_id matches Some(t) && t@
            == hyphenated(id.0@)) && step_number == Some(n),
        None => r matches Ok(v) && v@ == result_text(s),
    }
}

/// What the history answers on a route: the recorded outcome, the
/// mismatch, or nothing for a live step.
pub open spec fn answer_fits(rt: Route, r: Option<DurableResult<String>>, name: Seq<char>, occ: u64, n: u64, hash: u64, id: ExecutionId) -> bool {
    match rt {
        Route::Cached(s) => r matches Some(a) && cached_answer(s, a, name, id, n),
        Route::CachedResult(s) => r matches Some(Ok(v)) && v@ == result_text(s),
        Route::BadParams(s) => r matches Some(Err(DurableError::NonDeterminismDetected {
            step_number,
            expected_name,
            actual_name,
        })) && step_number == s.step_number && expected_name@ == identity_text(name, occ, s.param_hash)
            && actual_name@ == identity_text(name, occ, hash),
        Route::WrongName(s) => r matches Some(Err(DurableError::NonDeterminismDetected {
            step_number,
            expected_name,
            actual_name,
        })) && step_number == n && expected_name == s.step_name && actual_name@ == name,
        Route::Live => r is None,
    }
}

/// The answer a plan gives without running its step.
pub open spec fn plan_answer(plan: StepPlan) -> Option<DurableResult<String>> {
    match plan {
        StepPlan::Answered(a) => Some(a),
        StepPlan::Live(_) => None,
    }
}

/// The result of a recorded step, or `null`.
pub open spec fn result_text(s: StepSnapshot) -> Seq<char> {
    match s.result {
        Some(v) => v@,
        None => "null"@,
    }
}

/// The identity of the `occ`-th step named `name`, with a parameter hash.
pub open spec fn identity_text(name: Seq<char>, occ: u64, hash: u64) -> Seq<char> {
    name + "["@ + dec_text(occ as nat) + "](hash:"@ + hex_text(hash as nat, 16) + ")"@
}

/// The idempotency key of a step's event: execution, name, occurrence
/// and phase.
pub open spec fn step_event_key(id: ExecutionId, name: Seq<char>, occ: u64, phase: Seq<char>) -> Seq<char> {
    hyphenated(id.0@) + ":"@ + name + ":"@ + dec_text(occ as nat) + ":"@ + phase
}

/// A step to run live: its number and occurrence, the event that records
/// its start and the idempotency keys of its events.
pub struct LiveStep {
    pub step_number: u64,
    pub occurrence: u64,
    pub step_name: String,
    pub started: EventType,
    pub started_key: String,
    pub completed_key: String,
}

/// What to do for a step.
pub enum StepPlan {
    /// The answer, without running the step.
    Answered(DurableResult<String>),
    /// Run the step.
    Live(LiveStep),
}

/// The replay-relevant state of an execution: step numbering, occurrence
/// counters, and the history's step records, signals and child flows.
pub struct ReplayState {
    pub id: ExecutionId,
    step_counter: u64,
    occurrence_counters: KeyedMap<String, u64>,
    generation: u64,
    version: Option<String>,
    history: ExecutionState,
    suspend_reason: Option<SuspendReason>,
    cancel_token: CancellationToken,
    last_step_was_replay: bool,
}

impl ReplayState {
    /// The execution.
    pub closed spec fn ident(&self) -> ExecutionId {
        self.id
    }

    /// Steps allocated so far.
    pub closed spec fn counter(&self) -> u64 {
        self.step_counter
    }

    /// How many steps of a name were met so far.
    pub closed spec fn occurrence_count(&self, name: Seq<char>) -> u64 {
        let m = own(self.occurrence_counters@, self.id);
        if m.dom().contains(name) {
            m[name]
        } else {
            0
        }
    }

    /// The history as loaded, with the signals and child flows seen since.
    pub closed spec fn known(&self) -> StateModel {
        self.history.model()
    }

    /// The generation (fencing token).
    pub closed spec fn current_generation(&self) -> u64 {
        self.generation
    }

    /// The code version the execution runs under.
    pub closed spec fn code_version(&self) -> Option<String> {
        self.version
    }

    /// The cancellation token the steps observe.
    pub closed spec fn token(&self) -> CancellationToken {
        self.cancel_token
    }

    /// The suspension entered last.
    pub closed spec fn pending(&self) -> Option<SuspendReason> {
        self.suspend_reason
    }

    /// Whether the last step was answered by the history.
    pub closed spec fn replayed(&self) -> bool {
        self.last_step_was_replay
    }

    /// The maps are consistent and the history belongs to the execution.
    pub closed spec fn wf(&self) -> bool {
        &&& self.occurrence_counters.wf()
        &&& self.history.wf()
        &&& self.history.model().execution_id == self.id
    }

    /// The state of a new execution: nothing recorded, generation 1.
    pub fn fresh(id: ExecutionId, version: Option<String>, cancel_token: Option<CancellationToken>) -> (s: Self)
        ensures
            cancel_token matches Some(t) ==> s.token() == t,
            s.wf(),
            s.ident() == id,
            s.counter() == 0,
            s.current_generation() == 1,
            s.known().steps == Map::<u64, StepSnapshot>::empty(),
            s.known().by_name == Map::<Seq<char>, Seq<StepSnapshot>>::empty(),
            s.known().signals == Map::<Seq<char>, String>::empty(),
            forall|name: Seq<char>| s.occurrence_count(name) == 0,
            s.pending() is None,
            s.code_version() == version,
    {
        let token = match cancel_token {
            Some(t) => t,
            None => CancellationToken::new(),
        };
        let s = ReplayState {
            id,
            step_counter: 0,
            occurrence_counters: KeyedMap::new(),
            generation: 1,
            version,
            history: ExecutionState::initial(id),
            suspend_reason: None,
            cancel_token: token,
            last_step_was_replay: false,
        };
        s
    }

    /// The state of a resumed execution: its projected history, at step 0,
    /// with a new generation.
    pub fn resumed(history: ExecutionState, generation: u64, cancel_token: Option<CancellationToken>) -> (s: Self)
        requires
            history.wf(),
        ensures
            cancel_token matches Some(t) ==> s.token() == t,
            s.wf(),
            s.ident() == history.model().execution_id,
            s.known() == history.model(),
            s.counter() == 0,
            s.current_generation() == generation,
            forall|name: Seq<char>| s.occurrence_count(name) == 0,
            s.pending() is None,
            s.code_version() == history.model().version,
    {
        let token = match cancel_token {
            Some(t) => t,
            None => CancellationToken::new(),
        };
        let version = crate::event::copy_opt(history.recorded_version());
        ReplayState {
            id: history.id(),
            step_counter: 0,
            occurrence_counters: KeyedMap::new(),
            generation,
            version,
            history,
            suspend_reason: None,
            cancel_token: token,
            last_step_was_replay: false,
        }
    }

    /// The generation (fencing token).
    pub fn generation(&self) -> (g: u64)
        ensures
            g == self.current_generation(),
    {
        self.generation
    }

    /// The code version of the execution.
    pub fn version(&self) -> (r: Option<&str>)
        ensures
            match self.code_version() {
                Some(v) => r matches Some(x) && x@ == v@,
                None => r is None,
            },
    {
        match &self.version {
            Some(v) => Some(v.as_str()),
            None => None,
        }
    }

    /// The cancellation token.
    pub fn cancel_token(&self) -> (t: &CancellationToken)
        ensures
            *t == self.token(),
    {
        &self.cancel_token
    }

    /// Steps allocated so far.
    pub fn step_count(&self) -> (n: u64)
        ensures
            n == self.counter(),
    {
        self.step_counter
    }

    /// Whether the last step was answered by the history.
    pub fn was_last_step_replay(&self) -> (r: bool)
        ensures
            r == self.replayed(),
    {
        self.last_step_was_replay
    }

    /// The suspension entered last.
    pub fn suspend_reason(&self) -> (r: Option<SuspendReason>)
        ensures
            r == self.pending(),
    {
        match &self.suspend_reason {
            Some(r) => Some(r.copy()),
            None => None,
        }
    }

    /// Record that the execution suspended for a reason.
    pub fn set_suspended(&mut self, reason: SuspendReason)
        requires
            old(self).wf(),
        ensures
            final(self).token() == old(self).token(),
            final(self).wf(),
            final(self).pending() == Some(reason),
            final(self).known() == old(self).known(),
            final(self).counter() == old(self).counter(),
            final(self).ident() == old(self).ident(),
    {
        self.suspend_reason = Some(reason);
    }

    /// Take the next occurrence number of a step name.
    fn next_occurrence(&mut self, name: &str) -> (occ: u64)
        requires
            old(self).wf(),
        ensures
            final(self).token() == old(self).token(),
            final(self).wf(),
            occ == old(self).occurrence_count(name@),
            final(self).occurrence_count(name@) == if occ == u64::MAX { 0 } else { (occ + 1) as u64 },
            forall|other: Seq<char>| other != name@ ==> final(self).occurrence_count(other) == old(self).occurrence_count(other),
            final(self).known() == old(self).known(),
            final(self).counter() == old(self).counter(),
            final(self).ident() == old(self).ident(),
            final(self).pending() == old(self).pending(),
            final(self).current_generation() == old(self).current_generation(),
            final(self).replayed() == old(self).replayed(),
    {
        let key = name.to_string();
        let occ = match self.occurrence_counters.get(&self.id, &key) {
            Some(c) => *c,
            None => 0,
        };
        let id = self.id;
        self.occurrence_counters.insert(id, key, occ.wrapping_add(1));
        proof {
            crate::event::lemma_own_insert(old(self).occurrence_counters@, id, name@, occ.wrapping_add(1));
        }
        occ
    }

    /// Decide a step named `name` with parameters given as JSON text: the
    /// history's answer, or a live run. A lenient step does not check its
    /// parameters against the history.
    #[verifier::rlimit(60)]
    #[verifier::spinoff_prover]
    pub fn begin_step(&mut self, name: &str, params_json: &str, lenient: bool) -> (plan: StepPlan)
        requires
            old(self).wf(),
        ensures
            final(self).token() == old(self).token(),
            final(self).wf(),
            final(self).ident() == old(self).ident(),
            final(self).known() == old(self).known(),
            final(self).pending() == old(self).pending(),
            final(self).current_generation() == old(self).current_generation(),
            (plan matches StepPlan::Answered(Err(DurableError::Cancelled)) && final(self).counter() == old(self).counter())
                || ({
                let n = old(self).counter();
                let occ = old(self).occurrence_count(name@);
                let hash = fnv1a_spec(params_json.spec_bytes());
                &&& final(self).counter() == if n == u64::MAX { 0 } else { (n + 1) as u64 }
                &&& final(self).occurrence_count(name@) == if occ == u64::MAX { 0 } else { (occ + 1) as u64 }
                &&& forall|other: Seq<char>| other != name@ ==> final(self).occurrence_count(other)
                    == old(self).occurrence_count(other)
                &&& final(self).replayed() == !(plan is Live)
                &&& answer_fits(route(old(self).known(), name@, occ, n, params_json@, hash, lenient), plan_answer(plan), name@, occ, n, hash, old(self).ident())
                &&& plan matches StepPlan::Live(l) ==> l.step_number == n && l.occurrence == occ
                        && l.step_name@ == name@ && (l.started matches EventType::StepStarted {
                        step_number,
                        step_name,
                        param_hash,
                        params,
                    } && step_number == n && step_name@ == name@ && param_hash == hash && params@ == params_json@)
                        && l.started_key@ == step_event_key(old(self).ident(), name@, occ, "started"@)
                        && l.completed_key@ == step_event_key(old(self).ident(), name@, occ, "completed"@)
            }),
    {
        if self.cancel_token.is_cancelled() {
            return StepPlan::Answered(Err(DurableError::Cancelled));
        }
        self.last_step_was_replay = true;
        let step_number = self.step_counter;
        self.step_counter = step_number.wrapping_add(1);
        let param_hash = hash_params(params_json);
        let occurrence = self.next_occurrence(name);
        match self.decide(name, params_json, occurrence, step_number, param_hash, lenient) {
            Some(answer) => {
                return StepPlan::Answered(answer);
            },
            None => {},
        }
        let ghost before = *self;
        self.last_step_was_replay = false;
        assert forall|other: Seq<char>| other != name@ implies self.occurrence_count(other) == old(self).occurrence_count(other) by {
            assert(self.occurrence_count(other) == before.occurrence_count(other));
        }
        let started_key = self.event_key(name, occurrence, "started");
        let completed_key = self.event_key(name, occurrence, "completed");
        StepPlan::Live(
            LiveStep {
                step_number,
                occurrence,
                step_name: name.to_string(),
                started: EventType::StepStarted {
                    step_number,
                    step_name: name.to_string(),
                    param_hash,
                    params: params_json.to_string(),
                },
                started_key,
                completed_key,
            },
        )
    }

    /// The history's answer for a step, if it gives one.
    #[verifier::rlimit(40)]
    fn decide(&self, name: &str, params_json: &str, occurrence: u64, step_number: u64, param_hash: u64, lenient: bool) -> (r:
        Option<DurableResult<String>>)
        requires
            self.wf(),
        ensures
            answer_fits(route(self.known(), name@, occurrence, step_number, params_json@, param_hash, lenient), r, name@, occurrence, step_number, param_hash, self.ident()),
    {
        let key = name.to_string();
        let ghost h = self.history.model();
        let ghost rt = route(h, name@, occurrence, step_number, params_json@, param_hash, lenient);
        match self.history.step_occurrence(&key, occurrence) {
            Some(snapshot) => {
                if !lenient && !str_eq(snapshot.params.as_str(), params_json) && snapshot.params.as_str().unicode_len() > 0
                    && snapshot.param_hash != param_hash {
                    let mut expected = key.clone();
                    push_identity(&mut expected, occurrence, snapshot.param_hash);
                    let mut actual = key.clone();
                    push_identity(&mut actual, occurrence, param_hash);
                    return Some(
                        Err(
                            DurableError::NonDeterminismDetected {
                                step_number: snapshot.step_number,
                                expected_name: expected,
                                actual_name: actual,
                            },
                        ),
                    );
                }
                if snapshot.completed && !(snapshot.error.is_some() && snapshot.retryable) {
                    return Some(self.answer(snapshot, name, step_number));
                }
                None
            },
            None => {
                match self.history.step_at(step_number) {
                    Some(snapshot) => {
                        let same_name = str_eq(snapshot.step_name.as_str(), name);
                        if same_name && snapshot.completed {
                            if lenient {
                                let v = match &snapshot.result {
                                    Some(v) => v.clone(),
                                    None => "null".to_string(),
                                };
                                return Some(Ok(v));
                            }
                            if !(snapshot.error.is_some() && snapshot.retryable) {
                                return Some(self.answer(snapshot, name, step_number));
                            }
                            None
                        } else if !same_name && !lenient {
                            Some(
                                Err(
                                    DurableError::NonDeterminismDetected {
                                        step_number,
                                        expected_name: snapshot.step_name.clone(),
                                        actual_name: key,
                                    },
                                ),
                            )
                        } else {
                            None
                        }
                    },
                    None => None,
                }
            },
        }
    }

    /// Take into account an event appended for this execution (a signal
    /// received or consumed, a child flow started or completed).
    pub fn observe(&mut self, e: &Event)
        requires
            old(self).wf(),
            applicable(*e),
        ensures
            final(self).token() == old(self).token(),
            final(self).wf(),
            final(self).known() == apply_model(old(self).known(), *e),
            final(self).ident() == old(self).ident(),
            final(self).counter() == old(self).counter(),
            forall|name: Seq<char>| #[trigger] final(self).occurrence_count(name) == old(self).occurrence_count(name),
            final(self).pending() == old(self).pending(),
    {
        self.history.apply(e);
    }

    /// The data of a signal received and not yet consumed.
    pub fn pending_signal(&self, name: &str) -> (r: Option<String>)
        requires
            self.wf(),
        ensures
            r is Some <==> self.known().signals.dom().contains(name@),
            r matches Some(d) ==> d == self.known().signals[name@],
    {
        let key = name.to_string();
        match self.history.pending_signal(&key) {
            Some(d) => Some(d.clone()),
            None => None,
        }
    }

    /// Whether a child flow is known, and its result once completed.
    pub fn child_flow_result(&self, child_id: &ExecutionId) -> (r: Option<Option<String>>)
        requires
            self.wf(),
        ensures
            r is Some <==> self.known().children.dom().contains(hyphenated(child_id.0@)),
            r matches Some(v) ==> v == self.known().children[hyphenated(child_id.0@)],
    {
        let key = child_id.to_text();
        match self.history.child_flow(&key) {
            Some(v) => Some(crate::event::copy_opt(v)),
            None => None,
        }
    }

    /// Whether a version decision is recorded for a change.
    pub fn has_version(&self, change_id: &str) -> (r: bool)
        requires
            self.wf(),
        ensures
            r == (occurrences(self.known(), version_step_name(change_id@)).len() > 0),
    {
        let step = version_step(change_id);
        self.history.step_occurrence(&step, 0).is_some()
    }

    /// The recorded result (JSON text) of the next version decision for a
    /// change, taking its occurrence.
    pub fn cached_version(&mut self, change_id: &str) -> (r: Option<String>)
        requires
            old(self).wf(),
        ensures
            final(self).token() == old(self).token(),
            final(self).wf(),
            final(self).known() == old(self).known(),
            final(self).counter() == old(self).counter(),
            final(self).ident() == old(self).ident(),
            ({
                let name = version_step_name(change_id@);
                let occ = old(self).occurrence_count(name);
                let by = occurrences(old(self).known(), name);
                &&& final(self).occurrence_count(name) == if occ == u64::MAX { 0 } else { (occ + 1) as u64 }
                &&& r is Some <==> occ < by.len() && by[occ as int].result is Some
                &&& r matches Some(t) ==> by[occ as int].result == Some(t)
            }),
    {
        let step = version_step(change_id);
        let occ = self.next_occurrence(step.as_str());
        match self.history.step_occurrence(&step, occ) {
            Some(snapshot) => crate::event::copy_opt(&snapshot.result),
            None => None,
        }
    }

    /// Allocate the step of a live version decision and give the events
    /// that record it: started with the change's id, completed with the
    /// chosen version.
    pub fn version_events(&mut self, change_id: &str, chosen: u32) -> (r: (EventType, EventType))
        requires
            old(self).wf(),
        ensures
            final(self).token() == old(self).token(),
            final(self).wf(),
            final(self).known() == old(self).known(),
            final(self).ident() == old(self).ident(),
            final(self).counter() == if old(self).counter() == u64::MAX { 0 } else { (old(self).counter() + 1) as u64 },
            r.0 matches EventType::StepStarted { step_number, step_name, param_hash, params } && step_number == old(
                self,
            ).counter() && step_name@ == version_step_name(change_id@) && param_hash == 0 && params@
                == "{\"change_id\":\""@ + change_id@ + "\"}"@,
            r.1 matches EventType::StepCompleted { step_number, step_name, result } && step_number == old(
                self,
            ).counter() && step_name@ == version_step_name(change_id@) && result@ == dec_text(chosen as nat),
    {
        let n = self.step_counter;
        self.step_counter = n.wrapping_add(1);
        let mut params = "{\"change_id\":\"".to_string();
        params.push_str(change_id);
        params.push_str("\"}");
        let mut result = String::new();
        push_decimal(&mut result, chosen as u64);
        (
            EventType::StepStarted { step_number: n, step_name: version_step(change_id), param_hash: 0, params },
            EventType::StepCompleted { step_number: n, step_name: version_step(change_id), result },
        )
    }

    /// Whether a durable sleep already ended in the history; if so its
    /// occurrence is taken.
    pub fn sleep_done(&mut self, name: &str) -> (r: bool)
        requires
            old(self).wf(),
        ensures
            final(self).token() == old(self).token(),
            final(self).wf(),
            final(self).known() == old(self).known(),
            final(self).counter() == old(self).counter(),
            final(self).ident() == old(self).ident(),
            ({
                let step = timer_step_name(name@);
                let by = occurrences(old(self).known(), step);
                let occ = old(self).occurrence_count(step);
                &&& r == (by.len() > 0 && by[0].completed && by[0].error is None)
                &&& r ==> final(self).occurrence_count(step) == if occ == u64::MAX { 0 } else { (occ + 1) as u64 }
                &&& !r ==> final(self).occurrence_count(step) == occ
            }),
    {
        let mut step = "__timer_".to_string();
        step.push_str(name);
        let done = match self.history.step_occurrence(&step, 0) {
            Some(snapshot) => snapshot.completed && snapshot.error.is_none(),
            None => false,
        };
        if done {
            self.next_occurrence(step.as_str());
        }
        done
    }

    /// Whether a snapshot is due: every `interval` steps, never at step 0.
    pub fn snapshot_due(&self, interval: u64) -> (r: bool)
        ensures
            r == (interval != 0 && self.counter() != 0 && self.counter() % interval == 0),
    {
        interval != 0 && self.step_counter != 0 && self.step_counter % interval == 0
    }

    /// The answer recorded for a step: its permanent failure, or its result.
    fn answer(&self, s: &StepSnapshot, name: &str, n: u64) -> (r: DurableResult<String>)
        ensures
            cached_answer(*s, r, name@, self.ident(), n),
    {
        match &s.error {
            Some(e) => Err(
                DurableError::StepFailed {
                    step_name: name.to_string(),
                    message: e.clone(),
                    retryable: false,
                    execution_id: Some(self.id.to_text()),
                    step_number: Some(n),
                },
            ),
            None => match &s.result {
                Some(v) => Ok(v.clone()),
                None => Ok("null".to_string()),
            },
        }
    }

    fn event_key(&self, name: &str, occ: u64, phase: &str) -> (k: String)
        ensures
            k@ == step_event_key(self.ident(), name@, occ, phase@),
    {
        let mut k = self.id.to_text();
        k.push_str(":");
        k.push_str(name);
        k.push_str(":");
        push_decimal(&mut k, occ);
        k.push_str(":");
        k.push_str(phase);
        k
    }
}

/// What a live step records for its outcome, and what it gives back: a
/// completion with its result, a failure with the error's message and
/// whether it may be retried; a suspension records nothing.
pub fn step_outcome(live: &LiveStep, out: DurableResult<String>) -> (r: (Option<EventType>, DurableResult<String>))
    ensures
        r.1 == out,
        match out {
            Ok(v) => r.0 matches Some(EventType::StepCompleted { step_number, step_name, result })
                && step_number == live.step_number && step_name@ == live.step_name@ && result == v,
            Err(DurableError::Suspended(_)) => r.0 is None,
            Err(e) => r.0 matches Some(EventType::StepFailed { step_number, step_name, error, retryable })
                && step_number == live.step_number && step_name@ == live.step_name@ && error@ == message_spec(e)
                && retryable == outcome_retryable(e),
        },
{
    match out {
        Ok(v) => {
            let ev = EventType::StepCompleted {
                step_number: live.step_number,
                step_name: live.step_name.clone(),
                result: v.clone(),
            };
            (Some(ev), Ok(v))
        },
        Err(err) => {
            let retryable = match &err {
                DurableError::Suspended(_) => {
                    return (None, Err(err));
                },
                DurableError::StepFailed { retryable, .. } => *retryable,
                DurableError::ToolError { retryable, .. } => *retryable,
                DurableError::LlmError { retryable, .. } => *retryable,
                _ => false,
            };
            let ev = EventType::StepFailed {
                step_number: live.step_number,
                step_name: live.step_name.clone(),
                error: err.message(),
                retryable,
            };
            (Some(ev), Err(err))
        },
    }
}

/// Append the identity of an occurrence with a parameter hash.
fn push_identity(s: &mut String, occ: u64, hash: u64)
    ensures
        final(s)@ == old(s)@ + "["@ + dec_text(occ as nat) + "](hash:"@ + hex_text(hash as nat, 16) + ")"@,
{
    s.push_str("[");
    push_decimal(s, occ);
    s.push_str("](hash:");
    push_hex(s, hash, 16);
    s.push_str(")");
}

/// Whether two texts are equal.
pub fn str_eq(a: &str, b: &str) -> (r: bool)
    ensures
        r == (a@ == b@),
{
    let n = a.unicode_len();
    if n != b.unicode_len() {
        return false;
    }
    let mut i: usize = 0;
    while i < n
        invariant
            n == a@.len(),
            n == b@.len(),
            i <= n,
            a@.subrange(0, i as int) == b@.subrange(0, i as int),
        decreases n - i,
    {
        if a.get_char(i) != b.get_char(i) {
            return false;
        }
        assert(a@.subrange(0, i + 1) =~= a@.subrange(0, i as int).push(a@[i as int]));
        assert(b@.subrange(0, i + 1) =~= b@.subrange(0, i as int).push(b@[i as int]));
        i += 1;
    }
    assert(a@ =~= a@.subrange(0, n as int));
    assert(b@ =~= b@.subrange(0, n as int));
    true
}

/// The step that records the version decision of a change.
pub open spec fn version_step_name(change_id: Seq<char>) -> Seq<char> {
    "__version_"@ + change_id
}

/// The step that records a durable sleep.
pub open spec fn timer_step_name(name: Seq<char>) -> Seq<char> {
    "__timer_"@ + name
}

fn version_step(change_id: &str) -> (r: String)
    ensures
        r@ == version_step_name(change_id@),
{
    let mut r = "__version_".to_string();
    r.push_str(change_id);
    r
}

/// The event that records the creation of an execution, with its code
/// version and the hash and text of its system prompt.
pub fn created_event(version: Option<&str>, system_prompt: Option<&str>) -> (e: EventType)
    ensures
        e matches EventType::ExecutionCreated { version: v, prompt_hash, prompt_text } && (match version {
            Some(x) => v matches Some(y) && y@ == x@,
            None => v is None,
        }) && (match system_prompt {
            Some(p) => prompt_hash == Some(fnv1a_spec(p.spec_bytes())) && (prompt_text matches Some(t) && t@ == p@),
            None => prompt_hash is None && prompt_text is None,
        }),
{
    let v = match version {
        Some(x) => Some(x.to_string()),
        None => None,
    };
    match system_prompt {
        Some(p) => EventType::ExecutionCreated {
            version: v,
            prompt_hash: Some(crate::hash::fnv1a_hash(p.as_bytes())),
            prompt_text: Some(p.to_string()),
        },
        None => EventType::ExecutionCreated { version: v, prompt_hash: None, prompt_text: None },
    }
}

/// The system prompt must be the one the execution was created with,
/// when both are known.
pub fn check_prompt_drift(stored_hash: Option<u64>, system_prompt: Option<&str>) -> (r: DurableResult<()>)
    ensures
        match (stored_hash, system_prompt) {
            (Some(h), Some(p)) => if h == fnv1a_spec(p.spec_bytes()) {
                r is Ok
            } else {
                r == Err::<(), DurableError>(DurableError::PromptDrift { stored_hash: h, current_hash: fnv1a_spec(p.spec_bytes()) })
            },
            _ => r is Ok,
        },
{
    match (stored_hash, system_prompt) {
        (Some(h), Some(p)) => {
            let current = crate::hash::fnv1a_hash(p.as_bytes());
            if h != current {
                Err(DurableError::PromptDrift { stored_hash: h, current_hash: current })
            } else {
                Ok(())
            }
        },
        _ => Ok(()),
    }
}

/// The code must have the version the execution was created with, when
/// one was recorded.
pub fn check_version(stored: &Option<String>, expected: &str) -> (r: DurableResult<()>)
    ensures
        match stored {
            Some(v) => if v@ == expected@ {
                r is Ok
            } else {
                r matches Err(DurableError::InvalidState(m)) && m@ == "version mismatch: execution has '"@ + v@
                    + "', code is '"@ + expected@ + "'"@
            },
            None => r is Ok,
        },
{
    match stored {
        Some(v) => {
            if str_eq(v.as_str(), expected) {
                Ok(())
            } else {
                let mut m = "version mismatch: execution has '".to_string();
                m.push_str(v.as_str());
                m.push_str("', code is '");
                m.push_str(expected);
                m.push_str("'");
                Err(DurableError::InvalidState(m))
            }
        },
        None => Ok(()),
    }
}

/// Replay gives back what a live run recorded: after a step's start and
/// completion are appended to a history, the same occurrence of that step
/// name, with the same parameters, is answered from the history with the
/// recorded result, whatever number the step gets on replay.
pub proof fn law_replay_returns_recorded(m: StateModel, start: Event, done: Event, replay_number: u64, lenient: bool)
    requires
        start.event_type matches EventType::StepStarted { step_number: n, step_name: name, .. }
            && done.event_type matches EventType::StepCompleted { step_number: n2, step_name: name2, .. }
            && n == n2 && name@ == name2@,
        occurrences(m, start.event_type->StepStarted_step_name@).len() < u64::MAX,
    ensures
        ({
            let after = apply_model(apply_model(m, start), done);
            let name = start.event_type->StepStarted_step_name@;
            let occ = occurrences(m, name).len() as u64;
            let params = start.event_type->StepStarted_params@;
            let hash = start.event_type->StepStarted_param_hash;
            route(after, name, occ, replay_number, params, hash, lenient) matches Route::Cached(s)
                && s.error is None && result_text(s) == done.event_type->StepCompleted_result@
        }),
{
    crate::event::law_completed_step_is_recorded(m, start, done);
    let after = apply_model(apply_model(m, start), done);
    let name = start.event_type->StepStarted_step_name@;
    let n = start.event_type->StepStarted_step_number;
    let k = occurrences(m, name).len();
    assert(occurrences(after, name)[k as int] == after.steps[n]);
    assert(after.steps[n].params == start.event_type->StepStarted_params) by {
        let mid = apply_model(m, start);
        assert(mid.steps[n].params == start.event_type->StepStarted_params);
    }
    assert(after.steps[n].param_hash == start.event_type->StepStarted_param_hash) by {
        let mid = apply_model(m, start);
        assert(mid.steps[n].param_hash == start.event_type->StepStarted_param_hash);
    }
}

/// A step whose recorded failure allows a retry runs again: after a
/// step's start and a retryable failure are appended to a history, the
/// same occurrence of that step name, with the same parameters, is not
/// answered from the history, so the step is planned live.
pub proof fn law_retryable_failure_runs_again(m: StateModel, start: Event, failed: Event, replay_number: u64, lenient: bool)
    requires
        start.event_type matches EventType::StepStarted { step_number: n, step_name: name, .. }
            && failed.event_type matches EventType::StepFailed { step_number: n2, step_name: name2, retryable, .. }
            && n == n2 && name@ == name2@ && retryable,
        occurrences(m, start.event_type->StepStarted_step_name@).len() < u64::MAX,
    ensures
        ({
            let after = apply_model(apply_model(m, start), failed);
            let name = start.event_type->StepStarted_step_name@;
            let occ = occurrences(m, name).len() as u64;
            let params = start.event_type->StepStarted_params@;
            let hash = start.event_type->StepStarted_param_hash;
            let id = after.execution_id;
            &&& route(after, name, occ, replay_number, params, hash, lenient) is Live
            &&& forall|plan: StepPlan|
                answer_fits(route(after, name, occ, replay_number, params, hash, lenient), #[trigger] plan_answer(plan), name, occ, replay_number, hash, id)
                    ==> plan is Live
        }),
{
    let mid = apply_model(m, start);
    let name = start.event_type->StepStarted_step_name@;
    let n = start.event_type->StepStarted_step_number;
    let k = occurrences(m, name).len();
    assert(mid.by_name.dom().contains(name));
    assert(occurrences(mid, name) == occurrences(m, name).push(mid.steps[n]));
    let e = failed.event_type->StepFailed_error;
    let f = |s: StepSnapshot| StepSnapshot { error: Some(e), retryable: true, completed: true, ..s };
    assert(mid.steps.dom().contains(n));
    assert(mid.steps[n].occurrence == k);
    let after = apply_model(mid, failed);
    assert(after == finish_step(StateModel { updated_at: failed.timestamp, ..mid }, n, name, f));
    let seq1 = occurrences(mid, name);
    assert(after.by_name[name] == seq1.update(k as int, f(seq1[k as int])));
    assert(seq1[k as int] == mid.steps[n]);
    let s = occurrences(after, name)[k as int];
    assert(s == f(mid.steps[n]));
    assert(s.params == start.event_type->StepStarted_params);
    assert(s.error is Some && s.retryable);
}

/// The same holds of a step found only under its number (a positional
/// record, when the history has no such occurrence of the name): a
/// recorded failure that allows a retry is not answered to a strict step,
/// which runs again.
pub proof fn law_retryable_positional_failure_runs_again(h: StateModel, name: Seq<char>, occ: u64, n: u64, params: Seq<char>, hash: u64)
    requires
        occ >= occurrences(h, name).len(),
        h.steps.dom().contains(n),
        h.steps[n].step_name@ == name,
        h.steps[n].completed,
        h.steps[n].error is Some,
        h.steps[n].retryable,
    ensures
        route(h, name, occ, n, params, hash, false) is Live,
{
}

/// The order in which `n` registered compensations run: the last
/// registered first.
pub fn compensation_order(n: usize) -> (r: Vec<usize>)
    ensures
        r@.len() == n,
        forall|i: int| 0 <= i < n ==> #[trigger] r@[i] == n - 1 - i,
{
    let mut r: Vec<usize> = Vec::new();
    let mut k: usize = n;
    while k > 0
        invariant
            k <= n,
            r@.len() == n - k,
            forall|i: int| 0 <= i < n - k ==> #[trigger] r@[i] == n - 1 - i,
        decreases k,
    {
        k -= 1;
        r.push(k);
    }
    r
}

/// The memoised step that runs the compensation of a step.
pub fn compensation_step_name(step_name: &str) -> (s: String)
    ensures
        s@ == "__compensate_"@ + step_name@,
{
    let mut s = "__compensate_".to_string();
    s.push_str(step_name);
    s
}

/// The event that records how the compensation of a step ended: its
/// result (JSON text), or its error's message.
pub fn compensation_event(step_name: &str, outcome: &DurableResult<String>) -> (e: EventType)
    ensures
        match outcome {
            Ok(v) => e matches EventType::CompensationCompleted { step_name: n, result } && n@ == step_name@
                && result@ == v@,
            Err(err) => e matches EventType::CompensationFailed { step_name: n, error } && n@ == step_name@
                && error@ == message_spec(*err),
        },
{
    match outcome {
        Ok(v) => EventType::CompensationCompleted { step_name: step_name.to_string(), result: v.clone() },
        Err(err) => EventType::CompensationFailed { step_name: step_name.to_string(), error: err.message() },
    }
}

} // verus!
