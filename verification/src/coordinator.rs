//! The MapReduce coordinator as a state machine: every request of a worker or
//! a client is a transition from the current state (and the current time, in
//! milliseconds) to the next state and a reply.

use std::collections::HashMap;
use std::collections::VecDeque;
use vstd::prelude::*;

use crate::messages::{
    clone_strings, MapTaskAssignment, PollJobReply, PollJobReplyView, SubmitJobRequest,
    SubmitJobRequestView, TaskReply, TaskReplyView,
};

verus! {

broadcast use vstd::std_specs::hash::group_hash_axioms;

/// The progress of one map or reduce task.
#[derive(Debug, Clone, Copy, PartialEq, Eq, Structural)]
pub enum TaskState {
    Idle,
    InProgress,
    Completed,
}

/// One task of a job: its state, the worker that holds it and when it was
/// handed out (milliseconds).
#[derive(Debug, Clone, Copy, PartialEq, Eq, Structural)]
pub struct TaskRecord {
    pub state: TaskState,
    pub worker_id: Option<u32>,
    pub assigned_at: Option<u64>,
}

pub open spec fn idle_task() -> TaskRecord {
    TaskRecord { state: TaskState::Idle, worker_id: None, assigned_at: None }
}

impl TaskRecord {
    /// A task that nobody holds yet.
    pub fn idle() -> (t: Self)
        ensures
            t == idle_task(),
    {
        TaskRecord { state: TaskState::Idle, worker_id: None, assigned_at: None }
    }
}

/// The coordinator's settings.
#[derive(Debug, Clone)]
pub struct CoordinatorConfig {
    pub host: String,
    pub port: u16,
    pub initial_worker_id: u32,
    pub initial_job_id: u32,
    pub task_timeout_secs: u64,
    pub coordinator_startup_ms: u64,
}

/// A job known to the coordinator.
#[derive(Debug)]
pub struct JobRecord {
    pub job_id: u32,
    pub files: Vec<String>,
    pub output_dir: String,
    pub app: String,
    pub n_map: u32,
    pub map_tasks: Vec<TaskRecord>,
    pub reduce_tasks: Vec<TaskRecord>,
    pub done: bool,
    pub failed: bool,
    pub key: String,
    pub entity: String,
    pub evaluator_id: u64,
    pub ingestion_job_id: u64,
    pub errors: Vec<String>,
}

/// The view of a [`JobRecord`].
pub struct JobView {
    pub job_id: u32,
    pub files: Seq<Seq<char>>,
    pub output_dir: Seq<char>,
    pub app: Seq<char>,
    pub n_map: u32,
    pub map_tasks: Seq<TaskRecord>,
    pub reduce_tasks: Seq<TaskRecord>,
    pub done: bool,
    pub failed: bool,
    pub key: Seq<char>,
    pub entity: Seq<char>,
    pub evaluator_id: u64,
    pub ingestion_job_id: u64,
    pub errors: Seq<Seq<char>>,
}

impl View for JobRecord {
    type V = JobView;

    open spec fn view(&self) -> JobView {
        JobView {
            job_id: self.job_id,
            files: self.files.deep_view(),
            output_dir: self.output_dir@,
            app: self.app@,
            n_map: self.n_map,
            map_tasks: self.map_tasks@,
            reduce_tasks: self.reduce_tasks@,
            done: self.done,
            failed: self.failed,
            key: self.key@,
            entity: self.entity@,
            evaluator_id: self.evaluator_id,
            ingestion_job_id: self.ingestion_job_id,
            errors: self.errors.deep_view(),
        }
    }
}

impl JobRecord {
    /// A copy of the job.
    pub fn duplicate(&self) -> (r: Self)
        ensures
            r@ == self@,
    {
        JobRecord {
            job_id: self.job_id,
            files: clone_strings(&self.files),
            output_dir: self.output_dir.clone(),
            app: self.app.clone(),
            n_map: self.n_map,
            map_tasks: self.map_tasks.clone(),
            reduce_tasks: self.reduce_tasks.clone(),
            done: self.done,
            failed: self.failed,
            key: self.key.clone(),
            entity: self.entity.clone(),
            evaluator_id: self.evaluator_id,
            ingestion_job_id: self.ingestion_job_id,
            errors: clone_strings(&self.errors),
        }
    }
}

/// Why the coordinator refused a request.
#[derive(Debug, Clone, Copy, PartialEq, Eq, Structural)]
pub enum CoordinatorError {
    /// The job id names no job ("job id is invalid").
    JobNotFound,
    /// The task number is out of range ("invalid task number").
    InvalidTaskNumber,
}

/// The abstract state of the coordinator.
pub struct CoordinatorView {
    pub next_job_id: u32,
    pub next_worker_id: u32,
    pub jobs: Map<u32, JobView>,
    pub job_order: Seq<u32>,
    pub workers: Map<u32, u64>,
    pub timeout_secs: u64,
}

/// The MapReduce coordinator.
pub struct Coordinator {
    task_timeout_secs: u64,
    next_job_id: u32,
    next_worker_id: u32,
    jobs: HashMap<u32, JobRecord>,
    job_order: VecDeque<u32>,
    workers: HashMap<u32, u64>,
}

// ---------------------------------------------------------------------------
// liveness and task availability
// ---------------------------------------------------------------------------

/// Time since `since`, zero when `since` lies after `now`.
pub open spec fn elapsed_ms(now: u64, since: u64) -> int {
    if now >= since {
        now - since
    } else {
        0
    }
}

/// A worker is alive when its last heartbeat is younger than the timeout.
pub open spec fn worker_alive(workers: Map<u32, u64>, wid: u32, now: u64, timeout_secs: u64) -> bool {
    workers.contains_key(wid) && elapsed_ms(now, workers[wid]) < timeout_secs * 1000
}

/// A task may be handed out when it is idle, or when the worker holding it
/// (in progress or finished) is no longer alive.
pub open spec fn task_available(
    t: TaskRecord,
    workers: Map<u32, u64>,
    now: u64,
    timeout_secs: u64,
) -> bool {
    match t.state {
        TaskState::Idle => true,
        TaskState::InProgress => match t.worker_id {
            Some(w) => !worker_alive(workers, w, now, timeout_secs),
            None => true,
        },
        TaskState::Completed => match t.worker_id {
            Some(w) => !worker_alive(workers, w, now, timeout_secs),
            None => false,
        },
    }
}

/// A task is settled when it is completed by a worker that is still alive.
pub open spec fn task_settled(
    t: TaskRecord,
    workers: Map<u32, u64>,
    now: u64,
    timeout_secs: u64,
) -> bool {
    t.state == TaskState::Completed && t.worker_id is Some && worker_alive(
        workers,
        t.worker_id->0,
        now,
        timeout_secs,
    )
}

pub open spec fn all_settled(
    tasks: Seq<TaskRecord>,
    workers: Map<u32, u64>,
    now: u64,
    timeout_secs: u64,
) -> bool {
    forall|i: int| 0 <= i < tasks.len() ==> #[trigger] task_settled(tasks[i], workers, now, timeout_secs)
}

pub open spec fn all_completed(tasks: Seq<TaskRecord>) -> bool {
    forall|i: int| 0 <= i < tasks.len() ==> (#[trigger] tasks[i]).state == TaskState::Completed
}

/// The first available task at index `i` or later.
pub open spec fn first_available_from(
    tasks: Seq<TaskRecord>,
    i: int,
    workers: Map<u32, u64>,
    now: u64,
    timeout_secs: u64,
) -> Option<int>
    decreases tasks.len() - i,
{
    if i < 0 || i >= tasks.len() {
        None
    } else if task_available(tasks[i], workers, now, timeout_secs) {
        Some(i)
    } else {
        first_available_from(tasks, i + 1, workers, now, timeout_secs)
    }
}

/// The first available task is available, in range, and no task before it
/// (from `i` on) is available.
pub proof fn lemma_first_available(
    tasks: Seq<TaskRecord>,
    i: int,
    workers: Map<u32, u64>,
    now: u64,
    timeout_secs: u64,
)
    requires
        0 <= i,
    ensures
        match first_available_from(tasks, i, workers, now, timeout_secs) {
            Some(x) => {
                &&& i <= x < tasks.len()
                &&& task_available(tasks[x], workers, now, timeout_secs)
                &&& forall|y: int| i <= y < x ==> !task_available(#[trigger] tasks[y], workers, now, timeout_secs)
            },
            None => forall|y: int| i <= y < tasks.len() ==> !task_available(#[trigger] tasks[y], workers, now, timeout_secs),
        },
    decreases tasks.len() - i,
{
    if i < tasks.len() && !task_available(tasks[i], workers, now, timeout_secs) {
        lemma_first_available(tasks, i + 1, workers, now, timeout_secs);
    }
}

/// The task that the coordinator hands out next, searching the jobs in
/// submission order from position `k`: `(job id, is reduce, task index)`.
/// Finished and failed jobs are skipped; a job offers map tasks until all of
/// them are settled, and reduce tasks after that.
pub open spec fn pick_from(
    jobs: Map<u32, JobView>,
    order: Seq<u32>,
    k: int,
    workers: Map<u32, u64>,
    now: u64,
    timeout_secs: u64,
) -> Option<(u32, bool, int)>
    decreases order.len() - k,
{
    if k < 0 || k >= order.len() {
        None
    } else {
        let jid = order[k];
        let j = jobs[jid];
        if j.failed || j.done {
            pick_from(jobs, order, k + 1, workers, now, timeout_secs)
        } else if !all_settled(j.map_tasks, workers, now, timeout_secs) {
            match first_available_from(j.map_tasks, 0, workers, now, timeout_secs) {
                Some(i) => Some((jid, false, i)),
                None => pick_from(jobs, order, k + 1, workers, now, timeout_secs),
            }
        } else {
            match first_available_from(j.reduce_tasks, 0, workers, now, timeout_secs) {
                Some(i) => Some((jid, true, i)),
                None => pick_from(jobs, order, k + 1, workers, now, timeout_secs),
            }
        }
    }
}


// ---------------------------------------------------------------------------
// well-formedness and transitions
// ---------------------------------------------------------------------------

/// A job's task lists agree with its shape: one map task per listed input
/// file (up to `n_map`) and a reduce task count that fits a `u32`.
pub open spec fn job_wf(j: JobView) -> bool {
    &&& j.map_tasks.len() == j.n_map
    &&& j.n_map <= j.files.len()
    &&& j.reduce_tasks.len() <= u32::MAX
}

/// The coordinator's invariant: the submission order lists every job exactly
/// once, every job is filed under its own id, ids are below the next id.
pub open spec fn state_wf(s: CoordinatorView) -> bool {
    &&& s.job_order.no_duplicates()
    &&& forall|i: int| 0 <= i < s.job_order.len() ==> s.jobs.contains_key(#[trigger] s.job_order[i])
    &&& forall|id: u32| #[trigger] s.jobs.contains_key(id) ==> {
        &&& s.job_order.contains(id)
        &&& id < s.next_job_id
        &&& s.jobs[id].job_id == id
        &&& job_wf(s.jobs[id])
    }
}

/// The job that `submit_job` creates.
pub open spec fn new_job_view(id: u32, r: SubmitJobRequestView) -> JobView {
    let n_map = r.files.len() as u32;
    JobView {
        job_id: id,
        files: r.files,
        output_dir: r.output_dir,
        app: r.app,
        n_map: n_map,
        map_tasks: Seq::new(n_map as nat, |i: int| idle_task()),
        reduce_tasks: Seq::new(r.n_reduce as nat, |i: int| idle_task()),
        done: false,
        failed: false,
        key: r.key,
        entity: r.entity,
        evaluator_id: r.evaluator_id,
        ingestion_job_id: r.ingestion_job_id,
        errors: Seq::empty(),
    }
}

/// Submitting a job files it under the next id, appends it to the order and
/// returns the id.
pub open spec fn spec_submit(s: CoordinatorView, r: SubmitJobRequestView) -> (CoordinatorView, u32) {
    let id = s.next_job_id;
    (
        CoordinatorView {
            next_job_id: (id + 1) as u32,
            jobs: s.jobs.insert(id, new_job_view(id, r)),
            job_order: s.job_order.push(id),
            ..s
        },
        id,
    )
}

/// Polling reports a job's id, flags and errors, or that it is unknown.
pub open spec fn spec_poll(s: CoordinatorView, id: u32) -> Result<PollJobReplyView, CoordinatorError> {
    if s.jobs.contains_key(id) {
        let j = s.jobs[id];
        Ok(PollJobReplyView { id: j.job_id, done: j.done, failed: j.failed, errors: j.errors })
    } else {
        Err(CoordinatorError::JobNotFound)
    }
}

/// Registering hands out the next worker id and records a heartbeat for it.
pub open spec fn spec_register(s: CoordinatorView, now: u64) -> (CoordinatorView, u32) {
    let wid = s.next_worker_id;
    (
        CoordinatorView {
            next_worker_id: (wid + 1) as u32,
            workers: s.workers.insert(wid, now),
            ..s
        },
        wid,
    )
}

/// A heartbeat records the time for the worker.
pub open spec fn spec_heartbeat(s: CoordinatorView, wid: u32, now: u64) -> CoordinatorView {
    CoordinatorView { workers: s.workers.insert(wid, now), ..s }
}


/// A job with task `idx` of the chosen list replaced by `t`.
pub open spec fn with_task(j: JobView, reduce: bool, idx: int, t: TaskRecord) -> JobView {
    if reduce {
        JobView { reduce_tasks: j.reduce_tasks.update(idx, t), ..j }
    } else {
        JobView { map_tasks: j.map_tasks.update(idx, t), ..j }
    }
}

pub open spec fn completed_by(wid: u32, now: u64) -> TaskRecord {
    TaskRecord { state: TaskState::Completed, worker_id: Some(wid), assigned_at: Some(now) }
}

pub open spec fn in_progress_by(wid: u32, now: u64) -> TaskRecord {
    TaskRecord { state: TaskState::InProgress, worker_id: Some(wid), assigned_at: Some(now) }
}

/// Finishing a task: unknown jobs are refused; finished or failed jobs and
/// tasks already completed are left as they are; an out-of-range task is
/// refused; otherwise the task becomes completed by the worker, and the job
/// becomes done when every reduce task is completed and every map task is
/// settled. The done job is returned so that its completion can be handled.
pub open spec fn spec_finish(
    s: CoordinatorView,
    wid: u32,
    jid: u32,
    task: u32,
    reduce: bool,
    now: u64,
) -> (CoordinatorView, Result<Option<JobView>, CoordinatorError>) {
    if !s.jobs.contains_key(jid) {
        (s, Err(CoordinatorError::JobNotFound))
    } else {
        let j = s.jobs[jid];
        if j.failed || j.done {
            (s, Ok(None))
        } else {
            let tasks = if reduce {
                j.reduce_tasks
            } else {
                j.map_tasks
            };
            if task >= tasks.len() {
                (s, Err(CoordinatorError::InvalidTaskNumber))
            } else if tasks[task as int].state == TaskState::Completed {
                (s, Ok(None))
            } else {
                let j1 = with_task(j, reduce, task as int, completed_by(wid, now));
                let all_done = all_completed(j1.reduce_tasks) && all_settled(
                    j1.map_tasks,
                    s.workers,
                    now,
                    s.timeout_secs,
                );
                let j2 = JobView { done: all_done, ..j1 };
                (
                    CoordinatorView { jobs: s.jobs.insert(jid, j2), ..s },
                    Ok(
                        if all_done {
                            Some(j2)
                        } else {
                            None
                        },
                    ),
                )
            }
        }
    }
}

/// A worker that asks for work is recorded if it was unknown.
pub open spec fn workers_after_contact(workers: Map<u32, u64>, wid: u32, now: u64) -> Map<u32, u64> {
    if workers.contains_key(wid) {
        workers
    } else {
        workers.insert(wid, now)
    }
}

/// The reply that tells a worker to wait (a demo file-read task).
pub open spec fn wait_reply() -> TaskReplyView {
    TaskReplyView {
        job_id: 0,
        output_dir: "../../../data/output/transaction.txt"@,
        file: "../../../data/transaction/transaction20260914.txt"@,
        wait: true,
        task: 0,
        reduce: false,
        n_reduce: 4,
        app: "benefit-evaluator"@,
        key: Seq::empty(),
        entity: Seq::empty(),
        map_task_assignments: Seq::empty(),
    }
}

/// Which worker holds each map task.
pub open spec fn assignments_of(map_tasks: Seq<TaskRecord>) -> Seq<MapTaskAssignment> {
    Seq::new(
        map_tasks.len(),
        |i: int| MapTaskAssignment { task: i as u32, worker_id: map_tasks[i].worker_id->0 },
    )
}

/// The reply that hands task `idx` of job `jid` to a worker: map tasks carry
/// their input file, reduce tasks the map task assignments.
pub open spec fn assignment_reply(jid: u32, j: JobView, reduce: bool, idx: int) -> TaskReplyView {
    TaskReplyView {
        job_id: jid,
        output_dir: j.output_dir,
        file: if reduce {
            Seq::empty()
        } else {
            j.files[idx]
        },
        wait: false,
        task: idx as u32,
        reduce: reduce,
        n_reduce: j.reduce_tasks.len() as u32,
        app: j.app,
        key: j.key,
        entity: j.entity,
        map_task_assignments: if reduce {
            assignments_of(j.map_tasks)
        } else {
            Seq::empty()
        },
    }
}

/// Asking for work: the worker is recorded if unknown; the first available
/// task (see [`pick_from`]) becomes in progress by the worker and is handed
/// out; when there is none the worker is told to wait.
pub open spec fn spec_get_task(s: CoordinatorView, wid: u32, now: u64) -> (CoordinatorView, TaskReplyView) {
    let workers = workers_after_contact(s.workers, wid, now);
    let s1 = CoordinatorView { workers: workers, ..s };
    match pick_from(s.jobs, s.job_order, 0, workers, now, s.timeout_secs) {
        None => (s1, wait_reply()),
        Some(p) => {
            let (jid, reduce, idx) = p;
            let j = s.jobs[jid];
            (
                CoordinatorView {
                    jobs: s.jobs.insert(jid, with_task(j, reduce, idx, in_progress_by(wid, now))),
                    ..s1
                },
                assignment_reply(jid, j, reduce, idx),
            )
        },
    }
}

impl View for Coordinator {
    type V = CoordinatorView;

    closed spec fn view(&self) -> CoordinatorView {
        CoordinatorView {
            next_job_id: self.next_job_id,
            next_worker_id: self.next_worker_id,
            jobs: Map::new(|k: u32| self.jobs@.contains_key(k), |k: u32| self.jobs@[k]@),
            job_order: self.job_order@,
            workers: self.workers@,
            timeout_secs: self.task_timeout_secs,
        }
    }
}

impl Coordinator {
    /// The coordinator's invariant.
    pub closed spec fn wf(&self) -> bool {
        state_wf(self@)
    }

    /// A well-formed coordinator's state meets [`state_wf`], which the laws
    /// below ask for.
    pub proof fn lemma_wf_state(&self)
        requires
            self.wf(),
        ensures
            state_wf(self@),
    {
    }

    /// A coordinator with no jobs and no workers; ids start at the
    /// configured values.
    pub fn new(config: &CoordinatorConfig) -> (c: Self)
        ensures
            c.wf(),
            c@.next_job_id == config.initial_job_id,
            c@.next_worker_id == config.initial_worker_id,
            c@.jobs == Map::<u32, JobView>::empty(),
            c@.job_order == Seq::<u32>::empty(),
            c@.workers == Map::<u32, u64>::empty(),
            c@.timeout_secs == config.task_timeout_secs,
    {
        let c = Coordinator {
            task_timeout_secs: config.task_timeout_secs,
            next_job_id: config.initial_job_id,
            next_worker_id: config.initial_worker_id,
            jobs: HashMap::new(),
            job_order: VecDeque::new(),
            workers: HashMap::new(),
        };
        assert(c@.jobs =~= Map::<u32, JobView>::empty());
        c
    }

    /// The configured task timeout.
    pub fn task_timeout_secs(&self) -> (t: u64)
        ensures
            t == self@.timeout_secs,
    {
        self.task_timeout_secs
    }

    /// The job filed under `id`, if any.
    pub fn job(&self, id: u32) -> (r: Option<&JobRecord>)
        ensures
            match r {
                Some(j) => self@.jobs.contains_key(id) && j@ == self@.jobs[id],
                None => !self@.jobs.contains_key(id),
            },
    {
        self.jobs.get(&id)
    }

    /// Files a new job under the next job id and returns that id.
    pub fn submit_job(&mut self, r: SubmitJobRequest) -> (job_id: u32)
        requires
            old(self).wf(),
            old(self)@.next_job_id < u32::MAX,
        ensures
            final(self).wf(),
            (final(self)@, job_id) == spec_submit(old(self)@, r@),
    {
        let ghost s0 = self@;
        let ghost rv = r@;
        let job_id = self.next_job_id;
        self.next_job_id = self.next_job_id + 1;
        let n_map = r.files.len() as u32;
        let mut map_tasks: Vec<TaskRecord> = Vec::new();
        let mut i: u32 = 0;
        while i < n_map
            invariant
                i <= n_map,
                map_tasks@ =~= Seq::new(i as nat, |j: int| idle_task()),
            decreases n_map - i,
        {
            map_tasks.push(TaskRecord::idle());
            i = i + 1;
        }
        let mut reduce_tasks: Vec<TaskRecord> = Vec::new();
        let mut i: u32 = 0;
        while i < r.n_reduce
            invariant
                i <= r.n_reduce,
                reduce_tasks@ =~= Seq::new(i as nat, |j: int| idle_task()),
            decreases r.n_reduce - i,
        {
            reduce_tasks.push(TaskRecord::idle());
            i = i + 1;
        }
        let job = JobRecord {
            job_id,
            files: r.files,
            output_dir: r.output_dir,
            app: r.app,
            n_map,
            map_tasks,
            reduce_tasks,
            done: false,
            failed: false,
            key: r.key,
            entity: r.entity,
            evaluator_id: r.evaluator_id,
            ingestion_job_id: r.ingestion_job_id,
            errors: Vec::new(),
        };
        proof {
            let nv = new_job_view(job_id, rv);
            assert(job@.map_tasks =~= nv.map_tasks);
            assert(job@.reduce_tasks =~= nv.reduce_tasks);
            assert(job@.errors =~= nv.errors);
            assert(job@ == nv);
        }
        self.jobs.insert(job_id, job);
        self.job_order.push_back(job_id);
        proof {
            let s1 = self@;
            let expect = spec_submit(s0, rv).0;
            assert(s1.jobs =~= expect.jobs);
            assert(s1.job_order =~= expect.job_order);
            assert(!s0.jobs.contains_key(job_id));
            assert(!s0.job_order.contains(job_id));
            assert forall|i: int| 0 <= i < s1.job_order.len() implies s1.jobs.contains_key(
                #[trigger] s1.job_order[i],
            ) by {
                if i < s0.job_order.len() {
                    assert(s1.job_order[i] == s0.job_order[i]);
                }
            }
            assert forall|id: u32| #[trigger] s1.jobs.contains_key(id) implies {
                &&& s1.job_order.contains(id)
                &&& id < s1.next_job_id
                &&& s1.jobs[id].job_id == id
                &&& job_wf(s1.jobs[id])
            } by {
                if id != job_id {
                    let w = choose|w: int| 0 <= w < s0.job_order.len() && s0.job_order[w] == id;
                    assert(s1.job_order[w] == id);
                } else {
                    assert(s1.job_order[s0.job_order.len() as int] == id);
                }
            }
        }
        job_id
    }

    /// Reports the status of a job.
    pub fn poll_job(&self, job_id: u32) -> (r: Result<PollJobReply, CoordinatorError>)
        ensures
            match (r, spec_poll(self@, job_id)) {
                (Ok(a), Ok(b)) => a@ == b,
                (Err(a), Err(b)) => a == b,
                _ => false,
            },
    {
        match self.jobs.get(&job_id) {
            None => Err(CoordinatorError::JobNotFound),
            Some(j) => Ok(
                PollJobReply {
                    id: j.job_id,
                    done: j.done,
                    failed: j.failed,
                    errors: clone_strings(&j.errors),
                },
            ),
        }
    }

    /// Registers a worker under the next worker id.
    pub fn register(&mut self, now: u64) -> (wid: u32)
        requires
            old(self).wf(),
            old(self)@.next_worker_id < u32::MAX,
        ensures
            final(self).wf(),
            (final(self)@, wid) == spec_register(old(self)@, now),
    {
        let ghost s0 = self@;
        let wid = self.next_worker_id;
        self.next_worker_id = self.next_worker_id + 1;
        self.workers.insert(wid, now);
        proof {
            assert(self@.jobs =~= s0.jobs);
        }
        wid
    }

    /// Records a heartbeat of a worker.
    pub fn heartbeat(&mut self, worker_id: u32, now: u64)
        requires
            old(self).wf(),
        ensures
            final(self).wf(),
            final(self)@ == spec_heartbeat(old(self)@, worker_id, now),
    {
        let ghost s0 = self@;
        self.workers.insert(worker_id, now);
        proof {
            assert(self@.jobs =~= s0.jobs);
        }
    }

    fn is_worker_alive(&self, wid: u32, now: u64) -> (r: bool)
        ensures
            r == worker_alive(self@.workers, wid, now, self@.timeout_secs),
    {
        match self.workers.get(&wid) {
            Some(ts) => {
                let ts = *ts;
                let el: u64 = if now >= ts {
                    now - ts
                } else {
                    0
                };
                (el as u128) < (self.task_timeout_secs as u128) * 1000
            },
            None => false,
        }
    }

    fn task_is_available(&self, t: &TaskRecord, now: u64) -> (r: bool)
        ensures
            r == task_available(*t, self@.workers, now, self@.timeout_secs),
    {
        match t.state {
            TaskState::Idle => true,
            TaskState::InProgress => match t.worker_id {
                Some(w) => !self.is_worker_alive(w, now),
                None => true,
            },
            TaskState::Completed => match t.worker_id {
                Some(w) => !self.is_worker_alive(w, now),
                None => false,
            },
        }
    }

    fn all_tasks_settled(&self, tasks: &Vec<TaskRecord>, now: u64) -> (r: bool)
        ensures
            r == all_settled(tasks@, self@.workers, now, self@.timeout_secs),
    {
        let mut i: usize = 0;
        while i < tasks.len()
            invariant
                i <= tasks.len(),
                forall|j: int|
                    0 <= j < i ==> #[trigger] task_settled(tasks@[j], self@.workers, now, self@.timeout_secs),
            decreases tasks.len() - i,
        {
            let t = tasks[i];
            let ok = match t.state {
                TaskState::Completed => match t.worker_id {
                    Some(w) => self.is_worker_alive(w, now),
                    None => false,
                },
                _ => false,
            };
            if !ok {
                assert(!task_settled(tasks@[i as int], self@.workers, now, self@.timeout_secs));
                return false;
            }
            i = i + 1;
        }
        true
    }

    fn first_available(&self, tasks: &Vec<TaskRecord>, now: u64) -> (r: Option<usize>)
        ensures
            match (r, first_available_from(tasks@, 0, self@.workers, now, self@.timeout_secs)) {
                (Some(a), Some(b)) => a == b,
                (None, None) => true,
                _ => false,
            },
            r matches Some(a) ==> a < tasks@.len(),
    {
        proof {
            lemma_first_available(tasks@, 0, self@.workers, now, self@.timeout_secs);
        }
        let mut i: usize = 0;
        while i < tasks.len()
            invariant
                i <= tasks.len(),
                first_available_from(tasks@, 0, self@.workers, now, self@.timeout_secs)
                    == first_available_from(tasks@, i as int, self@.workers, now, self@.timeout_secs),
            decreases tasks.len() - i,
        {
            if self.task_is_available(&tasks[i], now) {
                return Some(i);
            }
            i = i + 1;
        }
        None
    }

    /// Marks a task finished (see [`spec_finish`]); returns the job when it
    /// has just become done.
    pub fn finish_task(&mut self, worker_id: u32, job_id: u32, task: u32, reduce: bool, now: u64) -> (r:
        Result<Option<JobRecord>, CoordinatorError>)
        requires
            old(self).wf(),
        ensures
            final(self).wf(),
            final(self)@ == spec_finish(old(self)@, worker_id, job_id, task, reduce, now).0,
            match (r, spec_finish(old(self)@, worker_id, job_id, task, reduce, now).1) {
                (Ok(Some(a)), Ok(Some(b))) => a@ == b,
                (Ok(None), Ok(None)) => true,
                (Err(a), Err(b)) => a == b,
                _ => false,
            },
    {
        let ghost s0 = self@;
        match self.jobs.get(&job_id) {
            None => {
                return Err(CoordinatorError::JobNotFound);
            },
            Some(j) => {
                if j.failed || j.done {
                    return Ok(None);
                }
                let len = if reduce {
                    j.reduce_tasks.len()
                } else {
                    j.map_tasks.len()
                };
                if task as usize >= len {
                    return Err(CoordinatorError::InvalidTaskNumber);
                }
                let st = if reduce {
                    j.reduce_tasks[task as usize].state
                } else {
                    j.map_tasks[task as usize].state
                };
                if st == TaskState::Completed {
                    return Ok(None);
                }
            },
        }
        let mut job = self.jobs.remove(&job_id).unwrap();
        let rec = TaskRecord {
            state: TaskState::Completed,
            worker_id: Some(worker_id),
            assigned_at: Some(now),
        };
        if reduce {
            job.reduce_tasks.set(task as usize, rec);
        } else {
            job.map_tasks.set(task as usize, rec);
        }
        let mut all_reduce = true;
        let mut i: usize = 0;
        while i < job.reduce_tasks.len()
            invariant
                i <= job.reduce_tasks.len(),
                all_reduce == forall|k: int|
                    0 <= k < i ==> (#[trigger] job.reduce_tasks@[k]).state == TaskState::Completed,
            decreases job.reduce_tasks.len() - i,
        {
            if job.reduce_tasks[i].state != TaskState::Completed {
                all_reduce = false;
            }
            i = i + 1;
        }
        let all_done = all_reduce && self.all_tasks_settled(&job.map_tasks, now);
        job.done = all_done;
        let result = if all_done {
            Some(job.duplicate())
        } else {
            None
        };
        let ghost jv = job@;
        self.jobs.insert(job_id, job);
        proof {
            let expect = spec_finish(s0, worker_id, job_id, task, reduce, now);
            let j0 = s0.jobs[job_id];
            let j1 = with_task(j0, reduce, task as int, completed_by(worker_id, now));
            assert(jv.map_tasks =~= j1.map_tasks);
            assert(jv.reduce_tasks =~= j1.reduce_tasks);
            assert(jv == JobView { done: all_done, ..j1 });
            assert(self@.jobs =~= expect.0.jobs);
            assert forall|id: u32| #[trigger] self@.jobs.contains_key(id) implies {
                &&& self@.job_order.contains(id)
                &&& id < self@.next_job_id
                &&& self@.jobs[id].job_id == id
                &&& job_wf(self@.jobs[id])
            } by {
                assert(s0.jobs.contains_key(id));
            }
        }
        Ok(result)
    }

    fn map_reply(jid: u32, job: &JobRecord, idx: usize) -> (r: TaskReply)
        requires
            idx < job.map_tasks@.len(),
            job_wf(job@),
        ensures
            r@ == assignment_reply(jid, job@, false, idx as int),
    {
        TaskReply {
            job_id: jid,
            output_dir: job.output_dir.clone(),
            file: job.files[idx].clone(),
            wait: false,
            task: idx as u32,
            reduce: false,
            n_reduce: job.reduce_tasks.len() as u32,
            app: job.app.clone(),
            key: job.key.clone(),
            entity: job.entity.clone(),
            map_task_assignments: Vec::new(),
        }
    }

    fn reduce_reply(jid: u32, job: &JobRecord, idx: usize) -> (r: TaskReply)
        requires
            idx < job.reduce_tasks@.len(),
            job_wf(job@),
            forall|i: int| 0 <= i < job.map_tasks@.len() ==> (#[trigger] job.map_tasks@[i]).worker_id is Some,
        ensures
            r@ == assignment_reply(jid, job@, true, idx as int),
    {
        let mut assignments: Vec<MapTaskAssignment> = Vec::new();
        let mut i: usize = 0;
        while i < job.map_tasks.len()
            invariant
                i <= job.map_tasks.len(),
                job.map_tasks.len() <= u32::MAX,
                forall|k: int| 0 <= k < job.map_tasks@.len() ==> (#[trigger] job.map_tasks@[k]).worker_id is Some,
                assignments@ =~= assignments_of(job.map_tasks@).take(i as int),
            decreases job.map_tasks.len() - i,
        {
            let w = job.map_tasks[i].worker_id.unwrap();
            assignments.push(MapTaskAssignment { task: i as u32, worker_id: w });
            i = i + 1;
        }
        assert(assignments_of(job.map_tasks@).take(job.map_tasks@.len() as int) =~= assignments_of(job.map_tasks@));
        TaskReply {
            job_id: jid,
            output_dir: job.output_dir.clone(),
            file: String::new(),
            wait: false,
            task: idx as u32,
            reduce: true,
            n_reduce: job.reduce_tasks.len() as u32,
            app: job.app.clone(),
            key: job.key.clone(),
            entity: job.entity.clone(),
            map_task_assignments: assignments,
        }
    }

    fn make_wait_reply() -> (r: TaskReply)
        ensures
            r@ == wait_reply(),
    {
        let r = TaskReply {
            job_id: 0,
            output_dir: String::from_str("../../../data/output/transaction.txt"),
            file: String::from_str("../../../data/transaction/transaction20260914.txt"),
            wait: true,
            task: 0,
            reduce: false,
            n_reduce: 4,
            app: String::from_str("benefit-evaluator"),
            key: String::new(),
            entity: String::new(),
            map_task_assignments: Vec::new(),
        };
        assert(r@.map_task_assignments =~= Seq::<MapTaskAssignment>::empty());
        r
    }

    /// Hands the next available task to a worker (see [`spec_get_task`]).
    /// A reply with `wait` set means that there is nothing to do.
    pub fn get_task(&mut self, worker_id: u32, now: u64) -> (reply: TaskReply)
        requires
            old(self).wf(),
        ensures
            final(self).wf(),
            final(self)@ == spec_get_task(old(self)@, worker_id, now).0,
            reply@ == spec_get_task(old(self)@, worker_id, now).1,
    {
        let ghost s0 = self@;
        if !self.workers.contains_key(&worker_id) {
            self.workers.insert(worker_id, now);
        }
        let ghost s1 = self@;
        proof {
            assert(s1.jobs =~= s0.jobs);
            assert(s1.workers == workers_after_contact(s0.workers, worker_id, now));
        }
        let n = self.job_order.len();
        let mut k: usize = 0;
        while k < n
            invariant
                k <= n,
                n == s1.job_order.len(),
                self@ == s1,
                s0 == old(self)@,
                state_wf(s1),
                s1.jobs == s0.jobs,
                s1.job_order == s0.job_order,
                s1.workers == workers_after_contact(s0.workers, worker_id, now),
                s1.next_job_id == s0.next_job_id,
                s1.next_worker_id == s0.next_worker_id,
                s1.timeout_secs == s0.timeout_secs,
                pick_from(s1.jobs, s1.job_order, 0, s1.workers, now, s1.timeout_secs)
                    == pick_from(s1.jobs, s1.job_order, k as int, s1.workers, now, s1.timeout_secs),
            decreases n - k,
        {
            let jid = self.job_order[k];
            proof {
                assert(s1.jobs.contains_key(jid));
            }
            let ghost pk = pick_from(s1.jobs, s1.job_order, k as int, s1.workers, now, s1.timeout_secs);
            let ghost pk1 = pick_from(s1.jobs, s1.job_order, k as int + 1, s1.workers, now, s1.timeout_secs);
            let found: Option<(bool, usize, TaskReply)> = {
                let job = self.jobs.get(&jid).unwrap();
                assert(job@ == s1.jobs[jid]);
                if job.failed || job.done {
                    assert(pk == pk1);
                    None
                } else if !self.all_tasks_settled(&job.map_tasks, now) {
                    match self.first_available(&job.map_tasks, now) {
                        Some(idx) => {
                            assert(pk == Some((jid, false, idx as int)));
                            Some((false, idx, Self::map_reply(jid, job, idx)))
                        },
                        None => {
                            assert(pk == pk1);
                            None
                        },
                    }
                } else {
                    match self.first_available(&job.reduce_tasks, now) {
                        Some(idx) => {
                            proof {
                                assert forall|i: int| 0 <= i < job.map_tasks@.len() implies (#[trigger] job.map_tasks@[i]).worker_id is Some by {
                                    assert(task_settled(job.map_tasks@[i], s1.workers, now, s1.timeout_secs));
                                }
                            }
                            assert(pk == Some((jid, true, idx as int)));
                            Some((true, idx, Self::reduce_reply(jid, job, idx)))
                        },
                        None => {
                            assert(pk == pk1);
                            None
                        },
                    }
                }
            };
            match found {
                Some(f) => {
                    let (reduce, idx, reply) = f;
                    assert(pk == Some((jid, reduce, idx as int)));
                    assert(reply@ == assignment_reply(jid, s0.jobs[jid], reduce, idx as int));
                    let mut job = self.jobs.remove(&jid).unwrap();
                    let rec = TaskRecord {
                        state: TaskState::InProgress,
                        worker_id: Some(worker_id),
                        assigned_at: Some(now),
                    };
                    if reduce {
                        job.reduce_tasks.set(idx, rec);
                    } else {
                        job.map_tasks.set(idx, rec);
                    }
                    let ghost jv = job@;
                    self.jobs.insert(jid, job);
                    proof {
                        let j0 = s0.jobs[jid];
                        let j1 = with_task(j0, reduce, idx as int, in_progress_by(worker_id, now));
                        assert(jv.map_tasks =~= j1.map_tasks);
                        assert(jv.reduce_tasks =~= j1.reduce_tasks);
                        assert(jv == j1);
                        let expect = spec_get_task(s0, worker_id, now).0;
                        assert(pick_from(s0.jobs, s0.job_order, 0, s1.workers, now, s0.timeout_secs) == Some((jid, reduce, idx as int)));
                        assert(self@.jobs =~= expect.jobs);
                        assert(self@.workers == expect.workers);
                        assert(self@.job_order == expect.job_order);
                        assert(self@ == expect);
                        assert(reply@ == spec_get_task(s0, worker_id, now).1);
                        assert forall|id: u32| #[trigger] self@.jobs.contains_key(id) implies {
                            &&& self@.job_order.contains(id)
                            &&& id < self@.next_job_id
                            &&& self@.jobs[id].job_id == id
                            &&& job_wf(self@.jobs[id])
                        } by {
                            assert(s0.jobs.contains_key(id));
                        }
                    }
                    return reply;
                },
                None => {},
            }
            k = k + 1;
        }
        proof {
            reveal_strlit("../../../data/output/transaction.txt");
            reveal_strlit("../../../data/transaction/transaction20260914.txt");
            reveal_strlit("benefit-evaluator");
        }
        Self::make_wait_reply()
    }
}

} // verus!

verus! {

// ---------------------------------------------------------------------------
// laws
// ---------------------------------------------------------------------------

/// What a pick says about the chosen job and task: the job is listed, is
/// neither done nor failed, and the task is the first available one of the
/// phase the job is in (reduce only once every map task is settled).
pub proof fn lemma_pick_from(
    jobs: Map<u32, JobView>,
    order: Seq<u32>,
    k: int,
    workers: Map<u32, u64>,
    now: u64,
    timeout_secs: u64,
)
    requires
        0 <= k,
    ensures
        pick_from(jobs, order, k, workers, now, timeout_secs) matches Some(p) ==> {
            let (jid, reduce, idx) = p;
            let j = jobs[jid];
            &&& order.contains(jid)
            &&& !j.done && !j.failed
            &&& reduce == all_settled(j.map_tasks, workers, now, timeout_secs)
            &&& reduce ==> first_available_from(j.reduce_tasks, 0, workers, now, timeout_secs) == Some(idx)
            &&& !reduce ==> first_available_from(j.map_tasks, 0, workers, now, timeout_secs) == Some(idx)
        },
    decreases order.len() - k,
{
    if k < order.len() {
        lemma_pick_from(jobs, order, k + 1, workers, now, timeout_secs);
        let jid = order[k];
        assert(order[k] == jid);
    }
}

/// Law: a job that was just submitted is reported, under the returned id,
/// as neither done nor failed and without errors.
pub proof fn law_submit_then_poll(s: CoordinatorView, r: SubmitJobRequestView)
    requires
        state_wf(s),
        s.next_job_id < u32::MAX,
    ensures
        ({
            let (s1, id) = spec_submit(s, r);
            &&& spec_poll(s1, id) == Ok::<PollJobReplyView, CoordinatorError>(
                PollJobReplyView { id: id, done: false, failed: false, errors: Seq::empty() },
            )
            &&& !s.jobs.contains_key(id)
            &&& state_wf(s1)
        }),
{
    let (s1, id) = spec_submit(s, r);
    assert(!s.jobs.contains_key(id));
    assert(!s.job_order.contains(id));
    assert forall|i: int| 0 <= i < s1.job_order.len() implies s1.jobs.contains_key(#[trigger] s1.job_order[i]) by {
        if i < s.job_order.len() {
            assert(s1.job_order[i] == s.job_order[i]);
        }
    }
    assert forall|x: u32| #[trigger] s1.jobs.contains_key(x) implies {
        &&& s1.job_order.contains(x)
        &&& x < s1.next_job_id
        &&& s1.jobs[x].job_id == x
        &&& job_wf(s1.jobs[x])
    } by {
        if x != id {
            let w = choose|w: int| 0 <= w < s.job_order.len() && s.job_order[w] == x;
            assert(s1.job_order[w] == x);
        } else {
            assert(s1.job_order[s.job_order.len() as int] == x);
        }
    }
}

/// Law: two submissions in a row get consecutive, distinct ids.
pub proof fn law_submit_ids_distinct(
    s: CoordinatorView,
    r1: SubmitJobRequestView,
    r2: SubmitJobRequestView,
)
    requires
        state_wf(s),
        s.next_job_id + 1 < u32::MAX,
    ensures
        ({
            let (s1, id1) = spec_submit(s, r1);
            let (s2, id2) = spec_submit(s1, r2);
            &&& id2 == id1 + 1
            &&& s2.jobs.contains_key(id1) && s2.jobs.contains_key(id2)
            &&& s2.jobs[id1] == new_job_view(id1, r1)
            &&& s2.jobs[id2] == new_job_view(id2, r2)
        }),
{
}

/// Law: polling an id that names no job is refused.
pub proof fn law_poll_unknown(s: CoordinatorView, id: u32)
    requires
        !s.jobs.contains_key(id),
    ensures
        spec_poll(s, id) == Err::<PollJobReplyView, CoordinatorError>(CoordinatorError::JobNotFound),
{
}

/// Law: finishing a task twice changes nothing the second time.
pub proof fn law_finish_idempotent(
    s: CoordinatorView,
    wid: u32,
    jid: u32,
    task: u32,
    reduce: bool,
    now: u64,
)
    ensures
        ({
            let (s1, r1) = spec_finish(s, wid, jid, task, reduce, now);
            r1 is Ok ==> spec_finish(s1, wid, jid, task, reduce, now) == (
                s1,
                Ok::<Option<JobView>, CoordinatorError>(None),
            )
        }),
{
}

/// Law: a job that is done stays exactly as it is under finishing and task
/// assignment, and a job that is reported done is done in the new state.
pub proof fn law_done_jobs_are_frozen(
    s: CoordinatorView,
    wid: u32,
    jid: u32,
    task: u32,
    reduce: bool,
    now: u64,
    id: u32,
)
    requires
        state_wf(s),
        s.jobs.contains_key(id),
        s.jobs[id].done,
    ensures
        spec_finish(s, wid, jid, task, reduce, now).0.jobs[id] == s.jobs[id],
        spec_get_task(s, wid, now).0.jobs[id] == s.jobs[id],
{
    let workers = workers_after_contact(s.workers, wid, now);
    lemma_pick_from(s.jobs, s.job_order, 0, workers, now, s.timeout_secs);
}

/// Law: when finishing returns a job, that job is done, and polling it
/// afterwards says so.
pub proof fn law_finish_reports_done(
    s: CoordinatorView,
    wid: u32,
    jid: u32,
    task: u32,
    reduce: bool,
    now: u64,
)
    ensures
        ({
            let (s1, r) = spec_finish(s, wid, jid, task, reduce, now);
            r matches Ok(Some(j)) ==> {
                &&& j.done
                &&& s1.jobs[jid] == j
                &&& spec_poll(s1, jid) matches Ok(p) && p.done
            }
        }),
{
}

/// Law: a task is handed out only if it was available, its job was neither
/// done nor failed, and (for a reduce task) every map task of the job was
/// settled; afterwards it is in progress by the asking worker.
pub proof fn law_get_task_hands_out_available_work(s: CoordinatorView, wid: u32, now: u64)
    requires
        state_wf(s),
    ensures
        ({
            let workers = workers_after_contact(s.workers, wid, now);
            let (s1, reply) = spec_get_task(s, wid, now);
            !reply.wait ==> {
                let jid = reply.job_id;
                let j = s.jobs[jid];
                let idx = reply.task as int;
                &&& s.jobs.contains_key(jid)
                &&& !j.done && !j.failed
                &&& reply.reduce ==> {
                    &&& all_settled(j.map_tasks, workers, now, s.timeout_secs)
                    &&& 0 <= idx < j.reduce_tasks.len()
                    &&& task_available(j.reduce_tasks[idx], workers, now, s.timeout_secs)
                    &&& s1.jobs[jid].reduce_tasks[idx] == in_progress_by(wid, now)
                }
                &&& !reply.reduce ==> {
                    &&& 0 <= idx < j.map_tasks.len()
                    &&& task_available(j.map_tasks[idx], workers, now, s.timeout_secs)
                    &&& s1.jobs[jid].map_tasks[idx] == in_progress_by(wid, now)
                    &&& reply.file == j.files[idx]
                }
            }
        }),
{
    let workers = workers_after_contact(s.workers, wid, now);
    lemma_pick_from(s.jobs, s.job_order, 0, workers, now, s.timeout_secs);
    match pick_from(s.jobs, s.job_order, 0, workers, now, s.timeout_secs) {
        Some(p) => {
            let (jid, reduce, idx) = p;
            let j = s.jobs[jid];
            let w = choose|w: int| 0 <= w < s.job_order.len() && s.job_order[w] == jid;
            assert(s.jobs.contains_key(s.job_order[w]));
            if reduce {
                lemma_first_available(j.reduce_tasks, 0, workers, now, s.timeout_secs);
            } else {
                lemma_first_available(j.map_tasks, 0, workers, now, s.timeout_secs);
            }
            assert(job_wf(j));
        },
        None => {
            reveal_strlit("../../../data/output/transaction.txt");
        },
    }
}


/// Nothing is handed out from position `k` on: every unfinished job there
/// has no available task in the phase it is in.
proof fn lemma_pick_from_none(
    jobs: Map<u32, JobView>,
    order: Seq<u32>,
    k: int,
    workers: Map<u32, u64>,
    now: u64,
    timeout_secs: u64,
)
    requires
        0 <= k,
        pick_from(jobs, order, k, workers, now, timeout_secs) is None,
    ensures
        forall|m: int| #![trigger order[m]] k <= m < order.len() ==> {
            let j = jobs[order[m]];
            !j.done && !j.failed ==> if !all_settled(j.map_tasks, workers, now, timeout_secs) {
                forall|i: int| 0 <= i < j.map_tasks.len() ==> !task_available(#[trigger] j.map_tasks[i], workers, now, timeout_secs)
            } else {
                forall|i: int| 0 <= i < j.reduce_tasks.len() ==> !task_available(#[trigger] j.reduce_tasks[i], workers, now, timeout_secs)
            }
        },
    decreases order.len() - k,
{
    if k < order.len() {
        lemma_pick_from_none(jobs, order, k + 1, workers, now, timeout_secs);
        let j = jobs[order[k]];
        lemma_first_available(j.map_tasks, 0, workers, now, timeout_secs);
        lemma_first_available(j.reduce_tasks, 0, workers, now, timeout_secs);
    }
}

/// Law: what asking for work hands out. The submission order never
/// changes, and no job but the one handed out changes. When the worker is
/// told to wait (job id 0), no job changes at all, and no unfinished job has
/// an available task in its phase (map tasks until all of them are settled,
/// reduce tasks after). A reduce task comes with every map task of its job
/// completed by a live worker, and with the list, in task order, of which
/// worker did each.
pub proof fn law_get_task_replies(s: CoordinatorView, wid: u32, now: u64)
    requires
        state_wf(s),
    ensures
        ({
            let workers = workers_after_contact(s.workers, wid, now);
            let (s1, reply) = spec_get_task(s, wid, now);
            &&& s1.job_order == s.job_order
            &&& s1.workers == workers
            &&& forall|id: u32| (reply.wait || id != reply.job_id) ==> #[trigger] s1.jobs[id] == s.jobs[id]
            &&& s1.jobs.dom() == s.jobs.dom()
            &&& reply.wait ==> {
                &&& reply.job_id == 0
                &&& forall|m: int| #![trigger s.job_order[m]] 0 <= m < s.job_order.len() ==> {
                    let j = s.jobs[s.job_order[m]];
                    !j.done && !j.failed ==> if !all_settled(j.map_tasks, workers, now, s.timeout_secs) {
                        forall|i: int| 0 <= i < j.map_tasks.len() ==> !task_available(
                            #[trigger] j.map_tasks[i],
                            workers,
                            now,
                            s.timeout_secs,
                        )
                    } else {
                        forall|i: int| 0 <= i < j.reduce_tasks.len() ==> !task_available(
                            #[trigger] j.reduce_tasks[i],
                            workers,
                            now,
                            s.timeout_secs,
                        )
                    }
                }
            }
            &&& (!reply.wait && reply.reduce) ==> {
                let j = s.jobs[reply.job_id];
                &&& reply.map_task_assignments.len() == j.map_tasks.len()
                &&& forall|i: int| 0 <= i < j.map_tasks.len() ==> {
                    &&& task_settled(#[trigger] j.map_tasks[i], workers, now, s.timeout_secs)
                    &&& reply.map_task_assignments[i].task == i
                    &&& reply.map_task_assignments[i].worker_id == j.map_tasks[i].worker_id->0
                }
            }
        }),
{
    let workers = workers_after_contact(s.workers, wid, now);
    lemma_pick_from(s.jobs, s.job_order, 0, workers, now, s.timeout_secs);
    match pick_from(s.jobs, s.job_order, 0, workers, now, s.timeout_secs) {
        Some(p) => {
            let (jid, reduce, idx) = p;
            let w = choose|w: int| 0 <= w < s.job_order.len() && s.job_order[w] == jid;
            assert(s.jobs.contains_key(s.job_order[w]));
            let (s1, reply) = spec_get_task(s, wid, now);
            assert(s1.jobs.dom() =~= s.jobs.dom());
        },
        None => {
            reveal_strlit("../../../data/output/transaction.txt");
            lemma_pick_from_none(s.jobs, s.job_order, 0, workers, now, s.timeout_secs);
        },
    }
}

/// Law: what finishing a task does. An unknown job is refused and a job
/// that is done or failed is left as it is; an out-of-range task is refused
/// and nothing changes. Otherwise the task is completed afterwards (by the
/// finishing worker, unless it was completed before, in which case nothing
/// changes), only that job changes, and a task newly completed makes the
/// job done exactly when all its reduce tasks are completed and all its map
/// tasks are completed by live workers. No job that was done stops being
/// done, whatever the call.
pub proof fn law_finish_task_outcomes(s: CoordinatorView, wid: u32, jid: u32, task: u32, reduce: bool, now: u64)
    ensures
        ({
            let (s1, r) = spec_finish(s, wid, jid, task, reduce, now);
            &&& !s.jobs.contains_key(jid) ==> s1 == s && r == Err::<Option<JobView>, CoordinatorError>(
                CoordinatorError::JobNotFound,
            )
            &&& (s.jobs.contains_key(jid) && (s.jobs[jid].done || s.jobs[jid].failed)) ==> s1 == s && r == Ok::<
                Option<JobView>,
                CoordinatorError,
            >(None)
            &&& forall|id: u32| #[trigger] s.jobs.contains_key(id) && s.jobs[id].done ==> s1.jobs.contains_key(id)
                && s1.jobs[id].done
            &&& forall|id: u32| id != jid ==> #[trigger] s1.jobs[id] == s.jobs[id]
            &&& s1.jobs.dom() == s.jobs.dom()
            &&& (s.jobs.contains_key(jid) && !s.jobs[jid].done && !s.jobs[jid].failed) ==> {
                let j = s.jobs[jid];
                let tasks = if reduce { j.reduce_tasks } else { j.map_tasks };
                let j1 = s1.jobs[jid];
                let tasks1 = if reduce { j1.reduce_tasks } else { j1.map_tasks };
                &&& task >= tasks.len() ==> s1 == s && r == Err::<Option<JobView>, CoordinatorError>(
                    CoordinatorError::InvalidTaskNumber,
                )
                &&& task < tasks.len() ==> {
                    &&& tasks1[task as int].state == TaskState::Completed
                    &&& tasks[task as int].state == TaskState::Completed ==> s1 == s && r == Ok::<
                        Option<JobView>,
                        CoordinatorError,
                    >(None)
                    &&& tasks[task as int].state != TaskState::Completed ==> {
                        &&& tasks1[task as int] == completed_by(wid, now)
                        &&& j1.done == (all_completed(j1.reduce_tasks) && all_settled(
                            j1.map_tasks,
                            s.workers,
                            now,
                            s.timeout_secs,
                        ))
                        &&& r == Ok::<Option<JobView>, CoordinatorError>(if j1.done { Some(j1) } else { None })
                    }
                }
            }
        }),
{
    let (s1, r) = spec_finish(s, wid, jid, task, reduce, now);
    assert(s1.jobs.dom() =~= s.jobs.dom());
}

/// Submitting a sequence of jobs in turn: the state after the last and the
/// ids handed out, in order.
pub open spec fn spec_submit_all(s: CoordinatorView, rs: Seq<SubmitJobRequestView>) -> (CoordinatorView, Seq<u32>)
    decreases rs.len(),
{
    if rs.len() == 0 {
        (s, Seq::empty())
    } else {
        let (s1, ids) = spec_submit_all(s, rs.drop_last());
        let (s2, id) = spec_submit(s1, rs.last());
        (s2, ids.push(id))
    }
}

/// Law: after `k` submissions the next job gets the first id plus `k`. The
/// ids are handed out in order, each submitted job is filed under its id as
/// [`new_job_view`] makes it (its files, output directory, application,
/// key, entity, evaluator and ingestion job copied, one idle map task per
/// file, the requested number of idle reduce tasks, neither done nor failed,
/// no errors), and the jobs are appended to the submission order.
pub proof fn law_submissions_number_jobs(s: CoordinatorView, rs: Seq<SubmitJobRequestView>)
    requires
        state_wf(s),
        s.next_job_id + rs.len() <= u32::MAX,
    ensures
        ({
            let (s1, ids) = spec_submit_all(s, rs);
            &&& ids.len() == rs.len()
            &&& s1.next_job_id == s.next_job_id + rs.len()
            &&& s1.job_order == s.job_order + ids
            &&& state_wf(s1)
            &&& forall|k: int| 0 <= k < rs.len() ==> {
                &&& #[trigger] ids[k] == s.next_job_id + k
                &&& s1.jobs.contains_key(ids[k])
                &&& s1.jobs[ids[k]] == new_job_view(ids[k], rs[k])
            }
            &&& forall|id: u32| #[trigger] s.jobs.contains_key(id) ==> s1.jobs.contains_key(id) && s1.jobs[id]
                == s.jobs[id]
        }),
    decreases rs.len(),
{
    if rs.len() > 0 {
        let init = rs.drop_last();
        law_submissions_number_jobs(s, init);
        let (s1, ids) = spec_submit_all(s, init);
        law_submit_then_poll(s1, rs.last());
        let (s2, id) = spec_submit(s1, rs.last());
        assert(s2.job_order =~= s.job_order + ids.push(id));
        assert forall|k: int| 0 <= k < rs.len() implies {
            &&& #[trigger] ids.push(id)[k] == s.next_job_id + k
            &&& s2.jobs.contains_key(ids.push(id)[k])
            &&& s2.jobs[ids.push(id)[k]] == new_job_view(ids.push(id)[k], rs[k])
        } by {
            if k < init.len() {
                assert(ids.push(id)[k] == ids[k]);
                assert(init[k] == rs[k]);
            }
        }
        assert forall|x: u32| #[trigger] s.jobs.contains_key(x) implies s2.jobs.contains_key(x) && s2.jobs[x]
            == s.jobs[x] by {
            assert(x < s.next_job_id);
        }
    }
}

/// Law: a task handed out describes its job: it carries the job's id, the
/// job's output directory, application, key and entity, and the job's
/// number of reduce tasks; a map task carries its input file and a reduce
/// task none.
pub proof fn law_get_task_reply_describes_job(s: CoordinatorView, wid: u32, now: u64)
    requires
        state_wf(s),
    ensures
        ({
            let (s1, reply) = spec_get_task(s, wid, now);
            !reply.wait ==> {
                let j = s.jobs[reply.job_id];
                &&& s.jobs.contains_key(reply.job_id)
                &&& reply.output_dir == j.output_dir
                &&& reply.app == j.app
                &&& reply.key == j.key
                &&& reply.entity == j.entity
                &&& reply.n_reduce == j.reduce_tasks.len()
                &&& !reply.reduce ==> reply.task < j.map_tasks.len() && reply.file == j.files[reply.task as int]
                &&& reply.reduce ==> reply.task < j.reduce_tasks.len() && reply.file == Seq::<char>::empty()
            }
        }),
{
    law_get_task_hands_out_available_work(s, wid, now);
    let workers = workers_after_contact(s.workers, wid, now);
    lemma_pick_from(s.jobs, s.job_order, 0, workers, now, s.timeout_secs);
    match pick_from(s.jobs, s.job_order, 0, workers, now, s.timeout_secs) {
        Some(p) => {
            let (jid, reduce, idx) = p;
            let j = s.jobs[jid];
            let w = choose|w: int| 0 <= w < s.job_order.len() && s.job_order[w] == jid;
            assert(s.jobs.contains_key(s.job_order[w]));
            assert(job_wf(j));
        },
        None => {
            reveal_strlit("../../../data/output/transaction.txt");
        },
    }
}

} // verus!
