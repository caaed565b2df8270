//! Request and reply records exchanged between the client, coordinator,
//! workers and evaluator, as plain values.

use vstd::prelude::*;

verus! {

/// A job submitted to the MapReduce coordinator.
#[derive(Debug)]
pub struct SubmitJobRequest {
    pub files: Vec<String>,
    pub output_dir: String,
    pub app: String,
    pub n_reduce: u32,
    pub key: String,
    pub entity: String,
    pub evaluator_id: u64,
    pub ingestion_job_id: u64,
}

/// The view of a [`SubmitJobRequest`].
pub struct SubmitJobRequestView {
    pub files: Seq<Seq<char>>,
    pub output_dir: Seq<char>,
    pub app: Seq<char>,
    pub n_reduce: u32,
    pub key: Seq<char>,
    pub entity: Seq<char>,
    pub evaluator_id: u64,
    pub ingestion_job_id: u64,
}

impl View for SubmitJobRequest {
    type V = SubmitJobRequestView;

    open spec fn view(&self) -> SubmitJobRequestView {
        SubmitJobRequestView {
            files: self.files.deep_view(),
            output_dir: self.output_dir@,
            app: self.app@,
            n_reduce: self.n_reduce,
            key: self.key@,
            entity: self.entity@,
            evaluator_id: self.evaluator_id,
            ingestion_job_id: self.ingestion_job_id,
        }
    }
}

/// Which worker ran which map task of a job.
#[derive(Debug, Clone, Copy, PartialEq, Eq, Structural)]
pub struct MapTaskAssignment {
    pub task: u32,
    pub worker_id: u32,
}

/// The coordinator's answer to a worker asking for work.
#[derive(Debug)]
pub struct TaskReply {
    pub job_id: u32,
    pub output_dir: String,
    pub file: String,
    pub wait: bool,
    pub task: u32,
    pub reduce: bool,
    pub n_reduce: u32,
    pub app: String,
    pub key: String,
    pub entity: String,
    pub map_task_assignments: Vec<MapTaskAssignment>,
}

/// The view of a [`TaskReply`].
pub struct TaskReplyView {
    pub job_id: u32,
    pub output_dir: Seq<char>,
    pub file: Seq<char>,
    pub wait: bool,
    pub task: u32,
    pub reduce: bool,
    pub n_reduce: u32,
    pub app: Seq<char>,
    pub key: Seq<char>,
    pub entity: Seq<char>,
    pub map_task_assignments: Seq<MapTaskAssignment>,
}

impl View for TaskReply {
    type V = TaskReplyView;

    open spec fn view(&self) -> TaskReplyView {
        TaskReplyView {
            job_id: self.job_id,
            output_dir: self.output_dir@,
            file: self.file@,
            wait: self.wait,
            task: self.task,
            reduce: self.reduce,
            n_reduce: self.n_reduce,
            app: self.app@,
            key: self.key@,
            entity: self.entity@,
            map_task_assignments: self.map_task_assignments@,
        }
    }
}

/// The status of a job as reported to pollers.
#[derive(Debug)]
pub struct PollJobReply {
    pub id: u32,
    pub done: bool,
    pub failed: bool,
    pub errors: Vec<String>,
}

/// The view of a [`PollJobReply`].
pub struct PollJobReplyView {
    pub id: u32,
    pub done: bool,
    pub failed: bool,
    pub errors: Seq<Seq<char>>,
}

impl View for PollJobReply {
    type V = PollJobReplyView;

    open spec fn view(&self) -> PollJobReplyView {
        PollJobReplyView {
            id: self.id,
            done: self.done,
            failed: self.failed,
            errors: self.errors.deep_view(),
        }
    }
}

/// Clones a list of strings, keeping every element.
pub fn clone_strings(v: &Vec<String>) -> (r: Vec<String>)
    ensures
        r.deep_view() == v.deep_view(),
{
    let mut r: Vec<String> = Vec::new();
    let mut i: usize = 0;
    while i < v.len()
        invariant
            i <= v.len(),
            r.len() == i,
            r.deep_view() =~= v.deep_view().take(i as int),
        decreases v.len() - i,
    {
        let c = v[i].clone();
        r.push(c);
        proof {
            assert(r@[i as int]@ == v@[i as int]@);
            assert(r.deep_view() =~= v.deep_view().take(i + 1));
        }
        i = i + 1;
    }
    assert(v.deep_view().take(v.len() as int) =~= v.deep_view());
    r
}

} // verus!
