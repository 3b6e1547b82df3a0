//! The download dispatcher's decisions: what a worker does with each
//! steal outcome, and how a fetched response is judged.
//!
//! The loop that performs the steals, the HTTP requests, the sleeps and
//! the writes lives with the caller; every decision it takes comes from
//! here.

use vstd::prelude::*;
use crate::work_queue::WorkItem;

verus! {

/// A per-item download failure: a non-success HTTP status with the URL,
/// or a filesystem error with the path and the cause.
#[derive(Debug, Clone, PartialEq, Eq)]
pub enum DownloadError {
    HttpStatus(u16, String),
    Io(String, String),
}

/// What a worker's attempt to steal returned.
#[derive(Debug, Clone, PartialEq, Eq)]
pub enum StealOutcome {
    Empty,
    Retry,
    Item(WorkItem),
}

/// What the worker must do next.
#[derive(Debug, Clone, PartialEq, Eq)]
pub enum WorkerStep {
    SleepThenStop,
    SleepThenRetry,
    Process(WorkItem),
}

/// The pool configuration: where the files go and how many workers run.
#[derive(Debug, Clone, PartialEq, Eq)]
pub struct DownloadWorker {
    pub output_dir: String,
    pub worker_count: usize,
}

impl DownloadWorker {
    pub fn new(output_dir: String, worker_count: usize) -> (r: DownloadWorker)
        ensures
            r.output_dir@ == output_dir@,
            r.worker_count == worker_count,
    {
        DownloadWorker { output_dir, worker_count }
    }
}

/// One worker decision: an empty queue means sleep, then stop if the
/// stop flag is set; a transient steal failure means sleep and retry; a
/// stolen item is processed.
pub fn worker_step(outcome: StealOutcome, stop: bool) -> (r: WorkerStep)
    ensures
        match outcome {
            StealOutcome::Empty => r == if stop {
                WorkerStep::SleepThenStop
            } else {
                WorkerStep::SleepThenRetry
            },
            StealOutcome::Retry => r == WorkerStep::SleepThenRetry,
            StealOutcome::Item(item) => r == WorkerStep::Process(item),
        },
{
    match outcome {
        StealOutcome::Empty => {
            if stop {
                WorkerStep::SleepThenStop
            } else {
                WorkerStep::SleepThenRetry
            }
        },
        StealOutcome::Retry => WorkerStep::SleepThenRetry,
        StealOutcome::Item(item) => WorkerStep::Process(item),
    }
}

/// Judge an HTTP response: a success status lets the body be written; any
/// other status is recorded against the item and the worker goes on.
pub fn classify_response(status: u16, url: &str) -> (r: Result<(), DownloadError>)
    ensures
        200 <= status < 300 <==> r is Ok,
        match r {
            Ok(u) => true,
            Err(e) => e@ == DownloadErrorModel::HttpStatus(status, url@),
        },
{
    if 200 <= status && status < 300 {
        Ok(())
    } else {
        Err(DownloadError::HttpStatus(status, url.to_owned()))
    }
}

pub enum DownloadErrorModel {
    HttpStatus(u16, Seq<char>),
    Io(Seq<char>, Seq<char>),
}

impl View for DownloadError {
    type V = DownloadErrorModel;

    open spec fn view(&self) -> DownloadErrorModel {
        match self {
            DownloadError::HttpStatus(code, url) => DownloadErrorModel::HttpStatus(*code, url@),
            DownloadError::Io(path, cause) => DownloadErrorModel::Io(path@, cause@),
        }
    }
}

} // verus!
