//! Background-job bookkeeping: progress events, the clamped progress value
//! stored for a job, and what the worker records when a job ends.
use vstd::prelude::*;
use crate::text::concat_str;

verus! {

/// Event payload sent to the UI with each progress update and at the end
/// of a job.
#[derive(Debug, Clone)]
pub struct JobProgressEvent {
    pub job_id: String,
    pub percentage: i32,
    pub message: Option<String>,
}

impl JobProgressEvent {
    pub fn new(job_id: &str, percentage: i32, message: Option<String>) -> (e: Self)
        ensures
            e.job_id@ == job_id@,
            e.percentage == percentage,
            e.message == message,
    {
        JobProgressEvent { job_id: job_id.to_owned(), percentage, message }
    }
}

/// The stored progress of a job: the reported percentage clamped to `[0, 100]`.
pub fn clamp_progress(pct: i32) -> (r: i32)
    ensures
        r == (if pct < 0 {
            0
        } else if pct > 100 {
            100
        } else {
            pct
        }),
{
    if pct < 0 {
        0
    } else if pct > 100 {
        100
    } else {
        pct
    }
}

/// What the worker records and announces when a job ends.
#[derive(Debug, Clone)]
pub struct JobEnd {
    /// Terminal status written to the job row: `FINISHED` or `FAILED`.
    pub status: String,
    /// Result text stored with a finished job.
    pub result: Option<String>,
    /// Error text stored with a failed job.
    pub error: Option<String>,
    /// Whether the row's progress is set to 100 before the status flips.
    pub full_progress_first: bool,
    /// Name of the UI event: `job_finished` or `job_failed`.
    pub event_name: String,
    /// The UI event's payload (always at 100 percent).
    pub event: JobProgressEvent,
    /// Status given to the uploaded file's row, when the task ran.
    pub file_status: Option<String>,
}

/// A failed job's record: no result, the message as error and as event text.
pub open spec fn is_failure_end(e: JobEnd, job_id: Seq<char>, msg: Seq<char>) -> bool {
    &&& e.status@ == "FAILED"@
    &&& e.result is None
    &&& e.error matches Some(m) && m@ == msg
    &&& !e.full_progress_first
    &&& e.event_name@ == "job_failed"@
    &&& e.event.job_id@ == job_id
    &&& e.event.percentage == 100
    &&& e.event.message matches Some(m) && m@ == msg
}

fn failure_end(job_id: &str, msg: &str, file_status: Option<String>) -> (e: JobEnd)
    ensures
        is_failure_end(e, job_id@, msg@),
        e.file_status == file_status,
{
    JobEnd {
        status: "FAILED".to_owned(),
        result: None,
        error: Some(msg.to_owned()),
        full_progress_first: false,
        event_name: "job_failed".to_owned(),
        event: JobProgressEvent::new(job_id, 100, Some(msg.to_owned())),
        file_status,
    }
}

/// A claimed job without a task name fails before anything runs.
pub fn missing_task_end(job_id: &str) -> (e: JobEnd)
    ensures
        is_failure_end(e, job_id@, "missing task_name"@),
        e.file_status is None,
{
    failure_end(job_id, "missing task_name", None)
}

/// A job naming a task nobody registered fails before anything runs.
pub fn unknown_task_end(job_id: &str, task_name: &str) -> (e: JobEnd)
    ensures
        is_failure_end(e, job_id@, "unknown task: "@ + task_name@),
        e.file_status is None,
{
    let msg = concat_str("unknown task: ", task_name);
    failure_end(job_id, msg.as_str(), None)
}

/// The record of a job whose task ran: finished with its message, or
/// failed with its error; the uploaded file is marked `completed` or
/// `failed` accordingly.
pub fn task_result_end(job_id: &str, result: &Result<String, String>) -> (e: JobEnd)
    ensures
        match result {
            Ok(msg) => {
                &&& e.status@ == "FINISHED"@
                &&& e.result matches Some(m) && m@ == msg@
                &&& e.error is None
                &&& e.full_progress_first
                &&& e.event_name@ == "job_finished"@
                &&& e.event.job_id@ == job_id@
                &&& e.event.percentage == 100
                &&& e.event.message matches Some(m) && m@ == msg@
                &&& e.file_status matches Some(s) && s@ == "completed"@
            },
            Err(err) => {
                &&& is_failure_end(e, job_id@, err@)
                &&& e.file_status matches Some(s) && s@ == "failed"@
            },
        },
{
    match result {
        Ok(msg) => JobEnd {
            status: "FINISHED".to_owned(),
            result: Some(msg.clone()),
            error: None,
            full_progress_first: true,
            event_name: "job_finished".to_owned(),
            event: JobProgressEvent::new(job_id, 100, Some(msg.clone())),
            file_status: Some("completed".to_owned()),
        },
        Err(err) => failure_end(job_id, err.as_str(), Some("failed".to_owned())),
    }
}

} // verus!
