//! The rules of the desktop shell: one background job at a time, and no
//! session switch, duplicate resolution or update while it runs.
use vstd::prelude::*;
use crate::engine::Progress;
use crate::text::{append_chars, chars_of, decimal, decimal_chars, string_from_str, string_of,
    strings_equal};

verus! {

/// The background job as the desktop shows it.
#[derive(Debug, Clone)]
pub struct Job {
    pub running: bool,
    pub progress: Option<Progress>,
    pub error: Option<String>,
}

impl Job {
    /// No job has run yet.
    pub fn idle() -> (r: Job)
        ensures
            !r.running,
            r.progress is None,
            r.error is None,
    {
        Job { running: false, progress: None, error: None }
    }
}

/// The jobs that the desktop can start.
#[derive(Debug, Clone, Copy, PartialEq, Eq, Structural)]
pub enum JobAction {
    Scan,
    Plan,
    Export,
    Resume,
}

pub open spec fn action_named(text: Seq<char>) -> Option<JobAction> {
    if text == "scan"@ {
        Some(JobAction::Scan)
    } else if text == "plan"@ {
        Some(JobAction::Plan)
    } else if text == "export"@ {
        Some(JobAction::Export)
    } else if text == "resume"@ {
        Some(JobAction::Resume)
    } else {
        None
    }
}

/// Why the desktop refuses a request.
#[derive(Debug, Clone, Copy, PartialEq, Eq, Structural)]
pub enum Refusal {
    /// A job is running, so another cannot start.
    JobRunning,
    /// The requested job is not one of scan, plan, export or resume.
    UnknownAction,
    /// A job is running, so the session cannot change.
    SessionBusy,
    /// A job is running, so duplicates cannot be resolved.
    ResolveBusy,
    /// A job is running, so no update can be installed.
    UpdateBusy,
}

impl Refusal {
    pub fn message(&self) -> (r: String)
        ensures
            r@ == match *self {
                Refusal::JobRunning => "A job is already running"@,
                Refusal::UnknownAction => "Unknown action"@,
                Refusal::SessionBusy => "Wait for the current job to stop"@,
                Refusal::ResolveBusy => "Wait for the job to finish"@,
                Refusal::UpdateBusy => "Finish the current job before updating"@,
            },
    {
        match self {
            Refusal::JobRunning => string_from_str("A job is already running"),
            Refusal::UnknownAction => string_from_str("Unknown action"),
            Refusal::SessionBusy => string_from_str("Wait for the current job to stop"),
            Refusal::ResolveBusy => string_from_str("Wait for the job to finish"),
            Refusal::UpdateBusy => string_from_str("Finish the current job before updating"),
        }
    }
}

/// A running job, freshly started: no progress and no error yet.
pub open spec fn fresh_run(j: Job) -> bool {
    j.running && j.progress is None && j.error is None
}

/// What starting a job answers: refused while one runs, or when the action
/// is unknown; otherwise the job runs, with no progress and no error yet.
pub open spec fn start_spec(job: Job, action: Seq<char>) -> Result<(JobAction, Job), Refusal> {
    if job.running {
        Err(Refusal::JobRunning)
    } else {
        match action_named(action) {
            None => Err(Refusal::UnknownAction),
            Some(a) => Ok((a, Job { running: true, progress: None, error: None })),
        }
    }
}

/// Starts a job.
pub fn start_job(job: &Job, action: &str) -> (r: Result<(JobAction, Job), Refusal>)
    ensures
        r == start_spec(*job, action@),
{
    if job.running {
        return Err(Refusal::JobRunning);
    }
    let a = if strings_equal(action, "scan") {
        JobAction::Scan
    } else if strings_equal(action, "plan") {
        JobAction::Plan
    } else if strings_equal(action, "export") {
        JobAction::Export
    } else if strings_equal(action, "resume") {
        JobAction::Resume
    } else {
        return Err(Refusal::UnknownAction);
    };
    Ok((a, Job { running: true, progress: None, error: None }))
}

/// The work a started job does: `resume` continues the scan until a plan is
/// ready, and exports after that.
#[derive(Debug, Clone, Copy, PartialEq, Eq, Structural)]
pub enum JobWork {
    Scan,
    Plan,
    ResumeScan,
    Export,
}

pub open spec fn job_work_spec(action: JobAction, plan_ready: bool) -> JobWork {
    match action {
        JobAction::Scan => JobWork::Scan,
        JobAction::Plan => JobWork::Plan,
        JobAction::Resume => if plan_ready {
            JobWork::Export
        } else {
            JobWork::ResumeScan
        },
        JobAction::Export => JobWork::Export,
    }
}

pub fn job_work(action: JobAction, plan_ready: bool) -> (r: JobWork)
    ensures
        r == job_work_spec(action, plan_ready),
{
    match action {
        JobAction::Scan => JobWork::Scan,
        JobAction::Plan => JobWork::Plan,
        JobAction::Resume => if plan_ready {
            JobWork::Export
        } else {
            JobWork::ResumeScan
        },
        JobAction::Export => JobWork::Export,
    }
}

/// How a job's worker ended.
#[derive(Debug, Clone)]
pub enum JobEnd {
    Completed,
    /// The job returned an error, with its text.
    Failed(String),
    /// The worker stopped without an answer.
    Crashed,
}

pub open spec fn end_error(end: JobEnd) -> Option<Seq<char>> {
    match end {
        JobEnd::Completed => None,
        JobEnd::Failed(m) => Some(m@),
        JobEnd::Crashed => Some("Worker stopped unexpectedly; resume from saved state"@),
    }
}

/// The job once its worker has ended: not running, its last progress kept,
/// and the error the end reports.
pub fn finish_job(job: Job, end: JobEnd) -> (r: Job)
    ensures
        !r.running,
        r.progress == job.progress,
        match r.error {
            Some(e) => end_error(end) == Some(e@),
            None => end_error(end) is None,
        },
{
    let error = match end {
        JobEnd::Completed => None,
        JobEnd::Failed(m) => Some(m),
        JobEnd::Crashed => Some(string_from_str("Worker stopped unexpectedly; resume from saved state")),
    };
    Job { running: false, progress: job.progress, error }
}

/// Records a progress report of the running job.
pub fn record_progress(job: &mut Job, p: Progress)
    ensures
        final(job).running == old(job).running,
        final(job).error == old(job).error,
        final(job).progress == Some(p),
{
    job.progress = Some(p);
}

/// A request that only an idle desktop accepts: refused with `busy` while a
/// job runs.
pub open spec fn idle_gate(job: Job, busy: Refusal) -> Result<(), Refusal> {
    if job.running {
        Err(busy)
    } else {
        Ok(())
    }
}

/// Switching or opening a session waits for the job to stop.
pub fn may_switch_session(job: &Job) -> (r: Result<(), Refusal>)
    ensures
        r == idle_gate(*job, Refusal::SessionBusy),
{
    if job.running {
        Err(Refusal::SessionBusy)
    } else {
        Ok(())
    }
}

/// Duplicates are resolved only while no job runs.
pub fn may_resolve(job: &Job) -> (r: Result<(), Refusal>)
    ensures
        r == idle_gate(*job, Refusal::ResolveBusy),
{
    if job.running {
        Err(Refusal::ResolveBusy)
    } else {
        Ok(())
    }
}

/// An update installs only while no job runs, and holds the job slot while
/// it installs.
pub fn begin_update(job: &mut Job) -> (r: Result<(), Refusal>)
    ensures
        r == idle_gate(*old(job), Refusal::UpdateBusy),
        old(job).running ==> *final(job) == *old(job),
        !old(job).running ==> final(job).running && final(job).progress == old(job).progress
            && final(job).error == old(job).error,
{
    if job.running {
        Err(Refusal::UpdateBusy)
    } else {
        job.running = true;
        Ok(())
    }
}

/// Releases the job slot after an update attempt.
pub fn end_update(job: &mut Job)
    ensures
        !final(job).running,
        final(job).progress == old(job).progress,
        final(job).error == old(job).error,
{
    job.running = false;
}

/// What closing the window does.
#[derive(Debug, Clone, Copy, PartialEq, Eq, Structural)]
pub enum ExitChoice {
    Close,
    /// Keep the window open and cancel the running job first.
    CancelFirst,
}

/// Closing waits for a running job (or for a job state that cannot be read,
/// given as `None`) and cancels it first.
pub fn exit_choice(running: Option<bool>) -> (r: ExitChoice)
    ensures
        r == ExitChoice::Close <==> running == Some(false),
{
    match running {
        Some(false) => ExitChoice::Close,
        _ => ExitChoice::CancelFirst,
    }
}

/// Update checks run only when both a release endpoint and its signing key
/// are configured.
pub fn update_configured(endpoint: &str, pubkey: &str) -> (r: bool)
    ensures
        r == (endpoint@.len() > 0 && pubkey@.len() > 0),
{
    chars_of(endpoint).len() > 0 && chars_of(pubkey).len() > 0
}

/// The file name of a new session database, from the time in milliseconds.
pub fn session_file_name(millis: u64) -> (r: String)
    ensures
        r@ == "archive-"@ + decimal(millis as nat) + ".sqlite"@,
{
    let mut v = chars_of("archive-");
    append_chars(&mut v, &decimal_chars(millis));
    append_chars(&mut v, &chars_of(".sqlite"));
    string_of(&v)
}

} // verus!
