use photo_hat_engine::desktop::{
    begin_update, end_update, exit_choice, finish_job, job_work, may_resolve, may_switch_session,
    record_progress, session_file_name, start_job, update_configured, ExitChoice, Job, JobAction,
    JobEnd, JobWork, Refusal,
};
use photo_hat_engine::progress;

#[test]
fn only_one_job_runs_at_a_time() {
    let idle = Job::idle();
    let (action, running) = start_job(&idle, "scan").unwrap();
    assert_eq!(action, JobAction::Scan);
    assert!(running.running && running.progress.is_none() && running.error.is_none());
    assert_eq!(start_job(&running, "export").unwrap_err(), Refusal::JobRunning);
    assert_eq!(may_switch_session(&running), Err(Refusal::SessionBusy));
    assert_eq!(may_resolve(&running), Err(Refusal::ResolveBusy));
    let mut busy = running.clone();
    assert_eq!(begin_update(&mut busy), Err(Refusal::UpdateBusy));
    assert!(busy.running);
    let done = finish_job(running, JobEnd::Completed);
    assert!(!done.running && done.error.is_none());
    assert!(start_job(&done, "plan").is_ok());
    assert_eq!(may_switch_session(&done), Ok(()));
    assert_eq!(may_resolve(&done), Ok(()));
}

#[test]
fn unknown_jobs_are_refused() {
    assert_eq!(start_job(&Job::idle(), "delete").unwrap_err(), Refusal::UnknownAction);
    assert_eq!(Refusal::UnknownAction.message(), "Unknown action");
    assert_eq!(Refusal::JobRunning.message(), "A job is already running");
    assert_eq!(Refusal::SessionBusy.message(), "Wait for the current job to stop");
    assert_eq!(Refusal::ResolveBusy.message(), "Wait for the job to finish");
    assert_eq!(Refusal::UpdateBusy.message(), "Finish the current job before updating");
}

#[test]
fn resume_scans_until_a_plan_is_ready() {
    assert_eq!(job_work(JobAction::Resume, false), JobWork::ResumeScan);
    assert_eq!(job_work(JobAction::Resume, true), JobWork::Export);
    assert_eq!(job_work(JobAction::Scan, true), JobWork::Scan);
    assert_eq!(job_work(JobAction::Plan, false), JobWork::Plan);
    assert_eq!(job_work(JobAction::Export, false), JobWork::Export);
}

#[test]
fn a_finished_job_keeps_its_progress_and_reports_its_error() {
    let (_, mut job) = start_job(&Job::idle(), "export").unwrap();
    record_progress(&mut job, progress("export", 3, 10, "/a.jpg"));
    let failed = finish_job(job.clone(), JobEnd::Failed("disk full".into()));
    assert!(!failed.running);
    assert_eq!(failed.error.as_deref(), Some("disk full"));
    assert_eq!(failed.progress.as_ref().map(|p| p.completed), Some(3));
    let crashed = finish_job(job, JobEnd::Crashed);
    assert_eq!(
        crashed.error.as_deref(),
        Some("Worker stopped unexpectedly; resume from saved state")
    );
}

#[test]
fn an_update_holds_the_job_slot() {
    let mut job = Job::idle();
    assert_eq!(begin_update(&mut job), Ok(()));
    assert!(job.running);
    assert_eq!(start_job(&job, "scan").unwrap_err(), Refusal::JobRunning);
    end_update(&mut job);
    assert!(!job.running);
}

#[test]
fn closing_cancels_a_running_job_first() {
    assert_eq!(exit_choice(Some(false)), ExitChoice::Close);
    assert_eq!(exit_choice(Some(true)), ExitChoice::CancelFirst);
    assert_eq!(exit_choice(None), ExitChoice::CancelFirst);
}

#[test]
fn updates_need_an_endpoint_and_a_key() {
    assert!(update_configured("https://example.org/latest.json", "KEY"));
    assert!(!update_configured("", "KEY"));
    assert!(!update_configured("https://example.org/latest.json", ""));
}

#[test]
fn session_files_are_named_by_time() {
    assert_eq!(session_file_name(1700000000123), "archive-1700000000123.sqlite");
}
