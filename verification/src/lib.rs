//! Verified core of import-videos: the parsing, planning, decision and
//! rendering logic behind the `scan` / `import` / `cleanup` / `inspect`
//! commands. File-system access, terminal interaction and serialisation
//! live in the companion binary under `app/`.

pub mod cleanup;
pub mod cli;
pub mod clock;
pub mod config;
pub mod error;
pub mod inspect;
pub mod media;
pub mod order;
pub mod paths;
pub mod plan;
pub mod report;
pub mod rounding;
pub mod source;
pub mod transfer;
pub mod text;
pub mod zoned;

use vstd::prelude::*;

verus! {

/// One detected drive's scan: nothing found, or its inventory. A hard
/// error is carried separately, in the drive's result.
#[derive(Debug)]
pub enum ScanDriveOutcome {
    Empty,
    Found(plan::ScanSummary),
}

/// One detected drive's import: nothing found, a dry run's plan, or an
/// executed report with whether any file or sidecar failed.
#[derive(Debug)]
pub enum ImportDriveOutcome {
    Empty,
    Planned(plan::ImportPlan),
    Executed { report: transfer::ExecuteReport, any_failed: bool },
}

impl ImportDriveOutcome {
    /// Only an executed drive with a failure counts toward the run's
    /// failure; nothing was executed to fail otherwise.
    pub open spec fn spec_is_failure(&self) -> bool {
        self matches ImportDriveOutcome::Executed { any_failed: true, .. }
    }

    pub fn is_failure(&self) -> (b: bool)
        ensures
            b == self.spec_is_failure(),
    {
        match self {
            ImportDriveOutcome::Executed { any_failed, .. } => *any_failed,
            _ => false,
        }
    }
}

/// One drive's name and path with the result of running its cycle; a
/// hard error on one drive is caught here rather than propagated.
#[derive(Debug)]
pub struct DriveResult<T> {
    pub name: String,
    pub path: String,
    pub result: Result<T, error::Error>,
}

/// Whether a drive failed: a hard error, or an executed import with a
/// failed file or sidecar.
pub open spec fn drive_failed(r: DriveResult<ImportDriveOutcome>) -> bool {
    match r.result {
        Err(_) => true,
        Ok(o) => o.spec_is_failure(),
    }
}

/// The run fails when any drive recorded a hard error or a failed
/// transfer, and only then.
pub fn any_import_drive_failed(results: &Vec<DriveResult<ImportDriveOutcome>>) -> (b: bool)
    ensures
        b == exists|i: int| 0 <= i < results@.len() && drive_failed(#[trigger] results@[i]),
{
    let mut i: usize = 0;
    while i < results.len()
        invariant
            i <= results@.len(),
            forall|k: int| 0 <= k < i ==> !drive_failed(#[trigger] results@[k]),
        decreases results@.len() - i,
    {
        let failed = match &results[i].result {
            Err(_) => true,
            Ok(outcome) => outcome.is_failure(),
        };
        if failed {
            return true;
        }
        i += 1;
    }
    false
}

/// Whether a group's own results hold a failure: a failed file or a
/// failed sidecar.
pub open spec fn group_failed(g: transfer::GroupResult) -> bool {
    (exists|j: int| 0 <= j < g.files@.len() && (#[trigger] g.files@[j]).outcome matches transfer::TransferOutcome::Failed(_))
        || g.sidecar_outcome matches Some(transfer::TransferOutcome::Failed(_))
}

/// Whether an executed report holds any failure.
pub fn report_any_failed(report: &transfer::ExecuteReport) -> (b: bool)
    ensures
        b == exists|i: int| 0 <= i < report.groups@.len() && group_failed(#[trigger] report.groups@[i]),
{
    let mut i: usize = 0;
    while i < report.groups.len()
        invariant
            i <= report.groups@.len(),
            forall|k: int| 0 <= k < i ==> !group_failed(#[trigger] report.groups@[k]),
        decreases report.groups@.len() - i,
    {
        let g = &report.groups[i];
        let mut j: usize = 0;
        while j < g.files.len()
            invariant
                j <= g.files@.len(),
                g == report.groups@[i as int],
                i < report.groups@.len(),
                forall|x: int| 0 <= x < j ==> !((#[trigger] g.files@[x]).outcome matches transfer::TransferOutcome::Failed(_)),
            decreases g.files@.len() - j,
        {
            if let transfer::TransferOutcome::Failed(_) = &g.files[j].outcome {
                assert(g.files@[j as int].outcome matches transfer::TransferOutcome::Failed(_));
                assert(group_failed(report.groups@[i as int]));
                return true;
            }
            j += 1;
        }
        if let Some(transfer::TransferOutcome::Failed(_)) = &g.sidecar_outcome {
            return true;
        }
        i += 1;
    }
    false
}

/// The exit code of a run: failure when anything failed, success
/// otherwise (including "nothing to import").
pub fn outcome_exit_code(any_failed: bool) -> (c: error::ExitCode)
    ensures
        c == (if any_failed { error::ExitCode::Failure } else { error::ExitCode::Success }),
{
    if any_failed { error::ExitCode::Failure } else { error::ExitCode::Success }
}


/// Whether any drive of a multi-drive scan hit a hard error.
pub fn any_scan_drive_failed(results: &Vec<DriveResult<ScanDriveOutcome>>) -> (b: bool)
    ensures
        b == exists|i: int| 0 <= i < results@.len() && (#[trigger] results@[i]).result is Err,
{
    let mut i: usize = 0;
    while i < results.len()
        invariant
            i <= results@.len(),
            forall|k: int| 0 <= k < i ==> !((#[trigger] results@[k]).result is Err),
        decreases results@.len() - i,
    {
        if results[i].result.is_err() {
            return true;
        }
        i += 1;
    }
    false
}

/// The line naming a drive before anything else is said of it.
pub fn drive_header(name: &str, path: &str) -> (s: String)
    ensures
        s@ == "== "@ + name@ + " ("@ + path@ + ") =="@,
{
    let mut s = text::owned("== ");
    text::push_str(&mut s, name);
    text::push_str(&mut s, " (");
    text::push_str(&mut s, path);
    text::push_str(&mut s, ") ==");
    s
}

/// What a run that found no source says.
pub fn no_sources_text(profile_name: &str) -> (s: String)
    ensures
        s@ == "no sources found for profile '"@ + profile_name@ + "'"@,
{
    let mut s = text::owned("no sources found for profile '");
    text::push_str(&mut s, profile_name);
    text::push_str(&mut s, "'");
    s
}

/// Progress bars show only on an interactive terminal with JSON off.
pub fn progress_enabled(stdout_is_terminal: bool, json: bool) -> (b: bool)
    ensures
        b == (stdout_is_terminal && !json),
{
    stdout_is_terminal && !json
}
} // verus!
