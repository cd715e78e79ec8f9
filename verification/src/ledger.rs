//! The file protocol of the history ledger.
//!
//! Recording a launch and compacting the ledger each take several file
//! operations, whose order and whose handling of failure keep the ledger whole
//! while other processes use it. This module decides; it touches no file.
//! The caller carries out the action it is handed, reports how that went, and
//! is handed the next action, until the action is to finish.

use crate::history::{
    event, event_line, ledger_events, most_recent, record_launch, render, trim_history,
    BYTES_PER_LINE, MAX_HISTORY_LINES,
};
use crate::paths::{join_path, joined};
use crate::text::{copy_string, decimal, push_decimal};
use vstd::prelude::*;

verus! {

/// The access rights of every file that the protocol creates: the owner may
/// read and write, nobody else may do anything.
pub const FILE_MODE: u32 = 0o600;

/// What lies at a path, the path itself not being followed if it is a
/// symbolic link.
#[derive(Debug, Clone, Copy, PartialEq, Eq)]
pub enum PathKind {
    /// Nothing.
    Absent,
    /// A symbolic link.
    Symlink,
    /// Anything else.
    Other,
}

/// Why a launch was not recorded.
#[derive(Debug, Clone, Copy, PartialEq, Eq)]
pub enum LedgerError {
    /// The ledger's path is a symbolic link.
    PermissionDenied,
    /// A file operation failed.
    Io,
}

/// How an action went.
#[derive(Debug)]
pub enum Report {
    /// It was carried out.
    Done,
    /// It could not be carried out.
    Failed,
    /// What an inspection found.
    Kind(PathKind),
    /// What a measurement found, in bytes.
    Size(u64),
    /// What was read.
    Contents(String),
}

/// A report as specifications see it.
pub enum ReportView {
    Done,
    Failed,
    Kind(PathKind),
    Size(u64),
    Contents(Seq<char>),
}

impl View for Report {
    type V = ReportView;

    open spec fn view(&self) -> ReportView {
        match self {
            Report::Done => ReportView::Done,
            Report::Failed => ReportView::Failed,
            Report::Kind(kind) => ReportView::Kind(*kind),
            Report::Size(size) => ReportView::Size(*size),
            Report::Contents(contents) => ReportView::Contents(contents@),
        }
    }
}

/// What the caller is to do next.
#[derive(Debug)]
pub enum Action {
    /// Create the directory, and those above it, unless they exist.
    EnsureDirectory { path: String },
    /// Find out what lies at the path, without following a symbolic link.
    Inspect { path: String },
    /// Open the file for appending only, creating it with `FILE_MODE` if it
    /// is missing and refusing to follow a symbolic link; write the line;
    /// close the file.
    Append { path: String, line: String },
    /// Find out how many bytes the file holds.
    Measure { path: String },
    /// Read the whole file as text.
    Read { path: String },
    /// Create the file with `FILE_MODE`, failing if anything lies at the path
    /// already and refusing to follow a symbolic link; write the contents;
    /// close the file.
    CreateNew { path: String, contents: String },
    /// Rename the file in one step, replacing what lies at the new path.
    Rename { from: String, to: String },
    /// Remove the file; whether that works does not matter.
    Remove { path: String },
    /// Stop: there is nothing more to do.
    Finish { outcome: Result<(), LedgerError> },
}

/// An action as specifications see it.
pub enum ActionView {
    EnsureDirectory { path: Seq<char> },
    Inspect { path: Seq<char> },
    Append { path: Seq<char>, line: Seq<char> },
    Measure { path: Seq<char> },
    Read { path: Seq<char> },
    CreateNew { path: Seq<char>, contents: Seq<char> },
    Rename { from: Seq<char>, to: Seq<char> },
    Remove { path: Seq<char> },
    Finish { outcome: Result<(), LedgerError> },
}

impl View for Action {
    type V = ActionView;

    open spec fn view(&self) -> ActionView {
        match self {
            Action::EnsureDirectory { path } => ActionView::EnsureDirectory { path: path@ },
            Action::Inspect { path } => ActionView::Inspect { path: path@ },
            Action::Append { path, line } => ActionView::Append { path: path@, line: line@ },
            Action::Measure { path } => ActionView::Measure { path: path@ },
            Action::Read { path } => ActionView::Read { path: path@ },
            Action::CreateNew { path, contents } => ActionView::CreateNew {
                path: path@,
                contents: contents@,
            },
            Action::Rename { from, to } => ActionView::Rename { from: from@, to: to@ },
            Action::Remove { path } => ActionView::Remove { path: path@ },
            Action::Finish { outcome } => ActionView::Finish { outcome: *outcome },
        }
    }
}

/// How far the protocol has come: which report it waits for.
#[derive(Debug, Clone, Copy, PartialEq, Eq)]
pub enum Stage {
    /// A launch is to be recorded; nothing was done yet.
    Start,
    /// The ledger is to be compacted; nothing was done yet.
    StartCompaction,
    AwaitDirectory,
    AwaitInspection,
    AwaitAppend,
    AwaitSize,
    AwaitSecondInspection,
    AwaitContents,
    AwaitCreation,
    AwaitRename,
    AwaitRemoval,
    /// At an end: what was to be recorded is recorded.
    Settled,
    /// At an end: the ledger's path is a symbolic link, nothing was written.
    Refused,
    /// At an end: a file operation failed, the launch is not recorded.
    Failed,
}

/// What one run of the protocol works on.
#[derive(Debug)]
pub struct Job {
    /// The directory that holds the ledger.
    pub directory: String,
    /// The ledger.
    pub path: String,
    /// Where compaction writes before it renames.
    pub temporary: String,
    /// The line to append.
    pub line: String,
    /// How many events compaction keeps.
    pub max_lines: usize,
}

/// A job as specifications see it.
pub struct JobView {
    pub directory: Seq<char>,
    pub path: Seq<char>,
    pub temporary: Seq<char>,
    pub line: Seq<char>,
    pub max_lines: usize,
}

impl View for Job {
    type V = JobView;

    open spec fn view(&self) -> JobView {
        JobView {
            directory: self.directory@,
            path: self.path@,
            temporary: self.temporary@,
            line: self.line@,
            max_lines: self.max_lines,
        }
    }
}

/// The name of the file that compaction writes to: it holds the number of
/// the process and a number that the caller takes from the clock, so that two
/// compactions at once do not meet.
pub open spec fn temporary_name(process: u32, unique: u128) -> Seq<char> {
    ".history."@ + decimal(process as nat) + "."@ + decimal(unique as nat) + ".tmp"@
}

/// Writes the name of the file that compaction writes to.
pub fn temp_history_name(process: u32, unique: u128) -> (name: String)
    ensures
        name@ == temporary_name(process, unique),
{
    let mut name = ".history.".to_owned();
    push_decimal(&mut name, process as u128);
    name.append(".");
    push_decimal(&mut name, unique);
    name.append(".tmp");
    name
}

/// The job of recording the launch of `name` at `timestamp` in the ledger
/// that lies in `directory`.
pub open spec fn job_for(
    directory: Seq<char>,
    timestamp: u64,
    name: Seq<char>,
    max_lines: usize,
    process: u32,
    unique: u128,
) -> JobView {
    JobView {
        directory,
        path: joined(directory, "history.txt"@),
        temporary: joined(directory, temporary_name(process, unique)),
        line: event_line(event(timestamp, name)),
        max_lines,
    }
}

/// The job of compacting the ledger that lies in `directory`; it has no line
/// to append.
pub open spec fn compaction_job_for(
    directory: Seq<char>,
    max_lines: usize,
    process: u32,
    unique: u128,
) -> JobView {
    JobView {
        directory,
        path: joined(directory, "history.txt"@),
        temporary: joined(directory, temporary_name(process, unique)),
        line: Seq::empty(),
        max_lines,
    }
}

impl Job {
    /// Sets up a compaction on its own, to be run from `Stage::StartCompaction`.
    pub fn for_compaction(directory: &str, max_lines: usize, process: u32, unique: u128) -> (job:
        Job)
        ensures
            job@ == compaction_job_for(directory@, max_lines, process, unique),
    {
        let name = temp_history_name(process, unique);
        Job {
            directory: directory.to_owned(),
            path: join_path(directory, "history.txt"),
            temporary: join_path(directory, name.as_str()),
            line: String::new(),
            max_lines,
        }
    }

    /// Sets up the recording of one launch, to be run from `Stage::Start`.
    pub fn new(
        directory: &str,
        timestamp: u64,
        app_name: &str,
        max_lines: usize,
        process: u32,
        unique: u128,
    ) -> (job: Job)
        ensures
            job@ == job_for(directory@, timestamp, app_name@, max_lines, process, unique),
    {
        let name = temp_history_name(process, unique);
        Job {
            directory: directory.to_owned(),
            path: join_path(directory, "history.txt"),
            temporary: join_path(directory, name.as_str()),
            line: record_launch(timestamp, app_name),
            max_lines,
        }
    }
}

/// Whether a ledger of `size` bytes is due for compaction to `max_lines` lines.
pub open spec fn is_oversized(size: u64, max_lines: usize) -> bool {
    size > max_lines * BYTES_PER_LINE
}

/// Decides whether a ledger of `size` bytes is due for compaction.
pub fn needs_compaction(size: u64, max_lines: usize) -> (due: bool)
    ensures
        due == is_oversized(size, max_lines),
{
    (size as u128) > (max_lines as u128) * (BYTES_PER_LINE as u128)
}

/// What an inspection of the ledger's path allows: a symbolic link is
/// refused; a path where nothing lies, or something that is no symbolic link,
/// is accepted; an inspection that gave no answer counts as a failure.
pub open spec fn inspection_verdict(report: ReportView) -> Result<(), LedgerError> {
    match report {
        ReportView::Kind(PathKind::Symlink) => Err(LedgerError::PermissionDenied),
        ReportView::Kind(_) => Ok(()),
        _ => Err(LedgerError::Io),
    }
}

/// Judges what an inspection of the ledger's path found.
pub fn ensure_not_symlink(report: &Report) -> (verdict: Result<(), LedgerError>)
    ensures
        verdict == inspection_verdict(report@),
{
    match report {
        Report::Kind(PathKind::Symlink) => Err(LedgerError::PermissionDenied),
        Report::Kind(_) => Ok(()),
        _ => Err(LedgerError::Io),
    }
}

/// The end of a run, as stage and action.
pub open spec fn ending(stage: Stage) -> (Stage, ActionView) {
    match stage {
        Stage::Refused => (
            Stage::Refused,
            ActionView::Finish { outcome: Err(LedgerError::PermissionDenied) },
        ),
        Stage::Failed => (Stage::Failed, ActionView::Finish { outcome: Err(LedgerError::Io) }),
        _ => (Stage::Settled, ActionView::Finish { outcome: Ok(()) }),
    }
}

/// The protocol: from the stage reached and the report on the last action
/// to the next stage and the next action.
///
/// Recording: ensure the directory, inspect the path, append the line,
/// measure the ledger; a failure on the way ends the run without a record, and
/// so does a symbolic link. An oversized ledger is then compacted. Compaction:
/// inspect the path, read the ledger, write what stays to the temporary file,
/// rename that onto the ledger, and remove it if renaming fails. Whatever
/// fails in compaction, the run ends well: the launch is recorded.
pub open spec fn next(job: JobView, stage: Stage, report: ReportView) -> (Stage, ActionView) {
    match stage {
        Stage::Start => (
            Stage::AwaitDirectory,
            ActionView::EnsureDirectory { path: job.directory },
        ),
        Stage::AwaitDirectory => if report is Done {
            (Stage::AwaitInspection, ActionView::Inspect { path: job.path })
        } else {
            ending(Stage::Failed)
        },
        Stage::AwaitInspection => match inspection_verdict(report) {
            Ok(_) => (Stage::AwaitAppend, ActionView::Append { path: job.path, line: job.line }),
            Err(LedgerError::PermissionDenied) => ending(Stage::Refused),
            Err(LedgerError::Io) => ending(Stage::Failed),
        },
        Stage::AwaitAppend => if report is Done {
            (Stage::AwaitSize, ActionView::Measure { path: job.path })
        } else {
            ending(Stage::Failed)
        },
        Stage::AwaitSize => match report {
            ReportView::Size(size) => if is_oversized(size, job.max_lines) {
                (Stage::AwaitSecondInspection, ActionView::Inspect { path: job.path })
            } else {
                ending(Stage::Settled)
            },
            _ => ending(Stage::Settled),
        },
        Stage::StartCompaction => (
            Stage::AwaitSecondInspection,
            ActionView::Inspect { path: job.path },
        ),
        Stage::AwaitSecondInspection => if inspection_verdict(report) is Ok {
            (Stage::AwaitContents, ActionView::Read { path: job.path })
        } else {
            ending(Stage::Settled)
        },
        Stage::AwaitContents => match report {
            ReportView::Contents(contents) => if ledger_events(contents).len() > job.max_lines {
                (
                    Stage::AwaitCreation,
                    ActionView::CreateNew {
                        path: job.temporary,
                        contents: render(
                            most_recent(ledger_events(contents), job.max_lines as nat),
                        ),
                    },
                )
            } else {
                ending(Stage::Settled)
            },
            _ => ending(Stage::Settled),
        },
        Stage::AwaitCreation => if report is Done {
            (Stage::AwaitRename, ActionView::Rename { from: job.temporary, to: job.path })
        } else {
            ending(Stage::Settled)
        },
        Stage::AwaitRename => if report is Done {
            ending(Stage::Settled)
        } else {
            (Stage::AwaitRemoval, ActionView::Remove { path: job.temporary })
        },
        Stage::AwaitRemoval => ending(Stage::Settled),
        Stage::Settled => ending(Stage::Settled),
        Stage::Refused => ending(Stage::Refused),
        Stage::Failed => ending(Stage::Failed),
    }
}

/// The run is over.
fn end(stage: Stage) -> (r: (Stage, Action))
    ensures
        (r.0, r.1@) == ending(stage),
{
    match stage {
        Stage::Refused => (
            Stage::Refused,
            Action::Finish { outcome: Err(LedgerError::PermissionDenied) },
        ),
        Stage::Failed => (Stage::Failed, Action::Finish { outcome: Err(LedgerError::Io) }),
        _ => (Stage::Settled, Action::Finish { outcome: Ok(()) }),
    }
}

/// Takes the report on the last action and decides the next one. The first
/// call, at `Stage::Start` or `Stage::StartCompaction`, takes any report.
pub fn step(job: &Job, stage: Stage, report: &Report) -> (r: (Stage, Action))
    ensures
        (r.0, r.1@) == next(job@, stage, report@),
{
    match stage {
        Stage::Start => (
            Stage::AwaitDirectory,
            Action::EnsureDirectory { path: copy_string(&job.directory) },
        ),
        Stage::AwaitDirectory => match report {
            Report::Done => (
                Stage::AwaitInspection,
                Action::Inspect { path: copy_string(&job.path) },
            ),
            _ => end(Stage::Failed),
        },
        Stage::AwaitInspection => match ensure_not_symlink(report) {
            Ok(_) => (
                Stage::AwaitAppend,
                Action::Append { path: copy_string(&job.path), line: copy_string(&job.line) },
            ),
            Err(LedgerError::PermissionDenied) => end(Stage::Refused),
            Err(LedgerError::Io) => end(Stage::Failed),
        },
        Stage::AwaitAppend => match report {
            Report::Done => (Stage::AwaitSize, Action::Measure { path: copy_string(&job.path) }),
            _ => end(Stage::Failed),
        },
        Stage::AwaitSize => match report {
            Report::Size(size) => {
                if needs_compaction(*size, job.max_lines) {
                    (Stage::AwaitSecondInspection, Action::Inspect { path: copy_string(&job.path) })
                } else {
                    end(Stage::Settled)
                }
            },
            _ => end(Stage::Settled),
        },
        Stage::StartCompaction => (
            Stage::AwaitSecondInspection,
            Action::Inspect { path: copy_string(&job.path) },
        ),
        Stage::AwaitSecondInspection => match ensure_not_symlink(report) {
            Ok(_) => (Stage::AwaitContents, Action::Read { path: copy_string(&job.path) }),
            Err(_) => end(Stage::Settled),
        },
        Stage::AwaitContents => match report {
            Report::Contents(contents) => match trim_history(contents.as_str(), job.max_lines) {
                Some(replacement) => (
                    Stage::AwaitCreation,
                    Action::CreateNew { path: copy_string(&job.temporary), contents: replacement },
                ),
                None => end(Stage::Settled),
            },
            _ => end(Stage::Settled),
        },
        Stage::AwaitCreation => match report {
            Report::Done => (
                Stage::AwaitRename,
                Action::Rename { from: copy_string(&job.temporary), to: copy_string(&job.path) },
            ),
            _ => end(Stage::Settled),
        },
        Stage::AwaitRename => match report {
            Report::Done => end(Stage::Settled),
            _ => (Stage::AwaitRemoval, Action::Remove { path: copy_string(&job.temporary) }),
        },
        Stage::AwaitRemoval => end(Stage::Settled),
        Stage::Settled => end(Stage::Settled),
        Stage::Refused => end(Stage::Refused),
        Stage::Failed => end(Stage::Failed),
    }
}

/// Whether the run is at an end.
pub open spec fn is_over(stage: Stage) -> bool {
    stage is Settled || stage is Refused || stage is Failed
}

/// Whether the stage belongs to compaction.
pub open spec fn in_compaction(stage: Stage) -> bool {
    ||| stage is StartCompaction
    ||| stage is AwaitSecondInspection
    ||| stage is AwaitContents
    ||| stage is AwaitCreation
    ||| stage is AwaitRename
    ||| stage is AwaitRemoval
}

/// The ledger is appended to only right after an inspection that found no
/// symbolic link at its path, and only the job's line is appended.
pub proof fn lemma_append_follows_inspection(job: JobView, stage: Stage, report: ReportView)
    requires
        next(job, stage, report).1 is Append,
    ensures
        stage is AwaitInspection,
        report is Kind,
        report != ReportView::Kind(PathKind::Symlink),
        next(job, stage, report).1 == (ActionView::Append { path: job.path, line: job.line }),
{
}

/// Where an inspection finds a symbolic link, nothing is written: recording
/// ends with `PermissionDenied`, compaction ends without a word.
pub proof fn lemma_symlink_stops_the_run(job: JobView, stage: Stage)
    ensures
        stage is AwaitInspection ==> next(job, stage, ReportView::Kind(PathKind::Symlink)) == (
            Stage::Refused,
            ActionView::Finish { outcome: Err(LedgerError::PermissionDenied) },
        ),
        stage is AwaitSecondInspection ==> next(job, stage, ReportView::Kind(PathKind::Symlink))
            == (Stage::Settled, ActionView::Finish { outcome: Ok(()) }),
{
}

/// A file is renamed onto the ledger only after the temporary file was
/// written in full, and it is the temporary file that is renamed.
pub proof fn lemma_rename_follows_creation(job: JobView, stage: Stage, report: ReportView)
    requires
        next(job, stage, report).1 is Rename,
    ensures
        stage is AwaitCreation,
        report is Done,
        next(job, stage, report).1 == (ActionView::Rename { from: job.temporary, to: job.path }),
{
}

/// Compaction writes to the temporary file only, never to the ledger itself.
pub proof fn lemma_compaction_spares_the_ledger(job: JobView, stage: Stage, report: ReportView)
    requires
        in_compaction(stage),
    ensures
        !(next(job, stage, report).1 is Append),
        !(next(job, stage, report).1 is EnsureDirectory),
        next(job, stage, report).1 matches ActionView::CreateNew { path, .. } ==> path
            == job.temporary,
        next(job, stage, report).1 matches ActionView::Remove { path } ==> path == job.temporary,
{
}

/// Whatever happens in compaction, it goes on with compaction or ends
/// well: no failure of compaction is ever reported.
pub proof fn lemma_compaction_never_fails(job: JobView, stage: Stage, report: ReportView)
    requires
        in_compaction(stage),
    ensures
        in_compaction(next(job, stage, report).0) || next(job, stage, report).0 is Settled,
        next(job, stage, report).1 matches ActionView::Finish { outcome } ==> outcome is Ok,
{
}

/// A run that is over stays over, and keeps its outcome.
pub proof fn lemma_over_stays_over(job: JobView, stage: Stage, report: ReportView)
    requires
        is_over(stage),
    ensures
        next(job, stage, report) == ending(stage),
        next(job, stage, report).0 == stage,
{
}

/// The action is to finish exactly when the run is over.
pub proof fn lemma_finish_means_over(job: JobView, stage: Stage, report: ReportView)
    ensures
        next(job, stage, report).1 is Finish <==> is_over(next(job, stage, report).0),
{
}

} // verus!
