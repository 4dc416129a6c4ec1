//! One background computation per repository, shared by processes that know
//! nothing of each other.
//!
//! A process that wants the status of a repository never computes it and
//! never waits: it hands out what a worker stored last and, where no worker
//! seems to be at work, starts one. A worker marks itself with a lock file,
//! stores what it computed and takes the lock away. The files are touched by
//! the caller; this module decides what is done to them and in which order.
//! Each call is a session: the caller asks for a step, does what the step
//! asks, reports what came of it and asks again, until the step is an answer.

use crate::cache_paths::{async_paths_of, get_async_paths, AsyncPaths, PathsView};
use chrono::Local;
use std::path::Path;
use vstd::prelude::*;
use vstd::string::StringExecFns;

verus! {

/// What a process is there for.
#[derive(Clone, Copy, Debug, PartialEq, Eq, Structural)]
pub enum Role {
    /// It wants a status and may start a worker.
    Normal,
    /// It was started to compute a status and to store it.
    Worker,
}

/// The repository that a status is wanted for.
pub struct Repo {
    /// Its path.
    pub path: String,
    /// The directory that holds it, if there is one.
    pub parent: Option<String>,
}

/// What the user chose.
pub struct GitStatusConfig {
    /// The directories for whose repositories a worker may compute the
    /// status, if the user named any.
    pub async_paths: Option<Vec<String>>,
}

/// True when one of `paths` is `wanted`, character for character.
pub open spec fn listed_in(paths: Seq<String>, wanted: Seq<char>) -> bool {
    exists|i: int| 0 <= i < paths.len() && (#[trigger] paths[i])@ == wanted
}

/// The directory that a worker is started with: the parent of the
/// repository, where it has one and the user named that very directory.
pub open spec fn launch_target(parent: Option<String>, async_paths: Option<Vec<String>>) -> Option<
    Seq<char>,
> {
    match (parent, async_paths) {
        (Some(p), Some(list)) => if listed_in(list@, p@) {
            Some(p@)
        } else {
            None
        },
        _ => None,
    }
}

/// True when one of `paths` is `wanted`.
pub fn is_listed(paths: &Vec<String>, wanted: &String) -> (found: bool)
    ensures
        found == listed_in(paths@, wanted@),
{
    let mut i: usize = 0;
    while i < paths.len()
        invariant
            i <= paths@.len(),
            forall|k: int| 0 <= k < i ==> (#[trigger] paths@[k])@ != wanted@,
        decreases paths@.len() - i,
    {
        if paths[i] == *wanted {
            return true;
        }
        i = i + 1;
    }
    false
}

/// The number that the two digits at `at` and behind it spell.
pub open spec fn two_digits(stamp: Seq<char>, at: int) -> int {
    (stamp[at] as u32 - '0' as u32) * 10 + (stamp[at + 1] as u32 - '0' as u32)
}

/// True when `stamp` has the form of a time of day with milliseconds:
/// two digits each for hour, minute and second, parted by colons, then a
/// full stop and three digits. The hour is below 24 and the minute below
/// 60; the second may be 60, which is how a leap second is written.
pub open spec fn is_timestamp(stamp: Seq<char>) -> bool {
    &&& stamp.len() == 12
    &&& forall|i: int|
        0 <= i < 12 ==> if i == 2 || i == 5 {
            stamp[i] == ':'
        } else if i == 8 {
            stamp[i] == '.'
        } else {
            '0' <= #[trigger] stamp[i] <= '9'
        }
    &&& two_digits(stamp, 0) < 24
    &&& two_digits(stamp, 3) < 60
    &&& two_digits(stamp, 6) <= 60
}

/// Asks `chrono` for the local time (`Local::now`) and has it written out
/// with `format` as `%H:%M:%S%.3f`. What time it is nobody can say
/// beforehand; the form of the text is the same at any time: `%H` gives
/// the hour as two digits from 00 to 23, `%M` the minute from 00 to 59,
/// `%S` the second from 00 to 60, and `%.3f` a full stop and three digits.
#[verifier::external_body]
fn timestamp_now() -> (stamp: String)
    ensures
        is_timestamp(stamp@),
{
    Local::now().format("%H:%M:%S%.3f").to_string()
}

/// How `std` writes a path for the eyes of a developer, between quotation
/// marks and with what cannot be shown escaped.
pub uninterp spec fn path_debug_text(path: Seq<char>) -> Seq<char>;

/// Has `format!` write a path with `{:?}`. The text is named and not
/// described here.
#[verifier::external_body]
fn debug_text(path: &str) -> (text: String)
    ensures
        text@ == path_debug_text(path@),
{
    format!("{:?}", Path::new(path))
}

/// One event, to be added to the log of a repository.
pub struct LogEntry {
    stamp: String,
    message: String,
}

/// A line of the log: the time in square brackets, a space, the message.
pub open spec fn log_line(stamp: Seq<char>, message: Seq<char>) -> Seq<char> {
    "["@ + stamp + "] "@ + message
}

impl LogEntry {
    /// When the event happened.
    pub closed spec fn stamp(&self) -> Seq<char> {
        self.stamp@
    }

    /// What happened.
    pub closed spec fn message(&self) -> Seq<char> {
        self.message@
    }

    /// The entry that says `message` happened at the time that `stamp` shows.
    pub fn at(stamp: String, message: &str) -> (entry: LogEntry)
        ensures
            entry.stamp() == stamp@,
            entry.message() == message@,
    {
        LogEntry { stamp, message: String::from_str(message) }
    }

    /// The entry as the line that goes into the log, without the line's end.
    pub fn render(&self) -> (line: String)
        ensures
            line@ == log_line(self.stamp(), self.message()),
    {
        let mut line = String::from_str("[");
        line.append(self.stamp.as_str());
        line.append("] ");
        line.append(self.message.as_str());
        line
    }
}

/// The event that a worker has marked itself.
pub open spec fn lock_created_message() -> Seq<char> {
    "async worker created a lock!"@
}

/// The event that a worker is about to take its mark away.
pub open spec fn removing_lock_message() -> Seq<char> {
    "removing_lock"@
}

/// What came of taking the lock away.
#[derive(Clone, Copy, Debug, PartialEq, Eq, Structural)]
pub enum Removal {
    /// The lock was there and is gone.
    Removed,
    /// There was no lock.
    Missing,
    /// The lock is there and could not be taken away.
    Failed,
}

/// The event that ends a worker's attempt to take its mark away.
pub open spec fn removal_message(outcome: Removal, lock_path: Seq<char>) -> Seq<char> {
    match outcome {
        Removal::Removed => "lock removed"@,
        Removal::Missing => "lock "@ + path_debug_text(lock_path) + " did not exist?"@,
        Removal::Failed => "lock "@ + path_debug_text(lock_path) + " could not be removed"@,
    }
}

/// What a process that wants a status asks its caller to do.
pub enum ReadAction {
    /// Create the lock file, or empty it where it exists.
    CreateLock,
    /// Look whether the lock file exists, and report it.
    ProbeLock,
    /// Start a worker for the repository in this directory, and do not wait for it.
    LaunchWorker { repo_path: String },
    /// Read the data file and report the status it holds, or nothing where
    /// there is no file, or none that can be read and understood.
    ReadData,
    /// Add this entry to the log.
    AppendLog { entry: LogEntry },
}

/// A `ReadAction` as mathematics; of a log entry, what happened and not when.
pub enum ReadActionView {
    CreateLock,
    ProbeLock,
    LaunchWorker { repo_path: Seq<char> },
    ReadData,
    AppendLog { message: Seq<char> },
}

impl View for ReadAction {
    type V = ReadActionView;

    open spec fn view(&self) -> ReadActionView {
        match self {
            ReadAction::CreateLock => ReadActionView::CreateLock,
            ReadAction::ProbeLock => ReadActionView::ProbeLock,
            ReadAction::LaunchWorker { repo_path } => ReadActionView::LaunchWorker {
                repo_path: repo_path@,
            },
            ReadAction::ReadData => ReadActionView::ReadData,
            ReadAction::AppendLog { entry } => ReadActionView::AppendLog {
                message: entry.message(),
            },
        }
    }
}

/// What the caller reports of a `ReadAction`.
pub enum ReadReport<S> {
    /// The action was done; there is nothing to tell.
    Done,
    /// Whether the lock file exists.
    LockProbed { present: bool },
    /// The status in the data file, if it holds one.
    DataRead { status: Option<S> },
}

/// One step of a process that wants a status.
pub enum ReadStep<S> {
    /// The caller does this and reports.
    Do(ReadAction),
    /// The session is over, with this answer.
    Return(Option<S>),
}

/// A `ReadStep` as mathematics.
pub enum ReadStepView<S> {
    Do(ReadActionView),
    Return(Option<S>),
}

impl<S> View for ReadStep<S> {
    type V = ReadStepView<S>;

    open spec fn view(&self) -> ReadStepView<S> {
        match self {
            ReadStep::Do(action) => ReadStepView::Do(action@),
            ReadStep::Return(status) => ReadStepView::Return(*status),
        }
    }
}

/// How far a process that wants a status has come.
#[derive(Clone, Copy, Debug, PartialEq, Eq, Structural)]
pub enum ReadStage {
    /// Nothing was done yet.
    Fresh,
    /// The lock is being created.
    CreatingLock,
    /// The creation of the lock is being logged.
    LoggingLock,
    /// The lock is being looked for.
    ProbingLock,
    /// A worker is being started.
    Launching,
    /// The data file is being read.
    ReadingData,
    /// The answer was given.
    Over,
}

/// What a worker that stores a status asks its caller to do.
pub enum StoreAction {
    /// Write the status to the data file in place of what it holds, and
    /// report whether that worked.
    WriteData,
    /// Take the lock file away, and report what came of it.
    RemoveLock,
    /// Add this entry to the log.
    AppendLog { entry: LogEntry },
}

/// A `StoreAction` as mathematics; of a log entry, what happened and not when.
pub enum StoreActionView {
    WriteData,
    RemoveLock,
    AppendLog { message: Seq<char> },
}

impl View for StoreAction {
    type V = StoreActionView;

    open spec fn view(&self) -> StoreActionView {
        match self {
            StoreAction::WriteData => StoreActionView::WriteData,
            StoreAction::RemoveLock => StoreActionView::RemoveLock,
            StoreAction::AppendLog { entry } => StoreActionView::AppendLog {
                message: entry.message(),
            },
        }
    }
}

/// What the caller reports of a `StoreAction`.
#[derive(Clone, Copy, Debug, PartialEq, Eq, Structural)]
pub enum StoreReport {
    /// The action was done; there is nothing to tell.
    Done,
    /// Whether the status is in the data file now.
    DataWritten { ok: bool },
    /// What came of taking the lock away.
    LockRemoval { outcome: Removal },
}

/// Why a status was not stored.
#[derive(Clone, Copy, Debug, PartialEq, Eq, Structural)]
pub enum StoreError {
    /// The data file could not be written.
    WriteFailed,
}

/// One step of a worker that stores a status.
pub enum StoreStep {
    /// The caller does this and reports.
    Do(StoreAction),
    /// The session is over, with this answer.
    Return(Result<(), StoreError>),
}

/// A `StoreStep` as mathematics.
pub enum StoreStepView {
    Do(StoreActionView),
    Return(Result<(), StoreError>),
}

impl View for StoreStep {
    type V = StoreStepView;

    open spec fn view(&self) -> StoreStepView {
        match self {
            StoreStep::Do(action) => StoreStepView::Do(action@),
            StoreStep::Return(answer) => StoreStepView::Return(*answer),
        }
    }
}

/// How far a worker that stores a status has come. From the writing on, a
/// stage remembers whether the writing worked.
#[derive(Clone, Copy, Debug, PartialEq, Eq, Structural)]
pub enum StoreStage {
    /// Nothing was done yet.
    Fresh,
    /// The data file is being written.
    Writing,
    /// The removal of the lock is being announced in the log.
    Announcing { written: bool },
    /// The lock is being taken away.
    Removing { written: bool },
    /// What came of the removal is being logged.
    Concluding { written: bool },
    /// The answer was given.
    Over,
}

/// What a coordinator knows, as mathematics.
pub struct CoordinatorView {
    /// What the process is there for.
    pub role: Role,
    /// The directory that a worker is started with; nothing where the
    /// repository is not one of those that workers compute for.
    pub target: Option<Seq<char>>,
    /// The files of the repository.
    pub paths: PathsView,
}

impl CoordinatorView {
    /// True when workers compute the status of this repository.
    pub open spec fn enabled(self) -> bool {
        self.target is Some
    }
}

/// The answer of a store session in which the writing worked, or did not.
pub open spec fn store_answer(written: bool) -> Result<(), StoreError> {
    if written {
        Ok(())
    } else {
        Err(StoreError::WriteFailed)
    }
}

/// The next stage and step of a process that wants a status.
///
/// Where workers do not compute for the repository, the answer is nothing
/// and nothing is done. A worker creates the lock, logs that, and answers
/// nothing. Any other process looks for the lock, starts a worker where
/// there is none, reads the data file in either case, and answers what
/// the file held. A report that does not fit the stage ends the session
/// with nothing.
pub open spec fn read_transition<S>(
    c: CoordinatorView,
    stage: ReadStage,
    report: Option<ReadReport<S>>,
) -> (ReadStage, ReadStepView<S>) {
    match stage {
        ReadStage::Fresh => match c.target {
            None => (ReadStage::Over, ReadStepView::Return(None)),
            Some(_) => match c.role {
                Role::Worker => (ReadStage::CreatingLock, ReadStepView::Do(ReadActionView::CreateLock)),
                Role::Normal => (ReadStage::ProbingLock, ReadStepView::Do(ReadActionView::ProbeLock)),
            },
        },
        ReadStage::CreatingLock => (
            ReadStage::LoggingLock,
            ReadStepView::Do(ReadActionView::AppendLog { message: lock_created_message() }),
        ),
        ReadStage::LoggingLock => (ReadStage::Over, ReadStepView::Return(None)),
        ReadStage::ProbingLock => match (report, c.target) {
            (Some(ReadReport::LockProbed { present }), Some(repo_path)) => if present {
                (ReadStage::ReadingData, ReadStepView::Do(ReadActionView::ReadData))
            } else {
                (
                    ReadStage::Launching,
                    ReadStepView::Do(ReadActionView::LaunchWorker { repo_path }),
                )
            },
            _ => (ReadStage::Over, ReadStepView::Return(None)),
        },
        ReadStage::Launching => (ReadStage::ReadingData, ReadStepView::Do(ReadActionView::ReadData)),
        ReadStage::ReadingData => match report {
            Some(ReadReport::DataRead { status }) => (ReadStage::Over, ReadStepView::Return(status)),
            _ => (ReadStage::Over, ReadStepView::Return(None)),
        },
        ReadStage::Over => (ReadStage::Over, ReadStepView::Return(None)),
    }
}

/// The next stage and step of a process that stores a status.
///
/// Only a worker for a repository that workers compute for stores anything;
/// any other process is answered at once that all is well. The worker writes
/// the data file, announces the removal of the lock, attempts it whether the
/// writing worked or not, logs what came of it, and answers whether the
/// status was written. A report that does not fit the stage counts as a failure
/// of what was asked.
pub open spec fn store_transition(
    c: CoordinatorView,
    stage: StoreStage,
    report: Option<StoreReport>,
) -> (StoreStage, StoreStepView) {
    match stage {
        StoreStage::Fresh => if c.role == Role::Worker && c.enabled() {
            (StoreStage::Writing, StoreStepView::Do(StoreActionView::WriteData))
        } else {
            (StoreStage::Over, StoreStepView::Return(Ok(())))
        },
        StoreStage::Writing => {
            let written = report == Some(StoreReport::DataWritten { ok: true });
            (
                StoreStage::Announcing { written },
                StoreStepView::Do(StoreActionView::AppendLog { message: removing_lock_message() }),
            )
        },
        StoreStage::Announcing { written } => (
            StoreStage::Removing { written },
            StoreStepView::Do(StoreActionView::RemoveLock),
        ),
        StoreStage::Removing { written } => {
            let outcome = match report {
                Some(StoreReport::LockRemoval { outcome }) => outcome,
                _ => Removal::Failed,
            };
            (
                StoreStage::Concluding { written },
                StoreStepView::Do(
                    StoreActionView::AppendLog {
                        message: removal_message(outcome, c.paths.lock_path),
                    },
                ),
            )
        },
        StoreStage::Concluding { written } => (
            StoreStage::Over,
            StoreStepView::Return(store_answer(written)),
        ),
        StoreStage::Over => (StoreStage::Over, StoreStepView::Return(Ok(()))),
    }
}

/// What one process knows of the repository it was started for.
pub struct GitStatusAsync {
    async_paths: AsyncPaths,
    role: Role,
    target: Option<String>,
}

impl View for GitStatusAsync {
    type V = CoordinatorView;

    closed spec fn view(&self) -> CoordinatorView {
        CoordinatorView {
            role: self.role,
            target: match self.target {
                Some(path) => Some(path@),
                None => None,
            },
            paths: self.async_paths@,
        }
    }
}

impl GitStatusAsync {
    /// The coordinator of a process with this role, for this repository of
    /// the user at `home`. Workers compute for the repository when the user
    /// named the directory that holds it; a repository that nothing holds
    /// is not computed for.
    pub fn new(role: Role, home: &str, repo: &Repo, config: &GitStatusConfig) -> (coordinator:
        GitStatusAsync)
        ensures
            coordinator@.role == role,
            coordinator@.paths == async_paths_of(repo.path@, home@),
            coordinator@.target == launch_target(repo.parent, config.async_paths),
    {
        let async_paths = get_async_paths(repo.path.as_str(), home);
        let target = match (&repo.parent, &config.async_paths) {
            (Some(parent), Some(list)) => {
                if is_listed(list, parent) {
                    Some(parent.clone())
                } else {
                    None
                }
            },
            _ => None,
        };
        GitStatusAsync { async_paths, role, target }
    }

    /// The files of the repository.
    pub fn async_paths(&self) -> (paths: &AsyncPaths)
        ensures
            paths@ == self@.paths,
    {
        &self.async_paths
    }

    /// True when workers compute the status of the repository.
    pub fn enabled(&self) -> (enabled: bool)
        ensures
            enabled == self@.enabled(),
    {
        self.target.is_some()
    }

    /// An entry for the log that says `message` happened now.
    pub fn log_info(&self, message: &str) -> (entry: LogEntry)
        ensures
            entry.message() == message@,
            is_timestamp(entry.stamp()),
    {
        LogEntry::at(timestamp_now(), message)
    }

    /// The message that ends an attempt to take the lock away.
    fn removal_text(&self, outcome: Removal) -> (message: String)
        ensures
            message@ == removal_message(outcome, self@.paths.lock_path),
    {
        match outcome {
            Removal::Removed => String::from_str("lock removed"),
            Removal::Missing => {
                let quoted = debug_text(self.async_paths.lock_path.as_str());
                String::from_str("lock ").concat(quoted.as_str()).concat(" did not exist?")
            },
            Removal::Failed => {
                let quoted = debug_text(self.async_paths.lock_path.as_str());
                String::from_str("lock ").concat(quoted.as_str()).concat(" could not be removed")
            },
        }
    }

    /// The next step of a process that wants the status of the repository.
    /// `stage` starts as `ReadStage::Fresh` and is carried from call to call;
    /// `report` is what came of the step before, and nothing at the first call.
    /// An entry for the log carries the time at which the step was made.
    pub fn get_git_status_and_run_worker<S>(
        &self,
        stage: &mut ReadStage,
        report: Option<ReadReport<S>>,
    ) -> (step: ReadStep<S>)
        ensures
            (*final(stage), step@) == read_transition(self@, *old(stage), report),
            step matches ReadStep::Do(ReadAction::AppendLog { entry }) ==> is_timestamp(
                entry.stamp(),
            ),
    {
        match *stage {
            ReadStage::Fresh => match self.target {
                None => {
                    *stage = ReadStage::Over;
                    ReadStep::Return(None)
                },
                Some(_) => match self.role {
                    Role::Worker => {
                        *stage = ReadStage::CreatingLock;
                        ReadStep::Do(ReadAction::CreateLock)
                    },
                    Role::Normal => {
                        *stage = ReadStage::ProbingLock;
                        ReadStep::Do(ReadAction::ProbeLock)
                    },
                },
            },
            ReadStage::CreatingLock => {
                *stage = ReadStage::LoggingLock;
                ReadStep::Do(
                    ReadAction::AppendLog { entry: self.log_info("async worker created a lock!") },
                )
            },
            ReadStage::LoggingLock => {
                *stage = ReadStage::Over;
                ReadStep::Return(None)
            },
            ReadStage::ProbingLock => match (report, &self.target) {
                (Some(ReadReport::LockProbed { present }), Some(repo_path)) => {
                    if present {
                        *stage = ReadStage::ReadingData;
                        ReadStep::Do(ReadAction::ReadData)
                    } else {
                        *stage = ReadStage::Launching;
                        ReadStep::Do(ReadAction::LaunchWorker { repo_path: repo_path.clone() })
                    }
                },
                _ => {
                    *stage = ReadStage::Over;
                    ReadStep::Return(None)
                },
            },
            ReadStage::Launching => {
                *stage = ReadStage::ReadingData;
                ReadStep::Do(ReadAction::ReadData)
            },
            ReadStage::ReadingData => {
                *stage = ReadStage::Over;
                match report {
                    Some(ReadReport::DataRead { status }) => ReadStep::Return(status),
                    _ => ReadStep::Return(None),
                }
            },
            ReadStage::Over => ReadStep::Return(None),
        }
    }

    /// The next step of a process that stores the status it computed.
    /// `stage` starts as `StoreStage::Fresh` and is carried from call to call;
    /// `report` is what came of the step before, and nothing at the first call.
    /// An entry for the log carries the time at which the step was made.
    pub fn store_result(&self, stage: &mut StoreStage, report: Option<StoreReport>) -> (step:
        StoreStep)
        ensures
            (*final(stage), step@) == store_transition(self@, *old(stage), report),
            step matches StoreStep::Do(StoreAction::AppendLog { entry }) ==> is_timestamp(
                entry.stamp(),
            ),
    {
        match *stage {
            StoreStage::Fresh => {
                if self.role == Role::Worker && self.target.is_some() {
                    *stage = StoreStage::Writing;
                    StoreStep::Do(StoreAction::WriteData)
                } else {
                    *stage = StoreStage::Over;
                    StoreStep::Return(Ok(()))
                }
            },
            StoreStage::Writing => {
                let written = match report {
                    Some(StoreReport::DataWritten { ok }) => ok,
                    _ => false,
                };
                *stage = StoreStage::Announcing { written };
                StoreStep::Do(StoreAction::AppendLog { entry: self.log_info("removing_lock") })
            },
            StoreStage::Announcing { written } => {
                *stage = StoreStage::Removing { written };
                StoreStep::Do(StoreAction::RemoveLock)
            },
            StoreStage::Removing { written } => {
                let outcome = match report {
                    Some(StoreReport::LockRemoval { outcome }) => outcome,
                    _ => Removal::Failed,
                };
                let message = self.removal_text(outcome);
                *stage = StoreStage::Concluding { written };
                StoreStep::Do(StoreAction::AppendLog { entry: self.log_info(message.as_str()) })
            },
            StoreStage::Concluding { written } => {
                *stage = StoreStage::Over;
                if written {
                    StoreStep::Return(Ok(()))
                } else {
                    StoreStep::Return(Err(StoreError::WriteFailed))
                }
            },
            StoreStage::Over => StoreStep::Return(Ok(())),
        }
    }
}

/// The arguments that a worker for the repository in `repo_path` is started with.
pub open spec fn worker_arguments_of(repo_path: Seq<char>) -> Seq<Seq<char>> {
    seq!["module"@, "--is-async-worker"@, "git_status"@, "--path"@, repo_path]
}

/// The arguments that a worker for the repository in `repo_path` is started
/// with, one by one.
pub fn worker_arguments(repo_path: &str) -> (arguments: Vec<String>)
    ensures
        arguments@.len() == 5,
        forall|i: int|
            0 <= i < 5 ==> (#[trigger] arguments@[i])@ == worker_arguments_of(repo_path@)[i],
{
    let mut arguments: Vec<String> = Vec::new();
    arguments.push(String::from_str("module"));
    arguments.push(String::from_str("--is-async-worker"));
    arguments.push(String::from_str("git_status"));
    arguments.push(String::from_str("--path"));
    arguments.push(String::from_str(repo_path));
    arguments
}

/// The same arguments as one line, for a platform that starts a process
/// from a command line: the path stands between quotation marks.
pub open spec fn worker_command_line_of(repo_path: Seq<char>) -> Seq<char> {
    "module --is-async-worker git_status --path \""@ + repo_path + "\""@
}

/// The arguments that a worker is started with, as one line.
pub fn worker_command_line(repo_path: &str) -> (line: String)
    ensures
        line@ == worker_command_line_of(repo_path@),
{
    String::from_str("module --is-async-worker git_status --path \"").concat(repo_path).concat(
        "\"",
    )
}

} // verus!
