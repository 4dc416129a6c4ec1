//! The files of one repository as mathematics, and what the sessions of
//! `git_status_async` make of them when every step is done as asked.
//!
//! Nothing here runs. The model says what each action means, a run strings
//! the steps of one session together, and the lemmas state what holds of
//! every run: which files a process may change, when a worker is started,
//! and what a stored status looks like to the next reader.

use crate::git_status_async::{
    lock_created_message, read_transition, removal_message, removing_lock_message,
    store_transition, CoordinatorView, ReadActionView, ReadReport, ReadStage, ReadStepView,
    Removal, Role, StoreActionView, StoreError, StoreReport, StoreStage, StoreStepView,
};
use vstd::prelude::*;

verus! {

/// What the data file of a repository holds.
pub enum DataFile<S> {
    /// There is no data file.
    Absent,
    /// There is one, and no status can be made of it.
    Corrupt,
    /// There is one, and it holds this status.
    Holds(S),
}

/// The state that the processes for one repository share, and what they
/// caused outside it.
pub struct World<S> {
    /// True when the lock file exists.
    pub lock: bool,
    /// The data file.
    pub data: DataFile<S>,
    /// The lines of the log, without their times.
    pub log: Seq<Seq<char>>,
    /// The directories that workers were started with, in order.
    pub launched: Seq<Seq<char>>,
}

/// The world after an action of a process that wants a status, and the
/// report that the process is owed.
pub open spec fn perform_read<S>(world: World<S>, action: ReadActionView) -> (
    World<S>,
    ReadReport<S>,
) {
    match action {
        ReadActionView::CreateLock => (World { lock: true, ..world }, ReadReport::Done),
        ReadActionView::ProbeLock => (world, ReadReport::LockProbed { present: world.lock }),
        ReadActionView::LaunchWorker { repo_path } => (
            World { launched: world.launched.push(repo_path), ..world },
            ReadReport::Done,
        ),
        ReadActionView::ReadData => (
            world,
            ReadReport::DataRead {
                status: match world.data {
                    DataFile::Holds(status) => Some(status),
                    _ => None,
                },
            },
        ),
        ReadActionView::AppendLog { message } => (
            World { log: world.log.push(message), ..world },
            ReadReport::Done,
        ),
    }
}

/// The world after an action of a worker that stores `status`, and the
/// report that the worker is owed.
pub open spec fn perform_store<S>(world: World<S>, action: StoreActionView, status: S) -> (
    World<S>,
    StoreReport,
) {
    match action {
        StoreActionView::WriteData => (
            World { data: DataFile::Holds(status), ..world },
            StoreReport::DataWritten { ok: true },
        ),
        StoreActionView::RemoveLock => (
            World { lock: false, ..world },
            StoreReport::LockRemoval {
                outcome: if world.lock {
                    Removal::Removed
                } else {
                    Removal::Missing
                },
            },
        ),
        StoreActionView::AppendLog { message } => (
            World { log: world.log.push(message), ..world },
            StoreReport::Done,
        ),
    }
}

/// No session takes more steps than this.
pub open spec fn session_steps() -> nat {
    6
}

/// What a process that wants a status is answered, and the world it leaves,
/// when it goes on from `stage` with `report` for at most `steps` steps.
pub open spec fn read_from<S>(
    c: CoordinatorView,
    stage: ReadStage,
    report: Option<ReadReport<S>>,
    world: World<S>,
    steps: nat,
) -> (Option<S>, World<S>)
    decreases steps,
{
    if steps == 0 {
        (None, world)
    } else {
        match read_transition(c, stage, report) {
            (_, ReadStepView::Return(answer)) => (answer, world),
            (next, ReadStepView::Do(action)) => {
                let (after, told) = perform_read(world, action);
                read_from(c, next, Some(told), after, (steps - 1) as nat)
            },
        }
    }
}

/// What a process that wants a status is answered in `world`, and the world
/// it leaves.
pub open spec fn read_run<S>(c: CoordinatorView, world: World<S>) -> (Option<S>, World<S>) {
    read_from(c, ReadStage::Fresh, None, world, session_steps())
}

/// What a process that stores `status` is answered, and the world it leaves,
/// when it goes on from `stage` with `report` for at most `steps` steps.
pub open spec fn store_from<S>(
    c: CoordinatorView,
    stage: StoreStage,
    report: Option<StoreReport>,
    world: World<S>,
    status: S,
    steps: nat,
) -> (Result<(), StoreError>, World<S>)
    decreases steps,
{
    if steps == 0 {
        (Ok(()), world)
    } else {
        match store_transition(c, stage, report) {
            (_, StoreStepView::Return(answer)) => (answer, world),
            (next, StoreStepView::Do(action)) => {
                let (after, told) = perform_store(world, action, status);
                store_from(c, next, Some(told), after, status, (steps - 1) as nat)
            },
        }
    }
}

/// What a process that stores `status` is answered in `world`, and the world
/// it leaves.
pub open spec fn store_run<S>(c: CoordinatorView, world: World<S>, status: S) -> (
    Result<(), StoreError>,
    World<S>,
) {
    store_from(c, StoreStage::Fresh, None, world, status, session_steps())
}

/// True when a process that wants a status and goes on from `stage` with
/// `report` is answered after `steps` steps at most.
pub open spec fn read_ends_within<S>(
    c: CoordinatorView,
    stage: ReadStage,
    report: Option<ReadReport<S>>,
    world: World<S>,
    steps: nat,
) -> bool
    decreases steps,
{
    steps > 0 && match read_transition(c, stage, report) {
        (_, ReadStepView::Return(_)) => true,
        (next, ReadStepView::Do(action)) => {
            let (after, told) = perform_read(world, action);
            read_ends_within(c, next, Some(told), after, (steps - 1) as nat)
        },
    }
}

/// True when a process that stores `status` and goes on from `stage` with
/// `report` is answered after `steps` steps at most.
pub open spec fn store_ends_within<S>(
    c: CoordinatorView,
    stage: StoreStage,
    report: Option<StoreReport>,
    world: World<S>,
    status: S,
    steps: nat,
) -> bool
    decreases steps,
{
    steps > 0 && match store_transition(c, stage, report) {
        (_, StoreStepView::Return(_)) => true,
        (next, StoreStepView::Do(action)) => {
            let (after, told) = perform_store(world, action, status);
            store_ends_within(c, next, Some(told), after, status, (steps - 1) as nat)
        },
    }
}

/// No process waits for another: whatever the role and whatever the files
/// hold, a session is answered within the steps that a run allows for.
pub proof fn lemma_sessions_end<S>(c: CoordinatorView, world: World<S>, status: S)
    ensures
        read_ends_within(c, ReadStage::Fresh, None::<ReadReport<S>>, world, session_steps()),
        store_ends_within(c, StoreStage::Fresh, None, world, status, session_steps()),
{
    reveal_with_fuel(read_ends_within, 6);
    reveal_with_fuel(store_ends_within, 6);
}

/// For a repository that workers do not compute for, a process of either
/// role is answered nothing and leaves the world as it found it: no lock,
/// no data, no worker, no line in the log.
pub proof fn lemma_disabled_changes_nothing<S>(c: CoordinatorView, world: World<S>, status: S)
    requires
        !c.enabled(),
    ensures
        read_run(c, world) == (None::<S>, world),
        store_run(c, world, status) == (Ok::<(), StoreError>(()), world),
{
    reveal_with_fuel(read_from, 2);
    reveal_with_fuel(store_from, 2);
}

/// A process that is no worker changes neither the lock nor the data, and
/// writes nothing to the log.
pub proof fn lemma_normal_role_only_reads<S>(c: CoordinatorView, world: World<S>, status: S)
    requires
        c.role == Role::Normal,
    ensures
        read_run(c, world).1.lock == world.lock,
        read_run(c, world).1.data == world.data,
        read_run(c, world).1.log == world.log,
        store_run(c, world, status) == (Ok::<(), StoreError>(()), world),
{
    reveal_with_fuel(read_from, 5);
    reveal_with_fuel(store_from, 2);
}

/// Where workers compute for the repository and no lock is there, a process
/// that is no worker starts exactly one worker, with the directory of the
/// repository; where the lock is there, it starts none. In either case it is
/// answered what the data file holds, without waiting for anybody.
pub proof fn lemma_worker_started_unless_locked<S>(c: CoordinatorView, world: World<S>)
    requires
        c.role == Role::Normal,
        c.enabled(),
    ensures
        read_run(c, world).0 == match world.data {
            DataFile::Holds(status) => Some(status),
            _ => None,
        },
        read_run(c, world).1.launched == if world.lock {
            world.launched
        } else {
            world.launched.push(c.target->0)
        },
{
    reveal_with_fuel(read_from, 5);
}

/// A worker that is asked for the status marks itself: it leaves the lock
/// in place, says so in the log, is answered nothing, and neither starts a
/// worker nor touches the data.
pub proof fn lemma_worker_start_creates_lock<S>(c: CoordinatorView, world: World<S>)
    requires
        c.role == Role::Worker,
        c.enabled(),
    ensures
        read_run(c, world).0 == None::<S>,
        read_run(c, world).1 == (World {
            lock: true,
            log: world.log.push(lock_created_message()),
            ..world
        }),
{
    reveal_with_fuel(read_from, 4);
}

/// Once a worker was started and has marked itself, a process that asks
/// again starts no second one: after the three sessions in turn, one worker
/// was started in all.
pub proof fn lemma_no_second_worker_while_locked<S>(
    reader: CoordinatorView,
    worker: CoordinatorView,
    world: World<S>,
)
    requires
        reader.role == Role::Normal,
        reader.enabled(),
        worker.role == Role::Worker,
        worker.enabled(),
        !world.lock,
        world.data is Absent,
    ensures
        ({
            let first = read_run(reader, world);
            let marked = read_run(worker, first.1);
            let second = read_run(reader, marked.1);
            &&& first.0 == None::<S>
            &&& second.0 == None::<S>
            &&& first.1.launched == world.launched.push(reader.target->0)
            &&& second.1.launched == first.1.launched
            &&& second.1.lock
        }),
{
    let first = read_run(reader, world);
    lemma_worker_started_unless_locked(reader, world);
    lemma_normal_role_only_reads(reader, world, arbitrary::<S>());
    lemma_worker_start_creates_lock(worker, first.1);
    let marked = read_run(worker, first.1);
    lemma_worker_started_unless_locked(reader, marked.1);
    lemma_normal_role_only_reads(reader, marked.1, arbitrary::<S>());
}

/// After a worker stored a status, the data file holds that status in place
/// of whatever it held, the lock is gone whether it was there or not, and
/// the log says what was done.
pub proof fn lemma_store_replaces_data_and_unlocks<S>(
    c: CoordinatorView,
    world: World<S>,
    status: S,
)
    requires
        c.role == Role::Worker,
        c.enabled(),
    ensures
        store_run(c, world, status).0 == Ok::<(), StoreError>(()),
        store_run(c, world, status).1 == (World {
            lock: false,
            data: DataFile::Holds(status),
            log: world.log.push(removing_lock_message()).push(
                removal_message(
                    if world.lock {
                        Removal::Removed
                    } else {
                        Removal::Missing
                    },
                    c.paths.lock_path,
                ),
            ),
            ..world
        }),
{
    reveal_with_fuel(store_from, 6);
}

/// What a worker stored is what the next process that asks is answered.
pub proof fn lemma_stored_status_is_read<S>(
    worker: CoordinatorView,
    reader: CoordinatorView,
    world: World<S>,
    status: S,
)
    requires
        worker.role == Role::Worker,
        worker.enabled(),
        reader.role == Role::Normal,
        reader.enabled(),
    ensures
        read_run(reader, store_run(worker, world, status).1).0 == Some(status),
{
    lemma_store_replaces_data_and_unlocks(worker, world, status);
    lemma_worker_started_unless_locked(reader, store_run(worker, world, status).1);
}

/// A data file that no status can be made of is answered with nothing, and
/// is neither taken away nor mended.
pub proof fn lemma_corrupt_data_reads_as_nothing<S>(c: CoordinatorView, world: World<S>)
    requires
        c.role == Role::Normal,
        world.data is Corrupt,
    ensures
        read_run(c, world).0 == None::<S>,
        read_run(c, world).1.data is Corrupt,
{
    reveal_with_fuel(read_from, 5);
}

/// Storing the same status twice leaves the files as storing it once does.
pub proof fn lemma_store_is_idempotent_on_files<S>(c: CoordinatorView, world: World<S>, status: S)
    requires
        c.role == Role::Worker,
        c.enabled(),
    ensures
        ({
            let once = store_run(c, world, status).1;
            let twice = store_run(c, once, status).1;
            twice.lock == once.lock && twice.data == once.data
        }),
{
    lemma_store_replaces_data_and_unlocks(c, world, status);
    lemma_store_replaces_data_and_unlocks(c, store_run(c, world, status).1, status);
}

} // verus!
