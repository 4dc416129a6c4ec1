use starship::git_status_async::{
    is_listed, LogEntry, worker_arguments, worker_command_line, GitStatusAsync, GitStatusConfig, ReadAction,
    ReadReport, ReadStage, ReadStep, Removal, Repo, Role, StoreAction, StoreError, StoreReport,
    StoreStage, StoreStep,
};

const HOME: &str = "/home/me";
const WORKDIR: &str = "/work/repo";
const GIT_DIR: &str = "/work/repo/.git";

#[derive(Clone, Debug, PartialEq)]
enum Data {
    Absent,
    Corrupt,
    Holds(String),
}

#[derive(Clone, Debug, PartialEq)]
struct Files {
    lock: bool,
    data: Data,
    log: Vec<String>,
    launched: Vec<String>,
    steps: usize,
    write_fails: bool,
    removal_fails: bool,
}

fn files(lock: bool, data: Data) -> Files {
    Files {
        lock,
        data,
        log: Vec::new(),
        launched: Vec::new(),
        steps: 0,
        write_fails: false,
        removal_fails: false,
    }
}

fn repo() -> Repo {
    Repo { path: GIT_DIR.to_string(), parent: Some(WORKDIR.to_string()) }
}

fn config(paths: &[&str]) -> GitStatusConfig {
    GitStatusConfig { async_paths: Some(paths.iter().map(|path| path.to_string()).collect()) }
}

fn enabled(role: Role) -> GitStatusAsync {
    GitStatusAsync::new(role, HOME, &repo(), &config(&["/elsewhere", WORKDIR]))
}

fn disabled(role: Role) -> GitStatusAsync {
    GitStatusAsync::new(role, HOME, &repo(), &config(&["/elsewhere"]))
}

fn read(coordinator: &GitStatusAsync, files: &mut Files) -> Option<String> {
    let mut stage = ReadStage::Fresh;
    let mut report = None;
    loop {
        match coordinator.get_git_status_and_run_worker(&mut stage, report.take()) {
            ReadStep::Return(answer) => {
                assert_eq!(stage, ReadStage::Over);
                return answer;
            }
            ReadStep::Do(action) => {
                files.steps += 1;
                report = Some(match action {
                    ReadAction::CreateLock => {
                        files.lock = true;
                        ReadReport::Done
                    }
                    ReadAction::ProbeLock => ReadReport::LockProbed { present: files.lock },
                    ReadAction::LaunchWorker { repo_path } => {
                        files.launched.push(repo_path);
                        ReadReport::Done
                    }
                    ReadAction::ReadData => ReadReport::DataRead {
                        status: match &files.data {
                            Data::Holds(status) => Some(status.clone()),
                            _ => None,
                        },
                    },
                    ReadAction::AppendLog { entry } => {
                        files.log.push(entry.render());
                        ReadReport::Done
                    }
                });
            }
        }
    }
}

fn store(coordinator: &GitStatusAsync, files: &mut Files, status: &str) -> Result<(), StoreError> {
    let mut stage = StoreStage::Fresh;
    let mut report = None;
    loop {
        match coordinator.store_result(&mut stage, report.take()) {
            StoreStep::Return(answer) => {
                assert_eq!(stage, StoreStage::Over);
                return answer;
            }
            StoreStep::Do(action) => {
                files.steps += 1;
                report = Some(match action {
                    StoreAction::WriteData => {
                        if files.write_fails {
                            StoreReport::DataWritten { ok: false }
                        } else {
                            files.data = Data::Holds(status.to_string());
                            StoreReport::DataWritten { ok: true }
                        }
                    }
                    StoreAction::RemoveLock => StoreReport::LockRemoval {
                        outcome: if !files.lock {
                            Removal::Missing
                        } else if files.removal_fails {
                            Removal::Failed
                        } else {
                            files.lock = false;
                            Removal::Removed
                        },
                    },
                    StoreAction::AppendLog { entry } => {
                        files.log.push(entry.render());
                        StoreReport::Done
                    }
                });
            }
        }
    }
}

fn message_of(line: &str) -> &str {
    let bytes = line.as_bytes();
    assert_eq!(bytes.len() >= 15, true, "line too short: {}", line);
    assert_eq!(bytes[0], b'[');
    for (at, byte) in bytes[1..13].iter().enumerate() {
        match at {
            2 | 5 => assert_eq!(*byte, b':'),
            8 => assert_eq!(*byte, b'.'),
            _ => assert!(byte.is_ascii_digit()),
        }
    }
    assert_eq!(&line[13..15], "] ");
    &line[15..]
}

#[test]
fn a_repository_that_is_not_enabled_is_left_alone() {
    for role in [Role::Normal, Role::Worker] {
        for lock in [false, true] {
            for data in [Data::Absent, Data::Corrupt, Data::Holds("old".to_string())] {
                let before = files(lock, data);
                let mut after = before.clone();
                assert_eq!(read(&disabled(role), &mut after), None);
                assert_eq!(store(&disabled(role), &mut after, "new"), Ok(()));
                assert_eq!(after, before);
            }
        }
    }
}

#[test]
fn without_lock_one_worker_is_started_and_nothing_is_answered() {
    let mut world = files(false, Data::Absent);
    assert_eq!(read(&enabled(Role::Normal), &mut world), None);
    assert_eq!(world.launched, vec![WORKDIR.to_string()]);
    assert!(!world.lock);
    assert_eq!(world.data, Data::Absent);
    assert!(world.log.is_empty());
}

#[test]
fn with_the_lock_in_place_no_second_worker_is_started() {
    let mut world = files(false, Data::Absent);
    assert_eq!(read(&enabled(Role::Normal), &mut world), None);
    assert_eq!(read(&enabled(Role::Worker), &mut world), None);
    assert!(world.lock);
    assert_eq!(read(&enabled(Role::Normal), &mut world), None);
    assert_eq!(read(&enabled(Role::Normal), &mut world), None);
    assert_eq!(world.launched, vec![WORKDIR.to_string()]);
    assert!(world.lock);
}

#[test]
fn a_worker_marks_itself_and_logs_it() {
    let mut world = files(false, Data::Holds("old".to_string()));
    assert_eq!(read(&enabled(Role::Worker), &mut world), None);
    assert!(world.lock);
    assert!(world.launched.is_empty());
    assert_eq!(world.data, Data::Holds("old".to_string()));
    assert_eq!(world.log.len(), 1);
    assert_eq!(message_of(&world.log[0]), "async worker created a lock!");
}

#[test]
fn a_worker_marks_itself_again_where_a_lock_is_left() {
    let mut world = files(true, Data::Absent);
    assert_eq!(read(&enabled(Role::Worker), &mut world), None);
    assert!(world.lock);
    assert_eq!(world.log.len(), 1);
}

#[test]
fn a_stored_status_replaces_the_data_and_frees_the_lock() {
    let mut world = files(true, Data::Holds("old".to_string()));
    assert_eq!(store(&enabled(Role::Worker), &mut world, "new"), Ok(()));
    assert_eq!(world.data, Data::Holds("new".to_string()));
    assert!(!world.lock);
    assert_eq!(world.log.len(), 2);
    assert_eq!(message_of(&world.log[0]), "removing_lock");
    assert_eq!(message_of(&world.log[1]), "lock removed");
    assert_eq!(read(&enabled(Role::Normal), &mut world), Some("new".to_string()));
}

#[test]
fn a_missing_lock_is_logged_and_is_no_error() {
    let mut world = files(false, Data::Absent);
    let worker = enabled(Role::Worker);
    assert_eq!(store(&worker, &mut world, "new"), Ok(()));
    assert_eq!(world.data, Data::Holds("new".to_string()));
    assert!(!world.lock);
    let expected = format!(
        "lock {:?} did not exist?",
        std::path::Path::new(&worker.async_paths().lock_path)
    );
    assert_eq!(message_of(&world.log[1]), expected);
    assert!(expected.contains("_work_repo_.git.lock\""));
}

#[test]
fn a_lock_that_stays_is_logged_and_is_no_error() {
    let mut world = files(true, Data::Absent);
    world.removal_fails = true;
    let worker = enabled(Role::Worker);
    assert_eq!(store(&worker, &mut world, "new"), Ok(()));
    assert!(world.lock);
    assert_eq!(world.data, Data::Holds("new".to_string()));
    let expected = format!(
        "lock {:?} could not be removed",
        std::path::Path::new(&worker.async_paths().lock_path)
    );
    assert_eq!(message_of(&world.log[1]), expected);
}

#[test]
fn a_failed_write_still_frees_the_lock_and_is_reported() {
    let mut world = files(true, Data::Holds("old".to_string()));
    world.write_fails = true;
    assert_eq!(store(&enabled(Role::Worker), &mut world, "new"), Err(StoreError::WriteFailed));
    assert!(!world.lock);
    assert_eq!(world.log.len(), 2);
    assert_eq!(message_of(&world.log[1]), "lock removed");
}

#[test]
fn only_a_worker_stores() {
    let before = files(true, Data::Holds("old".to_string()));
    let mut after = before.clone();
    assert_eq!(store(&enabled(Role::Normal), &mut after, "new"), Ok(()));
    assert_eq!(after, before);
}

#[test]
fn corrupt_data_is_answered_with_nothing_and_left_as_it_is() {
    for lock in [false, true] {
        let mut world = files(lock, Data::Corrupt);
        assert_eq!(read(&enabled(Role::Normal), &mut world), None);
        assert_eq!(world.data, Data::Corrupt);
        assert_eq!(world.lock, lock);
    }
}

#[test]
fn data_is_answered_whether_the_lock_is_there_or_not() {
    let mut locked = files(true, Data::Holds("status".to_string()));
    assert_eq!(read(&enabled(Role::Normal), &mut locked), Some("status".to_string()));
    assert!(locked.launched.is_empty());
    assert_eq!(locked.steps, 2);

    let mut free = files(false, Data::Holds("status".to_string()));
    assert_eq!(read(&enabled(Role::Normal), &mut free), Some("status".to_string()));
    assert_eq!(free.launched, vec![WORKDIR.to_string()]);
    assert_eq!(free.steps, 3);
    assert_eq!(free.data, Data::Holds("status".to_string()));
}

#[test]
fn a_directory_is_enabled_when_it_is_listed_itself() {
    let repo = repo();
    let listed = GitStatusAsync::new(Role::Normal, HOME, &repo, &config(&[WORKDIR]));
    assert!(listed.enabled());
    let prefix = GitStatusAsync::new(Role::Normal, HOME, &repo, &config(&["/work"]));
    assert!(!prefix.enabled());
    let longer = GitStatusAsync::new(Role::Normal, HOME, &repo, &config(&["/work/repo/"]));
    assert!(!longer.enabled());
    let git_dir = GitStatusAsync::new(Role::Normal, HOME, &repo, &config(&[GIT_DIR]));
    assert!(!git_dir.enabled());
    let empty = GitStatusAsync::new(Role::Normal, HOME, &repo, &config(&[]));
    assert!(!empty.enabled());
    let unset = GitStatusConfig { async_paths: None };
    assert!(!GitStatusAsync::new(Role::Normal, HOME, &repo, &unset).enabled());
}

#[test]
fn a_repository_that_nothing_holds_is_not_enabled() {
    let root = Repo { path: "/".to_string(), parent: None };
    let coordinator = GitStatusAsync::new(Role::Normal, HOME, &root, &config(&["/", ""]));
    assert!(!coordinator.enabled());
    let mut world = files(false, Data::Absent);
    assert_eq!(read(&coordinator, &mut world), None);
    assert!(world.launched.is_empty());
}

#[test]
fn the_files_of_a_coordinator_are_those_of_its_repository() {
    let coordinator = enabled(Role::Normal);
    let paths = starship::cache_paths::get_async_paths(GIT_DIR, HOME);
    assert_eq!(coordinator.async_paths().lock_path, paths.lock_path);
    assert_eq!(coordinator.async_paths().data_path, paths.data_path);
    assert_eq!(coordinator.async_paths().log_path, paths.log_path);
}

#[test]
fn listing_is_by_whole_paths() {
    let paths = vec!["/a".to_string(), "/b/c".to_string()];
    assert!(is_listed(&paths, &"/a".to_string()));
    assert!(is_listed(&paths, &"/b/c".to_string()));
    assert!(!is_listed(&paths, &"/b".to_string()));
    assert!(!is_listed(&paths, &"/a/".to_string()));
    assert!(!is_listed(&Vec::new(), &"/a".to_string()));
}

#[test]
fn a_log_line_has_the_time_in_brackets() {
    let entry = enabled(Role::Worker).log_info("something happened");
    let line = entry.render();
    assert_eq!(line.len(), 15 + "something happened".len());
    assert_eq!(message_of(&line), "something happened");
    let hour: u32 = line[1..3].parse().unwrap();
    let minute: u32 = line[4..6].parse().unwrap();
    let second: u32 = line[7..9].parse().unwrap();
    assert!(hour < 24 && minute < 60 && second <= 60);
}

#[test]
fn a_report_that_does_not_fit_ends_the_reading_with_nothing() {
    let coordinator = enabled(Role::Normal);
    let mut stage = ReadStage::Fresh;
    let first = coordinator.get_git_status_and_run_worker::<String>(&mut stage, None);
    assert!(matches!(first, ReadStep::Do(ReadAction::ProbeLock)));
    assert_eq!(stage, ReadStage::ProbingLock);
    let second = coordinator.get_git_status_and_run_worker::<String>(&mut stage, Some(ReadReport::Done));
    assert!(matches!(second, ReadStep::Return(None)));
    assert_eq!(stage, ReadStage::Over);
    let third = coordinator.get_git_status_and_run_worker(
        &mut stage,
        Some(ReadReport::DataRead { status: Some("late".to_string()) }),
    );
    assert!(matches!(third, ReadStep::Return(None)));
}

#[test]
fn a_report_that_does_not_fit_counts_as_a_failure_of_the_storing() {
    let coordinator = enabled(Role::Worker);
    let mut stage = StoreStage::Fresh;
    assert!(matches!(coordinator.store_result(&mut stage, None), StoreStep::Do(StoreAction::WriteData)));
    assert!(matches!(
        coordinator.store_result(&mut stage, Some(StoreReport::Done)),
        StoreStep::Do(StoreAction::AppendLog { .. })
    ));
    assert_eq!(stage, StoreStage::Announcing { written: false });
    assert!(matches!(
        coordinator.store_result(&mut stage, Some(StoreReport::Done)),
        StoreStep::Do(StoreAction::RemoveLock)
    ));
    match coordinator.store_result(&mut stage, Some(StoreReport::Done)) {
        StoreStep::Do(StoreAction::AppendLog { entry }) => {
            assert!(message_of(&entry.render()).ends_with("could not be removed"));
        }
        _ => panic!("the outcome of the removal is logged"),
    }
    assert!(matches!(
        coordinator.store_result(&mut stage, Some(StoreReport::Done)),
        StoreStep::Return(Err(StoreError::WriteFailed))
    ));
    assert!(matches!(coordinator.store_result(&mut stage, None), StoreStep::Return(Ok(()))));
}

#[test]
fn a_worker_is_started_with_five_arguments() {
    assert_eq!(
        worker_arguments("/work/repo"),
        vec!["module", "--is-async-worker", "git_status", "--path", "/work/repo"]
    );
}

#[test]
fn a_worker_is_started_with_the_path_in_quotation_marks() {
    assert_eq!(
        worker_command_line("C:\\work\\my repo"),
        "module --is-async-worker git_status --path \"C:\\work\\my repo\""
    );
}

#[test]
fn an_entry_is_rendered_with_its_time_and_message() {
    let entry = LogEntry::at("09:05:59.007".to_string(), "lock removed");
    assert_eq!(entry.render(), "[09:05:59.007] lock removed");
    assert_eq!(LogEntry::at("23:59:60.999".to_string(), "").render(), "[23:59:60.999] ");
}
