use starship::cache_paths::{async_dir, get_async_paths, is_punctuation, sanitize, FILLER};

#[test]
fn separators_and_colons_become_the_filler() {
    assert_eq!(sanitize("/home/me/project"), "_home_me_project");
    assert_eq!(sanitize("C:\\Users\\me\\project"), "C__Users_me_project");
    assert_eq!(sanitize("a:b/c\\d"), "a_b_c_d");
}

#[test]
fn other_characters_stay() {
    assert_eq!(sanitize("plain-name_1.0 x"), "plain-name_1.0 x");
    assert_eq!(sanitize(""), "");
    assert_eq!(sanitize("/日本語/é"), "_日本語_é");
}

#[test]
fn sanitizing_again_changes_nothing() {
    let once = sanitize("/a/b:c");
    assert_eq!(sanitize(&once), once);
    assert_eq!(once.chars().count(), 6);
    assert!(!once.chars().any(is_punctuation));
}

#[test]
fn the_three_punctuation_characters_are_known() {
    assert!(is_punctuation('/'));
    assert!(is_punctuation('\\'));
    assert!(is_punctuation(':'));
    assert!(!is_punctuation('.'));
    assert!(!is_punctuation(FILLER));
    assert_eq!(FILLER, '_');
}

#[test]
fn the_directory_lies_below_the_home() {
    let expected = std::path::Path::new("/home/me").join(".config").join("git_status_async");
    assert_eq!(std::path::Path::new(&async_dir("/home/me")), expected.as_path());
    assert_ne!(async_dir("/home/me"), "/home/me");
}

#[test]
fn the_three_files_are_named_after_the_repository() {
    let paths = get_async_paths("/work/repo/.git", "/home/me");
    let dir = std::path::Path::new("/home/me").join(".config").join("git_status_async");
    assert_eq!(paths.lock_path, dir.join("_work_repo_.git.lock").to_string_lossy());
    assert_eq!(paths.data_path, dir.join("_work_repo_.git.json").to_string_lossy());
    assert_eq!(paths.log_path, dir.join("_work_repo_.git.log").to_string_lossy());
}

#[test]
fn two_derivations_agree() {
    let first = get_async_paths("/work/repo/.git", "/home/me");
    let second = get_async_paths("/work/repo/.git", "/home/me");
    assert_eq!(first.lock_path.as_bytes(), second.lock_path.as_bytes());
    assert_eq!(first.data_path.as_bytes(), second.data_path.as_bytes());
    assert_eq!(first.log_path.as_bytes(), second.log_path.as_bytes());
}

#[test]
fn different_repositories_get_different_files() {
    let one = get_async_paths("/work/one", "/home/me");
    let other = get_async_paths("/work/other", "/home/me");
    assert_ne!(one.lock_path, other.lock_path);
    assert_ne!(one.data_path, other.data_path);
    assert_ne!(one.log_path, other.log_path);
}

#[test]
fn the_three_files_differ_and_lie_in_the_directory() {
    let paths = get_async_paths("/work/repo", "/home/me");
    assert_ne!(paths.lock_path, paths.data_path);
    assert_ne!(paths.data_path, paths.log_path);
    let dir = async_dir("/home/me");
    assert!(paths.lock_path.starts_with(&dir));
    assert!(paths.data_path.starts_with(&dir));
    assert!(paths.log_path.starts_with(&dir));
    assert!(paths.lock_path.ends_with("_work_repo.lock"));
}
