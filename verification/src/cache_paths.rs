//! Where the state of one repository is kept: three files in a directory
//! below the user's home, named after the repository's path.

use std::path::Path;
use vstd::prelude::*;
use vstd::std_specs::iter::IteratorSpec;
use vstd::string::StringExecFns;

verus! {

/// Takes the place of every character that a file name cannot hold.
pub const FILLER: char = '_';

/// True for the characters that part the segments of a path, on any
/// platform, and for the colon behind a drive letter.
pub open spec fn is_path_punctuation(c: char) -> bool {
    c == '/' || c == '\\' || c == ':'
}

/// A path as one file name: the same characters, with the filler in the
/// place of each separator and colon.
pub open spec fn sanitized(path: Seq<char>) -> Seq<char> {
    Seq::new(
        path.len(),
        |i: int|
            if is_path_punctuation(path[i]) {
                FILLER
            } else {
                path[i]
            },
    )
}

/// What `std::path::Path::join` makes of a base and a component on the
/// platform the library is built for.
pub uninterp spec fn joined_path(base: Seq<char>, component: Seq<char>) -> Seq<char>;

/// Calls `Path::join` on two paths given as text. The result is the path
/// that `join` builds, which is named and not described here. Both inputs
/// are valid Unicode and `join` only puts them together, so turning the
/// result back into text loses nothing.
#[verifier::external_body]
fn join_path(base: &str, component: &str) -> (joined: String)
    ensures
        joined@ == joined_path(base@, component@),
{
    Path::new(base).join(component).to_string_lossy().into_owned()
}

/// Calls `String::from_iter` to make text of the characters given, in their order.
#[verifier::external_body]
fn string_of(chars: &Vec<char>) -> (text: String)
    ensures
        text@ == chars@,
{
    String::from_iter(chars.iter())
}

/// True when `c` is a path separator or a colon.
pub fn is_punctuation(c: char) -> (found: bool)
    ensures
        found == is_path_punctuation(c),
{
    c == '/' || c == '\\' || c == ':'
}

/// The file name that stands for `path`.
pub fn sanitize(path: &str) -> (name: String)
    ensures
        name@ == sanitized(path@),
{
    let mut kept: Vec<char> = Vec::new();
    let mut chars = path.chars();
    let ghost mut index: int = 0;
    loop
        invariant
            0 <= index <= path@.len(),
            chars.obeys_prophetic_iter_laws(),
            chars.remaining() == path@.skip(index),
            kept@ == sanitized(path@.take(index)),
        ensures
            kept@ == sanitized(path@),
        decreases path@.len() - index,
    {
        let ghost before = chars.remaining();
        match chars.next() {
            Some(c) => {
                proof {
                    assert(before.len() > 0);
                    assert(c == path@[index]);
                    assert(path@.skip(index).drop_first() =~= path@.skip(index + 1));
                }
                if is_punctuation(c) {
                    kept.push(FILLER);
                } else {
                    kept.push(c);
                }
                proof {
                    assert(kept@ =~= sanitized(path@.take(index + 1)));
                    index = index + 1;
                }
            },
            None => {
                proof {
                    assert(before.len() == 0);
                    assert(path@.take(index) =~= path@);
                }
                break ;
            },
        }
    }
    string_of(&kept)
}

/// The three files that hold the state of one repository.
pub struct AsyncPaths {
    /// Exists while a worker is believed to be at work.
    pub lock_path: String,
    /// Holds the last status that a worker stored.
    pub data_path: String,
    /// Grows by one line for each event.
    pub log_path: String,
}

/// The three paths as mathematics.
pub struct PathsView {
    pub lock_path: Seq<char>,
    pub data_path: Seq<char>,
    pub log_path: Seq<char>,
}

impl View for AsyncPaths {
    type V = PathsView;

    open spec fn view(&self) -> PathsView {
        PathsView {
            lock_path: self.lock_path@,
            data_path: self.data_path@,
            log_path: self.log_path@,
        }
    }
}

/// The directory that holds the files of all repositories of one user.
pub open spec fn async_dir_of(home: Seq<char>) -> Seq<char> {
    joined_path(joined_path(home, ".config"@), "git_status_async"@)
}

/// The file in the directory for `home` that belongs to the repository at
/// `repo_path` and ends in `suffix`.
pub open spec fn cache_file_of(repo_path: Seq<char>, home: Seq<char>, suffix: Seq<char>) -> Seq<
    char,
> {
    joined_path(async_dir_of(home), sanitized(repo_path) + suffix)
}

/// The three files of the repository at `repo_path` for the user at `home`.
pub open spec fn async_paths_of(repo_path: Seq<char>, home: Seq<char>) -> PathsView {
    PathsView {
        lock_path: cache_file_of(repo_path, home, ".lock"@),
        data_path: cache_file_of(repo_path, home, ".json"@),
        log_path: cache_file_of(repo_path, home, ".log"@),
    }
}

/// The directory that holds the files of all repositories of the user at `home`.
pub fn async_dir(home: &str) -> (dir: String)
    ensures
        dir@ == async_dir_of(home@),
{
    let config = join_path(home, ".config");
    join_path(config.as_str(), "git_status_async")
}

/// One file of the repository whose sanitized path is `name`.
fn cache_file(dir: &str, name: &str, suffix: &str) -> (path: String)
    ensures
        path@ == joined_path(dir@, name@ + suffix@),
{
    let file_name = String::from_str(name).concat(suffix);
    join_path(dir, file_name.as_str())
}

/// The three files of the repository at `repo_path` for the user at `home`.
/// The result depends on the two paths and on nothing else.
pub fn get_async_paths(repo_path: &str, home: &str) -> (paths: AsyncPaths)
    ensures
        paths@ == async_paths_of(repo_path@, home@),
{
    let dir = async_dir(home);
    let name = sanitize(repo_path);
    AsyncPaths {
        lock_path: cache_file(dir.as_str(), name.as_str(), ".lock"),
        data_path: cache_file(dir.as_str(), name.as_str(), ".json"),
        log_path: cache_file(dir.as_str(), name.as_str(), ".log"),
    }
}

/// Two processes that derive the paths for the same repository and the same
/// home agree on all three, which is what lets them meet at the files.
pub proof fn lemma_same_target_same_paths(
    repo_path: Seq<char>,
    home: Seq<char>,
    first: PathsView,
    second: PathsView,
)
    requires
        first == async_paths_of(repo_path, home),
        second == async_paths_of(repo_path, home),
    ensures
        first == second,
{
}

/// A sanitized path is as long as the path, holds no separator and no
/// colon, and is left as it is when sanitized again.
pub proof fn lemma_sanitized_is_plain(path: Seq<char>)
    ensures
        sanitized(path).len() == path.len(),
        forall|i: int| 0 <= i < path.len() ==> !is_path_punctuation(#[trigger] sanitized(path)[i]),
        sanitized(sanitized(path)) == sanitized(path),
{
    assert(sanitized(sanitized(path)) =~= sanitized(path));
}

} // verus!
