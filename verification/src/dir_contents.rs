//! The index of one directory: which files, folders and extensions its
//! immediate entries show, built in one pass and then only queried.

use crate::names::{
    extensions_of, full_extension, has_marker, is_hidden, is_negated, minimal_extension,
    strip_negation, HIDDEN_MARKER, NEGATION_MARKER,
};
use crate::clock::Deadline;
use crate::trie::Trie;
use vstd::hash_set::StringHashSet;
use vstd::prelude::*;

verus! {

/// One entry of a directory listing that could be read.
pub struct DirEntry {
    /// The entry's name, which is also its path relative to the directory listed.
    pub name: String,
    /// True for a folder, false for anything else.
    pub is_dir: bool,
}

/// What a `DirEntry` says, as mathematics.
pub struct EntryView {
    pub name: Seq<char>,
    pub is_dir: bool,
}

impl View for DirEntry {
    type V = EntryView;

    open spec fn view(&self) -> EntryView {
        EntryView { name: self.name@, is_dir: self.is_dir }
    }
}

/// One step of a listing as mathematics: an entry, or nothing where the
/// entry could not be read.
pub open spec fn listed(entry: Option<&DirEntry>) -> Option<EntryView> {
    match entry {
        Some(e) => Some(e@),
        None => None,
    }
}

/// A listing as mathematics.
pub open spec fn listing(entries: Seq<Option<DirEntry>>) -> Seq<Option<EntryView>> {
    Seq::new(
        entries.len(),
        |i: int|
            match entries[i] {
                Some(e) => Some(e@),
                None => None,
            },
    )
}

/// What is known of a directory after a listing.
#[verifier::ext_equal]
pub struct Snapshot {
    /// Relative paths of the files.
    pub files: Set<Seq<char>>,
    /// Base names of the files.
    pub file_names: Set<Seq<char>>,
    /// Relative paths of the folders.
    pub folders: Set<Seq<char>>,
    /// Extensions of the files that are not hidden.
    pub extensions: Set<Seq<char>>,
}

/// The extensions that a file of this name adds to the index: none for a
/// hidden file, else what follows the last separator and what follows the
/// first.
pub open spec fn extension_tokens(name: Seq<char>) -> Set<Seq<char>> {
    Set::new(
        |token: Seq<char>|
            !is_hidden(name) && (minimal_extension(name) == Some(token) || full_extension(name)
                == Some(token)),
    )
}

/// The snapshot of a directory of which nothing was listed.
pub open spec fn empty_snapshot() -> Snapshot {
    Snapshot {
        files: Set::empty(),
        file_names: Set::empty(),
        folders: Set::empty(),
        extensions: Set::empty(),
    }
}

/// The snapshot after one more step of the listing. An entry that could not
/// be read leaves it as it was; a folder is recorded as a folder and nothing
/// else; a file is recorded with its path, its name and its extensions.
pub open spec fn with_entry(snapshot: Snapshot, entry: Option<EntryView>) -> Snapshot {
    match entry {
        None => snapshot,
        Some(e) => if e.is_dir {
            Snapshot { folders: snapshot.folders.insert(e.name), ..snapshot }
        } else {
            Snapshot {
                files: snapshot.files.insert(e.name),
                file_names: snapshot.file_names.insert(e.name),
                folders: snapshot.folders,
                extensions: snapshot.extensions.union(extension_tokens(e.name)),
            }
        },
    }
}

/// The snapshot after a whole listing.
pub open spec fn snapshot_of(entries: Seq<Option<EntryView>>) -> Snapshot
    decreases entries.len(),
{
    if entries.len() == 0 {
        empty_snapshot()
    } else {
        with_entry(snapshot_of(entries.drop_last()), entries.last())
    }
}

/// After this many steps of a listing, and after every further as many, the
/// deadline is looked at.
pub const CHECKPOINT_STRIDE: usize = 256;

/// True when a listing of which `taken` steps were taken is at a checkpoint:
/// the deadline is looked at before the next step, and at no other time.
pub open spec fn checkpoint_at(taken: nat) -> bool {
    taken > 0 && taken % (CHECKPOINT_STRIDE as nat) == 0
}

/// True when a listing of `total` steps may end after `taken` of them: when
/// it is exhausted, or at a checkpoint.
pub open spec fn may_stop_at(taken: nat, total: nat) -> bool {
    taken <= total && (taken == total || checkpoint_at(taken))
}

/// The index of one directory.
pub struct DirContents {
    /// The files, each once.
    file_list: Vec<String>,
    /// The same files, for lookup. An entry's name is both its relative path
    /// and its base name, so one set answers for both.
    files: StringHashSet,
    folders: StringHashSet,
    extensions: Trie,
    /// Steps recorded since the last checkpoint.
    in_stride: usize,
    /// True once a step was recorded.
    begun: bool,
    /// The steps recorded, in their order.
    steps: Ghost<Seq<Option<EntryView>>>,
}

impl View for DirContents {
    type V = Snapshot;

    /// What is known of the directory: the snapshot of the steps recorded.
    open spec fn view(&self) -> Snapshot {
        snapshot_of(self.steps())
    }
}

/// What a candidate of a query names.
#[derive(Clone, Copy)]
enum Sort {
    FileName,
    Folder,
    Extension,
}

/// The part of a snapshot that candidates of this sort are held against.
spec fn present(snapshot: Snapshot, sort: Sort) -> Set<Seq<char>> {
    match sort {
        Sort::FileName => snapshot.file_names,
        Sort::Folder => snapshot.folders,
        Sort::Extension => snapshot.extensions,
    }
}

/// True when some candidate without negation marker is in `present`.
pub open spec fn any_positive(candidates: Seq<&str>, present: Set<Seq<char>>) -> bool {
    exists|i: int|
        0 <= i < candidates.len() && !is_negated(#[trigger] candidates[i]@) && present.contains(
            candidates[i]@,
        )
}

/// True when some candidate carries the negation marker and what follows the
/// marker is not in `present`: a negated candidate asks for absence.
/// Candidates without the marker play no part.
pub open spec fn any_negative(candidates: Seq<&str>, present: Set<Seq<char>>) -> bool {
    exists|i: int|
        0 <= i < candidates.len() && is_negated(#[trigger] candidates[i]@) && !present.contains(
            candidates[i]@.skip(1),
        )
}

/// True when the list holds each name of the set, and each once.
spec fn lists(list: Seq<String>, names: Set<Seq<char>>) -> bool {
    &&& forall|name: Seq<char>|
        names.contains(name) <==> exists|i: int|
            0 <= i < list.len() && (#[trigger] list[i])@ == name
    &&& forall|i: int, j: int|
        0 <= i < j < list.len() ==> (#[trigger] list[i])@ != (#[trigger] list[j])@
}

impl DirContents {
    /// The sets hold the snapshot of the steps recorded, the list holds each
    /// file once, and the counters count the steps.
    #[verifier::type_invariant]
    spec fn wf(self) -> bool {
        &&& snapshot_of(self.steps@) == (Snapshot {
            files: self.files@,
            file_names: self.files@,
            folders: self.folders@,
            extensions: self.extensions@,
        })
        &&& lists(self.file_list@, self.files@)
        &&& self.in_stride == self.steps@.len() % (CHECKPOINT_STRIDE as nat)
        &&& self.begun == (self.steps@.len() > 0)
    }

    /// The steps of a listing that were recorded, in their order.
    pub closed spec fn steps(&self) -> Seq<Option<EntryView>> {
        self.steps@
    }

    /// The index of a directory of which nothing was listed.
    pub fn new() -> (contents: DirContents)
        ensures
            contents.steps() == Seq::<Option<EntryView>>::empty(),
    {
        DirContents {
            file_list: Vec::new(),
            files: StringHashSet::new(),
            folders: StringHashSet::new(),
            extensions: Trie::new(),
            in_stride: 0,
            begun: false,
            steps: Ghost(Seq::empty()),
        }
    }

    /// An index of nothing that owns no memory; it stands in for an index
    /// that is being changed.
    fn hollow() -> (contents: DirContents)
        ensures
            contents.steps() == Seq::<Option<EntryView>>::empty(),
    {
        DirContents {
            file_list: Vec::new(),
            files: StringHashSet::new(),
            folders: StringHashSet::new(),
            extensions: Trie::hollow(),
            in_stride: 0,
            begun: false,
            steps: Ghost(Seq::empty()),
        }
    }

    /// Takes one step of a listing into the index: an entry, or nothing
    /// where the entry could not be read.
    pub fn record(&mut self, entry: Option<&DirEntry>)
        ensures
            final(self).steps() == old(self).steps().push(listed(entry)),
            final(self)@ == with_entry(old(self)@, listed(entry)),
    {
        proof {
            use_type_invariant(&*self);
        }
        let mut taken = DirContents::hollow();
        std::mem::swap(self, &mut taken);
        let DirContents { file_list, files, folders, extensions, in_stride, begun: _, steps } =
            taken;
        let mut file_list = file_list;
        let mut files = files;
        let mut folders = folders;
        let mut extensions = extensions;
        let ghost before = file_list@;
        let ghost known = files@;
        match entry {
            None => {},
            Some(e) => {
                if e.is_dir {
                    folders.insert(e.name.clone());
                } else {
                    let name: &str = e.name.as_str();
                    add_extensions(&mut extensions, name);
                    if files.contains(name) {
                        proof {
                            assert(files@ =~= known.insert(name@));
                        }
                    } else {
                        files.insert(e.name.clone());
                        file_list.push(e.name.clone());
                        proof {
                            let after = file_list@;
                            assert forall|x: Seq<char>| files@.contains(x) implies exists|i: int|
                                0 <= i < after.len() && (#[trigger] after[i])@ == x by {
                                if x == name@ {
                                    assert(after[before.len() as int]@ == x);
                                } else {
                                    let i = choose|i: int|
                                        0 <= i < before.len() && (#[trigger] before[i])@ == x;
                                    assert(after[i]@ == x);
                                }
                            }
                        }
                    }
                }
            },
        }
        let in_stride = if in_stride + 1 == CHECKPOINT_STRIDE {
            0
        } else {
            in_stride + 1
        };
        proof {
            assert(steps@.push(listed(entry)).drop_last() =~= steps@);
        }
        *self = DirContents {
            file_list,
            files,
            folders,
            extensions,
            in_stride,
            begun: true,
            steps: Ghost(steps@.push(listed(entry))),
        };
    }

    /// True when as many steps were recorded as make a checkpoint.
    pub fn at_checkpoint(&self) -> (due: bool)
        ensures
            due == checkpoint_at(self.steps().len()),
    {
        proof {
            use_type_invariant(self);
        }
        self.begun && self.in_stride == 0
    }

    /// The files, each once.
    pub fn files(&self) -> (list: &Vec<String>)
        ensures
            forall|name: Seq<char>|
                self@.files.contains(name) <==> exists|i: int|
                    0 <= i < list@.len() && (#[trigger] list@[i])@ == name,
            forall|i: int, j: int|
                0 <= i < j < list@.len() ==> (#[trigger] list@[i])@ != (#[trigger] list@[j])@,
    {
        proof {
            use_type_invariant(self);
        }
        &self.file_list
    }

    /// True when the listing showed a file at this relative path.
    pub fn has_file(&self, path: &str) -> (found: bool)
        ensures
            found == self@.files.contains(path@),
    {
        proof {
            use_type_invariant(self);
        }
        self.files.contains(path)
    }

    /// True when the listing showed a file of this base name.
    pub fn has_file_name(&self, name: &str) -> (found: bool)
        ensures
            found == self@.file_names.contains(name@),
    {
        proof {
            use_type_invariant(self);
        }
        self.files.contains(name)
    }

    /// True when the listing showed a folder at this relative path.
    pub fn has_folder(&self, path: &str) -> (found: bool)
        ensures
            found == self@.folders.contains(path@),
    {
        proof {
            use_type_invariant(self);
        }
        self.folders.contains(path)
    }

    /// True when a file that is not hidden carries this extension, as what
    /// follows its last separator or what follows its first.
    pub fn has_extension(&self, ext: &str) -> (found: bool)
        ensures
            found == self@.extensions.contains(ext@),
    {
        proof {
            use_type_invariant(self);
        }
        self.extensions.contains(ext)
    }

    /// True when `name` is in the set for candidates of this sort.
    fn holds(&self, sort: Sort, name: &str) -> (found: bool)
        ensures
            found == present(self@, sort).contains(name@),
    {
        match sort {
            Sort::FileName => self.has_file_name(name),
            Sort::Folder => self.has_folder(name),
            Sort::Extension => self.has_extension(name),
        }
    }

    /// True when a candidate without negation marker is in the set for its sort.
    fn holds_any_positive(&self, sort: Sort, candidates: &[&str]) -> (found: bool)
        ensures
            found == any_positive(candidates@, present(self@, sort)),
    {
        let mut i: usize = 0;
        while i < candidates.len()
            invariant
                i <= candidates@.len(),
                forall|k: int|
                    0 <= k < i ==> !(!is_negated(#[trigger] candidates@[k]@) && present(
                        self@,
                        sort,
                    ).contains(candidates@[k]@)),
            decreases candidates@.len() - i,
        {
            let candidate: &str = candidates[i];
            if !has_marker(candidate, NEGATION_MARKER) && self.holds(sort, candidate) {
                return true;
            }
            i = i + 1;
        }
        false
    }

    /// True when what follows the negation marker of some candidate is
    /// missing from the set for its sort.
    fn holds_any_negative(&self, sort: Sort, candidates: &[&str]) -> (found: bool)
        ensures
            found == any_negative(candidates@, present(self@, sort)),
    {
        let mut i: usize = 0;
        while i < candidates.len()
            invariant
                i <= candidates@.len(),
                forall|k: int|
                    0 <= k < i ==> !(is_negated(#[trigger] candidates@[k]@) && !present(
                        self@,
                        sort,
                    ).contains(candidates@[k]@.skip(1))),
            decreases candidates@.len() - i,
        {
            match strip_negation(candidates[i]) {
                Some(name) => {
                    if !self.holds(sort, name) {
                        return true;
                    }
                },
                None => {},
            }
            i = i + 1;
        }
        false
    }

    /// True when a candidate without negation marker is the base name of a file.
    pub fn has_any_positive_file_name(&self, names: &[&str]) -> (found: bool)
        ensures
            found == any_positive(names@, self@.file_names),
    {
        self.holds_any_positive(Sort::FileName, names)
    }

    /// True when a candidate without negation marker is the path of a folder.
    pub fn has_any_positive_folder(&self, paths: &[&str]) -> (found: bool)
        ensures
            found == any_positive(paths@, self@.folders),
    {
        self.holds_any_positive(Sort::Folder, paths)
    }

    /// True when a candidate without negation marker is an extension in the index.
    pub fn has_any_positive_extension(&self, exts: &[&str]) -> (found: bool)
        ensures
            found == any_positive(exts@, self@.extensions),
    {
        self.holds_any_positive(Sort::Extension, exts)
    }

    /// True when some candidate carries the negation marker and no file has
    /// the base name that follows it.
    pub fn has_any_negative_file_name(&self, names: &[&str]) -> (found: bool)
        ensures
            found == any_negative(names@, self@.file_names),
    {
        self.holds_any_negative(Sort::FileName, names)
    }

    /// True when some candidate carries the negation marker and no folder
    /// lies at the path that follows it.
    pub fn has_any_negative_folder(&self, paths: &[&str]) -> (found: bool)
        ensures
            found == any_negative(paths@, self@.folders),
    {
        self.holds_any_negative(Sort::Folder, paths)
    }

    /// True when some candidate carries the negation marker and the
    /// extension that follows it is not in the index.
    pub fn has_any_negative_extension(&self, exts: &[&str]) -> (found: bool)
        ensures
            found == any_negative(exts@, self@.extensions),
    {
        self.holds_any_negative(Sort::Extension, exts)
    }

    /// The index of a whole listing.
    pub fn from_entries(entries: &[Option<DirEntry>]) -> (contents: DirContents)
        ensures
            contents.steps() == listing(entries@),
    {
        let mut contents = DirContents::new();
        let mut i: usize = 0;
        while i < entries.len()
            invariant
                i <= entries@.len(),
                contents.steps() == listing(entries@).take(i as int),
            decreases entries@.len() - i,
        {
            proof {
                let all = listing(entries@);
                assert(all.take(i as int + 1) =~= all.take(i as int).push(all[i as int]));
            }
            contents.record(entries[i].as_ref());
            i = i + 1;
        }
        proof {
            let all = listing(entries@);
            assert(all.take(all.len() as int) =~= all);
        }
        contents
    }

    /// The index of as much of a listing as the deadline let through: all of
    /// it, or its steps up to a checkpoint. With no time at all the listing
    /// ends at the first checkpoint.
    pub fn from_entries_with_timeout(entries: &[Option<DirEntry>], timeout_nanos: u128) -> (contents:
        DirContents)
        ensures
            exists|taken: nat|
                may_stop_at(taken, entries@.len()) && contents.steps() == #[trigger] listing(
                    entries@,
                ).take(taken as int),
            timeout_nanos == 0 ==> contents.steps() == listing(entries@).take(
                if entries@.len() <= CHECKPOINT_STRIDE {
                    entries@.len() as int
                } else {
                    CHECKPOINT_STRIDE as int
                },
            ),
    {
        let mut scan = DirScan::new(timeout_nanos);
        let mut i: usize = 0;
        while i < entries.len() && scan.wants_more()
            invariant
                i <= entries@.len(),
                scan.taken() == listing(entries@).take(i as int),
                scan.timeout_nanos() == timeout_nanos,
                timeout_nanos == 0 ==> i <= CHECKPOINT_STRIDE,
            decreases entries@.len() - i,
        {
            proof {
                let all = listing(entries@);
                assert(all.take(i as int + 1) =~= all.take(i as int).push(all[i as int]));
            }
            scan.take(entries[i].as_ref());
            i = i + 1;
        }
        proof {
            let all = listing(entries@);
            assert(all.take(i as int).len() == i);
            assert(may_stop_at(i as nat, entries@.len()));
        }
        scan.finish()
    }
}

/// Adds to `index` the extensions that a file of this name carries.
fn add_extensions(index: &mut Trie, name: &str)
    ensures
        final(index)@ == old(index)@.union(extension_tokens(name@)),
{
    if !has_marker(name, HIDDEN_MARKER) {
        match extensions_of(name) {
            Some((minimal, full)) => {
                index.insert(minimal.as_str());
                index.insert(full.as_str());
            },
            None => {},
        }
    }
    proof {
        assert(index@ =~= old(index)@.union(extension_tokens(name@)));
    }
}

/// A listing under way: the index built so far, and the deadline that bounds it.
pub struct DirScan {
    contents: DirContents,
    deadline: Deadline,
}

impl DirScan {
    /// The steps of the listing taken so far.
    pub closed spec fn taken(&self) -> Seq<Option<EntryView>> {
        self.contents.steps()
    }

    /// The time allowed for the listing, in nanoseconds.
    pub closed spec fn timeout_nanos(&self) -> u128 {
        self.deadline.timeout_nanos()
    }

    /// Starts a listing that has `timeout_nanos` nanoseconds from now.
    pub fn new(timeout_nanos: u128) -> (scan: DirScan)
        ensures
            scan.taken() == Seq::<Option<EntryView>>::empty(),
            scan.timeout_nanos() == timeout_nanos,
    {
        DirScan { contents: DirContents::new(), deadline: Deadline::start(timeout_nanos) }
    }

    /// True when the listing is at a checkpoint.
    pub fn checkpoint_due(&self) -> (due: bool)
        ensures
            due == checkpoint_at(self.taken().len()),
    {
        self.contents.at_checkpoint()
    }

    /// True when the listing should go on once `elapsed_nanos` nanoseconds
    /// have gone by since it started: it stops at a checkpoint at which the
    /// time allowed has run out, and nowhere else.
    pub fn wants_more_after(&self, elapsed_nanos: u128) -> (more: bool)
        ensures
            more == !(checkpoint_at(self.taken().len()) && elapsed_nanos
                >= self.timeout_nanos()),
    {
        !(self.checkpoint_due() && self.deadline.passed_after(elapsed_nanos))
    }

    /// True when the listing should go on. Between checkpoints it always
    /// should, and the clock is not looked at; at a checkpoint the clock
    /// decides, and a deadline of no time at all has always passed.
    pub fn wants_more(&self) -> (more: bool)
        ensures
            !checkpoint_at(self.taken().len()) ==> more,
            checkpoint_at(self.taken().len()) && self.timeout_nanos() == 0 ==> !more,
    {
        if self.checkpoint_due() {
            self.wants_more_after(self.deadline.elapsed_nanos())
        } else {
            true
        }
    }

    /// Takes one step of the listing: an entry, or nothing where the entry
    /// could not be read. Either counts towards the next checkpoint.
    pub fn take(&mut self, entry: Option<&DirEntry>)
        ensures
            final(self).taken() == old(self).taken().push(listed(entry)),
            final(self).timeout_nanos() == old(self).timeout_nanos(),
    {
        self.contents.record(entry);
    }

    /// Ends the listing and hands out the index of the steps taken.
    pub fn finish(self) -> (contents: DirContents)
        ensures
            contents.steps() == self.taken(),
    {
        self.contents
    }
}

/// A file is in the snapshot exactly when the listing shows it as a file.
pub proof fn lemma_snapshot_files(entries: Seq<Option<EntryView>>, name: Seq<char>)
    ensures
        snapshot_of(entries).files.contains(name) <==> exists|i: int|
            0 <= i < entries.len() && #[trigger] entries[i] == Some(
                EntryView { name, is_dir: false },
            ),
        snapshot_of(entries).file_names == snapshot_of(entries).files,
    decreases entries.len(),
{
    if entries.len() > 0 {
        let front = entries.drop_last();
        lemma_snapshot_files(front, name);
        let shown = Some(EntryView { name, is_dir: false });
        if snapshot_of(entries).files.contains(name) {
            if snapshot_of(front).files.contains(name) {
                let i = choose|i: int| 0 <= i < front.len() && #[trigger] front[i] == shown;
                assert(entries[i] == shown);
            } else {
                assert(entries[entries.len() - 1] == shown);
            }
        }
        if exists|i: int| 0 <= i < entries.len() && #[trigger] entries[i] == shown {
            let i = choose|i: int| 0 <= i < entries.len() && #[trigger] entries[i] == shown;
            if i < front.len() {
                assert(front[i] == shown);
            }
        }
    }
}

/// A folder is in the snapshot exactly when the listing shows it as a folder.
pub proof fn lemma_snapshot_folders(entries: Seq<Option<EntryView>>, name: Seq<char>)
    ensures
        snapshot_of(entries).folders.contains(name) <==> exists|i: int|
            0 <= i < entries.len() && #[trigger] entries[i] == Some(
                EntryView { name, is_dir: true },
            ),
    decreases entries.len(),
{
    if entries.len() > 0 {
        let front = entries.drop_last();
        lemma_snapshot_folders(front, name);
        let shown = Some(EntryView { name, is_dir: true });
        if snapshot_of(entries).folders.contains(name) {
            if snapshot_of(front).folders.contains(name) {
                let i = choose|i: int| 0 <= i < front.len() && #[trigger] front[i] == shown;
                assert(entries[i] == shown);
            } else {
                assert(entries[entries.len() - 1] == shown);
            }
        }
        if exists|i: int| 0 <= i < entries.len() && #[trigger] entries[i] == shown {
            let i = choose|i: int| 0 <= i < entries.len() && #[trigger] entries[i] == shown;
            if i < front.len() {
                assert(front[i] == shown);
            }
        }
    }
}

/// True when this step of a listing shows a file that carries `token` as an extension.
pub open spec fn shows_extension(entry: Option<EntryView>, token: Seq<char>) -> bool {
    match entry {
        Some(e) => !e.is_dir && extension_tokens(e.name).contains(token),
        None => false,
    }
}

/// An extension is in the snapshot exactly when the listing shows a file
/// that carries it.
pub proof fn lemma_snapshot_extensions(entries: Seq<Option<EntryView>>, token: Seq<char>)
    ensures
        snapshot_of(entries).extensions.contains(token) <==> exists|i: int|
            0 <= i < entries.len() && shows_extension(#[trigger] entries[i], token),
    decreases entries.len(),
{
    if entries.len() > 0 {
        let front = entries.drop_last();
        lemma_snapshot_extensions(front, token);
        if snapshot_of(entries).extensions.contains(token) {
            if snapshot_of(front).extensions.contains(token) {
                let i = choose|i: int|
                    0 <= i < front.len() && shows_extension(#[trigger] front[i], token);
                assert(shows_extension(entries[i], token));
            } else {
                assert(shows_extension(entries[entries.len() - 1], token));
            }
        }
        if exists|i: int| 0 <= i < entries.len() && shows_extension(#[trigger] entries[i], token) {
            let i = choose|i: int|
                0 <= i < entries.len() && shows_extension(#[trigger] entries[i], token);
            if i < front.len() {
                assert(shows_extension(front[i], token));
            }
        }
    }
}

/// True when no two steps of the listing show the same name, as holds of
/// what a directory really holds.
pub open spec fn names_distinct(entries: Seq<Option<EntryView>>) -> bool {
    forall|i: int, j: int|
        0 <= i < j < entries.len() && (#[trigger] entries[i]) is Some && (#[trigger] entries[j])
            is Some ==> entries[i]->0.name != entries[j]->0.name
}

/// The files and the folders of a snapshot together are the names of the
/// entries that could be read, and where no name is listed twice nothing is
/// both a file and a folder.
pub proof fn lemma_snapshot_partitions_listing(entries: Seq<Option<EntryView>>)
    ensures
        forall|name: Seq<char>|
            snapshot_of(entries).files.union(snapshot_of(entries).folders).contains(name)
                <==> exists|i: int|
                0 <= i < entries.len() && (#[trigger] entries[i]) is Some && entries[i]->0.name
                    == name,
        names_distinct(entries) ==> snapshot_of(entries).files.disjoint(
            snapshot_of(entries).folders,
        ),
{
    let snapshot = snapshot_of(entries);
    assert forall|name: Seq<char>|
        snapshot.files.union(snapshot.folders).contains(name) <==> exists|i: int|
            0 <= i < entries.len() && (#[trigger] entries[i]) is Some && entries[i]->0.name
                == name by {
        lemma_snapshot_files(entries, name);
        lemma_snapshot_folders(entries, name);
        let file = Some(EntryView { name, is_dir: false });
        let folder = Some(EntryView { name, is_dir: true });
        if snapshot.files.contains(name) {
            let i = choose|i: int| 0 <= i < entries.len() && #[trigger] entries[i] == file;
            assert(entries[i] is Some && entries[i]->0.name == name);
        }
        if snapshot.folders.contains(name) {
            let i = choose|i: int| 0 <= i < entries.len() && #[trigger] entries[i] == folder;
            assert(entries[i] is Some && entries[i]->0.name == name);
        }
        if exists|i: int|
            0 <= i < entries.len() && (#[trigger] entries[i]) is Some && entries[i]->0.name
                == name {
            let i = choose|i: int|
                0 <= i < entries.len() && (#[trigger] entries[i]) is Some && entries[i]->0.name
                    == name;
            if entries[i]->0.is_dir {
                assert(entries[i] == folder);
            } else {
                assert(entries[i] == file);
            }
        }
    }
    if names_distinct(entries) {
        assert forall|name: Seq<char>|
            !(snapshot.files.contains(name) && snapshot.folders.contains(name)) by {
            lemma_snapshot_files(entries, name);
            lemma_snapshot_folders(entries, name);
            let file = Some(EntryView { name, is_dir: false });
            let folder = Some(EntryView { name, is_dir: true });
            if snapshot.files.contains(name) && snapshot.folders.contains(name) {
                let i = choose|i: int| 0 <= i < entries.len() && #[trigger] entries[i] == file;
                let j = choose|j: int| 0 <= j < entries.len() && #[trigger] entries[j] == folder;
                if i < j {
                    assert(entries[i]->0.name != entries[j]->0.name);
                } else {
                    assert(entries[j]->0.name != entries[i]->0.name);
                }
            }
        }
    }
}

/// A listing that ends early knows nothing that the whole listing would not
/// know: the snapshot of a part of a listing is within the snapshot of all of it.
pub proof fn lemma_partial_snapshot_is_subset(entries: Seq<Option<EntryView>>, taken: int)
    requires
        0 <= taken <= entries.len(),
    ensures
        snapshot_of(entries.take(taken)).files.subset_of(snapshot_of(entries).files),
        snapshot_of(entries.take(taken)).file_names.subset_of(snapshot_of(entries).file_names),
        snapshot_of(entries.take(taken)).folders.subset_of(snapshot_of(entries).folders),
        snapshot_of(entries.take(taken)).extensions.subset_of(snapshot_of(entries).extensions),
    decreases entries.len() - taken,
{
    if taken < entries.len() {
        let front = entries.drop_last();
        assert(front.take(taken) =~= entries.take(taken));
        lemma_partial_snapshot_is_subset(front, taken);
    } else {
        assert(entries.take(taken) =~= entries);
    }
}

/// Whatever the deadline, a listing goes on for a whole stride before it is
/// first looked at: a listing that ended early took at least that many steps.
pub proof fn lemma_first_stride_is_taken(taken: nat, total: nat)
    requires
        may_stop_at(taken, total),
    ensures
        taken == total || taken >= CHECKPOINT_STRIDE,
{
}


} // verus!
