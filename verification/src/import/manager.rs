//! The cache of loaded files.
//!
//! A file is loaded once and counted for each of its users. The cache is a
//! state machine: requests and file-system events move an entry between
//! `Loading`, `Loaded` and `Failed`, and the answer says what the caller has
//! to do next (start a load, watch a path, stop watching it). Reading files
//! and watching paths is the caller's part.

use crate::import::FileData;
use crate::names::NameMap;
use std::sync::Arc;
use vstd::prelude::*;

verus! {

/// The state of a file of the cache.
pub enum FileStatus {
    /// A load is under way; what was read before is not to be used.
    Loading,
    /// The file was read.
    Loaded(Arc<FileData>),
    /// The file could not be read, or is gone.
    Failed,
}

/// A file of the cache: how many users it has, and its state.
pub struct FileEntry {
    pub reference_count: usize,
    pub status: FileStatus,
}

/// What the file system reports of a watched path.
#[derive(Clone, Copy, Debug, PartialEq, Eq, Structural)]
pub enum WatchEvent {
    Modified,
    Removed,
    Other,
}

/// What is to be done after an event.
#[derive(Clone, Copy, Debug, PartialEq, Eq, Structural)]
pub enum WatchAction {
    /// Wait a moment, read the file again and hand the result to
    /// `finish_load`.
    Reload,
    Nothing,
}

/// The files that are in use, by path.
pub struct FileManager {
    files: NameMap<FileEntry>,
}

/// Whether an entry has a user, and well-formed data where it is loaded.
pub open spec fn entry_sound(entry: FileEntry) -> bool {
    &&& entry.reference_count >= 1
    &&& entry.status matches FileStatus::Loaded(data) ==> data.well_formed()
}

/// `Arc::clone`: another handle to the same data.
#[verifier::external_body]
fn share(data: &Arc<FileData>) -> (shared: Arc<FileData>)
    ensures
        shared == *data,
{
    Arc::clone(data)
}

/// A path that stands at a position of paths without repetition has that
/// position.
pub proof fn lemma_position(paths: Seq<Seq<char>>, path: Seq<char>, index: int)
    requires
        paths.no_duplicates(),
        0 <= index < paths.len(),
        paths[index] == path,
    ensures
        paths.contains(path),
        paths.index_of(path) == index,
{
    let chosen = paths.index_of(path);
    assert(paths[chosen] == path);
}

impl FileStatus {
    /// The same status; loaded data is shared, not copied.
    pub fn duplicate(&self) -> (copy: FileStatus)
        ensures
            copy == *self,
    {
        match self {
            FileStatus::Loading => FileStatus::Loading,
            FileStatus::Loaded(data) => FileStatus::Loaded(share(data)),
            FileStatus::Failed => FileStatus::Failed,
        }
    }
}

impl Default for FileStatus {
    fn default() -> (status: Self)
        ensures
            status == FileStatus::Loading,
    {
        FileStatus::Loading
    }
}

impl FileManager {
    #[verifier::type_invariant]
    spec fn sound(self) -> bool {
        forall|i: int|
            0 <= i < self.files.values().len() ==> entry_sound(#[trigger] self.files.values()[i])
    }

    /// The paths of the files in use, in the order in which they came.
    pub closed spec fn paths(self) -> Seq<Seq<char>> {
        self.files.names()
    }

    /// The entries, each at the position of its path.
    pub closed spec fn entries(self) -> Seq<FileEntry> {
        self.files.values()
    }

    /// What holds of every cache: one entry for each path, no path twice,
    /// every entry sound.
    pub open spec fn well_formed(self) -> bool {
        &&& self.paths().len() == self.entries().len()
        &&& self.paths().no_duplicates()
        &&& forall|i: int| 0 <= i < self.entries().len() ==> entry_sound(#[trigger] self.entries()[i])
    }

    /// The position of a path, if it is in use.
    pub open spec fn position(self, path: Seq<char>) -> Option<int> {
        if self.paths().contains(path) {
            Some(self.paths().index_of(path))
        } else {
            None
        }
    }

    /// The status of a path, if it is in use.
    pub open spec fn status(self, path: Seq<char>) -> Option<FileStatus> {
        match self.position(path) {
            Some(i) => Some(self.entries()[i].status),
            None => None,
        }
    }

    /// The entries with the status at position `i` replaced.
    pub open spec fn with_status(self, i: int, status: FileStatus) -> Seq<FileEntry> {
        self.entries().update(
            i,
            FileEntry { reference_count: self.entries()[i].reference_count, status },
        )
    }

    /// A cache without files.
    pub fn new() -> (created: Self)
        ensures
            created.paths().len() == 0,
            created.well_formed(),
    {
        FileManager { files: NameMap::new() }
    }

    /// Finds a path.
    fn find(&self, path: &str) -> (found: Option<usize>)
        ensures
            self.well_formed(),
            match found {
                Some(i) => self.position(path@) == Some(i as int) && i < self.paths().len()
                    && self.paths()[i as int] == path@,
                None => self.position(path@).is_none(),
            },
    {
        proof {
            use_type_invariant(self);
        }
        let found = self.files.get_index_of(path);
        proof {
            if let Some(i) = found {
                let chosen = self.paths().index_of(path@);
                assert(self.paths()[chosen] == path@);
            }
        }
        found
    }

    /// Replaces the entry at a position.
    fn replace(&mut self, index: usize, entry: FileEntry)
        requires
            index < old(self).paths().len(),
            entry_sound(entry),
        ensures
            final(self).paths() == old(self).paths(),
            final(self).entries() == old(self).entries().update(index as int, entry),
            final(self).well_formed(),
    {
        proof {
            use_type_invariant(&*self);
        }
        let mut files: NameMap<FileEntry> = NameMap::new();
        core::mem::swap(&mut files, &mut self.files);
        let ghost before = files.values();
        files.set_value(index, entry);
        proof {
            assert forall|i: int| 0 <= i < files.values().len() implies entry_sound(
                #[trigger] files.values()[i],
            ) by {
                if i != index {
                    assert(files.values()[i] == before[i]);
                    assert(entry_sound(before[i]));
                }
            }
        }
        self.files = files;
    }

    /// Registers one more user of a file. Where the file is new to the cache
    /// it enters as `Loading`, and `true` comes back: the caller watches the
    /// path and starts the load.
    pub fn load_file(&mut self, path: String) -> (start: bool)
        requires
            old(self).position(path@) matches Some(i) ==> old(self).entries()[i].reference_count
                < usize::MAX,
        ensures
            final(self).well_formed(),
            start == old(self).position(path@).is_none(),
            final(self).status(path@) == Some(
                match old(self).status(path@) {
                    Some(status) => status,
                    None => FileStatus::Loading,
                },
            ),
            match old(self).position(path@) {
                Some(i) => final(self).paths() == old(self).paths() && final(self).entries()
                    == old(self).entries().update(
                    i,
                    FileEntry {
                        reference_count: (old(self).entries()[i].reference_count + 1) as usize,
                        status: old(self).entries()[i].status,
                    },
                ),
                None => final(self).paths() == old(self).paths().push(path@) && final(self).entries() == old(self).entries().push(
                    FileEntry { reference_count: 1, status: FileStatus::Loading },
                ),
            },
    {
        let ghost text = path@;
        match self.find(path.as_str()) {
            Some(index) => {
                let entry = self.files.value_at(index);
                let raised = FileEntry {
                    reference_count: entry.reference_count + 1,
                    status: entry.status.duplicate(),
                };
                self.replace(index, raised);
                proof {
                    lemma_position(self.paths(), text, index as int);
                }
                false
            },
            None => {
                proof {
                    use_type_invariant(&*self);
                }
                let mut files: NameMap<FileEntry> = NameMap::new();
                core::mem::swap(&mut files, &mut self.files);
                let _ = files.insert_full(
                    path,
                    FileEntry { reference_count: 1, status: FileStatus::Loading },
                );
                self.files = files;
                proof {
                    lemma_position(self.paths(), text, self.paths().len() - 1);
                }
                true
            },
        }
    }

    /// Takes one user off a file. Where that was the last one the file
    /// leaves the cache, and `true` comes back: the caller stops watching
    /// the path.
    pub fn unload_file(&mut self, path: &str) -> (removed: bool)
        ensures
            final(self).well_formed(),
            match old(self).position(path@) {
                Some(i) => if old(self).entries()[i].reference_count == 1 {
                    &&& removed
                    &&& final(self).paths() == old(self).paths().remove(i)
                    &&& final(self).entries() == old(self).entries().remove(i)
                } else {
                    &&& !removed
                    &&& final(self).paths() == old(self).paths()
                    &&& final(self).entries() == old(self).entries().update(
                        i,
                        FileEntry {
                            reference_count: (old(self).entries()[i].reference_count - 1) as usize,
                            status: old(self).entries()[i].status,
                        },
                    )
                },
                None => !removed && final(self).paths() == old(self).paths() && final(self).entries() == old(self).entries(),
            },
    {
        match self.find(path) {
            Some(index) => {
                let entry = self.files.value_at(index);
                let count: usize = entry.reference_count - 1;
                if count == 0 {
                    let mut files: NameMap<FileEntry> = NameMap::new();
                    core::mem::swap(&mut files, &mut self.files);
                    let _ = files.shift_remove_index(index);
                    self.files = files;
                    true
                } else {
                    let lowered = FileEntry {
                        reference_count: count,
                        status: entry.status.duplicate(),
                    };
                    self.replace(index, lowered);
                    false
                }
            },
            None => false,
        }
    }

    /// The number of users of a file, or `None` where the path is not in use.
    pub fn reference_count(&self, path: &str) -> (count: Option<usize>)
        ensures
            self.well_formed(),
            match self.position(path@) {
                Some(i) => count == Some(self.entries()[i].reference_count),
                None => count.is_none(),
            },
    {
        match self.find(path) {
            Some(index) => Some(self.files.value_at(index).reference_count),
            None => None,
        }
    }

    /// The status of a file, or `None` where the path is not in use.
    pub fn get_file_status(&self, path: &str) -> (status: Option<FileStatus>)
        ensures
            status == self.status(path@),
            self.well_formed(),
    {
        match self.find(path) {
            Some(index) => Some(self.files.value_at(index).status.duplicate()),
            None => None,
        }
    }

    /// The data of a file, where it is loaded.
    pub fn get_file_data(&self, path: &str) -> (data: Option<Arc<FileData>>)
        ensures
            self.well_formed(),
            match data {
                Some(loaded) => self.status(path@) == Some(FileStatus::Loaded(loaded))
                    && loaded.well_formed(),
                None => !(self.status(path@) matches Some(FileStatus::Loaded(_))),
            },
    {
        match self.find(path) {
            Some(index) => match &self.files.value_at(index).status {
                FileStatus::Loaded(data) => Some(share(data)),
                _ => None,
            },
            None => None,
        }
    }

    /// Takes note of what the file system reports of a path. A file that is
    /// modified while it is loading is left alone. Otherwise a modified file
    /// becomes `Loading`, and is to be read again. A removed file becomes
    /// `Failed`; it stays in the cache, since its users still count on it.
    pub fn watch_event(&mut self, event: WatchEvent, path: &str) -> (action: WatchAction)
        ensures
            final(self).well_formed(),
            final(self).paths() == old(self).paths(),
            final(self).status(path@) == match old(self).status(path@) {
                Some(status) => Some(
                    match event {
                        WatchEvent::Modified => FileStatus::Loading,
                        WatchEvent::Removed => FileStatus::Failed,
                        WatchEvent::Other => status,
                    },
                ),
                None => None,
            },
            match event {
                WatchEvent::Modified => match old(self).position(path@) {
                    Some(i) => if old(self).entries()[i].status is Loading {
                        action == WatchAction::Nothing && final(self).entries() == old(self).entries()
                    } else {
                        action == WatchAction::Reload && final(self).entries() == old(self).with_status(i, FileStatus::Loading)
                    },
                    None => action == WatchAction::Reload && final(self).entries() == old(self).entries(),
                },
                WatchEvent::Removed => action == WatchAction::Nothing && match old(self).position(
                    path@,
                ) {
                    Some(i) => final(self).entries() == old(self).with_status(
                        i,
                        FileStatus::Failed,
                    ),
                    None => final(self).entries() == old(self).entries(),
                },
                WatchEvent::Other => action == WatchAction::Nothing && final(self).entries()
                    == old(self).entries(),
            },
    {
        let found = self.find(path);
        proof {
            if let Some(index) = found {
                lemma_position(self.paths(), path@, index as int);
            }
        }
        match event {
            WatchEvent::Modified => {
                match found {
                    Some(index) => {
                        let entry = self.files.value_at(index);
                        match entry.status {
                            FileStatus::Loading => WatchAction::Nothing,
                            _ => {
                                let count: usize = entry.reference_count;
                                self.replace(
                                    index,
                                    FileEntry { reference_count: count, status: FileStatus::Loading },
                                );
                                WatchAction::Reload
                            },
                        }
                    },
                    None => WatchAction::Reload,
                }
            },
            WatchEvent::Removed => {
                match found {
                    Some(index) => {
                        let count: usize = self.files.value_at(index).reference_count;
                        self.replace(
                            index,
                            FileEntry { reference_count: count, status: FileStatus::Failed },
                        );
                    },
                    None => {},
                }
                WatchAction::Nothing
            },
            WatchEvent::Other => WatchAction::Nothing,
        }
    }

    /// Takes the outcome of a load. Well-formed data makes the file `Loaded`;
    /// no data, or data that is not well formed, makes it `Failed`. A path
    /// that has left the cache meanwhile is passed over.
    pub fn finish_load(&mut self, path: &str, loaded: Option<FileData>)
        ensures
            final(self).well_formed(),
            final(self).paths() == old(self).paths(),
            old(self).position(path@) is Some ==> final(self).status(path@) == Some(
                match loaded {
                    Some(data) => if data.well_formed() {
                        FileStatus::Loaded(Arc::new(data))
                    } else {
                        FileStatus::Failed
                    },
                    None => FileStatus::Failed,
                },
            ),
            match old(self).position(path@) {
                Some(i) => final(self).entries() == old(self).with_status(
                    i,
                    match loaded {
                        Some(data) => if data.well_formed() {
                            FileStatus::Loaded(Arc::new(data))
                        } else {
                            FileStatus::Failed
                        },
                        None => FileStatus::Failed,
                    },
                ),
                None => final(self).entries() == old(self).entries(),
            },
    {
        match self.find(path) {
            Some(index) => {
                let count: usize = self.files.value_at(index).reference_count;
                let status = match loaded {
                    Some(data) => {
                        if data.is_well_formed() {
                            FileStatus::Loaded(Arc::new(data))
                        } else {
                            FileStatus::Failed
                        }
                    },
                    None => FileStatus::Failed,
                };
                self.replace(index, FileEntry { reference_count: count, status });
            },
            None => {},
        }
    }
}

} // verus!
