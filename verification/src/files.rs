//! What the world outside holds, as far as a build needs it: the files that
//! were looked for on disk and the resources that were asked for over the
//! network. The caller looks and asks; the build reads the answers here.

use vstd::prelude::*;

verus! {

/// What was found at a path.
#[derive(Debug, Clone)]
pub enum FileState {
    /// Nothing is there.
    Missing,
    /// Something is there and could not be opened.
    OpenFailed,
    /// A file is there and could not be read to its end.
    ReadFailed,
    /// A file with these bytes.
    Present(Vec<u8>),
}

/// A path and what was found there.
#[derive(Debug, Clone)]
pub struct FileEntry {
    pub path: String,
    pub state: FileState,
}

/// What came back for a URL.
#[derive(Debug, Clone)]
pub enum FetchState {
    /// Nothing: the host was not reached, the answer was an error, or it came
    /// too late.
    Unreachable,
    /// A body, and the content type where the answer named one.
    Fetched { content: Vec<u8>, content_type: Option<String> },
}

/// A URL and what came back for it.
#[derive(Debug, Clone)]
pub struct RemoteEntry {
    pub url: String,
    pub state: FetchState,
}

/// The answers of the world outside. A path that is not listed counts as
/// missing, a URL that is not listed as unreachable; of two entries for one
/// path or URL the first counts.
#[derive(Debug, Clone)]
pub struct Resources {
    pub files: Vec<FileEntry>,
    pub remote: Vec<RemoteEntry>,
}

/// What `files` holds for `path`, looking from `start` on.
pub open spec fn file_state_from(files: Seq<FileEntry>, path: Seq<char>, start: int) -> FileState
    decreases files.len() - start,
{
    if start < 0 || start >= files.len() {
        FileState::Missing
    } else if files[start].path@ == path {
        files[start].state
    } else {
        file_state_from(files, path, start + 1)
    }
}

/// What `files` holds for `path`.
pub open spec fn file_state(files: Seq<FileEntry>, path: Seq<char>) -> FileState {
    file_state_from(files, path, 0)
}

/// What `remote` holds for `url`, looking from `start` on.
pub open spec fn fetch_state_from(remote: Seq<RemoteEntry>, url: Seq<char>, start: int) -> FetchState
    decreases remote.len() - start,
{
    if start < 0 || start >= remote.len() {
        FetchState::Unreachable
    } else if remote[start].url@ == url {
        remote[start].state
    } else {
        fetch_state_from(remote, url, start + 1)
    }
}

/// What `remote` holds for `url`.
pub open spec fn fetch_state(remote: Seq<RemoteEntry>, url: Seq<char>) -> FetchState {
    fetch_state_from(remote, url, 0)
}

/// The first of `candidates`, from `start` on, at which `files` holds
/// something.
pub open spec fn first_found_from(files: Seq<FileEntry>, candidates: Seq<Seq<char>>, start: int) -> Option<
    int,
>
    decreases candidates.len() - start,
{
    if start < 0 || start >= candidates.len() {
        None
    } else if !(file_state(files, candidates[start]) is Missing) {
        Some(start)
    } else {
        first_found_from(files, candidates, start + 1)
    }
}

/// The views of `strings`, in order.
pub open spec fn views(strings: Seq<String>) -> Seq<Seq<char>> {
    strings.map_values(|s: String| s@)
}

pub proof fn lemma_first_found_bounds(files: Seq<FileEntry>, candidates: Seq<Seq<char>>, start: int)
    requires
        0 <= start,
    ensures
        first_found_from(files, candidates, start) matches Some(index) ==> start <= index
            < candidates.len() && !(file_state(files, candidates[index]) is Missing),
    decreases candidates.len() - start,
{
    if start < candidates.len() && file_state(files, candidates[start]) is Missing {
        lemma_first_found_bounds(files, candidates, start + 1);
    }
}

impl Resources {
    /// Looks up what was found at `path`.
    pub fn file(&self, path: &String) -> (state: &FileState)
        ensures
            *state == file_state(self.files@, path@),
    {
        let mut i: usize = 0;
        while i < self.files.len()
            invariant
                i <= self.files.len(),
                file_state(self.files@, path@) == file_state_from(self.files@, path@, i as int),
            decreases self.files.len() - i,
        {
            if self.files[i].path == *path {
                return &self.files[i].state;
            }
            i = i + 1;
        }
        &FileState::Missing
    }

    /// Looks up what came back for `url`.
    pub fn fetched(&self, url: &String) -> (state: &FetchState)
        ensures
            *state == fetch_state(self.remote@, url@),
    {
        let mut i: usize = 0;
        while i < self.remote.len()
            invariant
                i <= self.remote.len(),
                fetch_state(self.remote@, url@) == fetch_state_from(self.remote@, url@, i as int),
            decreases self.remote.len() - i,
        {
            if self.remote[i].url == *url {
                return &self.remote[i].state;
            }
            i = i + 1;
        }
        &FetchState::Unreachable
    }

    /// Tries `candidates` in order and stops at the first at which anything
    /// was found. Returns its place among the candidates.
    pub fn locate(&self, candidates: &Vec<String>) -> (found: Option<usize>)
        ensures
            match found {
                Some(index) => first_found_from(self.files@, views(candidates@), 0) == Some(
                    index as int,
                ) && index < candidates.len(),
                None => first_found_from(self.files@, views(candidates@), 0) is None,
            },
    {
        let mut i: usize = 0;
        while i < candidates.len()
            invariant
                i <= candidates.len(),
                first_found_from(self.files@, views(candidates@), 0) == first_found_from(
                    self.files@,
                    views(candidates@),
                    i as int,
                ),
            decreases candidates.len() - i,
        {
            match self.file(&candidates[i]) {
                FileState::Missing => {},
                _ => {
                    return Some(i);
                },
            }
            i = i + 1;
        }
        None
    }
}

} // verus!
