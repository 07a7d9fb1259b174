//! The table of open files: one entry for each path, whoever opens it and
//! however often, so that all handles on a path share one cache and one length.

use crate::error::FetchError;
use crate::file::FetchFile;
use crate::view::FileView;
use vstd::prelude::*;

verus! {

/// Files under a path with this suffix are read in small, scattered accesses.
pub const SMALL_FILE_SUFFIX: &'static str = ".store";

/// The chunk size with which such files are served, whatever size is asked for,
/// be it larger or smaller. The value is this library's choice: 1 KiB, a quarter
/// of the 4 KiB that callers commonly ask for, so that a scattered access to such
/// a file fetches little that it does not need.
pub const SMALL_FILE_CHUNK_SIZE: u64 = 1024;

/// Whether a path belongs to the class of small files.
pub open spec fn is_small_file(path: Seq<char>) -> bool {
    SMALL_FILE_SUFFIX@.is_suffix_of(path)
}

/// The chunk size with which a file is served when it is first opened with
/// `requested`: for a small file the fixed size [`SMALL_FILE_CHUNK_SIZE`], which
/// does not depend on `requested`, else the size asked for.
pub open spec fn served_chunk_size(path: Seq<char>, requested: u64) -> u64 {
    if is_small_file(path) {
        SMALL_FILE_CHUNK_SIZE
    } else {
        requested
    }
}

/// Whether the table has an entry for `path`.
pub open spec fn known(files: Seq<FileView>, path: Seq<char>) -> bool {
    exists|i: int| 0 <= i < files.len() && (#[trigger] files[i]).path == path
}

/// The handle of the entry for `path`, where the table has one.
pub open spec fn handle_of(files: Seq<FileView>, path: Seq<char>) -> int {
    choose|i: int| 0 <= i < files.len() && (#[trigger] files[i]).path == path
}

/// Every file of the table is well formed, and no two have the same path.
pub open spec fn table_wf(files: Seq<FileView>) -> bool {
    &&& forall|i: int| 0 <= i < files.len() ==> (#[trigger] files[i]).wf()
    &&& forall|i: int, j: int|
        0 <= i < j < files.len() ==> (#[trigger] files[i]).path != (#[trigger] files[j]).path
}

/// The table after `path` was opened with the chunk size `requested`, the
/// host's answer to the length query being `length`. A known path leaves the
/// table as it is, and so does a path of which the host knows no length; else the
/// file enters the table behind the others, with nothing resident.
pub open spec fn opened_table(
    files: Seq<FileView>,
    path: Seq<char>,
    requested: u64,
    length: Option<u64>,
) -> Seq<FileView> {
    if known(files, path) {
        files
    } else {
        match length {
            Some(len) => files.push(
                FileView::fresh(path, served_chunk_size(path, requested) as nat, len as nat),
            ),
            None => files,
        }
    }
}

/// What opening `path` returns: the handle that the path has, or the handle
/// that it gets if the host knows its length, or the failure to find it.
pub open spec fn opened_handle(files: Seq<FileView>, path: Seq<char>, length: Option<u64>) -> Result<
    int,
    FetchError,
> {
    if known(files, path) {
        Ok(handle_of(files, path))
    } else if length is Some {
        Ok(files.len() as int)
    } else {
        Err(FetchError::NotFound)
    }
}

/// `str::ends_with` with a string as the pattern: whether the characters of
/// `suffix` are the last characters of `s`.
#[verifier::external_body]
fn ends_with(s: &str, suffix: &str) -> (yes: bool)
    ensures
        yes == suffix@.is_suffix_of(s@),
{
    s.ends_with(suffix)
}

/// The chunk size with which the file under `path` is served when it is first
/// opened with `requested`.
pub fn effective_chunk_size(path: &str, requested: u64) -> (served: u64)
    ensures
        served == served_chunk_size(path@, requested),
        is_small_file(path@) ==> served == SMALL_FILE_CHUNK_SIZE,
        !is_small_file(path@) ==> served == requested,
{
    if ends_with(path, SMALL_FILE_SUFFIX) {
        SMALL_FILE_CHUNK_SIZE
    } else {
        requested
    }
}

/// The open files. A handle is the position of a file in the table; it stays
/// valid as long as the table lives, and the file behind it never changes its
/// path, chunk size or length. Few files are ever open, so a path is found by
/// walking the table.
#[derive(Debug)]
pub struct HandleRegistry {
    files: Vec<FetchFile>,
}

impl View for HandleRegistry {
    type V = Seq<FileView>;

    closed spec fn view(&self) -> Seq<FileView> {
        self.files@.map_values(|f: FetchFile| f@)
    }
}

impl HandleRegistry {
    /// Whether the table is well formed.
    pub open spec fn wf(&self) -> bool {
        table_wf(self@)
    }

    /// A table without files.
    pub fn new() -> (registry: HandleRegistry)
        ensures
            registry@.len() == 0,
            registry.wf(),
    {
        HandleRegistry { files: Vec::new() }
    }

    /// The number of open files, which is also the handle that the next new
    /// file gets.
    pub fn len(&self) -> (n: usize)
        ensures
            n == self@.len(),
    {
        self.files.len()
    }

    /// The handle of the file under `path`, if the path was opened before.
    pub fn lookup(&self, path: &String) -> (handle: Option<usize>)
        requires
            self.wf(),
        ensures
            match handle {
                Some(h) => known(self@, path@) && h == handle_of(self@, path@) && h < self@.len(),
                None => !known(self@, path@),
            },
    {
        let mut i: usize = 0;
        while i < self.files.len()
            invariant
                self.wf(),
                i <= self@.len(),
                self@.len() == self.files@.len(),
                forall|j: int| 0 <= j < i ==> (#[trigger] self@[j]).path != path@,
            decreases self@.len() - i,
        {
            if self.files[i].has_path(path) {
                assert(self@[i as int].path == path@);
                return Some(i);
            }
            i += 1;
        }
        None
    }

    /// The file behind `handle`, if the table has given that handle out.
    pub fn file(&self, handle: usize) -> (file: Option<&FetchFile>)
        requires
            self.wf(),
        ensures
            match file {
                Some(file) => handle < self@.len() && file@ == self@[handle as int] && file@.wf(),
                None => handle >= self@.len(),
            },
    {
        if handle < self.files.len() {
            Some(&self.files[handle])
        } else {
            None
        }
    }

    /// Takes `data` as the bytes of chunk `idx` of the file behind `handle`,
    /// which a fetch handed back. The whole chunk becomes resident, unless it is
    /// so already: then it stays as it is. Data that cannot be the chunk, because
    /// the file has no chunk `idx` or because `data` has not the chunk's length,
    /// is refused as a failed transfer and leaves the cache as it was. No other
    /// file changes. A handle that the table has not given out names no file.
    pub fn insert_chunk(&mut self, handle: usize, idx: u64, data: Vec<u8>) -> (done: Result<
        (),
        FetchError,
    >)
        requires
            old(self).wf(),
        ensures
            final(self).wf(),
            match done {
                Ok(()) => {
                    &&& handle < old(self)@.len()
                    &&& old(self)@[handle as int].accepts(idx, data@)
                    &&& final(self)@ == old(self)@.update(
                        handle as int,
                        old(self)@[handle as int].insert(idx, data@),
                    )
                },
                Err(e) => {
                    &&& final(self)@ == old(self)@
                    &&& e == if handle < old(self)@.len() {
                        FetchError::TransferFailure
                    } else {
                        FetchError::NotFound
                    }
                    &&& handle < old(self)@.len() ==> !old(self)@[handle as int].accepts(idx, data@)
                },
            },
    {
        if handle >= self.files.len() {
            return Err(FetchError::NotFound);
        }
        assert(self.files@[handle as int]@ == self@[handle as int]);
        let done = self.files[handle].insert_chunk(idx, data);
        proof {
            assert forall|i: int| 0 <= i < self@.len() implies (#[trigger] self@[i]).wf() by {
                if i != handle {
                    assert(self@[i] == old(self)@[i]);
                }
            }
            assert forall|i: int, j: int| 0 <= i < j < self@.len() implies (#[trigger] self@[i]).path
                != (#[trigger] self@[j]).path by {
                assert(self@[i].path == old(self)@[i].path);
                assert(self@[j].path == old(self)@[j].path);
            }
        }
        done
    }
}

impl FetchFile {
    /// Opens the file under `path`, for reads in chunks of `chunk_size` bytes.
    ///
    /// A path that was opened before gives the handle that it was given then,
    /// whatever `chunk_size` says now: the first opening fixes the chunk size, and
    /// `length` is not looked at. A new path needs `length`, the host's answer to
    /// the query for the file's length: without one the file is not found, with
    /// one the file enters the table, with the chunk size that
    /// [`served_chunk_size`] gives and with nothing resident.
    pub fn get(
        registry: &mut HandleRegistry,
        path: String,
        chunk_size: u64,
        length: Option<u64>,
    ) -> (opened: Result<usize, FetchError>)
        requires
            old(registry).wf(),
            chunk_size > 0,
        ensures
            final(registry).wf(),
            final(registry)@ == opened_table(old(registry)@, path@, chunk_size, length),
            match opened {
                Ok(handle) => opened_handle(old(registry)@, path@, length) == Ok::<int, FetchError>(
                    handle as int,
                ),
                Err(e) => opened_handle(old(registry)@, path@, length) == Err::<int, FetchError>(e),
            },
    {
        if let Some(handle) = registry.lookup(&path) {
            return Ok(handle);
        }
        let len = match length {
            Some(len) => len,
            None => {
                return Err(FetchError::NotFound);
            },
        };
        let served = effective_chunk_size(path.as_str(), chunk_size);
        let handle = registry.files.len();
        let file = FetchFile::new(path, served, len);
        registry.files.push(file);
        proof {
            assert(registry@ =~= old(registry)@.push(file@));
        }
        Ok(handle)
    }
}

} // verus!
