//! A read-only directory of remote files under one root.

use crate::error::FetchError;
use crate::file::{FetchFile, ReadStep};
use crate::registry::{opened_handle, opened_table, HandleRegistry};
use vstd::prelude::*;
use vstd::slice::slice_to_vec;
use vstd::string::StringExecFns;

verus! {

/// The remote files under the path `root`, opened with one chunk size.
#[derive(Clone, Debug)]
pub struct FetchDirectory {
    root: String,
    chunk_size: u64,
}

/// The path under which the table of open files knows the file `path` of the
/// directory `root`.
pub open spec fn canonical(root: Seq<char>, path: Seq<char>) -> Seq<char> {
    root + "/"@ + path
}

impl FetchDirectory {
    /// The path of the directory.
    pub closed spec fn root(&self) -> Seq<char> {
        self.root@
    }

    /// The chunk size with which the directory opens its files.
    pub closed spec fn chunk_size(&self) -> u64 {
        self.chunk_size
    }

    /// The chunk size is positive.
    pub open spec fn wf(&self) -> bool {
        self.chunk_size() > 0
    }

    /// The directory at `root`, which opens its files with chunks of
    /// `chunk_size` bytes.
    pub fn new(root: String, chunk_size: u64) -> (dir: FetchDirectory)
        requires
            chunk_size > 0,
        ensures
            dir.wf(),
            dir.root() == root@,
            dir.chunk_size() == chunk_size,
    {
        FetchDirectory { root, chunk_size }
    }

    /// The chunk size with which the directory opens its files.
    pub fn requested_chunk_size(&self) -> (n: u64)
        ensures
            n == self.chunk_size(),
    {
        self.chunk_size
    }

    /// The path under which the table of open files knows the file `path` of
    /// this directory: the root, a slash, and `path`.
    pub fn canonical_path(&self, path: &str) -> (full: String)
        ensures
            full@ == canonical(self.root(), path@),
    {
        self.root.clone().concat("/").concat(path)
    }

    /// Opens the file `path` of the directory, as [`FetchFile::get`] opens the
    /// file's canonical path with the directory's chunk size. `length` is the
    /// host's answer to the query for the length of that path; it is looked at
    /// only if the path was not opened before.
    pub fn get_file_handle(
        &self,
        registry: &mut HandleRegistry,
        path: &str,
        length: Option<u64>,
    ) -> (opened: Result<usize, FetchError>)
        requires
            self.wf(),
            old(registry).wf(),
        ensures
            final(registry).wf(),
            final(registry)@ == opened_table(
                old(registry)@,
                canonical(self.root(), path@),
                self.chunk_size(),
                length,
            ),
            match opened {
                Ok(handle) => opened_handle(old(registry)@, canonical(self.root(), path@), length)
                    == Ok::<int, FetchError>(handle as int),
                Err(e) => opened_handle(old(registry)@, canonical(self.root(), path@), length)
                    == Err::<int, FetchError>(e),
            },
    {
        FetchFile::get(registry, self.canonical_path(path), self.chunk_size, length)
    }

    /// Reads the whole file `path` of the directory: opens it as
    /// [`FetchDirectory::get_file_handle`] does, and reads it from its first
    /// byte to its last as [`FetchFile::read_all`] does, into a vector.
    pub fn atomic_read(
        &self,
        registry: &mut HandleRegistry,
        path: &str,
        length: Option<u64>,
    ) -> (read: Result<ReadStep<Vec<u8>>, FetchError>)
        requires
            self.wf(),
            old(registry).wf(),
        ensures
            final(registry).wf(),
            final(registry)@ == opened_table(
                old(registry)@,
                canonical(self.root(), path@),
                self.chunk_size(),
                length,
            ),
            match read {
                Err(e) => opened_handle(old(registry)@, canonical(self.root(), path@), length)
                    == Err::<int, FetchError>(e),
                Ok(step) => {
                    &&& opened_handle(old(registry)@, canonical(self.root(), path@), length) matches Ok(
                        handle,
                    )
                    &&& 0 <= handle < final(registry)@.len()
                    &&& {
                        let file = final(registry)@[handle];
                        &&& step is Done <==> file.resident(0, file.len as int)
                        &&& match step {
                            ReadStep::Fetch(todo) => todo@.len() > 0 && todo@ == file.missing(
                                0,
                                file.len as int,
                            ),
                            ReadStep::Done(bytes) => file.resident(0, file.len as int) && bytes@
                                == file.read(0, file.len as int),
                        }
                    }
                },
            },
    {
        let handle = match self.get_file_handle(registry, path, length) {
            Ok(handle) => handle,
            Err(e) => {
                return Err(e);
            },
        };
        match registry.file(handle) {
            None => Err(FetchError::NotFound),
            Some(file) => match file.read_all() {
                ReadStep::Fetch(todo) => Ok(ReadStep::Fetch(todo)),
                ReadStep::Done(bytes) => Ok(ReadStep::Done(slice_to_vec(bytes.as_slice()))),
            },
        }
    }

    /// Deleting a file is not supported: the store is read-only.
    pub fn delete(&self, path: &str) -> (done: Result<(), FetchError>)
        ensures
            done == Err::<(), FetchError>(FetchError::Unsupported),
    {
        Err(FetchError::Unsupported)
    }

    /// Asking whether a file exists is not supported: open it instead.
    pub fn file_exists(&self, path: &str) -> (found: Result<bool, FetchError>)
        ensures
            found == Err::<bool, FetchError>(FetchError::Unsupported),
    {
        Err(FetchError::Unsupported)
    }

    /// Opening a file for writing is not supported: the store is read-only.
    pub fn open_write(&self, path: &str) -> (done: Result<(), FetchError>)
        ensures
            done == Err::<(), FetchError>(FetchError::Unsupported),
    {
        Err(FetchError::Unsupported)
    }

    /// Writing a file is not supported: the store is read-only.
    pub fn atomic_write(&self, path: &str, data: &[u8]) -> (done: Result<(), FetchError>)
        ensures
            done == Err::<(), FetchError>(FetchError::Unsupported),
    {
        Err(FetchError::Unsupported)
    }

    /// Watching the directory for changes is not supported: its files never
    /// change.
    pub fn watch(&self) -> (done: Result<(), FetchError>)
        ensures
            done == Err::<(), FetchError>(FetchError::Unsupported),
    {
        Err(FetchError::Unsupported)
    }
}

} // verus!
