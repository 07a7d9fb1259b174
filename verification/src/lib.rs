//! Random-access reads over a remote file through a cache of fixed-size chunks.
//!
//! A remote file can only be had in pieces, and each fetch is expensive. The
//! library cuts a file into chunks of a fixed size, keeps every chunk that was
//! fetched, resolves a byte range into the chunks that it touches, says which
//! of them have to be fetched, and assembles the range from the resident chunks.
//! It never fetches by itself: a read either returns its bytes or the list of
//! chunks to fetch, and whoever owns the connection to the host fetches them and
//! hands them in.
//!
//! - [`layout`] and [`view`] hold the model: how a file is cut into chunks, what
//!   a cached file is, what a read of it gives and what it asks for.
//! - [`file`] holds a file with its cache, [`registry`] the table of open files,
//!   in which each path has one entry and so one cache, and [`directory`] the
//!   files under one root.
//! - [`laws`] holds what is proved of all files, caches and ranges.
//! - [`bytes`] holds what is assumed of the byte buffer in which chunks are
//!   kept.
//! - [`search`] holds the rule by which a search picks its default fields.

pub mod bytes;
pub mod directory;
pub mod error;
pub mod file;
pub mod laws;
pub mod layout;
pub mod registry;
pub mod search;
pub mod view;

pub use directory::FetchDirectory;
pub use error::FetchError;
pub use file::{concat_ownedbytes, FetchFile, MaybeToRead, ReadStep};
pub use registry::{effective_chunk_size, HandleRegistry, SMALL_FILE_CHUNK_SIZE, SMALL_FILE_SUFFIX};
