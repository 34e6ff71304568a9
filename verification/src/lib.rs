//! A verified core for a small network object store.
//!
//! Clients send one binary command per connection: create a namespace,
//! upload, download, list, or delete an object or a whole namespace.
//! This crate holds the verified pieces of that server: the wire codec,
//! the metadata index that keeps every namespace's `total_size` equal to
//! the sum of its objects' sizes, the storage-placement logic that maps a
//! logical key to a physical location, and the per-command execution over
//! an in-memory store model.

use vstd::prelude::*;

pub mod bytes;
pub mod codec;
pub mod index;
pub mod laws;
pub mod placement;
pub mod query;
pub mod store;

verus! {

/// The error kinds a command can end in.
#[derive(Clone, Copy, Debug, PartialEq, Eq, Structural)]
pub enum Error {
    /// Malformed or oversized frame; the connection closes with no side effects.
    Protocol,
    /// The namespace or object does not exist.
    NotFound,
    /// The `(namespace, path)` key is already taken; re-uploads are rejected.
    Conflict,
    /// A filesystem failure; nothing was committed.
    StorageIo,
    /// The metadata index could not commit (for instance, a size counter
    /// would leave its 64-bit range); the command rolls back fully.
    IndexFailure,
    /// Metadata and storage disagree: an object row exists but its bytes
    /// are gone. Distinct from `NotFound`, since it signals corruption.
    Internal,
}

/// Default bound on the declared length of a logical path.
pub const DEFAULT_MAX_PATH_LEN: u32 = 4096;

/// Default bound on the declared length of an uploaded file.
pub const DEFAULT_MAX_FILE_LEN: u32 = 0x4000_0000;

/// Configured bounds on the untrusted lengths a frame declares. A frame
/// declaring more is rejected before any payload byte is read or stored.
#[derive(Clone, Copy, Debug, PartialEq, Eq, Structural)]
pub struct Limits {
    pub max_path_len: u32,
    pub max_file_len: u32,
}

impl Default for Limits {
    fn default() -> (r: Self)
        ensures
            r.max_path_len == DEFAULT_MAX_PATH_LEN,
            r.max_file_len == DEFAULT_MAX_FILE_LEN,
    {
        Limits { max_path_len: DEFAULT_MAX_PATH_LEN, max_file_len: DEFAULT_MAX_FILE_LEN }
    }
}

} // verus!
