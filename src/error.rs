use vstd::prelude::*;

verus! {

/// A failure met while handling one entry or one file. None of them stops a
/// walk: they are collected and reported when it is done.
#[derive(Debug)]
pub enum Mp3Error {
    /// A filesystem operation (stat, list, open, read) failed on `path`.
    Io { path: String, cause: String },
    /// The tags of `path` could not be decoded, or a field is out of range.
    Decode { path: String, cause: String },
    /// The store refused the write of the row for `path`.
    Database { path: String, error: rusqlite::Error },
}

} // verus!
