use vstd::prelude::*;

verus! {

/// Declares `std::io::Error` so that I/O errors handed in by the caller can be carried through.
#[verifier::external_type_specification]
#[verifier::external_body]
pub struct ExIoError(std::io::Error);

/// The errors of registration and commit.
///
/// Paths are carried as the strings the caller registered them with.
#[derive(Debug)]
pub enum Error {
    /// The path is already registered in this session.
    AlreadyNoted(String),
    /// One item could not be committed: its path and the text of the underlying error.
    Commit(String, String),
    /// An I/O error while allocating or filling a staging file.
    IO(std::io::Error),
    /// A path registered as new already exists.
    NewItemAlreadyExists(String),
    /// The path cannot name a directory.
    NotADir(String),
    /// The path is not a file, or cannot name one.
    NotAFile(String),
    /// A new directory exists by the time it is committed: it was registered twice under two
    /// spellings, or someone else created it.
    RepeatedNewDir(String),
    /// A new file exists by the time it is committed: it was registered twice under two
    /// spellings, or someone else created it.
    RepeatedNewFile(String),
}

} // verus!
