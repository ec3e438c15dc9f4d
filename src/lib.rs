//! Transactional staging and commit of grouped filesystem changes.
//!
//! A [`Rollback`] session collects three kinds of intended changes: existing files to modify
//! (through a staging copy), new files to create (from a staging file) and new directories.
//! Nothing touches the real paths until the session is committed; a commit either applies every
//! change or restores the filesystem to the state it had before the commit started.
//!
//! The library decides; the caller performs the filesystem work. Registration takes what the
//! caller observed on disk and a function that allocates the staging file. A commit is a
//! [`Commit`] state machine: it hands out one [`Action`] at a time and is told the outcome as an
//! [`Event`], until it finishes or asks for the undo of everything the commit did.

mod commit;
mod error;
mod paths;
mod rollback;

pub use commit::{
    lemma_failed_commit_is_undone, lemma_finished_commit_applied_all, Action, Change, Commit, Event,
    NotedOutcome, Stage, UndoPlan,
};
pub use error::Error;
pub use paths::{backup_dir, dir_like, file_like};
pub use rollback::{Rollback, SessionView};
