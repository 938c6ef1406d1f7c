//! What makes a restore give up on an archive entry.

use vstd::prelude::*;

verus! {

/// The error type of the `rusqlite` crate, carried through unopened.
#[verifier::external_type_specification]
#[verifier::external_body]
pub struct ExSqliteError(rusqlite::Error);

/// A failure that ends the restore of one archive entry. Failures of single
/// records or single commands are not among these: they are passed over.
#[derive(Debug)]
pub enum RestoreError {
    /// The database could not be opened.
    Connect(rusqlite::Error),
    /// The database refused to prepare the insert statement.
    Prepare(rusqlite::Error),
    /// The live override file could not be read; the text says why.
    OverrideFile(String),
}

/// Renders a database error for a log line.
///
/// Wraps the `Display` implementation of `rusqlite::Error`; nothing is
/// claimed of the text.
#[verifier::external_body]
fn sqlite_error_text(error: &rusqlite::Error) -> (text: String) {
    format!("{}", error)
}

impl RestoreError {
    /// A description fit for a log line.
    pub fn message(&self) -> (text: String)
        ensures
            self matches RestoreError::OverrideFile(reason) ==> text@ == reason@,
    {
        match self {
            RestoreError::Connect(error) => sqlite_error_text(error),
            RestoreError::Prepare(error) => sqlite_error_text(error),
            RestoreError::OverrideFile(reason) => reason.clone(),
        }
    }
}

} // verus!
