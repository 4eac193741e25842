//! What can go wrong in a run.

use vstd::prelude::*;

verus! {

/// `std::io::Error`, the cause of a failure as the system reports it. Nothing
/// is stated of what it holds: the causes are carried through as they come.
#[verifier::external_type_specification]
#[verifier::external_body]
pub struct ExIoError(std::io::Error);

/// Why a run did not do all that was asked.
#[derive(Debug)]
pub enum Error {
    /// An input or output error that belongs to no single rename.
    Io(std::io::Error),
    /// One rename failed.
    Rename { from: String, to: String, source: std::io::Error },
    /// The editor ended with another exit code than zero, or with none.
    EditorStatus(Option<i32>),
    /// The edited listing holds another number of names than there are entries.
    CountMismatch,
    /// Some steps of a batch failed: their errors, in the order they came.
    Group(Vec<Error>),
}

/// What the exit of the editor means for the run: it goes on after the exit
/// code zero, and after any other exit it is given up.
pub fn editor_outcome(code: Option<i32>) -> (outcome: Result<(), Error>)
    ensures
        code == Some(0i32) ==> outcome is Ok,
        code != Some(0i32) ==> outcome == Err::<(), Error>(Error::EditorStatus(code)),
{
    match code {
        Some(0) => Ok(()),
        _ => Err(Error::EditorStatus(code)),
    }
}

} // verus!
