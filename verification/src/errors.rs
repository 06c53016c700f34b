//! The error taxonomy of the library.

use vstd::prelude::*;

verus! {

/// Why an operation failed.
///
/// `NotFound`: an expected control file or external tool is absent.
/// `InvalidData`: a log or configuration document cannot be parsed.
/// `CommandFailure`: an external tool exited with a non-zero status,
/// carried here when the child reported one.
/// `Unsupported`: the backend does not implement the operation yet and
/// says so rather than claiming success.
/// `PartialFailure`: a rollback hit at least one undo error; the messages
/// are aggregated.
#[derive(Debug, Clone, PartialEq, Eq)]
pub enum VfioError {
    NotFound,
    InvalidData,
    CommandFailure(Option<i32>),
    Unsupported,
    PartialFailure(Vec<String>),
}

/// Folds a child process's reported outcome into the taxonomy.
pub fn command_result(success: bool, code: Option<i32>) -> (r: Result<(), VfioError>)
    ensures
        success ==> r == Ok::<(), VfioError>(()),
        !success ==> r == Err::<(), VfioError>(VfioError::CommandFailure(code)),
{
    if success {
        Ok(())
    } else {
        Err(VfioError::CommandFailure(code))
    }
}

} // verus!
