use vstd::prelude::*;

verus! {

/// Error kinds reported by the storage engine.
///
/// Every error is terminal and reported directly to the caller; the engine
/// never retries and never panics. `FileAlreadyExists`, `InvalidOperation`,
/// `InvalidFileType` and `SystemError` are declared for callers but raised by
/// no current operation: uploads deliberately overwrite an existing name.
#[derive(Clone, Copy, Debug, PartialEq, Eq, Structural)]
pub enum StorageError {
    FileNotFound,
    FileAlreadyExists,
    InvalidOperation,
    StorageLimit,
    InvalidFileType,
    SystemError,
}

} // verus!
