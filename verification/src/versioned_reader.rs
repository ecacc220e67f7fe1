//! Turning the failure to read a metadata file into the error a loader reports.
use vstd::prelude::*;

verus! {

/// The errors a metadata loader reports when the file cannot be read.
#[derive(Debug)]
pub enum ErrorCode {
    /// The file does not exist.
    DalPathNotFound(String),
    /// Any other failure of the storage layer.
    DalTransportError(String),
}

/// How reading a metadata file failed, as the storage layer reported it:
/// whether the file was missing, and the failure's message.
#[derive(Debug)]
pub struct ReadFailure {
    pub not_found: bool,
    pub message: String,
}

/// The error code for a failed read, from whether the file was missing and
/// the error's message: a missing file is reported as such, anything else as
/// a transport error.
pub fn read_error_code(not_found: bool, msg: String) -> (res: ErrorCode)
    ensures
        not_found ==> res == ErrorCode::DalPathNotFound(msg),
        !not_found ==> res == ErrorCode::DalTransportError(msg),
{
    if not_found {
        ErrorCode::DalPathNotFound(msg)
    } else {
        ErrorCode::DalTransportError(msg)
    }
}

/// The bytes of a metadata file once read, or the loader's error when the
/// read failed.
pub fn loaded_bytes(read: Result<Vec<u8>, ReadFailure>) -> (res: Result<Vec<u8>, ErrorCode>)
    ensures
        res == match read {
            Ok(b) => Ok::<Vec<u8>, ErrorCode>(b),
            Err(f) => Err(
                if f.not_found {
                    ErrorCode::DalPathNotFound(f.message)
                } else {
                    ErrorCode::DalTransportError(f.message)
                },
            ),
        },
{
    match read {
        Ok(b) => Ok(b),
        Err(f) => Err(read_error_code(f.not_found, f.message)),
    }
}

} // verus!
