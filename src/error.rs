//! The ways in which a driver check can fail.
use vstd::prelude::*;

verus! {

/// Why a driver check could not be completed.
#[derive(Clone, Copy, Debug, PartialEq, Eq, Structural)]
pub enum CheckError {
    /// The vendor endpoint could not be reached, or the transfer failed.
    NetworkError,
    /// The response body could not be read as text.
    EncodingError,
    /// The response body is not JSON.
    MalformedJson,
    /// The response is JSON but lacks the version or download URL fields.
    SchemaMismatch,
    /// A base directory that locates the diagnostic tool is not set.
    MissingEnvironment,
    /// The diagnostic tool exists in none of its known locations.
    NotFound,
    /// The diagnostic tool could not be started.
    ExecutionError,
    /// The diagnostic tool's output names no driver version.
    PatternNotFound,
    /// A version is not of the form `<digits>.<digits>`.
    FormatError,
    /// The file that a download goes to could not be created.
    CreateError,
    /// A download was interrupted or delivered another size than announced.
    TransferError,
}

impl CheckError {
    /// A sentence that tells the user what went wrong.
    pub fn message(&self) -> (r: &'static str)
        ensures
            r@ == error_message(*self),
    {
        match self {
            CheckError::NetworkError => "Unable to access the online resources!",
            CheckError::EncodingError => "The page has invalid UTF-8 characters!",
            CheckError::MalformedJson => "Incorrect information at the online resource!",
            CheckError::SchemaMismatch => "Cannot find version information from the online resource!",
            CheckError::MissingEnvironment => "A directory needed to find nvidia-smi is not set in the environment!",
            CheckError::NotFound => "Couldn't detect location for nvidia-smi. Maybe the driver is not installed?",
            CheckError::ExecutionError => "Couldn't detect installed version. Maybe the driver is not installed?",
            CheckError::PatternNotFound => "Cannot find installed version information!",
            CheckError::FormatError => "Cannot convert version number!",
            CheckError::CreateError => "Cannot create the file for the driver installer!",
            CheckError::TransferError => "The driver installer could not be downloaded!",
        }
    }
}

pub open spec fn error_message(e: CheckError) -> Seq<char> {
    match e {
        CheckError::NetworkError => "Unable to access the online resources!"@,
        CheckError::EncodingError => "The page has invalid UTF-8 characters!"@,
        CheckError::MalformedJson => "Incorrect information at the online resource!"@,
        CheckError::SchemaMismatch => "Cannot find version information from the online resource!"@,
        CheckError::MissingEnvironment => "A directory needed to find nvidia-smi is not set in the environment!"@,
        CheckError::NotFound => "Couldn't detect location for nvidia-smi. Maybe the driver is not installed?"@,
        CheckError::ExecutionError => "Couldn't detect installed version. Maybe the driver is not installed?"@,
        CheckError::PatternNotFound => "Cannot find installed version information!"@,
        CheckError::FormatError => "Cannot convert version number!"@,
        CheckError::CreateError => "Cannot create the file for the driver installer!"@,
        CheckError::TransferError => "The driver installer could not be downloaded!"@,
    }
}

} // verus!
