//! Errors surfaced to the embedding application. Discovery and metadata
//! problems are absorbed inside the pipeline (a partial scan is still a
//! usable scan); these variants cover what is reported outward.

use vstd::prelude::*;

verus! {

/// An error category together with its detail text.
#[derive(Debug, Clone)]
pub enum AppError {
    /// Bad or unreadable persisted configuration.
    Config(String),
    /// A filesystem operation failed.
    Io(String),
    /// The source tree could not be scanned.
    Scan(String),
    /// A transfer run failed as a whole.
    Upload(String),
    /// Destination analysis failed.
    Analyze(String),
    /// Anything else.
    Unknown(String),
}

/// The printable description of an error: its category label followed by
/// the detail text.
pub open spec fn message_chars(e: AppError) -> Seq<char> {
    match e {
        AppError::Config(s) => "Configuration error: "@ + s@,
        AppError::Io(s) => "File system error: "@ + s@,
        AppError::Scan(s) => "Scanning error: "@ + s@,
        AppError::Upload(s) => "Upload error: "@ + s@,
        AppError::Analyze(s) => "Analysis error: "@ + s@,
        AppError::Unknown(s) => "Unknown error: "@ + s@,
    }
}

impl AppError {
    /// Renders the error for display.
    pub fn message(&self) -> (r: String)
        ensures
            r@ == message_chars(*self),
    {
        match self {
            AppError::Config(s) => String::from_str("Configuration error: ").concat(s.as_str()),
            AppError::Io(s) => String::from_str("File system error: ").concat(s.as_str()),
            AppError::Scan(s) => String::from_str("Scanning error: ").concat(s.as_str()),
            AppError::Upload(s) => String::from_str("Upload error: ").concat(s.as_str()),
            AppError::Analyze(s) => String::from_str("Analysis error: ").concat(s.as_str()),
            AppError::Unknown(s) => String::from_str("Unknown error: ").concat(s.as_str()),
        }
    }
}

/// The result type the pipeline's entry points hand outward.
pub type AppResult<T> = Result<T, AppError>;

} // verus!
