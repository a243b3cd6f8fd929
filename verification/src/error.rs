//! The error type of every operation, with its CLI exit code and message.
use vstd::prelude::*;

use crate::text::{concat2, concat3, u64_to_decimal, decimal};

verus! {

#[verifier::external_type_specification]
#[verifier::external_body]
pub struct ExIoError(std::io::Error);

/// Core error type for all Loki operations.
#[derive(Debug)]
pub enum LokiError {
    ElementNotFound(String),
    WindowNotFound(String),
    AppNotFound(String),
    LaunchFailed(String),
    PermissionDenied,
    Timeout(u64),
    /// A timeout together with an explanation of what was being waited for.
    TimeoutDetail { timeout_ms: u64, detail: String },
    InputError(String),
    ScreenshotFailed(String),
    Platform(String),
    Io(std::io::Error),
}

pub type LokiResult<T> = Result<T, LokiError>;

/// The exit code the CLI reports for an error.
pub open spec fn exit_code_of(e: LokiError) -> i32 {
    match e {
        LokiError::PermissionDenied => 2,
        LokiError::Timeout(_) => 3,
        LokiError::TimeoutDetail { .. } => 3,
        _ => 1,
    }
}

/// The text of `io::Error`'s `Display` (`ToString::to_string`): what the
/// error's creator gave, or the operating system's description of an OS
/// error. Nothing is claimed of the text, since for an OS error it depends on
/// the machine it runs on.
#[verifier::external_body]
fn io_error_text(e: &std::io::Error) -> String {
    e.to_string()
}

impl LokiError {
    /// Map error variants to CLI exit codes.
    pub fn exit_code(&self) -> (r: i32)
        ensures
            r == exit_code_of(*self),
    {
        match self {
            LokiError::PermissionDenied => 2,
            LokiError::Timeout(_) => 3,
            LokiError::TimeoutDetail { .. } => 3,
            _ => 1,
        }
    }

    /// The human-readable message for this error.
    pub fn message(&self) -> (r: String)
        ensures
            match *self {
                LokiError::ElementNotFound(s) => r@ == "element not found: "@ + s@,
                LokiError::WindowNotFound(s) => r@ == "window not found: "@ + s@,
                LokiError::AppNotFound(s) => r@ == "app not found: "@ + s@,
                LokiError::LaunchFailed(s) => r@ == "launch failed: "@ + s@,
                LokiError::PermissionDenied => r@
                    == "permission denied — grant Accessibility access in System Settings"@,
                LokiError::Timeout(ms) => r@ == "timed out after "@ + decimal(ms as nat) + "ms"@,
                LokiError::TimeoutDetail { timeout_ms, detail } => r@ == "timed out after "@
                    + decimal(timeout_ms as nat) + "ms\n"@ + detail@,
                LokiError::InputError(s) => r@ == "input error: "@ + s@,
                LokiError::ScreenshotFailed(s) => r@ == "screenshot failed: "@ + s@,
                LokiError::Platform(s) => r@ == "platform error: "@ + s@,
                LokiError::Io(_) => true,
            },
    {
        match self {
            LokiError::ElementNotFound(s) => concat2("element not found: ", s.as_str()),
            LokiError::WindowNotFound(s) => concat2("window not found: ", s.as_str()),
            LokiError::AppNotFound(s) => concat2("app not found: ", s.as_str()),
            LokiError::LaunchFailed(s) => concat2("launch failed: ", s.as_str()),
            LokiError::PermissionDenied => String::from_str(
                "permission denied — grant Accessibility access in System Settings",
            ),
            LokiError::Timeout(ms) => {
                let n = u64_to_decimal(*ms);
                concat3("timed out after ", n.as_str(), "ms")
            },
            LokiError::TimeoutDetail { timeout_ms, detail } => {
                let n = u64_to_decimal(*timeout_ms);
                let head = concat3("timed out after ", n.as_str(), "ms\n");
                concat2(head.as_str(), detail.as_str())
            },
            LokiError::InputError(s) => concat2("input error: ", s.as_str()),
            LokiError::ScreenshotFailed(s) => concat2("screenshot failed: ", s.as_str()),
            LokiError::Platform(s) => concat2("platform error: ", s.as_str()),
            LokiError::Io(e) => io_error_text(e),
        }
    }
}

impl From<std::io::Error> for LokiError {
    fn from(e: std::io::Error) -> (r: Self) {
        LokiError::Io(e)
    }
}

impl vstd::std_specs::convert::FromSpecImpl<std::io::Error> for LokiError {
    open spec fn obeys_from_spec() -> bool {
        true
    }

    open spec fn from_spec(v: std::io::Error) -> Self {
        LokiError::Io(v)
    }
}

} // verus!
