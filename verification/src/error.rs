//! The application's error taxonomy.

use vstd::prelude::*;
use crate::text::concat_str;

verus! {

/// Application error taxonomy covering all failure modes.
/// Each variant maps to a user-friendly message in the frontend.
#[derive(Debug, Clone)]
pub enum AppError {
    /// The parser could not extract media from the page.
    ParseFailed { message: String, platform_hint: Option<String> },
    /// No registered parser can handle this URL.
    UnsupportedPlatform { message: String },
    /// Content requires login, payment, or is otherwise restricted.
    RestrictedContent { message: String },
    /// The requested content no longer exists (HTTP 404).
    ContentNotFound { message: String },
    /// Network connectivity issue.
    NetworkError { message: String },
    /// HTTP request timed out.
    TimeoutError { message: String },
    /// File system permission denied or path traversal attempt.
    PermissionDenied { message: String },
    /// Disk full or other I/O error during file write.
    DiskFullOrIoError { message: String },
    /// Invalid input provided by the user or frontend.
    InvalidInput { message: String },
    /// Short link redirect chain exceeded the maximum number of hops.
    TooManyRedirects { message: String },
    /// Redirect target uses a non-HTTP(S) scheme.
    UnsafeRedirect { message: String },
    /// Requested state transition is not valid for the current task state.
    InvalidTransition { message: String, from: String, to: String },
}

/// The human-readable text of an error.
pub open spec fn spec_display(e: AppError) -> Seq<char> {
    match e {
        AppError::ParseFailed { message, .. } => "Parse failed: "@ + message@,
        AppError::UnsupportedPlatform { message } => "Unsupported platform: "@ + message@,
        AppError::RestrictedContent { message } => "Restricted content: "@ + message@,
        AppError::ContentNotFound { message } => "Content not found: "@ + message@,
        AppError::NetworkError { message } => "Network error: "@ + message@,
        AppError::TimeoutError { message } => "Timeout: "@ + message@,
        AppError::PermissionDenied { message } => "Permission denied: "@ + message@,
        AppError::DiskFullOrIoError { message } => "I/O error: "@ + message@,
        AppError::InvalidInput { message } => "Invalid input: "@ + message@,
        AppError::TooManyRedirects { message } => "Too many redirects: "@ + message@,
        AppError::UnsafeRedirect { message } => "Unsafe redirect: "@ + message@,
        AppError::InvalidTransition { message, from, to } =>
            "Invalid transition from "@ + from@ + " to "@ + to@ + ": "@ + message@,
    }
}

/// The variant's name, used as the error code on the wire.
pub open spec fn spec_code(e: AppError) -> Seq<char> {
    match e {
        AppError::ParseFailed { .. } => "ParseFailed"@,
        AppError::UnsupportedPlatform { .. } => "UnsupportedPlatform"@,
        AppError::RestrictedContent { .. } => "RestrictedContent"@,
        AppError::ContentNotFound { .. } => "ContentNotFound"@,
        AppError::NetworkError { .. } => "NetworkError"@,
        AppError::TimeoutError { .. } => "TimeoutError"@,
        AppError::PermissionDenied { .. } => "PermissionDenied"@,
        AppError::DiskFullOrIoError { .. } => "DiskFullOrIoError"@,
        AppError::InvalidInput { .. } => "InvalidInput"@,
        AppError::TooManyRedirects { .. } => "TooManyRedirects"@,
        AppError::UnsafeRedirect { .. } => "UnsafeRedirect"@,
        AppError::InvalidTransition { .. } => "InvalidTransition"@,
    }
}

impl AppError {
    /// The human-readable text of this error (what `Display` prints).
    pub fn to_display_string(&self) -> (r: String)
        ensures
            r@ == spec_display(*self),
    {
        match self {
            AppError::ParseFailed { message, .. } => concat_str("Parse failed: ", message.as_str()),
            AppError::UnsupportedPlatform { message } => concat_str("Unsupported platform: ", message.as_str()),
            AppError::RestrictedContent { message } => concat_str("Restricted content: ", message.as_str()),
            AppError::ContentNotFound { message } => concat_str("Content not found: ", message.as_str()),
            AppError::NetworkError { message } => concat_str("Network error: ", message.as_str()),
            AppError::TimeoutError { message } => concat_str("Timeout: ", message.as_str()),
            AppError::PermissionDenied { message } => concat_str("Permission denied: ", message.as_str()),
            AppError::DiskFullOrIoError { message } => concat_str("I/O error: ", message.as_str()),
            AppError::InvalidInput { message } => concat_str("Invalid input: ", message.as_str()),
            AppError::TooManyRedirects { message } => concat_str("Too many redirects: ", message.as_str()),
            AppError::UnsafeRedirect { message } => concat_str("Unsafe redirect: ", message.as_str()),
            AppError::InvalidTransition { message, from, to } => {
                let a = concat_str("Invalid transition from ", from.as_str());
                let b = concat_str(a.as_str(), " to ");
                let c = concat_str(b.as_str(), to.as_str());
                let d = concat_str(c.as_str(), ": ");
                concat_str(d.as_str(), message.as_str())
            },
        }
    }

    /// The variant's name, used as the error code on the wire.
    pub fn code(&self) -> (r: &'static str)
        ensures
            r@ == spec_code(*self),
    {
        match self {
            AppError::ParseFailed { .. } => "ParseFailed",
            AppError::UnsupportedPlatform { .. } => "UnsupportedPlatform",
            AppError::RestrictedContent { .. } => "RestrictedContent",
            AppError::ContentNotFound { .. } => "ContentNotFound",
            AppError::NetworkError { .. } => "NetworkError",
            AppError::TimeoutError { .. } => "TimeoutError",
            AppError::PermissionDenied { .. } => "PermissionDenied",
            AppError::DiskFullOrIoError { .. } => "DiskFullOrIoError",
            AppError::InvalidInput { .. } => "InvalidInput",
            AppError::TooManyRedirects { .. } => "TooManyRedirects",
            AppError::UnsafeRedirect { .. } => "UnsafeRedirect",
            AppError::InvalidTransition { .. } => "InvalidTransition",
        }
    }
}

/// The error an HTTP client failure maps to: time-outs, connection
/// failures and redirect loops by kind, anything else with its text.
pub fn http_failure(is_timeout: bool, is_connect: bool, is_redirect: bool, text: &str) -> (r: AppError)
    ensures
        is_timeout ==> (r matches AppError::TimeoutError { message } && message@ == "Request timed out"@),
        !is_timeout && is_connect ==> (r matches AppError::NetworkError { message } && message@ == "Connection failed"@),
        !is_timeout && !is_connect && is_redirect ==> (r matches AppError::TooManyRedirects { message }
            && message@ == "Too many redirects"@),
        !is_timeout && !is_connect && !is_redirect ==> (r matches AppError::NetworkError { message }
            && message@ == "HTTP error: "@ + text@),
{
    if is_timeout {
        AppError::TimeoutError { message: "Request timed out".to_owned() }
    } else if is_connect {
        AppError::NetworkError { message: "Connection failed".to_owned() }
    } else if is_redirect {
        AppError::TooManyRedirects { message: "Too many redirects".to_owned() }
    } else {
        AppError::NetworkError { message: concat_str("HTTP error: ", text) }
    }
}

/// The error a database failure maps to.
pub fn database_failure(text: &str) -> (r: AppError)
    ensures
        r matches AppError::DiskFullOrIoError { message } && message@ == "Database error: "@ + text@,
{
    AppError::DiskFullOrIoError { message: concat_str("Database error: ", text) }
}

/// The error a file system failure maps to.
pub fn io_failure(text: &str) -> (r: AppError)
    ensures
        r matches AppError::DiskFullOrIoError { message } && message@ == "I/O error: "@ + text@,
{
    AppError::DiskFullOrIoError { message: concat_str("I/O error: ", text) }
}

} // verus!
