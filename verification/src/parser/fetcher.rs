//! The decisions of page fetching: what each reply or failure means, and
//! when to retry.
//!
//! The application sends the requests, sleeps between retries and reads
//! bodies; this module decides.

use vstd::prelude::*;
use crate::error::AppError;
use crate::text::{concat_str, decimal_chars, u64_to_decimal};

verus! {

/// HTTP timeout for metadata and page requests, in seconds.
pub const METADATA_TIMEOUT_SECS: u64 = 15;

/// Maximum retries for transient failures.
pub const MAX_RETRIES: u32 = 2;

/// Initial backoff before a retry, in milliseconds.
pub const INITIAL_BACKOFF_MS: u64 = 1000;

/// What came back from a page request.
#[derive(Debug)]
pub enum FetchEvent {
    /// A response with this HTTP status.
    Status(u16),
    /// The request timed out.
    Timeout,
    /// The request failed otherwise; the text describes the failure.
    Failed(String),
}

/// What the application does next.
#[derive(Debug)]
pub enum FetchAction {
    /// Read the body: it is the page.
    ReadBody,
    /// Wait this many milliseconds, then send the request again.
    RetryAfter(u64),
    /// Give up with this error.
    Fail(AppError),
}

/// The retry state of a page fetch.
#[derive(Debug)]
pub struct PageFetch {
    /// Retries made so far.
    pub retries: u32,
    /// The wait before the next retry, in milliseconds.
    pub backoff_ms: u64,
}

/// The wait before retry number `n + 1`: the initial backoff, doubled for
/// each retry made.
pub open spec fn backoff_after(n: nat) -> nat
    decreases n,
{
    if n == 0 { INITIAL_BACKOFF_MS as nat } else { 2 * backoff_after((n - 1) as nat) }
}

/// The fetch state is consistent: at most `MAX_RETRIES` retries, and the
/// backoff doubled for each.
pub open spec fn fetch_wf(f: PageFetch) -> bool {
    f.retries <= MAX_RETRIES && f.backoff_ms == backoff_after(f.retries as nat)
}

/// An HTTP status that marks a server error (500 to 599).
pub open spec fn is_server_error(code: u16) -> bool {
    500 <= code && code <= 599
}

impl PageFetch {
    /// A fetch that has made no retry yet.
    pub fn new() -> (r: Self)
        ensures
            fetch_wf(r),
            r.retries == 0,
    {
        PageFetch { retries: 0, backoff_ms: INITIAL_BACKOFF_MS }
    }

    fn retry_or(&mut self, err: AppError) -> (r: FetchAction)
        requires
            fetch_wf(*old(self)),
        ensures
            fetch_wf(*final(self)),
            old(self).retries < MAX_RETRIES ==> (r matches FetchAction::RetryAfter(ms)
                && ms == old(self).backoff_ms
                && final(self).retries == old(self).retries + 1),
            old(self).retries >= MAX_RETRIES ==> (r matches FetchAction::Fail(e) && e == err
                && *final(self) == *old(self)),
    {
        if self.retries < MAX_RETRIES {
            assert(backoff_after(0) == 1000);
            assert(backoff_after(1) == 2000);
            let wait = self.backoff_ms;
            self.retries = self.retries + 1;
            self.backoff_ms = self.backoff_ms * 2;
            retry_after(wait)
        } else {
            FetchAction::Fail(err)
        }
    }

    /// Decide on what came back: 200 gives the page; 404, 401, 403, 451 and
    /// 429 fail at once; server errors, time-outs and other failures are
    /// retried up to `MAX_RETRIES` times with doubling backoff; any other
    /// status fails.
    pub fn on_event(&mut self, event: FetchEvent) -> (r: FetchAction)
        requires
            fetch_wf(*old(self)),
        ensures
            fetch_wf(*final(self)),
            final(self).retries >= old(self).retries,
            r matches FetchAction::RetryAfter(ms) ==> ms == old(self).backoff_ms
                && final(self).retries == old(self).retries + 1,
            match event {
                FetchEvent::Status(code) => if code == 200 {
                    r matches FetchAction::ReadBody
                } else if code == 404 {
                    r matches FetchAction::Fail(AppError::ContentNotFound { message })
                        && message@ == "The requested content was not found (404)"@
                } else if code == 401 || code == 403 {
                    r matches FetchAction::Fail(AppError::RestrictedContent { message })
                        && message@ == "Access denied (HTTP "@ + decimal_chars(code as nat)
                            + "). Content may require login or is restricted."@
                } else if code == 451 {
                    r matches FetchAction::Fail(AppError::RestrictedContent { message })
                        && message@ == "Content unavailable for legal reasons (HTTP 451)"@
                } else if is_server_error(code) {
                    if old(self).retries < MAX_RETRIES {
                        r matches FetchAction::RetryAfter(_)
                    } else {
                        r matches FetchAction::Fail(AppError::NetworkError { message })
                            && message@ == "Server error after 2 retries: HTTP "@ + decimal_chars(code as nat)
                    }
                } else if code == 429 {
                    r matches FetchAction::Fail(AppError::RestrictedContent { message })
                        && message@ == "Rate limited by platform. Please try again later."@
                } else {
                    r matches FetchAction::Fail(AppError::NetworkError { message })
                        && message@ == "Unexpected HTTP status: "@ + decimal_chars(code as nat)
                },
                FetchEvent::Timeout => if old(self).retries < MAX_RETRIES {
                    r matches FetchAction::RetryAfter(_)
                } else {
                    r matches FetchAction::Fail(AppError::TimeoutError { message })
                        && message@ == "Request timed out after 2 retries"@
                },
                FetchEvent::Failed(text) => if old(self).retries < MAX_RETRIES {
                    r matches FetchAction::RetryAfter(_)
                } else {
                    r matches FetchAction::Fail(AppError::NetworkError { message })
                        && message@ == "Network error after 2 retries: "@ + text@
                },
            },
    {
        match event {
            FetchEvent::Status(code) => {
                if code == 200 {
                    FetchAction::ReadBody
                } else if code == 404 {
                    FetchAction::Fail(AppError::ContentNotFound {
                        message: "The requested content was not found (404)".to_owned(),
                    })
                } else if code == 401 || code == 403 {
                    let d = u64_to_decimal(code as u64);
                    let a = concat_str("Access denied (HTTP ", d.as_str());
                    FetchAction::Fail(AppError::RestrictedContent {
                        message: concat_str(a.as_str(), "). Content may require login or is restricted."),
                    })
                } else if code == 451 {
                    FetchAction::Fail(AppError::RestrictedContent {
                        message: "Content unavailable for legal reasons (HTTP 451)".to_owned(),
                    })
                } else if 500 <= code && code <= 599 {
                    let d = u64_to_decimal(code as u64);
                    let err = AppError::NetworkError { message: concat_str("Server error after 2 retries: HTTP ", d.as_str()) };
                    self.retry_or(err)
                } else if code == 429 {
                    FetchAction::Fail(AppError::RestrictedContent {
                        message: "Rate limited by platform. Please try again later.".to_owned(),
                    })
                } else {
                    let d = u64_to_decimal(code as u64);
                    FetchAction::Fail(AppError::NetworkError { message: concat_str("Unexpected HTTP status: ", d.as_str()) })
                }
            },
            FetchEvent::Timeout => {
                let err = AppError::TimeoutError { message: "Request timed out after 2 retries".to_owned() };
                self.retry_or(err)
            },
            FetchEvent::Failed(text) => {
                let err = AppError::NetworkError { message: concat_str("Network error after 2 retries: ", text.as_str()) };
                self.retry_or(err)
            },
        }
    }
}

fn retry_after(ms: u64) -> (r: FetchAction)
    ensures
        r matches FetchAction::RetryAfter(x) && x == ms,
{
    FetchAction::RetryAfter(ms)
}

/// The error for a page body that could not be read.
pub fn body_read_error(text: &str) -> (r: AppError)
    ensures
        r matches AppError::NetworkError { message } && message@ == "Failed to read response body: "@ + text@,
{
    AppError::NetworkError { message: concat_str("Failed to read response body: ", text) }
}

/// The error for an HTTP client that could not be built.
pub fn client_build_error(text: &str) -> (r: AppError)
    ensures
        r matches AppError::NetworkError { message } && message@ == "Failed to create HTTP client: "@ + text@,
{
    AppError::NetworkError { message: concat_str("Failed to create HTTP client: ", text) }
}

} // verus!
