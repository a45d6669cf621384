//! The rules of the settings commands.

use vstd::prelude::*;
use crate::error::AppError;
use crate::models::AppSettings;

verus! {

/// Settings sent by the frontend must keep the concurrency in `[1, 8]`.
pub fn check_concurrency(settings: &AppSettings) -> (r: Result<(), AppError>)
    ensures
        (settings.max_concurrency < 1 || settings.max_concurrency > 8) ==> (r matches Err(AppError::InvalidInput { message })
            && message@ == "max_concurrency must be between 1 and 8"@),
        1 <= settings.max_concurrency <= 8 ==> r is Ok,
{
    if settings.max_concurrency < 1 || settings.max_concurrency > 8 {
        return Err(AppError::InvalidInput { message: "max_concurrency must be between 1 and 8".to_owned() });
    }
    Ok(())
}

} // verus!
