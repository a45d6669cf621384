//! The rules of the parse command: what share text is accepted and which
//! links go on to be resolved.

use vstd::prelude::*;
use crate::error::AppError;
use crate::parser::link_extractor::{extract_urls, spec_extract_urls};
use crate::page::chars_seq;
use crate::text::{trim, trim_ws};

verus! {

/// The links of the share text that go on to be resolved; empty text (after
/// trimming) is refused.
pub fn links_to_resolve(input: &str) -> (r: Result<Vec<String>, AppError>)
    ensures
        trim_ws(input@).len() == 0 ==> (r matches Err(AppError::InvalidInput { message })
            && message@ == "Input text is empty"@),
        trim_ws(input@).len() > 0 ==> (r matches Ok(v) && chars_seq(v@) == spec_extract_urls(input@)),
{
    let t = trim(input);
    if t.as_str().is_empty() {
        return Err(AppError::InvalidInput { message: "Input text is empty".to_owned() });
    }
    let urls = extract_urls(input);
    Ok(urls)
}

} // verus!
