//! Types shared by the URL normalizer and the platform parsers.

use vstd::prelude::*;

verus! {

/// Normalized URL after cleaning, decoding, and redirect resolution.
#[derive(Debug, Clone)]
pub struct NormalizedUrl {
    pub original: String,
    pub canonical: String,
    pub host: String,
    pub path: String,
}

} // verus!
