//! What came back for one request.

use vstd::prelude::*;
use crate::string_map::StringMap;

verus! {

/// The response to one request. Of a header that came more than once the
/// last value is kept; `size_bytes` counts the raw body.
#[derive(Debug, Clone)]
pub struct SendRequestOutput {
    pub status: u16,
    pub headers: StringMap,
    pub body: String,
    pub elapsed_ms: u64,
    pub size_bytes: u64,
}

} // verus!
