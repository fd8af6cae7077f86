//! What a run reports: the final summary and the event of each request.

pub mod export;

use vstd::prelude::*;
use uuid::Uuid;
use crate::assertions::AssertionResult;
use crate::extractors::ExtractionResult;
use crate::string_map::StringMap;

verus! {

/// The statistics of a finished run. Times of day are milliseconds since the
/// Unix epoch; the mean response time is `sum_response_ms / total_requests`.
#[derive(Debug, Clone)]
pub struct TestSummary {
    pub plan_id: Uuid,
    pub plan_name: String,
    pub started_at_ms: i64,
    pub finished_at_ms: i64,
    pub total_requests: u64,
    pub successful_requests: u64,
    pub failed_requests: u64,
    pub min_response_ms: u64,
    pub max_response_ms: u64,
    pub sum_response_ms: u64,
    pub p50_response_ms: u64,
    pub p95_response_ms: u64,
    pub p99_response_ms: u64,
    pub total_bytes_received: u64,
}


/// The greatest number of bytes of a response body that an event keeps.
pub const MAX_RESPONSE_BODY_LEN: usize = 4096;

/// What came of one request. `timestamp_ms` is the wall-clock time at which
/// the request began, in milliseconds since the Unix epoch; `status_code` is
/// 0 where no response came.
#[derive(Debug, Clone)]
pub struct RequestResultEvent {
    pub id: Uuid,
    pub plan_id: Uuid,
    pub thread_group_name: String,
    pub request_name: String,
    pub timestamp_ms: i64,
    pub status_code: u16,
    pub elapsed_ms: u64,
    pub size_bytes: u64,
    /// Whether every assertion passed; true where there was none.
    pub assertions_passed: bool,
    /// Why no response came, where none did.
    pub error: Option<String>,
    pub assertion_results: Vec<AssertionResult>,
    pub extraction_results: Vec<ExtractionResult>,
    /// The method and the URL as they were sent.
    pub method: String,
    pub url: String,
    /// The response's headers, their names in lower case.
    pub response_headers: StringMap,
    /// The beginning of the response's body.
    pub response_body: Option<String>,
}

} // verus!
