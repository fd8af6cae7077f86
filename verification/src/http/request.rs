//! What is needed to send one request.

use vstd::prelude::*;
use crate::plan::model::{HttpMethod, RequestBody};
use crate::string_map::StringMap;

verus! {

/// How a request proves who sends it.
#[derive(Debug, Clone)]
pub enum Auth {
    Bearer(String),
    Basic { username: String, password: Option<String> },
}

/// One request to send.
#[derive(Debug, Clone)]
pub struct SendRequestInput {
    pub method: HttpMethod,
    pub url: String,
    pub headers: StringMap,
    pub body: Option<RequestBody>,
    pub auth: Option<Auth>,
}

} // verus!
