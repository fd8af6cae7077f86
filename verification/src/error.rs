//! The errors of the library.

use vstd::prelude::*;
use crate::text::join2;

verus! {

/// What can go wrong. An error that came from outside the library is held
/// as its message.
#[derive(Debug, Clone)]
pub enum RmeterError {
    Http(String),
    Io(String),
    Serde(String),
    Validation(String),
    Engine(String),
    PlanNotFound(String),
    Internal(String),
    WebSocket(String),
}

impl RmeterError {
    /// The error as a reader sees it: its kind, then its message.
    pub open spec fn text(self) -> Seq<char> {
        match self {
            RmeterError::Http(m) => "HTTP error: "@ + m@,
            RmeterError::Io(m) => "IO error: "@ + m@,
            RmeterError::Serde(m) => "Serialization error: "@ + m@,
            RmeterError::Validation(m) => "Validation error: "@ + m@,
            RmeterError::Engine(m) => "Engine error: "@ + m@,
            RmeterError::PlanNotFound(m) => "Plan not found: "@ + m@,
            RmeterError::Internal(m) => "Internal error: "@ + m@,
            RmeterError::WebSocket(m) => "WebSocket error: "@ + m@,
        }
    }

    /// Writes the error as a reader sees it.
    pub fn to_string(&self) -> (s: String)
        ensures
            s@ == self.text(),
    {
        match self {
            RmeterError::Http(m) => join2("HTTP error: ", m.as_str()),
            RmeterError::Io(m) => join2("IO error: ", m.as_str()),
            RmeterError::Serde(m) => join2("Serialization error: ", m.as_str()),
            RmeterError::Validation(m) => join2("Validation error: ", m.as_str()),
            RmeterError::Engine(m) => join2("Engine error: ", m.as_str()),
            RmeterError::PlanNotFound(m) => join2("Plan not found: ", m.as_str()),
            RmeterError::Internal(m) => join2("Internal error: ", m.as_str()),
            RmeterError::WebSocket(m) => join2("WebSocket error: ", m.as_str()),
        }
    }
}

} // verus!
