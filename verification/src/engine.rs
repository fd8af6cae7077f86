//! The parts of a running test: statistics, data rows, lifecycle.

use vstd::prelude::*;
use vstd::string::StringExecFns;

pub mod aggregator;
pub mod bucket_map;
pub mod executor;
pub mod virtual_user;

verus! {

/// Where the engine stands in its lifecycle.
#[derive(Debug, Clone, Copy, PartialEq, Eq, Structural)]
pub enum EngineStatus {
    /// No plan is running.
    Idle,
    /// A plan is running.
    Running,
    /// A stop was asked for and the run has not ended yet.
    Stopping,
    /// The run has ended.
    Completed,
    /// The run could not go on.
    Error,
}

impl Default for EngineStatus {
    fn default() -> (status: Self)
        ensures
            status == EngineStatus::Idle,
    {
        EngineStatus::Idle
    }
}

impl EngineStatus {
    /// The status as it is written in an event.
    pub open spec fn text(self) -> Seq<char> {
        match self {
            EngineStatus::Idle => "idle"@,
            EngineStatus::Running => "running"@,
            EngineStatus::Stopping => "stopping"@,
            EngineStatus::Completed => "completed"@,
            EngineStatus::Error => "error"@,
        }
    }

    /// The status as it is written in an event.
    pub fn as_str(&self) -> (s: &'static str)
        ensures
            s@ == self.text(),
    {
        match self {
            EngineStatus::Idle => "idle",
            EngineStatus::Running => "running",
            EngineStatus::Stopping => "stopping",
            EngineStatus::Completed => "completed",
            EngineStatus::Error => "error",
        }
    }

    /// The status as it is written in an event, as a string of its own.
    pub fn to_string(&self) -> (s: String)
        ensures
            s@ == self.text(),
    {
        String::from_str(self.as_str())
    }

    /// Whether the run is over: completed or failed.
    pub fn is_terminal(&self) -> (over: bool)
        ensures
            over == (*self == EngineStatus::Completed || *self == EngineStatus::Error),
    {
        match self {
            EngineStatus::Completed => true,
            EngineStatus::Error => true,
            _ => false,
        }
    }
}

} // verus!
