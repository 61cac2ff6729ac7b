//! The closed set of failures reported by registry operations and the dispatcher.

use vstd::prelude::*;
use vstd::string::*;

verus! {

/// One error per failure class.  Each variant carries the detail that its
/// human-readable message interpolates.
#[derive(Debug, Clone, PartialEq)]
pub enum DiakonosError {
    /// No unit file or record exists for the named service.
    ServiceNotFound(String),
    /// A record for the named service is already present in the registry.
    ServiceAlreadyExists(String),
    /// A unit file or a request frame was malformed.
    ParseError(String),
    /// Starting a service failed: empty command, spawn failure, or daemon bring-up.
    StartError(String),
    /// Reserved: stopping never fails hard in this design.
    StopError(String),
    /// The activation dependency graph has a cycle through the target.
    DependencyCycle,
    /// An activation dependency names a service that is not in the registry.
    DependencyNotMet(String),
    /// A filesystem or socket failure, carried as text.
    IoError(String),
    /// An unexpected child wait or probe failure.
    ProcessError(String),
}

impl DiakonosError {
    /// The message text of each variant, as the dispatcher reports it.
    pub open spec fn spec_message(self) -> Seq<char> {
        match self {
            DiakonosError::ServiceNotFound(n) => "Service not found: "@ + n@,
            DiakonosError::ServiceAlreadyExists(n) => "Service already exists: "@ + n@,
            DiakonosError::ParseError(d) => "Failed to parse unit file: "@ + d@,
            DiakonosError::StartError(d) => "Failed to start service: "@ + d@,
            DiakonosError::StopError(d) => "Failed to stop service: "@ + d@,
            DiakonosError::DependencyCycle => "Dependency cycle detected"@,
            DiakonosError::DependencyNotMet(n) => "Service dependency not met: "@ + n@,
            DiakonosError::IoError(d) => "IO error: "@ + d@,
            DiakonosError::ProcessError(d) => "Process error: "@ + d@,
        }
    }

    /// Renders the human-readable message for this error.
    pub fn message(&self) -> (r: String)
        ensures
            r@ == self.spec_message(),
    {
        match self {
            DiakonosError::ServiceNotFound(n) => {
                let mut s = String::from_str("Service not found: ");
                s.append(n.as_str());
                s
            },
            DiakonosError::ServiceAlreadyExists(n) => {
                let mut s = String::from_str("Service already exists: ");
                s.append(n.as_str());
                s
            },
            DiakonosError::ParseError(d) => {
                let mut s = String::from_str("Failed to parse unit file: ");
                s.append(d.as_str());
                s
            },
            DiakonosError::StartError(d) => {
                let mut s = String::from_str("Failed to start service: ");
                s.append(d.as_str());
                s
            },
            DiakonosError::StopError(d) => {
                let mut s = String::from_str("Failed to stop service: ");
                s.append(d.as_str());
                s
            },
            DiakonosError::DependencyCycle => String::from_str("Dependency cycle detected"),
            DiakonosError::DependencyNotMet(n) => {
                let mut s = String::from_str("Service dependency not met: ");
                s.append(n.as_str());
                s
            },
            DiakonosError::IoError(d) => {
                let mut s = String::from_str("IO error: ");
                s.append(d.as_str());
                s
            },
            DiakonosError::ProcessError(d) => {
                let mut s = String::from_str("Process error: ");
                s.append(d.as_str());
                s
            },
        }
    }
}

} // verus!
