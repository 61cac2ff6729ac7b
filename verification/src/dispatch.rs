//! Turns the outcome of each registry operation into the response the
//! dispatcher sends, with the exact message text pinned down.

use vstd::prelude::*;
use vstd::string::*;
use crate::error::DiakonosError;
use crate::ipc::{ReqView, Request, Response};
use crate::service::ServiceState;

verus! {

/// The confirmation text after a successful start.
pub open spec fn started_message(s: Seq<char>) -> Seq<char> {
    "Service '"@ + s + "' started successfully"@
}

/// The failure text when a start fails with `e`.
pub open spec fn start_failed_message(s: Seq<char>, e: DiakonosError) -> Seq<char> {
    "Failed to start service '"@ + s + "': "@ + e.spec_message()
}

/// The confirmation text after a successful stop.
pub open spec fn stopped_message(s: Seq<char>) -> Seq<char> {
    "Service '"@ + s + "' stopped successfully"@
}

/// The failure text when a stop fails with `e`.
pub open spec fn stop_failed_message(s: Seq<char>, e: DiakonosError) -> Seq<char> {
    "Failed to stop service '"@ + s + "': "@ + e.spec_message()
}

/// The confirmation text after a successful restart.
pub open spec fn restarted_message(s: Seq<char>) -> Seq<char> {
    "Service '"@ + s + "' restarted successfully"@
}

/// The failure text when a restart fails with `e`.
pub open spec fn restart_failed_message(s: Seq<char>, e: DiakonosError) -> Seq<char> {
    "Failed to restart service '"@ + s + "': "@ + e.spec_message()
}

/// The failure text when a status read fails with `e`.
pub open spec fn status_failed_message(s: Seq<char>, e: DiakonosError) -> Seq<char> {
    "Failed to get status for '"@ + s + "': "@ + e.spec_message()
}

fn quoted_prefix(prefix: &str, service: &String) -> (r: String)
    ensures
        r@ == prefix@ + service@,
{
    let mut s = String::from_str(prefix);
    s.append(service.as_str());
    s
}

/// The response to `Start`: a confirmation, or the failure with its cause.
pub fn response_for_start(service: &String, outcome: &Result<(), DiakonosError>) -> (r: Response)
    ensures
        outcome is Ok ==> (r matches Response::Okay { message } && message@ == started_message(
            service@,
        )),
        outcome matches Err(e) ==> (r matches Response::Error { message } && message@
            == start_failed_message(service@, *e)),
{
    match outcome {
        Ok(_) => {
            let mut s = quoted_prefix("Service '", service);
            s.append("' started successfully");
            Response::ok(s)
        },
        Err(e) => {
            let mut s = quoted_prefix("Failed to start service '", service);
            s.append("': ");
            s.append(e.message().as_str());
            Response::error(s)
        },
    }
}

/// The response to `Stop`.
pub fn response_for_stop(service: &String, outcome: &Result<(), DiakonosError>) -> (r: Response)
    ensures
        outcome is Ok ==> (r matches Response::Okay { message } && message@ == stopped_message(
            service@,
        )),
        outcome matches Err(e) ==> (r matches Response::Error { message } && message@
            == stop_failed_message(service@, *e)),
{
    match outcome {
        Ok(_) => {
            let mut s = quoted_prefix("Service '", service);
            s.append("' stopped successfully");
            Response::ok(s)
        },
        Err(e) => {
            let mut s = quoted_prefix("Failed to stop service '", service);
            s.append("': ");
            s.append(e.message().as_str());
            Response::error(s)
        },
    }
}

/// The response to `Restart`.
pub fn response_for_restart(service: &String, outcome: &Result<(), DiakonosError>) -> (r:
    Response)
    ensures
        outcome is Ok ==> (r matches Response::Okay { message } && message@ == restarted_message(
            service@,
        )),
        outcome matches Err(e) ==> (r matches Response::Error { message } && message@
            == restart_failed_message(service@, *e)),
{
    match outcome {
        Ok(_) => {
            let mut s = quoted_prefix("Service '", service);
            s.append("' restarted successfully");
            Response::ok(s)
        },
        Err(e) => {
            let mut s = quoted_prefix("Failed to restart service '", service);
            s.append("': ");
            s.append(e.message().as_str());
            Response::error(s)
        },
    }
}

/// The response to `Status`: the state by name, or the failure with its
/// cause.
pub fn response_for_status(service: &String, outcome: &Result<ServiceState, DiakonosError>) -> (r:
    Response)
    ensures
        outcome matches Ok(st) ==> r == (Response::Status {
            service: *service,
            state: *st,
        }),
        outcome matches Err(e) ==> (r matches Response::Error { message } && message@
            == status_failed_message(service@, *e)),
{
    match outcome {
        Ok(st) => Response::Status { service: service.clone(), state: *st },
        Err(e) => {
            let mut s = quoted_prefix("Failed to get status for '", service);
            s.append("': ");
            s.append(e.message().as_str());
            Response::error(s)
        },
    }
}

/// The acknowledgement sent before the daemon terminates.
pub fn response_for_shutdown() -> (r: Response)
    ensures
        r matches Response::Okay { message } && message@ == "Daemon shutting down"@,
{
    Response::ok(String::from_str("Daemon shutting down"))
}

/// Whether the daemon must terminate after answering this request.
pub fn should_terminate(req: &Request) -> (r: bool)
    ensures
        r == (req@ is Shutdown),
{
    match req {
        Request::Shutdown => true,
        _ => false,
    }
}

/// The reply to a frame that does not decode to a request.
pub fn response_for_invalid() -> (r: Response)
    ensures
        r matches Response::Error { message } && message@ == "Invalid request"@,
{
    Response::error(String::from_str("Invalid request"))
}

} // verus!
