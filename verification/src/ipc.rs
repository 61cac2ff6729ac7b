//! The request/response model of the local-socket protocol, with ghost
//! views over character sequences for stating codec laws.

use vstd::prelude::*;
use crate::service::ServiceState;

verus! {

/// One client request.
#[derive(Debug, Clone, PartialEq)]
pub enum Request {
    Start { service: String },
    Stop { service: String },
    Restart { service: String },
    Status { service: String },
    List,
    Ping,
    Shutdown,
}

/// One daemon response.
#[derive(Debug, Clone, PartialEq)]
pub enum Response {
    Okay { message: String },
    Error { message: String },
    Status { service: String, state: ServiceState },
    List { services: Vec<(String, ServiceState)> },
    Pong,
}

/// The mathematical shape of a request: its strings as character sequences.
pub enum ReqView {
    Start(Seq<char>),
    Stop(Seq<char>),
    Restart(Seq<char>),
    Status(Seq<char>),
    List,
    Ping,
    Shutdown,
}

/// The mathematical shape of a response.
pub enum RespView {
    OkMsg(Seq<char>),
    ErrMsg(Seq<char>),
    Status(Seq<char>, ServiceState),
    List(Seq<(Seq<char>, ServiceState)>),
    Pong,
}

/// The name/state pairs of a `List` response as ghost pairs.
pub open spec fn pairs_view(v: Seq<(String, ServiceState)>) -> Seq<(Seq<char>, ServiceState)> {
    Seq::new(v.len(), |i: int| (v[i].0@, v[i].1))
}

impl View for Request {
    type V = ReqView;

    open spec fn view(&self) -> ReqView {
        match self {
            Request::Start { service } => ReqView::Start(service@),
            Request::Stop { service } => ReqView::Stop(service@),
            Request::Restart { service } => ReqView::Restart(service@),
            Request::Status { service } => ReqView::Status(service@),
            Request::List => ReqView::List,
            Request::Ping => ReqView::Ping,
            Request::Shutdown => ReqView::Shutdown,
        }
    }
}

impl View for Response {
    type V = RespView;

    open spec fn view(&self) -> RespView {
        match self {
            Response::Okay { message } => RespView::OkMsg(message@),
            Response::Error { message } => RespView::ErrMsg(message@),
            Response::Status { service, state } => RespView::Status(service@, *state),
            Response::List { services } => RespView::List(pairs_view(services@)),
            Response::Pong => RespView::Pong,
        }
    }
}

impl Response {
    /// A confirmation carrying a human-readable message.
    pub fn ok(message: String) -> (r: Self)
        ensures
            r == (Response::Okay { message }),
    {
        Response::Okay { message }
    }

    /// A failure carrying a human-readable message.
    pub fn error(message: String) -> (r: Self)
        ensures
            r == (Response::Error { message }),
    {
        Response::Error { message }
    }
}

} // verus!
