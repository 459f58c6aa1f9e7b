//! The requests and responses that the daemon and its clients exchange on
//! the local socket, and how a client reads the response it gets.
use vstd::prelude::*;

use crate::model::{AppStatus, Event, SourceStatus};

verus! {

/// What a client asks the daemon.
#[derive(Debug, Clone, PartialEq, Eq)]
pub enum IpcRequest {
    Status,
    ListEvents { unread_only: bool, source: Option<String>, limit: usize },
    Sources,
    MarkRead { id: i64 },
}

/// What the daemon answers. `Acknowledged` is the plain `ok` answer on the wire.
#[derive(Debug, Clone, PartialEq, Eq)]
pub enum IpcResponse {
    Acknowledged,
    Error { message: String },
    Status { status: AppStatus },
    Events { events: Vec<Event> },
    Sources { sources: Vec<SourceStatus> },
    MarkRead { changed: bool },
}

/// A client of the daemon socket.
#[derive(Debug, Clone, PartialEq, Eq)]
pub struct IpcClient {
    socket_path: String,
}

impl IpcClient {
    /// A client of the socket at `socket_path`.
    pub fn new(socket_path: String) -> (r: Self)
        ensures
            r.socket()@ == socket_path@,
    {
        IpcClient { socket_path }
    }

    /// The path of the socket.
    pub closed spec fn socket(&self) -> String {
        self.socket_path
    }

    /// The path of the socket.
    pub fn socket_path(&self) -> (r: &str)
        ensures
            r@ == self.socket()@,
    {
        self.socket_path.as_str()
    }
}

/// A response as the client takes it: an `Error` response is the daemon's
/// error message, anything else is the answer.
pub fn response_result(response: IpcResponse) -> (r: Result<IpcResponse, String>)
    ensures
        match response {
            IpcResponse::Error { message } => r is Err && r->Err_0 == message,
            _ => r == Ok::<IpcResponse, String>(response),
        },
{
    match response {
        IpcResponse::Error { message } => Err(message),
        other => Ok(other),
    }
}

/// The status in a `Status` answer; any other answer comes back as the error.
pub fn expect_status(response: IpcResponse) -> (r: Result<AppStatus, IpcResponse>)
    ensures
        match response {
            IpcResponse::Status { status } => r == Ok::<AppStatus, IpcResponse>(status),
            _ => r == Err::<AppStatus, IpcResponse>(response),
        },
{
    match response {
        IpcResponse::Status { status } => Ok(status),
        other => Err(other),
    }
}

/// The events in an `Events` answer; any other answer comes back as the error.
pub fn expect_events(response: IpcResponse) -> (r: Result<Vec<Event>, IpcResponse>)
    ensures
        match response {
            IpcResponse::Events { events } => r == Ok::<Vec<Event>, IpcResponse>(events),
            _ => r == Err::<Vec<Event>, IpcResponse>(response),
        },
{
    match response {
        IpcResponse::Events { events } => Ok(events),
        other => Err(other),
    }
}

/// The sources in a `Sources` answer; any other answer comes back as the error.
pub fn expect_sources(response: IpcResponse) -> (r: Result<Vec<SourceStatus>, IpcResponse>)
    ensures
        match response {
            IpcResponse::Sources { sources } => r == Ok::<Vec<SourceStatus>, IpcResponse>(sources),
            _ => r == Err::<Vec<SourceStatus>, IpcResponse>(response),
        },
{
    match response {
        IpcResponse::Sources { sources } => Ok(sources),
        other => Err(other),
    }
}

/// Whether a `MarkRead` answer changed the event; any other answer comes back
/// as the error.
pub fn expect_mark_read(response: IpcResponse) -> (r: Result<bool, IpcResponse>)
    ensures
        match response {
            IpcResponse::MarkRead { changed } => r == Ok::<bool, IpcResponse>(changed),
            _ => r == Err::<bool, IpcResponse>(response),
        },
{
    match response {
        IpcResponse::MarkRead { changed } => Ok(changed),
        other => Err(other),
    }
}

} // verus!
