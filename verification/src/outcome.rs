//! What one request attempt came to.

use vstd::prelude::*;

verus! {

/// The HTTP method of a request.
#[derive(Clone, Copy, Debug, PartialEq, Eq, Structural)]
pub enum Method {
    Delete,
    Get,
    Head,
    Patch,
    Post,
    Put,
}

/// Why a request got no usable response.
#[derive(Clone, Copy, Debug, PartialEq, Eq, Structural)]
pub enum ErrorKind {
    /// No response arrived in time.
    Timeout,
    /// The target refused the connection.
    ConnectionRefused,
    /// The connection broke while the request was under way.
    ConnectionReset,
    /// Something arrived that is no HTTP response.
    MalformedResponse,
    /// Any other failure of the transport.
    Other,
}

/// What the transport tells of a request that got no usable response.
#[derive(Clone, Copy, Debug, PartialEq, Eq, Structural)]
pub struct TransportFailure {
    /// The time allowed for the request ran out.
    pub timed_out: bool,
    /// The failure came while the connection was being set up.
    pub connecting: bool,
    /// The failure came while the response was being read or decoded.
    pub receiving: bool,
    /// The failure came while the request was being sent.
    pub sending: bool,
}

/// The kind of a transport failure. A failure that is told in several ways
/// is of the first kind that fits: a timeout before all else, then a
/// connection that could not be set up, then a response that could not be
/// read, then a connection that broke while the request was sent.
pub open spec fn kind_of(failure: TransportFailure) -> ErrorKind {
    if failure.timed_out {
        ErrorKind::Timeout
    } else if failure.connecting {
        ErrorKind::ConnectionRefused
    } else if failure.receiving {
        ErrorKind::MalformedResponse
    } else if failure.sending {
        ErrorKind::ConnectionReset
    } else {
        ErrorKind::Other
    }
}

impl TransportFailure {
    /// The kind of this failure.
    pub fn kind(&self) -> (kind: ErrorKind)
        ensures
            kind == kind_of(*self),
    {
        if self.timed_out {
            ErrorKind::Timeout
        } else if self.connecting {
            ErrorKind::ConnectionRefused
        } else if self.receiving {
            ErrorKind::MalformedResponse
        } else if self.sending {
            ErrorKind::ConnectionReset
        } else {
            ErrorKind::Other
        }
    }
}

/// How a request ended: with a response, of which the status code is kept,
/// or without one.
#[derive(Clone, Copy, Debug, PartialEq, Eq, Structural)]
pub enum Completion {
    Status(u16),
    Failed(ErrorKind),
}

/// The class under which a completion is counted.
#[derive(Clone, Copy, Debug, PartialEq, Eq, Structural)]
pub enum StatusClass {
    /// Status 100 to 199.
    Informational,
    /// Status 200 to 299.
    Success,
    /// Status 300 to 399.
    Redirection,
    /// Status 400 to 499.
    ClientError,
    /// Status 500 to 599.
    ServerError,
    /// A status below 100 or above 599.
    Unassigned,
    /// No response at all.
    TransportError,
}

/// The class of `completion`.
pub open spec fn class_of(completion: Completion) -> StatusClass {
    match completion {
        Completion::Failed(_) => StatusClass::TransportError,
        Completion::Status(code) => if 100 <= code < 200 {
            StatusClass::Informational
        } else if 200 <= code < 300 {
            StatusClass::Success
        } else if 300 <= code < 400 {
            StatusClass::Redirection
        } else if 400 <= code < 500 {
            StatusClass::ClientError
        } else if 500 <= code < 600 {
            StatusClass::ServerError
        } else {
            StatusClass::Unassigned
        },
    }
}

/// Whether `completion` counts as a success: a response with a status from
/// 200 to 299. Everything else is a failed request.
pub open spec fn succeeded(completion: Completion) -> bool {
    completion matches Completion::Status(code) && 200 <= code < 300
}

impl Completion {
    /// The class under which this completion is counted.
    pub fn class(&self) -> (class: StatusClass)
        ensures
            class == class_of(*self),
    {
        match self {
            Completion::Failed(_) => StatusClass::TransportError,
            Completion::Status(code) => {
                let code: u16 = *code;
                if code < 100 {
                    StatusClass::Unassigned
                } else if code < 200 {
                    StatusClass::Informational
                } else if code < 300 {
                    StatusClass::Success
                } else if code < 400 {
                    StatusClass::Redirection
                } else if code < 500 {
                    StatusClass::ClientError
                } else if code < 600 {
                    StatusClass::ServerError
                } else {
                    StatusClass::Unassigned
                }
            },
        }
    }

    /// Whether this completion counts as a success.
    pub fn is_success(&self) -> (success: bool)
        ensures
            success == succeeded(*self),
            success == (class_of(*self) == StatusClass::Success),
    {
        match self {
            Completion::Failed(_) => false,
            Completion::Status(code) => 200 <= *code && *code < 300,
        }
    }
}

/// The record of one request attempt. It is made by the virtual user that
/// made the attempt, and names that user and the payload that was sent.
#[derive(Clone, Debug, PartialEq, Eq)]
pub struct Outcome {
    /// The virtual user that made the attempt.
    pub user: usize,
    /// The index in the corpus of the payload that was sent.
    pub payload: usize,
    /// The path that was requested.
    pub path: String,
    /// The method of the request.
    pub method: Method,
    /// How the attempt ended.
    pub completion: Completion,
    /// Milliseconds from sending the request to its completion.
    pub latency_ms: u64,
    /// When the attempt completed, in milliseconds on the caller's clock.
    pub timestamp_ms: u64,
}

/// The mathematical content of an outcome.
pub struct OutcomeModel {
    pub user: usize,
    pub payload: usize,
    pub path: Seq<char>,
    pub method: Method,
    pub completion: Completion,
    pub latency_ms: u64,
    pub timestamp_ms: u64,
}

impl View for Outcome {
    type V = OutcomeModel;

    open spec fn view(&self) -> OutcomeModel {
        OutcomeModel {
            user: self.user,
            payload: self.payload,
            path: self.path@,
            method: self.method,
            completion: self.completion,
            latency_ms: self.latency_ms,
            timestamp_ms: self.timestamp_ms,
        }
    }
}

} // verus!
