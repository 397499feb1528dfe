//! Why a request cannot be served.

use vstd::prelude::*;

verus! {

/// Who a failure is blamed on.
#[derive(Debug, Clone, Copy, PartialEq, Eq, Structural)]
pub enum ErrorKind {
    /// The client is answered with this status.
    HttpStatus(u16),
    InternalError,
}

/// A failure, with its explanation.
#[derive(Debug)]
pub struct ProxyError {
    pub kind: ErrorKind,
    pub message: String,
}

/// What a [`ProxyError`] holds.
pub struct Failure {
    pub kind: ErrorKind,
    pub message: Seq<char>,
}

impl View for ProxyError {
    type V = Failure;

    open spec fn view(&self) -> Failure {
        Failure { kind: self.kind, message: self.message@ }
    }
}

impl ProxyError {
    /// A failure that the client is to blame for.
    pub fn bad_request(message: &str) -> (r: Self)
        ensures
            r@ == bad_request(message@),
    {
        ProxyError { kind: ErrorKind::HttpStatus(400), message: message.to_owned() }
    }

    /// A failure inside the proxy.
    pub fn internal(message: &str) -> (r: Self)
        ensures
            r@ == internal_error(message@),
    {
        ProxyError { kind: ErrorKind::InternalError, message: message.to_owned() }
    }
}

/// The failure that answers a request with status 400.
pub open spec fn bad_request(message: Seq<char>) -> Failure {
    Failure { kind: ErrorKind::HttpStatus(400), message }
}

/// The failure of the proxy itself.
pub open spec fn internal_error(message: Seq<char>) -> Failure {
    Failure { kind: ErrorKind::InternalError, message }
}

} // verus!
