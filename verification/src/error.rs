//! The error type every fallible operation of the client reports: a kind
//! (which picks how the UI presents it) plus a fixed, user-facing sentence.

use vstd::prelude::*;

use crate::text::owned;

verus! {

/// What class of failure an error is.
#[derive(Debug, Clone, Copy, PartialEq, Eq, Structural)]
pub enum ClientErrorKind {
    Network,
    Auth,
    RateLimited,
    Invalid,
    Server,
    Storage,
    Unsupported,
    Unknown,
}

/// A kind-tagged, user-presentable error.
#[derive(Debug, Clone, PartialEq, Eq)]
pub struct ClientError {
    pub kind: ClientErrorKind,
    pub message: String,
}

impl ClientError {
    /// An error of `kind` carrying `message`.
    pub fn new(kind: ClientErrorKind, message: &str) -> (e: ClientError)
        ensures
            e.kind == kind,
            e.message@ == message@,
    {
        ClientError { kind, message: owned(message) }
    }

    pub fn network(message: &str) -> (e: ClientError)
        ensures
            e.kind == ClientErrorKind::Network,
            e.message@ == message@,
    {
        Self::new(ClientErrorKind::Network, message)
    }

    pub fn auth(message: &str) -> (e: ClientError)
        ensures
            e.kind == ClientErrorKind::Auth,
            e.message@ == message@,
    {
        Self::new(ClientErrorKind::Auth, message)
    }

    pub fn rate_limited(message: &str) -> (e: ClientError)
        ensures
            e.kind == ClientErrorKind::RateLimited,
            e.message@ == message@,
    {
        Self::new(ClientErrorKind::RateLimited, message)
    }

    pub fn invalid(message: &str) -> (e: ClientError)
        ensures
            e.kind == ClientErrorKind::Invalid,
            e.message@ == message@,
    {
        Self::new(ClientErrorKind::Invalid, message)
    }

    pub fn server(message: &str) -> (e: ClientError)
        ensures
            e.kind == ClientErrorKind::Server,
            e.message@ == message@,
    {
        Self::new(ClientErrorKind::Server, message)
    }

    pub fn storage(message: &str) -> (e: ClientError)
        ensures
            e.kind == ClientErrorKind::Storage,
            e.message@ == message@,
    {
        Self::new(ClientErrorKind::Storage, message)
    }

    pub fn unsupported(message: &str) -> (e: ClientError)
        ensures
            e.kind == ClientErrorKind::Unsupported,
            e.message@ == message@,
    {
        Self::new(ClientErrorKind::Unsupported, message)
    }

    pub fn unknown(message: &str) -> (e: ClientError)
        ensures
            e.kind == ClientErrorKind::Unknown,
            e.message@ == message@,
    {
        Self::new(ClientErrorKind::Unknown, message)
    }

    /// The text shown for this error: its message.
    pub fn to_display_string(&self) -> (s: String)
        ensures
            s@ == self.message@,
    {
        self.message.clone()
    }
}

} // verus!
