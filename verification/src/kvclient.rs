//! The client's part that decides: what a response means for the command
//! that was sent.

use crate::cp::error::Error;
use crate::cp::{MessagePayload, PayloadView, Response, StatusCode};
use vstd::prelude::*;
use vstd::string::StringExecFns;

verus! {

/// Error returned by the client API.
#[derive(Debug)]
pub enum KvClientError<'a> {
    /// server address is invalid
    InvalidServerAddress {
        /// Actual address
        addr: &'a str,
        /// Internal cause
        cause: String,
    },
    /// io operation failed
    IoError(String),
    /// Communication protocol error
    CommunicationProtocolError(Error),
    /// The key was not present at the database
    KeyNotFound,
    /// An internal server error ocurred
    ServerError,
    /// The client received a message of the wrong kind back from the server:
    /// a request, or the response to another command.
    CommunicationProtocolMessageWrongKind,
}

impl<'a> KvClientError<'a> {
    /// The error in words.
    pub fn to_string(&self) -> (r: String)
        ensures
            r@ == match *self {
                KvClientError::InvalidServerAddress { addr, cause } => {
                    "Invalid socket address: "@ + addr@ + ". Error: "@ + cause@
                },
                KvClientError::IoError(cause) => "Io error: "@ + cause@,
                KvClientError::CommunicationProtocolError(err) => {
                    "KVS Communication protocol error: "@ + err.text()
                },
                KvClientError::KeyNotFound => "Key not found"@,
                KvClientError::ServerError => "Internal server error"@,
                KvClientError::CommunicationProtocolMessageWrongKind => {
                    "KVS Communication protocol error: client received a message of the wrong kind"@
                },
            },
    {
        match self {
            KvClientError::InvalidServerAddress { addr, cause } => {
                let mut r = String::from_str("Invalid socket address: ");
                r.append(addr);
                r.append(". Error: ");
                r.append(cause.as_str());
                r
            },
            KvClientError::IoError(cause) => {
                let mut r = String::from_str("Io error: ");
                r.append(cause.as_str());
                r
            },
            KvClientError::CommunicationProtocolError(err) => {
                let mut r = String::from_str("KVS Communication protocol error: ");
                r.append(err.to_string().as_str());
                r
            },
            KvClientError::KeyNotFound => String::from_str("Key not found"),
            KvClientError::ServerError => String::from_str("Internal server error"),
            KvClientError::CommunicationProtocolMessageWrongKind => String::from_str(
                "KVS Communication protocol error: client received a message of the wrong kind",
            ),
        }
    }
}

/// What a status means for a command that gives nothing back.
pub open spec fn outcome_of(code: StatusCode) -> Result<(), KvClientError<'static>> {
    match code {
        StatusCode::Okay => Ok(()),
        StatusCode::KeyNotFound => Err(KvClientError::KeyNotFound),
        StatusCode::FatalError => Err(KvClientError::ServerError),
    }
}

/// What `code` means for a command that gives nothing back.
fn outcome(code: &StatusCode) -> (r: Result<(), KvClientError<'static>>)
    ensures
        r == outcome_of(*code),
{
    match code {
        StatusCode::KeyNotFound => Err(KvClientError::KeyNotFound),
        StatusCode::FatalError => Err(KvClientError::ServerError),
        StatusCode::Okay => Ok(()),
    }
}

/// What the server's answer `payload` means for a `set` command: the
/// outcome that its status stands for, where it is the response to a `set`.
pub fn set_result(payload: &MessagePayload) -> (r: Result<(), KvClientError<'static>>)
    ensures
        r == match payload@ {
            PayloadView::RespSet { code } => outcome_of(code),
            _ => Err(KvClientError::CommunicationProtocolMessageWrongKind),
        },
{
    match payload {
        MessagePayload::Response(Response::Put(r)) => outcome(r.code()),
        _ => Err(KvClientError::CommunicationProtocolMessageWrongKind),
    }
}

/// What the server's answer `payload` means for a `get` command, where it is
/// the response to a `get`: the value that was found, none for a key that is
/// not there under either status that says so, and an error for a failure of
/// the server.
pub fn get_result(payload: &MessagePayload) -> (r: Result<Option<String>, KvClientError<'static>>)
    ensures
        match payload@ {
            PayloadView::RespGet { code: StatusCode::Okay, found: Some(v) } => r matches Ok(
                Some(s),
            ) && s@ == v,
            PayloadView::RespGet { code: StatusCode::Okay, found: None } => r matches Ok(None),
            PayloadView::RespGet { code: StatusCode::KeyNotFound, .. } => r matches Ok(None),
            PayloadView::RespGet { code: StatusCode::FatalError, .. } => r matches Err(
                KvClientError::ServerError,
            ),
            _ => r matches Err(KvClientError::CommunicationProtocolMessageWrongKind),
        },
{
    match payload {
        MessagePayload::Response(Response::Get(r)) => match r.code() {
            StatusCode::KeyNotFound => Ok(None),
            StatusCode::FatalError => Err(KvClientError::ServerError),
            StatusCode::Okay => match r.value() {
                Some(s) => Ok(Some(s.clone())),
                None => Ok(None),
            },
        },
        _ => Err(KvClientError::CommunicationProtocolMessageWrongKind),
    }
}

/// What the server's answer `payload` means for a `rm` command: the outcome
/// that its status stands for, where it is the response to a `rm`.
pub fn rm_result(payload: &MessagePayload) -> (r: Result<(), KvClientError<'static>>)
    ensures
        r == match payload@ {
            PayloadView::RespRemove { code } => outcome_of(code),
            _ => Err(KvClientError::CommunicationProtocolMessageWrongKind),
        },
{
    match payload {
        MessagePayload::Response(Response::Remove(r)) => outcome(r.code()),
        _ => Err(KvClientError::CommunicationProtocolMessageWrongKind),
    }
}

} // verus!
