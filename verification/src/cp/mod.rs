//! Key-Value Store Communication Protocol (KVSCP).
//!
//! Every message is a 5-byte header followed by a payload:
//!
//! * byte 0: the protocol version, [`PROTOCOL_VERSION`];
//! * bytes 1-4: the payload length, big endian;
//! * payload byte 0: the message type (bit 7 set for a response);
//! * payload bytes 1..: the body.
//!
//! All length fields are unsigned 32 bit integers and all numbers are big
//! endian.

pub mod de;
pub mod error;
pub mod format;
pub mod laws;
pub mod ser;

use crate::error::KvStoreError;
use vstd::prelude::*;

verus! {

/// Every message in the protocol must start with the following byte.
pub const PROTOCOL_VERSION: u8 = 0xC1;

/// The fixed size of the header of every message of the protocol.
pub const HEADER_SIZE: usize = 5;

/// Message format for commands used in communication between server and client.
#[derive(Debug, PartialEq, PartialOrd, Eq, Ord)]
pub struct Message {
    payload: MessagePayload,
}

/// The header of the message: the version and the payload length.
#[derive(Debug, PartialEq, PartialOrd, Eq, Ord)]
pub struct Header {
    protocol_version: u8,
    payload_length: u32,
}

/// Distinguishes messages sent from the client to the server (requests) from
/// messages sent from the server to the client (responses).
#[derive(Debug, PartialEq, PartialOrd, Eq, Ord)]
pub enum MessagePayload {
    /// Messages in the direction client to server have a `Request` payload.
    Request(Request),
    /// Messages in the direction server to client have a `Response` payload.
    Response(Response),
}

/// The payload of a `Request` message.
#[derive(Debug, PartialEq, PartialOrd, Eq, Ord)]
pub enum Request {
    /// Request of the type `Set` command.
    Put(RequestSet),
    /// Request of the type `Get` command.
    Get(RequestGet),
    /// Request of the type `Remove` command.
    Remove(RequestRemove),
}

/// A request for a `Set` command.
#[derive(Debug, PartialEq, PartialOrd, Eq, Ord)]
pub struct RequestSet {
    key: String,
    value: String,
}

/// A request for a `Get` command.
#[derive(Debug, PartialEq, PartialOrd, Eq, Ord)]
pub struct RequestGet {
    key: String,
}

/// A request for a `Remove` command.
#[derive(Debug, PartialEq, PartialOrd, Eq, Ord)]
pub struct RequestRemove {
    key: String,
}

/// The payload of a `Response` message.
#[derive(Debug, PartialEq, PartialOrd, Eq, Ord)]
pub enum Response {
    /// Response of the type `Set` command.
    Put(ResponseSet),
    /// Response of the type `Get` command.
    Get(ResponseGet),
    /// Response of the type `Remove` command.
    Remove(ResponseRemove),
}

/// A response for a `Set` command.
#[derive(Debug, PartialEq, PartialOrd, Eq, Ord)]
pub struct ResponseSet {
    code: StatusCode,
}

/// A response for a `Get` command.
#[derive(Debug, PartialEq, PartialOrd, Eq, Ord)]
pub struct ResponseGet {
    code: StatusCode,
    value: Option<String>,
}

/// A response for a `Remove` command.
#[derive(Debug, PartialEq, PartialOrd, Eq, Ord)]
pub struct ResponseRemove {
    code: StatusCode,
}

/// Tells in a response whether the command succeeded, and if not, how it failed.
#[derive(Debug, Clone, Copy, PartialEq, PartialOrd, Eq, Ord)]
pub enum StatusCode {
    /// Success status.
    Okay,
    /// The operation failed because no such key was found in the database.
    KeyNotFound,
    /// The operation failed with a fatal error on the server.
    FatalError,
}

/// What a payload says, with its strings as sequences of characters.
pub enum PayloadView {
    /// Set `key` to `value`.
    ReqSet { key: Seq<char>, value: Seq<char> },
    /// Look `key` up.
    ReqGet { key: Seq<char> },
    /// Remove `key`.
    ReqRemove { key: Seq<char> },
    /// How a set ended.
    RespSet { code: StatusCode },
    /// How a lookup ended, and what it found.
    RespGet { code: StatusCode, found: Option<Seq<char>> },
    /// How a removal ended.
    RespRemove { code: StatusCode },
}

impl View for MessagePayload {
    type V = PayloadView;

    open spec fn view(&self) -> PayloadView {
        match *self {
            MessagePayload::Request(Request::Put(r)) => PayloadView::ReqSet {
                key: r.spec_key(),
                value: r.spec_value(),
            },
            MessagePayload::Request(Request::Get(r)) => PayloadView::ReqGet { key: r.spec_key() },
            MessagePayload::Request(Request::Remove(r)) => PayloadView::ReqRemove {
                key: r.spec_key(),
            },
            MessagePayload::Response(Response::Put(r)) => PayloadView::RespSet {
                code: r.spec_code(),
            },
            MessagePayload::Response(Response::Get(r)) => PayloadView::RespGet {
                code: r.spec_code(),
                found: r.spec_value(),
            },
            MessagePayload::Response(Response::Remove(r)) => PayloadView::RespRemove {
                code: r.spec_code(),
            },
        }
    }
}

impl View for Message {
    type V = PayloadView;

    open spec fn view(&self) -> PayloadView {
        self.spec_payload()@
    }
}

/// The status that tells a client how an engine call ended: success for
/// `Ok`, `KeyNotFound` for the removal of a key that is not there, and
/// `FatalError` for every other error.
pub open spec fn status_of<T>(res: Result<T, KvStoreError>) -> StatusCode {
    match res {
        Ok(_) => StatusCode::Okay,
        Err(KvStoreError::RemoveNonExistentKey) => StatusCode::KeyNotFound,
        Err(_) => StatusCode::FatalError,
    }
}

impl<'a, T> std::convert::From<&'a Result<T, KvStoreError>> for StatusCode {
    fn from(res: &'a Result<T, KvStoreError>) -> (code: StatusCode) {
        match res {
            Ok(_) => StatusCode::Okay,
            Err(KvStoreError::RemoveNonExistentKey) => StatusCode::KeyNotFound,
            Err(_) => StatusCode::FatalError,
        }
    }
}

impl<'a, T> vstd::std_specs::convert::FromSpecImpl<&'a Result<T, KvStoreError>> for StatusCode {
    open spec fn obeys_from_spec() -> bool {
        true
    }

    open spec fn from_spec(res: &'a Result<T, KvStoreError>) -> StatusCode {
        status_of(*res)
    }
}

impl Header {
    /// The header of an empty payload in the current protocol version.
    pub fn new() -> (h: Self)
        ensures
            h.spec_protocol_version() == PROTOCOL_VERSION,
            h.spec_payload_length() == 0,
    {
        Header { protocol_version: PROTOCOL_VERSION, payload_length: 0 }
    }

    /// The version byte of this header.
    pub closed spec fn spec_protocol_version(&self) -> u8 {
        self.protocol_version
    }

    /// The payload length of this header.
    pub closed spec fn spec_payload_length(&self) -> u32 {
        self.payload_length
    }

    /// Get header's protocol version.
    #[verifier::when_used_as_spec(spec_protocol_version)]
    pub fn protocol_version(&self) -> (v: u8)
        ensures
            v == self.spec_protocol_version(),
    {
        self.protocol_version
    }

    /// Get header's payload length.
    #[verifier::when_used_as_spec(spec_payload_length)]
    pub fn payload_length(&self) -> (n: u32)
        ensures
            n == self.spec_payload_length(),
    {
        self.payload_length
    }
}

impl Message {
    /// The payload of this message.
    pub closed spec fn spec_payload(&self) -> MessagePayload {
        self.payload
    }

    /// payload field getter
    pub fn payload(&self) -> (p: &MessagePayload)
        ensures
            *p == self.spec_payload(),
            p@ == self@,
    {
        &self.payload
    }
}

impl std::convert::From<RequestSet> for MessagePayload {
    fn from(req: RequestSet) -> (p: MessagePayload) {
        MessagePayload::Request(Request::Put(req))
    }
}

impl vstd::std_specs::convert::FromSpecImpl<RequestSet> for MessagePayload {
    open spec fn obeys_from_spec() -> bool {
        true
    }

    open spec fn from_spec(req: RequestSet) -> MessagePayload {
        MessagePayload::Request(Request::Put(req))
    }
}

impl std::convert::From<RequestGet> for MessagePayload {
    fn from(req: RequestGet) -> (p: MessagePayload) {
        MessagePayload::Request(Request::Get(req))
    }
}

impl vstd::std_specs::convert::FromSpecImpl<RequestGet> for MessagePayload {
    open spec fn obeys_from_spec() -> bool {
        true
    }

    open spec fn from_spec(req: RequestGet) -> MessagePayload {
        MessagePayload::Request(Request::Get(req))
    }
}

impl std::convert::From<RequestRemove> for MessagePayload {
    fn from(req: RequestRemove) -> (p: MessagePayload) {
        MessagePayload::Request(Request::Remove(req))
    }
}

impl vstd::std_specs::convert::FromSpecImpl<RequestRemove> for MessagePayload {
    open spec fn obeys_from_spec() -> bool {
        true
    }

    open spec fn from_spec(req: RequestRemove) -> MessagePayload {
        MessagePayload::Request(Request::Remove(req))
    }
}

impl std::convert::From<ResponseSet> for MessagePayload {
    fn from(req: ResponseSet) -> (p: MessagePayload) {
        MessagePayload::Response(Response::Put(req))
    }
}

impl vstd::std_specs::convert::FromSpecImpl<ResponseSet> for MessagePayload {
    open spec fn obeys_from_spec() -> bool {
        true
    }

    open spec fn from_spec(req: ResponseSet) -> MessagePayload {
        MessagePayload::Response(Response::Put(req))
    }
}

impl std::convert::From<ResponseGet> for MessagePayload {
    fn from(req: ResponseGet) -> (p: MessagePayload) {
        MessagePayload::Response(Response::Get(req))
    }
}

impl vstd::std_specs::convert::FromSpecImpl<ResponseGet> for MessagePayload {
    open spec fn obeys_from_spec() -> bool {
        true
    }

    open spec fn from_spec(req: ResponseGet) -> MessagePayload {
        MessagePayload::Response(Response::Get(req))
    }
}

impl std::convert::From<ResponseRemove> for MessagePayload {
    fn from(req: ResponseRemove) -> (p: MessagePayload) {
        MessagePayload::Response(Response::Remove(req))
    }
}

impl vstd::std_specs::convert::FromSpecImpl<ResponseRemove> for MessagePayload {
    open spec fn obeys_from_spec() -> bool {
        true
    }

    open spec fn from_spec(req: ResponseRemove) -> MessagePayload {
        MessagePayload::Response(Response::Remove(req))
    }
}

impl RequestSet {
    /// The key to set.
    pub closed spec fn spec_key(&self) -> Seq<char> {
        self.key@
    }

    /// The value to set it to.
    pub closed spec fn spec_value(&self) -> Seq<char> {
        self.value@
    }

    /// Instantiate a new request message for the `Set` command
    pub fn new_message(key: String, value: String) -> (m: Message)
        ensures
            m@ == (PayloadView::ReqSet { key: key@, value: value@ }),
    {
        Message { payload: MessagePayload::Request(Request::Put(RequestSet { key, value })) }
    }

    /// Get a reference to the request set's key.
    pub fn key(&self) -> (k: &str)
        ensures
            k@ == self.spec_key(),
    {
        self.key.as_str()
    }

    /// Get a reference to the request set's value.
    pub fn value(&self) -> (v: &str)
        ensures
            v@ == self.spec_value(),
    {
        self.value.as_str()
    }
}

impl RequestGet {
    /// The key to look up.
    pub closed spec fn spec_key(&self) -> Seq<char> {
        self.key@
    }

    /// Instantiate a new request message for the `Get` command
    pub fn new_message(key: String) -> (m: Message)
        ensures
            m@ == (PayloadView::ReqGet { key: key@ }),
    {
        Message { payload: MessagePayload::Request(Request::Get(RequestGet { key })) }
    }

    /// Get a reference to the request get's key.
    pub fn key(&self) -> (k: &str)
        ensures
            k@ == self.spec_key(),
    {
        self.key.as_str()
    }
}

impl RequestRemove {
    /// The key to remove.
    pub closed spec fn spec_key(&self) -> Seq<char> {
        self.key@
    }

    /// Instantiate a new request message for the `Remove` command
    pub fn new_message(key: String) -> (m: Message)
        ensures
            m@ == (PayloadView::ReqRemove { key: key@ }),
    {
        Message { payload: MessagePayload::Request(Request::Remove(RequestRemove { key })) }
    }

    /// Get a reference to the request remove's key.
    pub fn key(&self) -> (k: &str)
        ensures
            k@ == self.spec_key(),
    {
        self.key.as_str()
    }
}

impl ResponseSet {
    /// How the set ended.
    pub closed spec fn spec_code(&self) -> StatusCode {
        self.code
    }

    /// Instantiate a new response message for the `Set` command
    pub fn new_message(code: StatusCode) -> (m: Message)
        ensures
            m@ == (PayloadView::RespSet { code }),
    {
        Message { payload: MessagePayload::Response(Response::Put(ResponseSet { code })) }
    }

    /// Get a reference to the response set's code.
    pub fn code(&self) -> (c: &StatusCode)
        ensures
            *c == self.spec_code(),
    {
        &self.code
    }
}

impl ResponseGet {
    /// How the lookup ended.
    pub closed spec fn spec_code(&self) -> StatusCode {
        self.code
    }

    /// What the lookup found.
    pub closed spec fn spec_value(&self) -> Option<Seq<char>> {
        match self.value {
            Some(v) => Some(v@),
            None => None,
        }
    }

    /// Instantiate a new response message for the `Get` command
    pub fn new_message(code: StatusCode, value: Option<String>) -> (m: Message)
        ensures
            m@ == (PayloadView::RespGet {
                code,
                found: match value {
                    Some(v) => Some(v@),
                    None => None,
                },
            }),
    {
        Message { payload: MessagePayload::Response(Response::Get(ResponseGet { code, value })) }
    }

    /// Get a reference to the response get's code.
    pub fn code(&self) -> (c: &StatusCode)
        ensures
            *c == self.spec_code(),
    {
        &self.code
    }

    /// Get a reference to the response get's value.
    pub fn value(&self) -> (v: Option<&String>)
        ensures
            match v {
                Some(s) => self.spec_value() == Some(s@),
                None => self.spec_value() is None,
            },
    {
        self.value.as_ref()
    }
}

impl ResponseRemove {
    /// How the removal ended.
    pub closed spec fn spec_code(&self) -> StatusCode {
        self.code
    }

    /// Instantiate a new response message for the `Remove` command
    pub fn new_message(code: StatusCode) -> (m: Message)
        ensures
            m@ == (PayloadView::RespRemove { code }),
    {
        Message { payload: MessagePayload::Response(Response::Remove(ResponseRemove { code })) }
    }

    /// Get a reference to the response remove's code.
    pub fn code(&self) -> (c: &StatusCode)
        ensures
            *c == self.spec_code(),
    {
        &self.code
    }
}

} // verus!
