//! The server's part that decides: which response answers a request, and
//! what the event loop does on each event.

use crate::cp::{
    status_of, Message, MessagePayload, PayloadView, Request, Response, ResponseGet,
    ResponseRemove, ResponseSet, StatusCode,
};
use crate::error::KvStoreError;
use crate::kvsengine::KvsEngine;
use std::sync::atomic::{AtomicBool, Ordering};
use std::sync::Arc;
use vstd::prelude::*;
use vstd::string::StringExecFns;

verus! {

/// How often a poll that a signal interrupted is tried again.
pub const POLL_ATTEMPTS: u16 = 10;

/// The exit code of a server that stopped on a failure.
pub const EXIT_FAILURE: i32 = 1;

/// The signal that tells the server to stop running: a flag that its
/// holders share. Any holder may set it at any time, so nothing is promised
/// of what a read gives.
#[derive(Debug, Clone)]
pub struct KvServerShutdownTrigger(Arc<AtomicBool>);

impl KvServerShutdownTrigger {
    /// Creates a new shutdown signal that was not fired.
    pub fn new() -> Self {
        KvServerShutdownTrigger(Arc::new(AtomicBool::new(false)))
    }

    /// Fires a signal to the server indicating that it must shutdown
    pub fn trigger(&self) {
        self.0.store(true, Ordering::Release);
    }

    /// Tells if the signal was fired
    pub fn must_shutdown(&self) -> bool {
        self.0.load(Ordering::Acquire)
    }
}

/// The error type returned when a server cannot be created.
#[derive(Debug)]
pub enum KvServerCreationError<'a> {
    /// Engine not supported
    EngineParseError {
        /// engine that the user tried to instantiate
        engine_name: &'a str,
    },
    /// Socket is invalid
    InvalidSocketAddress {
        /// Actual address
        addr: &'a str,
        /// Internal cause
        cause: String,
    },
    /// IO operation failed
    IoError {
        /// Internal cause
        cause: String,
    },
    /// The listener failed to start
    UnableToStartListener,
}

impl<'a> KvServerCreationError<'a> {
    /// The error in words.
    pub fn to_string(&self) -> (r: String)
        ensures
            r@ == match *self {
                KvServerCreationError::EngineParseError { engine_name } => {
                    "Engine parse error: engine "@ + engine_name@ + " not supported"@
                },
                KvServerCreationError::InvalidSocketAddress { addr, cause } => {
                    "Invalid socket address: "@ + addr@ + ". Error: "@ + cause@
                },
                KvServerCreationError::UnableToStartListener => "Could not start listener"@,
                KvServerCreationError::IoError { cause } => {
                    "IO operation failed with error: "@ + cause@
                },
            },
    {
        match self {
            KvServerCreationError::EngineParseError { engine_name } => {
                let mut r = String::from_str("Engine parse error: engine ");
                r.append(engine_name);
                r.append(" not supported");
                r
            },
            KvServerCreationError::InvalidSocketAddress { addr, cause } => {
                let mut r = String::from_str("Invalid socket address: ");
                r.append(addr);
                r.append(". Error: ");
                r.append(cause.as_str());
                r
            },
            KvServerCreationError::UnableToStartListener => String::from_str(
                "Could not start listener",
            ),
            KvServerCreationError::IoError { cause } => {
                let mut r = String::from_str("IO operation failed with error: ");
                r.append(cause.as_str());
                r
            },
        }
    }
}

/// The value that a lookup found, as its characters.
pub open spec fn found_of(res: Result<Option<String>, KvStoreError>) -> Option<Seq<char>> {
    match res {
        Ok(Some(v)) => Some(v@),
        _ => None,
    }
}

/// The response to a `Set` request on which the engine returned `res`.
pub fn set_response(res: &Result<(), KvStoreError>) -> (m: Message)
    ensures
        m@ == (PayloadView::RespSet { code: status_of(*res) }),
{
    ResponseSet::new_message(StatusCode::from(res))
}

/// The response to a `Get` request on which the engine returned `res`: the
/// status, and the value where one was found. A key that is not there is no
/// failure: the status is success and the value is absent.
pub fn get_response(res: Result<Option<String>, KvStoreError>) -> (m: Message)
    ensures
        m@ == (PayloadView::RespGet { code: status_of(res), found: found_of(res) }),
{
    let code = StatusCode::from(&res);
    let value = match res {
        Ok(v) => v,
        Err(_) => None,
    };
    ResponseGet::new_message(code, value)
}

/// The response to a `Remove` request on which the engine returned `res`.
pub fn remove_response(res: &Result<(), KvStoreError>) -> (m: Message)
    ensures
        m@ == (PayloadView::RespRemove { code: status_of(*res) }),
{
    ResponseRemove::new_message(StatusCode::from(res))
}

/// The response to a peer that sent a response where a request was due.
pub fn protocol_violation_response() -> (m: Message)
    ensures
        m@ == (PayloadView::RespSet { code: StatusCode::FatalError }),
{
    ResponseSet::new_message(StatusCode::FatalError)
}

/// What a request asks of the engine.
#[derive(Debug, PartialEq, Eq)]
pub enum EngineCall {
    /// Set `key` to `value`.
    Put {
        /// The key.
        key: String,
        /// Its new value.
        value: String,
    },
    /// Look `key` up.
    Get {
        /// The key.
        key: String,
    },
    /// Remove `key`.
    Remove {
        /// The key.
        key: String,
    },
}

/// What a call asks, with its strings as sequences of characters.
pub enum CallView {
    /// Set `key` to `value`.
    Put { key: Seq<char>, value: Seq<char> },
    /// Look `key` up.
    Get { key: Seq<char> },
    /// Remove `key`.
    Remove { key: Seq<char> },
}

impl View for EngineCall {
    type V = CallView;

    open spec fn view(&self) -> CallView {
        match *self {
            EngineCall::Put { key, value } => CallView::Put { key: key@, value: value@ },
            EngineCall::Get { key } => CallView::Get { key: key@ },
            EngineCall::Remove { key } => CallView::Remove { key: key@ },
        }
    }
}

/// What a payload asks of the engine: the call with the key and the value of
/// the request, and none for a response.
pub open spec fn call_of(payload: PayloadView) -> Option<CallView> {
    match payload {
        PayloadView::ReqSet { key, value } => Some(CallView::Put { key, value }),
        PayloadView::ReqGet { key } => Some(CallView::Get { key }),
        PayloadView::ReqRemove { key } => Some(CallView::Remove { key }),
        _ => None,
    }
}

/// The call that the request `payload` asks of the engine, with the key and
/// the value that the request carries. A response asks nothing.
pub fn engine_call(payload: &MessagePayload) -> (r: Option<EngineCall>)
    ensures
        match r {
            Some(call) => call_of(payload@) == Some(call@),
            None => call_of(payload@) is None,
        },
{
    match payload {
        MessagePayload::Request(Request::Put(req)) => Some(
            EngineCall::Put { key: req.key().to_owned(), value: req.value().to_owned() },
        ),
        MessagePayload::Request(Request::Get(req)) => Some(
            EngineCall::Get { key: req.key().to_owned() },
        ),
        MessagePayload::Request(Request::Remove(req)) => Some(
            EngineCall::Remove { key: req.key().to_owned() },
        ),
        MessagePayload::Response(_) => None,
    }
}

/// Carries out the request `payload` on the engine `db` and gives the
/// response to send back. The engine is called as `engine_call` says; what
/// it returns decides the status and the value, as `set_response`,
/// `get_response` and `remove_response` say; the kind of the response is
/// that of the request. A response in place of a request is answered with a
/// fatal error, and the engine is not called.
pub fn handle_request<Engine: KvsEngine>(db: &Engine, payload: MessagePayload) -> (m: Message)
    ensures
        match payload@ {
            PayloadView::ReqSet { .. } => m@ is RespSet,
            PayloadView::ReqGet { .. } => m@ matches PayloadView::RespGet { code, found }
                && (found is Some ==> code == StatusCode::Okay),
            PayloadView::ReqRemove { .. } => m@ is RespRemove,
            _ => m@ == (PayloadView::RespSet { code: StatusCode::FatalError }),
        },
{
    match engine_call(&payload) {
        Some(EngineCall::Put { key, value }) => {
            let res = db.set(key, value);
            set_response(&res)
        },
        Some(EngineCall::Get { key }) => {
            let res = db.get(key);
            get_response(res)
        },
        Some(EngineCall::Remove { key }) => {
            let res = db.remove(key);
            remove_response(&res)
        },
        None => protocol_violation_response(),
    }
}

/// The engines that a server can run on.
#[derive(Debug, Clone, Copy, PartialEq, Eq)]
pub enum EngineKind {
    /// The log-structured engine, called `kvs`.
    Kvs,
    /// The alternate engine, called `sled`.
    Sled,
}

/// The engine called `name`. Any name but `kvs` and `sled` is an
/// `EngineParseError` that carries the name.
pub fn parse_engine<'a>(name: &'a str) -> (r: Result<EngineKind, KvServerCreationError<'a>>)
    ensures
        r == if name@ == "kvs"@ {
            Ok(EngineKind::Kvs)
        } else if name@ == "sled"@ {
            Ok(EngineKind::Sled)
        } else {
            Err(KvServerCreationError::EngineParseError { engine_name: name })
        },
{
    let given = name.to_owned();
    if given == String::from_str("kvs") {
        Ok(EngineKind::Kvs)
    } else if given == String::from_str("sled") {
        Ok(EngineKind::Sled)
    } else {
        Err(KvServerCreationError::EngineParseError { engine_name: name })
    }
}

/// Whether a server may run the engine `requested` on a data directory: it
/// may where no engine was noted for the directory, or the same one.
pub fn engine_matches(previous: Option<&str>, requested: &str) -> (r: bool)
    ensures
        r == match previous {
            Some(p) => p@ == requested@,
            None => true,
        },
{
    match previous {
        Some(p) => p.to_owned() == requested.to_owned(),
        None => true,
    }
}

/// A signal as the event loop sees it.
#[derive(Debug, Clone, Copy, PartialEq, Eq)]
pub enum ServerSignal {
    /// The terminal asks the process to stop.
    Interrupt,
    /// The process is asked to terminate.
    Terminate,
    /// The process is asked to quit.
    Quit,
    /// Any other signal.
    Other,
}

/// What the event loop does next.
#[derive(Debug, Clone, Copy, PartialEq, Eq)]
pub enum LoopStep {
    /// Go on with the loop.
    Continue,
    /// Leave the loop: the server stops without failure.
    Shutdown,
    /// Leave the loop: the server stops with the failure exit code.
    Fail,
}

/// What the event loop does after a poll failed, and how many attempts are
/// left then: a poll that a signal interrupted is tried again while attempts
/// are left; any other failure stops the server.
pub fn after_poll_error(interrupted: bool, attempts_left: u16) -> (r: (LoopStep, u16))
    ensures
        r == if interrupted && attempts_left > 0 {
            (LoopStep::Continue, (attempts_left - 1) as u16)
        } else {
            (LoopStep::Fail, attempts_left)
        },
{
    if interrupted && attempts_left > 0 {
        (LoopStep::Continue, attempts_left - 1)
    } else {
        (LoopStep::Fail, attempts_left)
    }
}

/// What the event loop does after it woke up: it stops where the shutdown
/// trigger was fired.
pub fn after_wakeup(must_shutdown: bool) -> (r: LoopStep)
    ensures
        r == if must_shutdown {
            LoopStep::Shutdown
        } else {
            LoopStep::Continue
        },
{
    if must_shutdown {
        LoopStep::Shutdown
    } else {
        LoopStep::Continue
    }
}

/// Whether a timer tick starts a compaction job: it does exactly where none
/// is running, so that at most one is in flight.
pub fn tick_starts_compaction(compactor_running: bool) -> (r: bool)
    ensures
        r == !compactor_running,
{
    !compactor_running
}

/// What the event loop does on what the signal source gave: it shuts down on
/// an interrupt, a termination request or a quit, goes on where no signal is
/// pending, and fails on any other signal.
pub fn on_signal(signal: Option<ServerSignal>) -> (r: LoopStep)
    ensures
        r == match signal {
            Some(ServerSignal::Interrupt) | Some(ServerSignal::Terminate) | Some(
                ServerSignal::Quit,
            ) => LoopStep::Shutdown,
            None => LoopStep::Continue,
            Some(ServerSignal::Other) => LoopStep::Fail,
        },
{
    match signal {
        Some(ServerSignal::Interrupt) | Some(ServerSignal::Terminate) | Some(
            ServerSignal::Quit,
        ) => LoopStep::Shutdown,
        None => LoopStep::Continue,
        Some(ServerSignal::Other) => LoopStep::Fail,
    }
}

/// The result with which the server's run ends on `step`: none while the
/// loop goes on, success after a shutdown, and the failure exit code after a
/// failure.
pub fn exit_result(step: LoopStep) -> (r: Option<Result<(), i32>>)
    ensures
        r == match step {
            LoopStep::Continue => None::<Result<(), i32>>,
            LoopStep::Shutdown => Some(Ok::<(), i32>(())),
            LoopStep::Fail => Some(Err::<(), i32>(EXIT_FAILURE)),
        },
{
    match step {
        LoopStep::Continue => None,
        LoopStep::Shutdown => Some(Ok(())),
        LoopStep::Fail => Some(Err(EXIT_FAILURE)),
    }
}

} // verus!
