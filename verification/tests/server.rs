use kvs::cp::error::Error;
use kvs::cp::{
    Message, MessagePayload, Request, RequestGet, RequestRemove, RequestSet, Response,
    ResponseGet, ResponseRemove, ResponseSet, StatusCode,
};
use kvs::error::KvStoreError;
use kvs::kvclient::{get_result, rm_result, set_result, KvClientError};
use kvs::kvsengine::KvsEngine;
use kvs::kvserver::{
    after_poll_error, after_wakeup, engine_call, engine_matches, exit_result, get_response,
    handle_request, on_signal, parse_engine, protocol_violation_response, remove_response,
    set_response, tick_starts_compaction, EngineCall, EngineKind, KvServerCreationError,
    KvServerShutdownTrigger, LoopStep, ServerSignal, POLL_ATTEMPTS,
};
use std::cell::RefCell;
use std::collections::HashMap;

/// An engine that keeps everything in memory and can be told to fail.
struct MemoryEngine {
    map: RefCell<HashMap<String, String>>,
    broken: bool,
}

impl MemoryEngine {
    fn new() -> MemoryEngine {
        MemoryEngine { map: RefCell::new(HashMap::new()), broken: false }
    }
}

impl KvsEngine for MemoryEngine {
    fn set(&self, key: String, value: String) -> Result<(), KvStoreError> {
        if self.broken {
            return Err(KvStoreError::Io("disk full".to_owned()));
        }
        self.map.borrow_mut().insert(key, value);
        Ok(())
    }

    fn get(&self, key: String) -> Result<Option<String>, KvStoreError> {
        if self.broken {
            return Err(KvStoreError::WrongFileOffset);
        }
        Ok(self.map.borrow().get(&key).cloned())
    }

    fn remove(&self, key: String) -> Result<(), KvStoreError> {
        match self.map.borrow_mut().remove(&key) {
            Some(_) => Ok(()),
            None => Err(KvStoreError::RemoveNonExistentKey),
        }
    }
}

fn payload_of(msg: Message) -> MessagePayload {
    let bytes = {
        let mut buf = vec![0u8; kvs::cp::ser::calc_len(&msg).unwrap()];
        kvs::cp::ser::to_bytes(&msg, &mut buf[..]).unwrap();
        buf
    };
    kvs::cp::de::payload_from_bytes(&bytes[5..]).unwrap()
}

#[test]
fn the_status_tells_how_the_engine_call_ended() {
    let ok: Result<(), KvStoreError> = Ok(());
    assert_eq!(StatusCode::from(&ok), StatusCode::Okay);
    let missing: Result<(), KvStoreError> = Err(KvStoreError::RemoveNonExistentKey);
    assert_eq!(StatusCode::from(&missing), StatusCode::KeyNotFound);
    let failures = vec![
        KvStoreError::Bincode("x".to_owned()),
        KvStoreError::Io("x".to_owned()),
        KvStoreError::WrongFileOffset,
        KvStoreError::Walkdir("x".to_owned()),
        KvStoreError::Sled("x".to_owned()),
        KvStoreError::WrongFileNameFormat,
        KvStoreError::ThreadPoolBuild("x".to_owned()),
    ];
    for e in failures {
        let failed: Result<Option<String>, KvStoreError> = Err(e);
        assert_eq!(StatusCode::from(&failed), StatusCode::FatalError);
    }
}

#[test]
fn responses_carry_the_status_and_the_value() {
    assert_eq!(set_response(&Ok(())), ResponseSet::new_message(StatusCode::Okay));
    assert_eq!(
        set_response(&Err(KvStoreError::Io("x".to_owned()))),
        ResponseSet::new_message(StatusCode::FatalError)
    );
    assert_eq!(
        get_response(Ok(Some("value".to_owned()))),
        ResponseGet::new_message(StatusCode::Okay, Some("value".to_owned()))
    );
    assert_eq!(get_response(Ok(None)), ResponseGet::new_message(StatusCode::Okay, None));
    assert_eq!(
        get_response(Err(KvStoreError::WrongFileOffset)),
        ResponseGet::new_message(StatusCode::FatalError, None)
    );
    assert_eq!(remove_response(&Ok(())), ResponseRemove::new_message(StatusCode::Okay));
    assert_eq!(
        remove_response(&Err(KvStoreError::RemoveNonExistentKey)),
        ResponseRemove::new_message(StatusCode::KeyNotFound)
    );
    assert_eq!(
        protocol_violation_response(),
        ResponseSet::new_message(StatusCode::FatalError)
    );
}

#[test]
fn requests_are_carried_out_on_the_engine() {
    let db = MemoryEngine::new();
    let set = payload_of(RequestSet::new_message("key".to_owned(), "value".to_owned()));
    assert_eq!(handle_request(&db, set), ResponseSet::new_message(StatusCode::Okay));
    let get = payload_of(RequestGet::new_message("key".to_owned()));
    assert_eq!(
        handle_request(&db, get),
        ResponseGet::new_message(StatusCode::Okay, Some("value".to_owned()))
    );
    let absent = payload_of(RequestGet::new_message("absent".to_owned()));
    assert_eq!(handle_request(&db, absent), ResponseGet::new_message(StatusCode::Okay, None));
    let rm = payload_of(RequestRemove::new_message("key".to_owned()));
    assert_eq!(handle_request(&db, rm), ResponseRemove::new_message(StatusCode::Okay));
    let again = payload_of(RequestRemove::new_message("key".to_owned()));
    assert_eq!(
        handle_request(&db, again),
        ResponseRemove::new_message(StatusCode::KeyNotFound)
    );
    let get = payload_of(RequestGet::new_message("key".to_owned()));
    assert_eq!(handle_request(&db, get), ResponseGet::new_message(StatusCode::Okay, None));
}

#[test]
fn a_failing_engine_gives_fatal_errors() {
    let mut db = MemoryEngine::new();
    db.broken = true;
    let set = payload_of(RequestSet::new_message("key".to_owned(), "value".to_owned()));
    assert_eq!(handle_request(&db, set), ResponseSet::new_message(StatusCode::FatalError));
    let get = payload_of(RequestGet::new_message("key".to_owned()));
    assert_eq!(
        handle_request(&db, get),
        ResponseGet::new_message(StatusCode::FatalError, None)
    );
}

#[test]
fn a_response_in_place_of_a_request_is_a_violation() {
    let db = MemoryEngine::new();
    for msg in [
        ResponseSet::new_message(StatusCode::Okay),
        ResponseGet::new_message(StatusCode::Okay, Some("v".to_owned())),
        ResponseRemove::new_message(StatusCode::KeyNotFound),
    ] {
        assert_eq!(
            handle_request(&db, payload_of(msg)),
            ResponseSet::new_message(StatusCode::FatalError)
        );
    }
    assert!(db.map.borrow().is_empty());
}

#[test]
fn payloads_are_made_from_their_contents() {
    match payload_of(RequestSet::new_message("a".to_owned(), "b".to_owned())) {
        MessagePayload::Request(Request::Put(req)) => {
            let again = MessagePayload::from(req);
            assert_eq!(again, payload_of(RequestSet::new_message("a".to_owned(), "b".to_owned())));
        }
        _ => panic!("a set request was expected"),
    }
    match payload_of(ResponseGet::new_message(StatusCode::Okay, None)) {
        MessagePayload::Response(Response::Get(resp)) => {
            let again = MessagePayload::from(resp);
            assert_eq!(again, payload_of(ResponseGet::new_message(StatusCode::Okay, None)));
        }
        _ => panic!("a get response was expected"),
    }
}

#[test]
fn an_interrupted_poll_is_tried_again_ten_times() {
    assert_eq!(POLL_ATTEMPTS, 10);
    let mut attempts = POLL_ATTEMPTS;
    for left in (0..10).rev() {
        let (step, rest) = after_poll_error(true, attempts);
        assert_eq!((step, rest), (LoopStep::Continue, left));
        attempts = rest;
    }
    assert_eq!(after_poll_error(true, attempts), (LoopStep::Fail, 0));
    assert_eq!(after_poll_error(false, 10), (LoopStep::Fail, 10));
}

#[test]
fn the_loop_stops_on_the_trigger_and_on_signals() {
    assert_eq!(after_wakeup(true), LoopStep::Shutdown);
    assert_eq!(after_wakeup(false), LoopStep::Continue);
    assert_eq!(on_signal(Some(ServerSignal::Interrupt)), LoopStep::Shutdown);
    assert_eq!(on_signal(Some(ServerSignal::Terminate)), LoopStep::Shutdown);
    assert_eq!(on_signal(Some(ServerSignal::Quit)), LoopStep::Shutdown);
    assert_eq!(on_signal(Some(ServerSignal::Other)), LoopStep::Fail);
    assert_eq!(on_signal(None), LoopStep::Continue);
    assert_eq!(exit_result(LoopStep::Continue), None);
    assert_eq!(exit_result(LoopStep::Shutdown), Some(Ok(())));
    assert_eq!(exit_result(LoopStep::Fail), Some(Err(1)));
}

#[test]
fn at_most_one_compaction_is_in_flight() {
    assert!(tick_starts_compaction(false));
    assert!(!tick_starts_compaction(true));
}

#[test]
fn a_fired_trigger_is_seen_by_every_holder() {
    let trigger = KvServerShutdownTrigger::new();
    let other = trigger.clone();
    assert!(!trigger.must_shutdown());
    assert!(!other.must_shutdown());
    other.trigger();
    assert!(trigger.must_shutdown());
    assert!(other.must_shutdown());
}

#[test]
fn the_client_reads_the_status_of_a_set() {
    let ok = payload_of(ResponseSet::new_message(StatusCode::Okay));
    assert!(matches!(set_result(&ok), Ok(())));
    let missing = payload_of(ResponseSet::new_message(StatusCode::KeyNotFound));
    assert!(matches!(set_result(&missing), Err(KvClientError::KeyNotFound)));
    let fatal = payload_of(ResponseSet::new_message(StatusCode::FatalError));
    assert!(matches!(set_result(&fatal), Err(KvClientError::ServerError)));
    let wrong = payload_of(ResponseRemove::new_message(StatusCode::Okay));
    assert!(matches!(
        set_result(&wrong),
        Err(KvClientError::CommunicationProtocolMessageWrongKind)
    ));
    let request = payload_of(RequestGet::new_message("k".to_owned()));
    assert!(matches!(
        set_result(&request),
        Err(KvClientError::CommunicationProtocolMessageWrongKind)
    ));
}

#[test]
fn the_client_reads_the_value_of_a_get() {
    let found = payload_of(ResponseGet::new_message(StatusCode::Okay, Some("value".to_owned())));
    assert!(matches!(get_result(&found), Ok(Some(v)) if v == "value"));
    let none = payload_of(ResponseGet::new_message(StatusCode::Okay, None));
    assert!(matches!(get_result(&none), Ok(None)));
    let missing = payload_of(ResponseGet::new_message(StatusCode::KeyNotFound, None));
    assert!(matches!(get_result(&missing), Ok(None)));
    let fatal = payload_of(ResponseGet::new_message(StatusCode::FatalError, None));
    assert!(matches!(get_result(&fatal), Err(KvClientError::ServerError)));
    let wrong = payload_of(ResponseSet::new_message(StatusCode::Okay));
    assert!(matches!(
        get_result(&wrong),
        Err(KvClientError::CommunicationProtocolMessageWrongKind)
    ));
}

#[test]
fn the_client_reads_the_status_of_a_removal() {
    let ok = payload_of(ResponseRemove::new_message(StatusCode::Okay));
    assert!(matches!(rm_result(&ok), Ok(())));
    let missing = payload_of(ResponseRemove::new_message(StatusCode::KeyNotFound));
    assert!(matches!(rm_result(&missing), Err(KvClientError::KeyNotFound)));
    let fatal = payload_of(ResponseRemove::new_message(StatusCode::FatalError));
    assert!(matches!(rm_result(&fatal), Err(KvClientError::ServerError)));
    let wrong = payload_of(ResponseGet::new_message(StatusCode::Okay, None));
    assert!(matches!(
        rm_result(&wrong),
        Err(KvClientError::CommunicationProtocolMessageWrongKind)
    ));
}

#[test]
fn errors_say_what_went_wrong() {
    assert_eq!(Error::Eof.to_string(), "unexpected end of input");
    assert_eq!(Error::Message("custom".to_owned()).to_string(), "custom");
    assert_eq!(Error::IoError("broken pipe".to_owned()).to_string(), "Io Error: broken pipe");
    assert_eq!(
        Error::NotEnoughSpaceInBuffer.to_string(),
        "there is not enough space in buffer"
    );
    assert_eq!(Error::VersionMismatch(1).to_string(), "protocol version mismatch");
    assert_eq!(Error::UnknownMessageType(9).to_string(), "unknown message type");
    assert_eq!(Error::UnknownStatusCode(9).to_string(), "unknown status code");
    assert_eq!(Error::InvalidOptionTag(9).to_string(), "invalid option tag");
    assert_eq!(Error::TrailingBytes.to_string(), "bytes are left behind the message");
    let not_utf8 = kvs::cp::de::payload_from_bytes(&[0x01, 0x00, 0x00, 0x00, 0x01, 0xFF]);
    let text = not_utf8.unwrap_err().to_string();
    assert!(text.starts_with("Utf8Error Error: "));
    assert!(text.len() > "Utf8Error Error: ".len());

    assert_eq!(
        KvStoreError::RemoveNonExistentKey.to_string(),
        "Tried to remove a non existent key in the database."
    );
    assert_eq!(
        KvStoreError::WrongFileOffset.to_string(),
        "Wrong file offset. File must have been corrupted."
    );
    assert_eq!(KvStoreError::WrongFileNameFormat.to_string(), "Wrong file name format.");
    assert_eq!(KvStoreError::Io("denied".to_owned()).to_string(), "Io error: denied.");
    assert_eq!(KvStoreError::Bincode("short".to_owned()).to_string(), "Bincode error: short.");
    assert_eq!(KvStoreError::Walkdir("loop".to_owned()).to_string(), "Walkdir error: loop.");
    assert_eq!(KvStoreError::Sled("bad".to_owned()).to_string(), "Sled error: bad.");
    assert_eq!(
        KvStoreError::ThreadPoolBuild("none".to_owned()).to_string(),
        "Thread pool error: none."
    );

    assert_eq!(KvClientError::KeyNotFound.to_string(), "Key not found");
    assert_eq!(KvClientError::ServerError.to_string(), "Internal server error");
    assert_eq!(KvClientError::IoError("refused".to_owned()).to_string(), "Io error: refused");
    assert_eq!(
        KvClientError::CommunicationProtocolError(Error::Eof).to_string(),
        "KVS Communication protocol error: unexpected end of input"
    );
    assert_eq!(
        KvClientError::InvalidServerAddress { addr: "nowhere", cause: "bad".to_owned() }
            .to_string(),
        "Invalid socket address: nowhere. Error: bad"
    );
    assert_eq!(
        KvServerCreationError::EngineParseError { engine_name: "other" }.to_string(),
        "Engine parse error: engine other not supported"
    );
    assert_eq!(
        KvServerCreationError::InvalidSocketAddress { addr: "nowhere", cause: "bad".to_owned() }
            .to_string(),
        "Invalid socket address: nowhere. Error: bad"
    );
    assert_eq!(
        KvServerCreationError::UnableToStartListener.to_string(),
        "Could not start listener"
    );
    assert_eq!(
        KvServerCreationError::IoError { cause: "denied".to_owned() }.to_string(),
        "IO operation failed with error: denied"
    );
}

#[test]
fn engines_are_known_by_their_names() {
    assert!(matches!(parse_engine("kvs"), Ok(EngineKind::Kvs)));
    assert!(matches!(parse_engine("sled"), Ok(EngineKind::Sled)));
    for name in ["", "KVS", "kv", "kvs ", "sleds", "rocks"] {
        assert!(matches!(
            parse_engine(name),
            Err(KvServerCreationError::EngineParseError { engine_name }) if engine_name == name
        ));
    }
}

#[test]
fn a_directory_keeps_its_engine() {
    assert!(engine_matches(None, "kvs"));
    assert!(engine_matches(Some("kvs"), "kvs"));
    assert!(engine_matches(Some("sled"), "sled"));
    assert!(!engine_matches(Some("sled"), "kvs"));
    assert!(!engine_matches(Some("kvs"), "sled"));
}

#[test]
fn a_request_asks_the_engine_with_its_own_key_and_value() {
    let set = payload_of(RequestSet::new_message("key".to_owned(), "value".to_owned()));
    assert_eq!(
        engine_call(&set),
        Some(EngineCall::Put { key: "key".to_owned(), value: "value".to_owned() })
    );
    let get = payload_of(RequestGet::new_message("k1".to_owned()));
    assert_eq!(engine_call(&get), Some(EngineCall::Get { key: "k1".to_owned() }));
    let rm = payload_of(RequestRemove::new_message("k2".to_owned()));
    assert_eq!(engine_call(&rm), Some(EngineCall::Remove { key: "k2".to_owned() }));
    let resp = payload_of(ResponseGet::new_message(StatusCode::Okay, Some("v".to_owned())));
    assert_eq!(engine_call(&resp), None);
}

#[test]
fn the_engine_gets_key_and_value_in_their_places() {
    let db = MemoryEngine::new();
    let set = payload_of(RequestSet::new_message("the key".to_owned(), "the value".to_owned()));
    handle_request(&db, set);
    assert_eq!(db.map.borrow().get("the key"), Some(&"the value".to_owned()));
    assert_eq!(db.map.borrow().get("the value"), None);
}

#[test]
fn an_error_is_cloned_as_it_is() {
    for e in [
        Error::Message("m".to_owned()),
        Error::IoError("io".to_owned()),
        Error::NotEnoughSpaceInBuffer,
        Error::Eof,
        Error::VersionMismatch(7),
        Error::UnknownMessageType(8),
        Error::UnknownStatusCode(9),
        Error::InvalidOptionTag(10),
        Error::TrailingBytes,
        kvs::cp::de::payload_from_bytes(&[0x01, 0x00, 0x00, 0x00, 0x01, 0xFF]).unwrap_err(),
    ] {
        assert_eq!(e.clone(), e);
    }
}
