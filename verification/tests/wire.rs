use kvs::cp::de;
use kvs::cp::error::Error;
use kvs::cp::ser;
use kvs::cp::{
    Header, Message, MessagePayload, Request, RequestGet, RequestRemove, RequestSet, Response,
    ResponseGet, ResponseRemove, ResponseSet, StatusCode, HEADER_SIZE, PROTOCOL_VERSION,
};

#[test]
fn test_serde_request_set() {
    let cmd = RequestSet::new_message("key".to_owned(), "value".to_owned());
    let expected_serialized = vec![
        0xC1, 0x00, 0x00, 0x00, 0x11, 0x00, 0x00, 0x00, 0x00, 0x03, b'k', b'e', b'y', 0x00, 0x00,
        0x00, 0x05, b'v', b'a', b'l', b'u', b'e',
    ];

    let mut write_buf = Vec::new();
    let cmd_len = ser::calc_len(&cmd);
    assert!(cmd_len.is_ok());
    write_buf.resize(cmd_len.unwrap(), 0);

    let write_res = ser::to_bytes(&cmd, &mut write_buf[..]);
    assert!(write_res.is_ok());

    assert_eq!(write_buf, expected_serialized);
    let cmd_deserialized: Result<Message, _> = de::from_bytes(&write_buf[..]);
    assert!(cmd_deserialized.is_ok());
    assert_eq!(cmd_deserialized.unwrap(), cmd);
}

#[test]
fn test_serde_request_get() {
    let cmd = RequestGet::new_message("key".to_owned());
    let expected_serialized = vec![
        0xC1, 0x00, 0x00, 0x00, 0x08, 0x01, 0x00, 0x00, 0x00, 0x03, b'k', b'e', b'y',
    ];

    let mut write_buf = Vec::new();
    let cmd_len = ser::calc_len(&cmd);
    assert!(cmd_len.is_ok());
    write_buf.resize(cmd_len.unwrap(), 0);

    let write_res = ser::to_bytes(&cmd, &mut write_buf[..]);
    assert!(write_res.is_ok());

    assert_eq!(write_buf, expected_serialized);
    let cmd_deserialized: Result<Message, _> = de::from_bytes(&write_buf[..]);
    assert!(cmd_deserialized.is_ok());
    assert_eq!(cmd_deserialized.unwrap(), cmd);
}

#[test]
fn test_serde_request_rm() {
    let cmd = RequestRemove::new_message("key".to_owned());
    let expected_serialized = vec![
        0xC1, 0x00, 0x00, 0x00, 0x08, 0x02, 0x00, 0x00, 0x00, 0x03, b'k', b'e', b'y',
    ];

    let mut write_buf = Vec::new();
    let cmd_len = ser::calc_len(&cmd);
    assert!(cmd_len.is_ok());
    write_buf.resize(cmd_len.unwrap(), 0);

    let write_res = ser::to_bytes(&cmd, &mut write_buf[..]);
    assert!(write_res.is_ok());

    assert_eq!(write_buf, expected_serialized);
    let cmd_deserialized: Result<Message, _> = de::from_bytes(&write_buf[..]);
    assert!(cmd_deserialized.is_ok());
    assert_eq!(cmd_deserialized.unwrap(), cmd);
}

#[test]
fn test_serde_response_set() {
    let cmd = ResponseSet::new_message(StatusCode::Okay);
    let expected_serialized = vec![0xC1, 0x00, 0x00, 0x00, 0x02, 0x80, 0x00];

    let mut write_buf = Vec::new();
    let cmd_len = ser::calc_len(&cmd);
    assert!(cmd_len.is_ok());
    write_buf.resize(cmd_len.unwrap(), 0);

    let write_res = ser::to_bytes(&cmd, &mut write_buf[..]);
    assert!(write_res.is_ok());

    assert_eq!(write_buf, expected_serialized);
    let cmd_deserialized: Result<Message, _> = de::from_bytes(&write_buf[..]);
    assert!(cmd_deserialized.is_ok());
    assert_eq!(cmd_deserialized.unwrap(), cmd);
}

#[test]
fn test_serde_response_get() {
    let cmd = ResponseGet::new_message(StatusCode::Okay, Some("value".to_string()));
    let expected_serialized = vec![
        0xC1, 0x00, 0x00, 0x00, 0x0C, 0x81, 0x00, 0x01, 0x00, 0x00, 0x00, 0x05, b'v', b'a', b'l',
        b'u', b'e',
    ];

    let mut write_buf = Vec::new();
    let cmd_len = ser::calc_len(&cmd);
    assert!(cmd_len.is_ok());
    write_buf.resize(cmd_len.unwrap(), 0);

    let write_res = ser::to_bytes(&cmd, &mut write_buf[..]);
    assert!(write_res.is_ok());

    assert_eq!(write_buf, expected_serialized);
    let cmd_deserialized: Result<Message, _> = de::from_bytes(&write_buf[..]);
    assert!(cmd_deserialized.is_ok());
    assert_eq!(cmd_deserialized.unwrap(), cmd);
}

#[test]
fn test_serde_response_rm() {
    let cmd = ResponseRemove::new_message(StatusCode::Okay);
    let expected_serialized = vec![0xC1, 0x00, 0x00, 0x00, 0x02, 0x82, 0x00];

    let mut write_buf = Vec::new();
    let cmd_len = ser::calc_len(&cmd);
    assert!(cmd_len.is_ok());
    write_buf.resize(cmd_len.unwrap(), 0);

    let write_res = ser::to_bytes(&cmd, &mut write_buf[..]);
    assert!(write_res.is_ok());

    assert_eq!(write_buf, expected_serialized);
    let cmd_deserialized: Result<Message, _> = de::from_bytes(&write_buf[..]);
    assert!(cmd_deserialized.is_ok());
    assert_eq!(cmd_deserialized.unwrap(), cmd);
}

fn encode(msg: &Message) -> Vec<u8> {
    let mut buf = vec![0u8; ser::calc_len(msg).unwrap()];
    ser::to_bytes(msg, &mut buf[..]).unwrap();
    buf
}

fn all_kinds() -> Vec<Message> {
    vec![
        RequestSet::new_message("k".to_owned(), "v".to_owned()),
        RequestSet::new_message(String::new(), String::new()),
        RequestGet::new_message("schl\u{fc}ssel".to_owned()),
        RequestRemove::new_message("\u{1F511}".to_owned()),
        ResponseSet::new_message(StatusCode::Okay),
        ResponseSet::new_message(StatusCode::FatalError),
        ResponseGet::new_message(StatusCode::Okay, None),
        ResponseGet::new_message(StatusCode::Okay, Some("\u{4e16}\u{754c}".to_owned())),
        ResponseGet::new_message(StatusCode::KeyNotFound, None),
        ResponseRemove::new_message(StatusCode::KeyNotFound),
    ]
}

#[test]
fn decoding_inverts_encoding_for_every_kind() {
    for msg in all_kinds() {
        let bytes = encode(&msg);
        assert_eq!(de::from_bytes(&bytes[..]).unwrap(), msg);
    }
}

#[test]
fn encoding_a_decoded_frame_gives_the_frame() {
    for msg in all_kinds() {
        let frame = encode(&msg);
        let decoded = de::from_bytes(&frame[..]).unwrap();
        assert_eq!(encode(&decoded), frame);
    }
}

#[test]
fn a_frame_with_a_wrong_length_field_is_refused() {
    // The length field says 0, and two bytes follow.
    let frame = vec![0xC1, 0x00, 0x00, 0x00, 0x00, 0x80, 0x00];
    assert_eq!(de::from_bytes(&frame[..]), Err(Error::TrailingBytes));
    // The length field says 1, and two bytes follow.
    let frame = vec![0xC1, 0x00, 0x00, 0x00, 0x01, 0x80, 0x00];
    assert_eq!(de::from_bytes(&frame[..]), Err(Error::TrailingBytes));
    // The length field says 3, and two bytes follow.
    let frame = vec![0xC1, 0x00, 0x00, 0x00, 0x03, 0x80, 0x00];
    assert_eq!(de::from_bytes(&frame[..]), Err(Error::Eof));
    // The length field says 3 and three bytes follow, of which the payload
    // takes two.
    let frame = vec![0xC1, 0x00, 0x00, 0x00, 0x03, 0x80, 0x00, 0x00];
    assert_eq!(de::from_bytes(&frame[..]), Err(Error::TrailingBytes));
    // The length field says 2 and two bytes follow.
    let frame = vec![0xC1, 0x00, 0x00, 0x00, 0x02, 0x80, 0x00];
    assert_eq!(de::from_bytes(&frame[..]), Ok(ResponseSet::new_message(StatusCode::Okay)));
}

#[test]
fn bytes_behind_a_message_are_refused() {
    let frame = vec![0xC1, 0x00, 0x00, 0x00, 0x02, 0x82, 0x01, 0xFF, 0xFF];
    assert_eq!(de::from_bytes(&frame[..]), Err(Error::TrailingBytes));
    assert_eq!(de::payload_from_bytes(&frame[5..]), Err(Error::TrailingBytes));
    match de::payload_from_bytes(&frame[5..7]).unwrap() {
        MessagePayload::Response(Response::Remove(resp)) => {
            assert_eq!(*resp.code(), StatusCode::KeyNotFound)
        }
        _ => panic!("a remove response was expected"),
    }
    assert_eq!(de::header_from_bytes(&frame[..6]), Err(Error::TrailingBytes));
    assert_eq!(de::header_from_bytes(&frame[..5]).unwrap().payload_length(), 2);
}

#[test]
fn only_the_encoding_of_a_message_decodes_to_it() {
    for msg in all_kinds() {
        let frame = encode(&msg);
        let mut longer = frame.clone();
        longer.push(0x00);
        assert_eq!(de::from_bytes(&longer[..]), Err(Error::TrailingBytes));
        let mut counted_short = frame.clone();
        counted_short[4] -= 1;
        assert_eq!(de::from_bytes(&counted_short[..]), Err(Error::TrailingBytes));
        let mut counted_long = frame.clone();
        counted_long[4] += 1;
        assert_eq!(de::from_bytes(&counted_long[..]), Err(Error::Eof));
        let mut stretched = frame.clone();
        stretched[4] += 1;
        stretched.push(0x00);
        assert_eq!(de::from_bytes(&stretched[..]), Err(Error::TrailingBytes));
    }
}

#[test]
fn calc_len_counts_header_type_and_body() {
    assert_eq!(ser::calc_len(&ResponseSet::new_message(StatusCode::Okay)).unwrap(), 7);
    assert_eq!(ser::calc_len(&RequestGet::new_message(String::new())).unwrap(), 10);
    assert_eq!(ser::calc_len(&RequestGet::new_message("\u{fc}".to_owned())).unwrap(), 12);
    assert_eq!(
        ser::calc_len(&RequestSet::new_message("key".to_owned(), "value".to_owned())).unwrap(),
        22
    );
    assert_eq!(ser::calc_len(&ResponseGet::new_message(StatusCode::Okay, None)).unwrap(), 8);
    assert_eq!(
        ser::calc_len(&ResponseGet::new_message(StatusCode::Okay, Some("value".to_owned())))
            .unwrap(),
        17
    );
}

#[test]
fn to_bytes_leaves_the_rest_of_the_buffer_alone() {
    let msg = ResponseSet::new_message(StatusCode::KeyNotFound);
    let mut buf = vec![0xAAu8; 10];
    ser::to_bytes(&msg, &mut buf[..]).unwrap();
    assert_eq!(buf, vec![0xC1, 0x00, 0x00, 0x00, 0x02, 0x80, 0x01, 0xAA, 0xAA, 0xAA]);
}

#[test]
fn to_bytes_reports_a_buffer_that_is_too_small_and_writes_nothing() {
    let msg = RequestGet::new_message("key".to_owned());
    let mut buf = vec![0x55u8; 12];
    assert_eq!(ser::to_bytes(&msg, &mut buf[..]), Err(Error::NotEnoughSpaceInBuffer));
    assert_eq!(buf, vec![0x55u8; 12]);
    let mut empty: Vec<u8> = Vec::new();
    assert_eq!(ser::to_bytes(&msg, &mut empty[..]), Err(Error::NotEnoughSpaceInBuffer));
}

#[test]
fn size_serializer_counts_what_it_is_given() {
    let mut s = ser::SizeSerializer::new();
    assert_eq!(s.total_len(), 0);
    s.serialize_u8(7).unwrap();
    assert_eq!(s.total_len(), 1);
    s.serialize_u32(7).unwrap();
    assert_eq!(s.total_len(), 5);
    s.serialize_str("abc").unwrap();
    assert_eq!(s.total_len(), 12);
    s.serialize_none().unwrap();
    assert_eq!(s.total_len(), 13);
    s.serialize_some("\u{fc}").unwrap();
    assert_eq!(s.total_len(), 20);
}

#[test]
fn decoding_stops_at_the_end_of_the_input() {
    let whole = encode(&RequestSet::new_message("key".to_owned(), "value".to_owned()));
    for cut in 0..whole.len() {
        assert_eq!(de::from_bytes(&whole[..cut]), Err(Error::Eof));
    }
}

#[test]
fn decoding_rejects_another_protocol_version() {
    let frame = vec![0xC2, 0x00, 0x00, 0x00, 0x02, 0x80, 0x00];
    assert_eq!(de::from_bytes(&frame[..]), Err(Error::VersionMismatch(0xC2)));
    assert_eq!(de::header_from_bytes(&frame[..5]), Err(Error::VersionMismatch(0xC2)));
    assert_eq!(de::header_from_bytes(&[0x00]), Err(Error::VersionMismatch(0x00)));
}

#[test]
fn decoding_rejects_an_unknown_message_type() {
    let frame = vec![0xC1, 0x00, 0x00, 0x00, 0x02, 0x03, 0x00];
    assert_eq!(de::from_bytes(&frame[..]), Err(Error::UnknownMessageType(0x03)));
    assert_eq!(de::payload_from_bytes(&[0x83, 0x00]), Err(Error::UnknownMessageType(0x83)));
}

#[test]
fn decoding_rejects_an_unknown_status_code() {
    let frame = vec![0xC1, 0x00, 0x00, 0x00, 0x02, 0x80, 0x03];
    assert_eq!(de::from_bytes(&frame[..]), Err(Error::UnknownStatusCode(0x03)));
}

#[test]
fn decoding_rejects_an_invalid_option_tag() {
    let frame = vec![0xC1, 0x00, 0x00, 0x00, 0x03, 0x81, 0x00, 0x02];
    assert_eq!(de::from_bytes(&frame[..]), Err(Error::InvalidOptionTag(0x02)));
}

#[test]
fn decoding_rejects_bytes_that_are_not_utf8() {
    let frame = vec![0xC1, 0x00, 0x00, 0x00, 0x07, 0x01, 0x00, 0x00, 0x00, 0x02, 0xC3, 0x28];
    assert!(matches!(de::from_bytes(&frame[..]), Err(Error::InvalidUtf8Encoding(_))));
}

#[test]
fn decoding_gives_the_string_that_the_bytes_spell() {
    let frame = vec![0xC1, 0x00, 0x00, 0x00, 0x07, 0x01, 0x00, 0x00, 0x00, 0x02, 0xC3, 0xBC];
    let decoded = de::from_bytes(&frame[..]).unwrap();
    match decoded.payload() {
        MessagePayload::Request(Request::Get(req)) => assert_eq!(req.key(), "\u{fc}"),
        _ => panic!("a get request was expected"),
    }
}

#[test]
fn header_and_payload_decode_apart() {
    let frame = encode(&ResponseGet::new_message(StatusCode::Okay, Some("value".to_owned())));
    let header = de::header_from_bytes(&frame[..HEADER_SIZE]).unwrap();
    assert_eq!(header.protocol_version(), PROTOCOL_VERSION);
    assert_eq!(header.payload_length(), 12);
    assert_eq!(frame.len(), HEADER_SIZE + header.payload_length() as usize);
    let payload = de::payload_from_bytes(&frame[HEADER_SIZE..]).unwrap();
    match payload {
        MessagePayload::Response(Response::Get(resp)) => {
            assert_eq!(*resp.code(), StatusCode::Okay);
            assert_eq!(resp.value(), Some(&"value".to_owned()));
        }
        _ => panic!("a get response was expected"),
    }
}

#[test]
fn a_new_header_is_empty() {
    let header = Header::new();
    assert_eq!(header.protocol_version(), 0xC1);
    assert_eq!(header.payload_length(), 0);
}

#[test]
fn getters_give_what_the_constructors_took() {
    let set = RequestSet::new_message("a".to_owned(), "b".to_owned());
    match set.payload() {
        MessagePayload::Request(Request::Put(req)) => {
            assert_eq!(req.key(), "a");
            assert_eq!(req.value(), "b");
        }
        _ => panic!("a set request was expected"),
    }
    let rm = RequestRemove::new_message("c".to_owned());
    match rm.payload() {
        MessagePayload::Request(Request::Remove(req)) => assert_eq!(req.key(), "c"),
        _ => panic!("a remove request was expected"),
    }
    let resp = ResponseRemove::new_message(StatusCode::FatalError);
    match resp.payload() {
        MessagePayload::Response(Response::Remove(r)) => {
            assert_eq!(*r.code(), StatusCode::FatalError)
        }
        _ => panic!("a remove response was expected"),
    }
    let resp = ResponseSet::new_message(StatusCode::KeyNotFound);
    match resp.payload() {
        MessagePayload::Response(Response::Put(r)) => {
            assert_eq!(*r.code(), StatusCode::KeyNotFound)
        }
        _ => panic!("a set response was expected"),
    }
}

#[test]
fn status_codes_have_their_bytes() {
    assert_eq!(StatusCode::Okay.to_u8(), 0);
    assert_eq!(StatusCode::KeyNotFound.to_u8(), 1);
    assert_eq!(StatusCode::FatalError.to_u8(), 2);
    assert_eq!(StatusCode::from_u8(0), Some(StatusCode::Okay));
    assert_eq!(StatusCode::from_u8(1), Some(StatusCode::KeyNotFound));
    assert_eq!(StatusCode::from_u8(2), Some(StatusCode::FatalError));
    assert_eq!(StatusCode::from_u8(3), None);
}

#[test]
fn a_deserializer_reads_in_order_and_stays_put_on_failure() {
    let bytes = [0x07u8, 0x00, 0x00, 0x01, 0x02, 0x09];
    let mut d = de::Deserializer::new(&bytes[..]);
    assert_eq!(d.read_byte(), Ok(0x07));
    assert_eq!(d.read_u32(), Ok(0x0000_0102));
    assert_eq!(d.read_u32(), Err(Error::Eof));
    assert_eq!(d.read_bytes(2), Err(Error::Eof));
    assert_eq!(d.read_bytes(1), Ok(&bytes[5..]));
    assert_eq!(d.read_byte(), Err(Error::Eof));
}
