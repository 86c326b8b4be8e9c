//! What holds of the wire format: decoding inverts encoding, and a frame that
//! decodes to a message is the encoding of that message.

use crate::cp::error::Fault;
use crate::cp::format::{
    be_u32, body_wire, encodable, lemma_u32_bytes_round_trip, lemma_u32_round_trip, message_wire,
    option_wire, parse_body, parse_message, parse_option, parse_payload, parse_status,
    parse_whole_payload,
    parse_string, payload_wire, status_byte, status_of_byte, string_fits, string_wire,
    strings_fit, type_byte, u32_of_be,
};
use crate::cp::{PayloadView, StatusCode, PROTOCOL_VERSION};
use vstd::prelude::*;
use vstd::utf8::*;

verus! {

/// A string that fits its length field is read back from its bytes, and what
/// follows them is left over.
pub proof fn lemma_parse_string_wire(s: Seq<char>, tail: Seq<u8>)
    requires
        string_fits(s),
    ensures
        parse_string(string_wire(s) + tail) == Ok::<_, Fault>((s, tail)),
{
    reveal(string_wire);
    reveal(parse_string);
    let e = encode_utf8(s);
    let n = e.len() as u32;
    let x = string_wire(s) + tail;
    assert(x =~= be_u32(n) + (e + tail));
    lemma_u32_round_trip(n, e + tail);
    assert(x.skip(4) =~= e + tail);
    assert((e + tail).take(n as int) =~= e);
    assert((e + tail).skip(n as int) =~= tail);
    encode_utf8_valid_utf8(s);
    encode_utf8_decode_utf8(s);
}

/// An optional string whose string fits is read back from its bytes.
pub proof fn lemma_parse_option_wire(v: Option<Seq<char>>, tail: Seq<u8>)
    requires
        v matches Some(s) ==> string_fits(s),
    ensures
        parse_option(option_wire(v) + tail) == Ok::<_, Fault>((v, tail)),
{
    let x = option_wire(v) + tail;
    match v {
        None => {
            assert(x.skip(1) =~= tail);
        },
        Some(s) => {
            assert(x.skip(1) =~= string_wire(s) + tail);
            lemma_parse_string_wire(s, tail);
        },
    }
}

/// A status is read back from its byte.
pub proof fn lemma_parse_status_wire(c: StatusCode, tail: Seq<u8>)
    ensures
        parse_status(seq![status_byte(c)] + tail) == Ok::<_, Fault>((c, tail)),
        status_of_byte(status_byte(c)) == Some(c),
{
    let x = seq![status_byte(c)] + tail;
    assert(x.skip(1) =~= tail);
}

/// The body of a payload whose strings fit is read back from its bytes.
pub proof fn lemma_parse_body_wire(p: PayloadView, tail: Seq<u8>)
    requires
        strings_fit(p),
    ensures
        parse_body(type_byte(p), body_wire(p) + tail) == Ok::<_, Fault>((p, tail)),
{
    match p {
        PayloadView::ReqSet { key, value } => {
            assert(body_wire(p) + tail =~= string_wire(key) + (string_wire(value) + tail));
            lemma_parse_string_wire(key, string_wire(value) + tail);
            lemma_parse_string_wire(value, tail);
        },
        PayloadView::ReqGet { key } => {
            lemma_parse_string_wire(key, tail);
        },
        PayloadView::ReqRemove { key } => {
            lemma_parse_string_wire(key, tail);
        },
        PayloadView::RespSet { code } => {
            lemma_parse_status_wire(code, tail);
        },
        PayloadView::RespGet { code, found } => {
            assert(body_wire(p) + tail =~= seq![status_byte(code)] + (option_wire(found) + tail));
            lemma_parse_status_wire(code, option_wire(found) + tail);
            lemma_parse_option_wire(found, tail);
        },
        PayloadView::RespRemove { code } => {
            lemma_parse_status_wire(code, tail);
        },
    }
}

/// A payload whose strings fit is read back from its bytes.
pub proof fn lemma_parse_payload_wire(p: PayloadView, tail: Seq<u8>)
    requires
        strings_fit(p),
    ensures
        parse_payload(payload_wire(p) + tail) == Ok::<_, Fault>((p, tail)),
{
    let x = payload_wire(p) + tail;
    assert(x.skip(1) =~= body_wire(p) + tail);
    assert(x[0] == type_byte(p));
    lemma_parse_body_wire(p, tail);
}

/// Round trip: for every message that can be framed, decoding its encoding
/// gives the message back; and so for its payload alone.
pub proof fn law_decode_inverts_encode(p: PayloadView)
    requires
        encodable(p),
    ensures
        parse_message(message_wire(p)) == Ok::<_, Fault>(p),
        parse_whole_payload(payload_wire(p)) == Ok::<_, Fault>(p),
{
    let body = payload_wire(p);
    let n = body.len() as u32;
    let x = message_wire(p);
    assert(x[0] == PROTOCOL_VERSION);
    assert(x.skip(1) =~= be_u32(n) + body);
    lemma_u32_round_trip(n, body);
    assert(x.skip(1).skip(4) =~= body);
    lemma_parse_payload_wire(p, Seq::empty());
    assert(body + Seq::<u8>::empty() =~= body);
}

/// Bytes that a string was read from are the bytes of that string, followed
/// by what was left over.
pub proof fn lemma_parsed_string_is_canonical(b: Seq<u8>, s: Seq<char>, rest: Seq<u8>)
    requires
        parse_string(b) == Ok::<_, Fault>((s, rest)),
    ensures
        string_fits(s),
        b == string_wire(s) + rest,
{
    reveal(string_wire);
    reveal(parse_string);
    let n = u32_of_be(b);
    let bytes = b.skip(4).take(n as int);
    decode_utf8_encode_utf8(bytes);
    lemma_u32_bytes_round_trip(b);
    assert(b =~= b.take(4) + bytes + rest);
}

/// Bytes that an optional string was read from are its bytes, followed by
/// what was left over.
pub proof fn lemma_parsed_option_is_canonical(b: Seq<u8>, v: Option<Seq<char>>, rest: Seq<u8>)
    requires
        parse_option(b) == Ok::<_, Fault>((v, rest)),
    ensures
        v matches Some(s) ==> string_fits(s),
        b == option_wire(v) + rest,
{
    match v {
        None => {
            assert(b =~= seq![0x00u8] + rest);
        },
        Some(s) => {
            lemma_parsed_string_is_canonical(b.skip(1), s, rest);
            assert(b =~= seq![0x01u8] + (string_wire(s) + rest));
            assert(seq![0x01u8] + (string_wire(s) + rest) =~= option_wire(v) + rest);
        },
    }
}

/// Bytes that a status was read from start with the byte of that status.
pub proof fn lemma_parsed_status_is_canonical(b: Seq<u8>, c: StatusCode, rest: Seq<u8>)
    requires
        parse_status(b) == Ok::<_, Fault>((c, rest)),
    ensures
        b == seq![status_byte(c)] + rest,
{
    assert(b =~= seq![status_byte(c)] + rest);
}

/// Bytes that a payload was read from are the bytes of that payload, followed
/// by what was left over.
pub proof fn lemma_parsed_payload_is_canonical(b: Seq<u8>, p: PayloadView, rest: Seq<u8>)
    requires
        parse_payload(b) == Ok::<_, Fault>((p, rest)),
    ensures
        strings_fit(p),
        b == payload_wire(p) + rest,
{
    let ty = b[0];
    let body = b.skip(1);
    assert(b =~= seq![ty] + body);
    if ty == 0x00 {
        let (key, after_key) = parse_string(body)->Ok_0;
        lemma_parsed_string_is_canonical(body, key, after_key);
        let (value, after_value) = parse_string(after_key)->Ok_0;
        lemma_parsed_string_is_canonical(after_key, value, after_value);
        assert(b =~= payload_wire(p) + rest);
    } else if ty == 0x01 || ty == 0x02 {
        let (key, after_key) = parse_string(body)->Ok_0;
        lemma_parsed_string_is_canonical(body, key, after_key);
        assert(b =~= payload_wire(p) + rest);
    } else if ty == 0x80 || ty == 0x82 {
        let (code, after_code) = parse_status(body)->Ok_0;
        lemma_parsed_status_is_canonical(body, code, after_code);
        assert(b =~= payload_wire(p) + rest);
    } else {
        let (code, after_code) = parse_status(body)->Ok_0;
        lemma_parsed_status_is_canonical(body, code, after_code);
        let (found, after_found) = parse_option(after_code)->Ok_0;
        lemma_parsed_option_is_canonical(after_code, found, after_found);
        assert(b =~= payload_wire(p) + rest);
    }
}

/// Canonical encoding of payloads: bytes that decode to a payload are the
/// encoding of that payload.
pub proof fn law_decoded_payload_is_encoding(b: Seq<u8>, p: PayloadView)
    requires
        parse_whole_payload(b) == Ok::<_, Fault>(p),
    ensures
        strings_fit(p),
        payload_wire(p) == b,
{
    let rest = parse_payload(b)->Ok_0.1;
    assert(rest =~= Seq::<u8>::empty());
    lemma_parsed_payload_is_canonical(b, p, rest);
    assert(payload_wire(p) + rest =~= payload_wire(p));
}

/// Canonical encoding: bytes that decode to a message are the encoding of
/// that message.
pub proof fn law_decoded_frame_is_encoding(b: Seq<u8>, p: PayloadView)
    requires
        parse_message(b) == Ok::<_, Fault>(p),
    ensures
        encodable(p),
        message_wire(p) == b,
{
    let payload = b.skip(1).skip(4);
    law_decoded_payload_is_encoding(payload, p);
    assert(payload.len() == b.len() - 5);
    lemma_u32_bytes_round_trip(b.skip(1));
    assert(b =~= seq![PROTOCOL_VERSION] + b.skip(1).take(4) + payload);
}

} // verus!
