//! The wire format as mathematics: what the bytes of a message are, and what
//! a byte sequence decodes to.

use crate::cp::error::Fault;
use crate::cp::{PayloadView, StatusCode, PROTOCOL_VERSION};
use vstd::prelude::*;
use vstd::utf8::*;

verus! {

/// The four bytes of `v`, most significant first.
#[verifier::opaque]
pub open spec fn be_u32(v: u32) -> Seq<u8> {
    seq![
        (v / 0x100_0000) as u8,
        (v / 0x1_0000 % 0x100) as u8,
        (v / 0x100 % 0x100) as u8,
        (v % 0x100) as u8,
    ]
}

/// The number whose big-endian bytes are the first four of `b`.
#[verifier::opaque]
pub open spec fn u32_of_be(b: Seq<u8>) -> u32
    recommends
        b.len() >= 4,
{
    (b[0] * 0x100_0000 + b[1] * 0x1_0000 + b[2] * 0x100 + b[3]) as u32
}

/// Reading back the bytes of a 32-bit number gives the number, whatever
/// follows them.
pub proof fn lemma_u32_round_trip(v: u32, tail: Seq<u8>)
    ensures
        be_u32(v).len() == 4,
        u32_of_be(be_u32(v) + tail) == v,
{
    reveal(be_u32);
    reveal(u32_of_be);
    let x = be_u32(v) + tail;
    assert(x[0] == be_u32(v)[0] && x[1] == be_u32(v)[1] && x[2] == be_u32(v)[2] && x[3]
        == be_u32(v)[3]);
}

/// The base-256 digits of a number made of four digits are those digits.
proof fn lemma_digits(b0: int, b1: int, b2: int, b3: int)
    requires
        0 <= b0 < 0x100,
        0 <= b1 < 0x100,
        0 <= b2 < 0x100,
        0 <= b3 < 0x100,
    ensures
        ({
            let v = b0 * 0x100_0000 + b1 * 0x1_0000 + b2 * 0x100 + b3;
            &&& 0 <= v <= u32::MAX
            &&& v / 0x100_0000 == b0
            &&& v / 0x1_0000 % 0x100 == b1
            &&& v / 0x100 % 0x100 == b2
            &&& v % 0x100 == b3
        }),
{
}

/// Writing out the number read from the first four bytes of `b` gives those
/// four bytes.
pub proof fn lemma_u32_bytes_round_trip(b: Seq<u8>)
    requires
        b.len() >= 4,
    ensures
        be_u32(u32_of_be(b)) == b.take(4),
{
    reveal(be_u32);
    reveal(u32_of_be);
    lemma_digits(b[0] as int, b[1] as int, b[2] as int, b[3] as int);
    let v = u32_of_be(b);
    let w = be_u32(v);
    assert(w[0] == b[0]);
    assert(w[1] == b[1]);
    assert(w[2] == b[2]);
    assert(w[3] == b[3]);
    assert(w =~= b.take(4));
}

/// The byte that stands for a status.
pub open spec fn status_byte(c: StatusCode) -> u8 {
    match c {
        StatusCode::Okay => 0x00,
        StatusCode::KeyNotFound => 0x01,
        StatusCode::FatalError => 0x02,
    }
}

/// The status that a byte stands for, if any.
pub open spec fn status_of_byte(b: u8) -> Option<StatusCode> {
    if b == 0x00 {
        Some(StatusCode::Okay)
    } else if b == 0x01 {
        Some(StatusCode::KeyNotFound)
    } else if b == 0x02 {
        Some(StatusCode::FatalError)
    } else {
        None
    }
}

/// The message type byte of a payload. Bit 7 is set for a response.
pub open spec fn type_byte(p: PayloadView) -> u8 {
    match p {
        PayloadView::ReqSet { .. } => 0x00,
        PayloadView::ReqGet { .. } => 0x01,
        PayloadView::ReqRemove { .. } => 0x02,
        PayloadView::RespSet { .. } => 0x80,
        PayloadView::RespGet { .. } => 0x81,
        PayloadView::RespRemove { .. } => 0x82,
    }
}

/// Whether the UTF-8 bytes of `s` can be counted in a 32-bit length field.
pub open spec fn string_fits(s: Seq<char>) -> bool {
    encode_utf8(s).len() <= u32::MAX
}

/// A string on the wire: its length in bytes as four big-endian bytes, then
/// its UTF-8 bytes.
#[verifier::opaque]
pub open spec fn string_wire(s: Seq<char>) -> Seq<u8> {
    be_u32(encode_utf8(s).len() as u32) + encode_utf8(s)
}

/// An optional string on the wire: tag 0 for none; tag 1 and the string for some.
pub open spec fn option_wire(v: Option<Seq<char>>) -> Seq<u8> {
    match v {
        None => seq![0x00u8],
        Some(s) => seq![0x01u8] + string_wire(s),
    }
}

/// The body of a payload: what follows the message type byte.
pub open spec fn body_wire(p: PayloadView) -> Seq<u8> {
    match p {
        PayloadView::ReqSet { key, value } => string_wire(key) + string_wire(value),
        PayloadView::ReqGet { key } => string_wire(key),
        PayloadView::ReqRemove { key } => string_wire(key),
        PayloadView::RespSet { code } => seq![status_byte(code)],
        PayloadView::RespGet { code, found } => seq![status_byte(code)] + option_wire(found),
        PayloadView::RespRemove { code } => seq![status_byte(code)],
    }
}

/// A payload on the wire: the message type byte, then the body.
pub open spec fn payload_wire(p: PayloadView) -> Seq<u8> {
    seq![type_byte(p)] + body_wire(p)
}

/// A whole message on the wire: the version byte, the payload length as four
/// big-endian bytes, then the payload.
pub open spec fn message_wire(p: PayloadView) -> Seq<u8> {
    seq![PROTOCOL_VERSION] + be_u32(payload_wire(p).len() as u32) + payload_wire(p)
}

/// Whether every string of the payload fits its length field.
pub open spec fn strings_fit(p: PayloadView) -> bool {
    match p {
        PayloadView::ReqSet { key, value } => string_fits(key) && string_fits(value),
        PayloadView::ReqGet { key } => string_fits(key),
        PayloadView::ReqRemove { key } => string_fits(key),
        PayloadView::RespSet { .. } => true,
        PayloadView::RespGet { found, .. } => match found {
            Some(s) => string_fits(s),
            None => true,
        },
        PayloadView::RespRemove { .. } => true,
    }
}

/// Whether the payload can be framed: each string, and the payload as a whole,
/// fit their 32-bit length fields.
pub open spec fn encodable(p: PayloadView) -> bool {
    strings_fit(p) && payload_wire(p).len() <= u32::MAX
}

/// Reads one byte off the front of `b`.
pub open spec fn parse_u8(b: Seq<u8>) -> Result<(u8, Seq<u8>), Fault> {
    if b.len() < 1 {
        Err(Fault::Eof)
    } else {
        Ok((b[0], b.skip(1)))
    }
}

/// Reads a big-endian 32-bit number off the front of `b`.
pub open spec fn parse_u32(b: Seq<u8>) -> Result<(u32, Seq<u8>), Fault> {
    if b.len() < 4 {
        Err(Fault::Eof)
    } else {
        Ok((u32_of_be(b), b.skip(4)))
    }
}

/// Reads a string off the front of `b`: the length, then that many bytes,
/// which must be UTF-8.
#[verifier::opaque]
pub open spec fn parse_string(b: Seq<u8>) -> Result<(Seq<char>, Seq<u8>), Fault> {
    match parse_u32(b) {
        Err(f) => Err(f),
        Ok((n, rest)) => {
            if rest.len() < n {
                Err(Fault::Eof)
            } else if !valid_utf8(rest.take(n as int)) {
                Err(Fault::InvalidUtf8)
            } else {
                Ok((decode_utf8(rest.take(n as int)), rest.skip(n as int)))
            }
        },
    }
}

/// Reads an optional string off the front of `b`.
pub open spec fn parse_option(b: Seq<u8>) -> Result<(Option<Seq<char>>, Seq<u8>), Fault> {
    match parse_u8(b) {
        Err(f) => Err(f),
        Ok((tag, rest)) => {
            if tag == 0x00 {
                Ok((None, rest))
            } else if tag == 0x01 {
                match parse_string(rest) {
                    Err(f) => Err(f),
                    Ok((s, rest)) => Ok((Some(s), rest)),
                }
            } else {
                Err(Fault::InvalidOptionTag(tag))
            }
        },
    }
}

/// Reads a status off the front of `b`.
pub open spec fn parse_status(b: Seq<u8>) -> Result<(StatusCode, Seq<u8>), Fault> {
    match parse_u8(b) {
        Err(f) => Err(f),
        Ok((byte, rest)) => match status_of_byte(byte) {
            Some(code) => Ok((code, rest)),
            None => Err(Fault::UnknownStatusCode(byte)),
        },
    }
}

/// Reads the body of a payload of type `ty` off the front of `b`.
pub open spec fn parse_body(ty: u8, b: Seq<u8>) -> Result<(PayloadView, Seq<u8>), Fault> {
    if ty == 0x00 {
        match parse_string(b) {
            Err(f) => Err(f),
            Ok((key, rest)) => match parse_string(rest) {
                Err(f) => Err(f),
                Ok((value, rest)) => Ok((PayloadView::ReqSet { key, value }, rest)),
            },
        }
    } else if ty == 0x01 {
        match parse_string(b) {
            Err(f) => Err(f),
            Ok((key, rest)) => Ok((PayloadView::ReqGet { key }, rest)),
        }
    } else if ty == 0x02 {
        match parse_string(b) {
            Err(f) => Err(f),
            Ok((key, rest)) => Ok((PayloadView::ReqRemove { key }, rest)),
        }
    } else if ty == 0x80 {
        match parse_status(b) {
            Err(f) => Err(f),
            Ok((code, rest)) => Ok((PayloadView::RespSet { code }, rest)),
        }
    } else if ty == 0x81 {
        match parse_status(b) {
            Err(f) => Err(f),
            Ok((code, rest)) => match parse_option(rest) {
                Err(f) => Err(f),
                Ok((found, rest)) => Ok((PayloadView::RespGet { code, found }, rest)),
            },
        }
    } else if ty == 0x82 {
        match parse_status(b) {
            Err(f) => Err(f),
            Ok((code, rest)) => Ok((PayloadView::RespRemove { code }, rest)),
        }
    } else {
        Err(Fault::UnknownMessageType(ty))
    }
}

/// Reads a payload off the front of `b`: the message type byte, then the body.
pub open spec fn parse_payload(b: Seq<u8>) -> Result<(PayloadView, Seq<u8>), Fault> {
    match parse_u8(b) {
        Err(f) => Err(f),
        Ok((ty, rest)) => parse_body(ty, rest),
    }
}

/// Reads a header off the front of `b` and gives its payload length. The
/// version byte is checked as soon as it is read.
pub open spec fn parse_header(b: Seq<u8>) -> Result<(u32, Seq<u8>), Fault> {
    match parse_u8(b) {
        Err(f) => Err(f),
        Ok((version, rest)) => {
            if version != PROTOCOL_VERSION {
                Err(Fault::VersionMismatch(version))
            } else {
                parse_u32(rest)
            }
        },
    }
}

/// Reads the header that `b` is: a header with nothing behind it.
pub open spec fn parse_whole_header(b: Seq<u8>) -> Result<u32, Fault> {
    match parse_header(b) {
        Err(f) => Err(f),
        Ok((n, rest)) => if rest.len() == 0 {
            Ok(n)
        } else {
            Err(Fault::TrailingBytes)
        },
    }
}

/// Reads the payload that `b` is: a payload with nothing behind it.
pub open spec fn parse_whole_payload(b: Seq<u8>) -> Result<PayloadView, Fault> {
    match parse_payload(b) {
        Err(f) => Err(f),
        Ok((p, rest)) => if rest.len() == 0 {
            Ok(p)
        } else {
            Err(Fault::TrailingBytes)
        },
    }
}

/// Reads the message that `b` is: the header, then a payload of exactly as
/// many bytes as the header's length field says, with nothing behind it. The
/// input ends too early where fewer bytes follow the header than the length
/// field says; bytes are left over where more follow, or where the payload
/// ends before them.
pub open spec fn parse_message(b: Seq<u8>) -> Result<PayloadView, Fault> {
    match parse_header(b) {
        Err(f) => Err(f),
        Ok((n, rest)) => if rest.len() < n {
            Err(Fault::Eof)
        } else if rest.len() > n {
            Err(Fault::TrailingBytes)
        } else {
            parse_whole_payload(rest)
        },
    }
}

/// A string on the wire takes four bytes more than its UTF-8 bytes.
pub proof fn lemma_string_wire_len(s: Seq<char>)
    ensures
        string_wire(s).len() == 4 + encode_utf8(s).len(),
{
    reveal(string_wire);
    lemma_u32_round_trip(encode_utf8(s).len() as u32, Seq::empty());
}

} // verus!
