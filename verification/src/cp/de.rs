//! Decoding: reading values off a byte slice.

use crate::cp::error::Error;
use crate::cp::format::{
    parse_body, parse_header, parse_message, parse_option, parse_payload, parse_status,
    parse_string, parse_u32, parse_u8, parse_whole_header, parse_whole_payload, status_of_byte,
    u32_of_be,
};
use crate::cp::{
    Header, Message, MessagePayload, Request, RequestGet, RequestRemove, RequestSet, Response,
    ResponseGet, ResponseRemove, ResponseSet, StatusCode, PROTOCOL_VERSION,
};
use vstd::prelude::*;
use vstd::slice::slice_subrange;
use vstd::string::StringSliceAdditionalSpecFns;
use vstd::utf8::*;

verus! {

/// `std::str::from_utf8`: checks that `bytes` are UTF-8 and hands them back
/// as a string slice. It succeeds exactly on valid UTF-8, and the string's
/// bytes are then `bytes`.
#[verifier::external_body]
fn str_from_utf8<'a>(bytes: &'a [u8]) -> (r: Result<&'a str, std::str::Utf8Error>)
    ensures
        match r {
            Ok(s) => valid_utf8(bytes@) && s.spec_bytes() == bytes@,
            Err(_) => !valid_utf8(bytes@),
        },
{
    std::str::from_utf8(bytes)
}

/// The number whose big-endian bytes are the first four of `b`.
pub(crate) fn u32_from_be_bytes(b: &[u8]) -> (v: u32)
    requires
        b@.len() >= 4,
    ensures
        v == u32_of_be(b@),
{
    reveal(u32_of_be);
    (b[0] as u32) * 0x100_0000 + (b[1] as u32) * 0x1_0000 + (b[2] as u32) * 0x100 + (b[3] as u32)
}

/// Reads values, one after the other, off a byte slice.
pub struct Deserializer<'de> {
    buf: &'de [u8],
    rd_idx: usize,
}

impl<'de> Deserializer<'de> {
    #[verifier::type_invariant]
    spec fn inv(self) -> bool {
        self.rd_idx <= self.buf@.len()
    }

    /// The whole input, read or not.
    pub closed spec fn input(&self) -> Seq<u8> {
        self.buf@
    }

    /// The bytes that were not read yet.
    pub closed spec fn remaining(&self) -> Seq<u8> {
        self.buf@.skip(self.rd_idx as int)
    }

    /// A deserializer that reads from the start of `buf`.
    pub fn new(buf: &'de [u8]) -> (d: Self)
        ensures
            d.input() == buf@,
            d.remaining() == buf@,
    {
        let d = Deserializer { buf, rd_idx: 0 };
        assert(d.buf@.skip(0) =~= buf@);
        d
    }

    /// Whether every byte of the input was read.
    pub fn is_at_end(&self) -> (r: bool)
        ensures
            r == (self.remaining().len() == 0),
    {
        proof {
            use_type_invariant(self);
        }
        self.rd_idx == self.buf.len()
    }

    /// Reads one byte. At the end of the input it fails with `Eof` and stays
    /// where it is.
    pub fn read_byte(&mut self) -> (r: Result<u8, Error>)
        ensures
            final(self).input() == old(self).input(),
            match parse_u8(old(self).remaining()) {
                Ok((v, rest)) => r == Ok::<u8, Error>(v) && final(self).remaining() == rest,
                Err(f) => r == Err::<u8, Error>(Error::Eof) && final(self).remaining() == old(
                    self,
                ).remaining(),
            },
    {
        proof {
            use_type_invariant(&*self);
        }
        if self.rd_idx < self.buf.len() {
            let val = self.buf[self.rd_idx];
            assert(self.buf@.skip(self.rd_idx as int).skip(1) =~= self.buf@.skip(
                self.rd_idx as int + 1,
            ));
            self.rd_idx = self.rd_idx + 1;
            Ok(val)
        } else {
            Err(Error::Eof)
        }
    }

    /// Reads the next `len` bytes. Where fewer are left it fails with `Eof`
    /// and stays where it is.
    pub fn read_bytes(&mut self, len: usize) -> (r: Result<&'de [u8], Error>)
        ensures
            final(self).input() == old(self).input(),
            match r {
                Ok(bytes) => {
                    &&& len <= old(self).remaining().len()
                    &&& bytes@ == old(self).remaining().take(len as int)
                    &&& final(self).remaining() == old(self).remaining().skip(len as int)
                },
                Err(e) => {
                    &&& e == Error::Eof
                    &&& len > old(self).remaining().len()
                    &&& final(self).remaining() == old(self).remaining()
                },
            },
    {
        proof {
            use_type_invariant(&*self);
        }
        if len <= self.buf.len() - self.rd_idx {
            let next_idx = self.rd_idx + len;
            let val = slice_subrange(self.buf, self.rd_idx, next_idx);
            assert(val@ =~= self.buf@.skip(self.rd_idx as int).take(len as int));
            assert(self.buf@.skip(self.rd_idx as int).skip(len as int) =~= self.buf@.skip(
                next_idx as int,
            ));
            self.rd_idx = next_idx;
            Ok(val)
        } else {
            Err(Error::Eof)
        }
    }

    /// Reads a big-endian 32-bit number. Where fewer than four bytes are left
    /// it fails with `Eof` and stays where it is.
    pub fn read_u32(&mut self) -> (r: Result<u32, Error>)
        ensures
            final(self).input() == old(self).input(),
            match parse_u32(old(self).remaining()) {
                Ok((v, rest)) => r == Ok::<u32, Error>(v) && final(self).remaining() == rest,
                Err(f) => r == Err::<u32, Error>(Error::Eof) && final(self).remaining() == old(
                    self,
                ).remaining(),
            },
    {
        match self.read_bytes(4) {
            Ok(bytes) => {
                let v = u32_from_be_bytes(bytes);
                proof {
                    reveal(u32_of_be);
                }
                Ok(v)
            },
            Err(e) => Err(e),
        }
    }

    /// Reads a string: its length, then its bytes, which must be UTF-8. On
    /// failure it stays where it was.
    pub fn deserialize_string(&mut self) -> (r: Result<String, Error>)
        ensures
            final(self).input() == old(self).input(),
            match parse_string(old(self).remaining()) {
                Ok((s, rest)) => r matches Ok(v) && v@ == s && final(self).remaining() == rest,
                Err(f) => r matches Err(e) && e.reports(f) && final(self).remaining() == old(
                    self,
                ).remaining(),
            },
    {
        proof {
            reveal(parse_string);
            use_type_invariant(&*self);
        }
        let start = self.rd_idx;
        let len = match self.read_u32() {
            Ok(n) => n as usize,
            Err(e) => {
                return Err(e);
            },
        };
        let buf = match self.read_bytes(len) {
            Ok(b) => b,
            Err(e) => {
                self.rd_idx = start;
                return Err(e);
            },
        };
        match str_from_utf8(buf) {
            Ok(s) => {
                proof {
                    encode_utf8_decode_utf8(s@);
                }
                Ok(s.to_owned())
            },
            Err(e) => {
                self.rd_idx = start;
                Err(Error::InvalidUtf8Encoding(e))
            },
        }
    }

    /// Reads an optional string: a tag, and after tag 1 a string. On failure
    /// it stays where it was.
    pub fn deserialize_option(&mut self) -> (r: Result<Option<String>, Error>)
        ensures
            final(self).input() == old(self).input(),
            match parse_option(old(self).remaining()) {
                Ok((found, rest)) => {
                    &&& r matches Ok(v)
                    &&& match v {
                        Some(s) => found == Some(s@),
                        None => found is None,
                    }
                    &&& final(self).remaining() == rest
                },
                Err(f) => r matches Err(e) && e.reports(f) && final(self).remaining() == old(
                    self,
                ).remaining(),
            },
    {
        proof {
            use_type_invariant(&*self);
        }
        let start = self.rd_idx;
        let tag = match self.read_byte() {
            Ok(t) => t,
            Err(e) => {
                return Err(e);
            },
        };
        if tag == 0 {
            Ok(None)
        } else if tag == 1 {
            match self.deserialize_string() {
                Ok(s) => Ok(Some(s)),
                Err(e) => {
                    self.rd_idx = start;
                    Err(e)
                },
            }
        } else {
            self.rd_idx = start;
            Err(Error::InvalidOptionTag(tag))
        }
    }
}

impl StatusCode {
    /// The status that a byte stands for, if any.
    pub fn from_u8(b: u8) -> (r: Option<StatusCode>)
        ensures
            r == status_of_byte(b),
    {
        if b == 0x00 {
            Some(StatusCode::Okay)
        } else if b == 0x01 {
            Some(StatusCode::KeyNotFound)
        } else if b == 0x02 {
            Some(StatusCode::FatalError)
        } else {
            None
        }
    }

    /// Reads a status. On failure the deserializer stays where it was.
    pub fn deserialize(d: &mut Deserializer) -> (r: Result<StatusCode, Error>)
        ensures
            final(d).input() == old(d).input(),
            match parse_status(old(d).remaining()) {
                Ok((code, rest)) => r == Ok::<StatusCode, Error>(code) && final(d).remaining()
                    == rest,
                Err(f) => r matches Err(e) && e.reports(f) && final(d).remaining() == old(
                    d,
                ).remaining(),
            },
    {
        proof {
            use_type_invariant(&*d);
        }
        let start = d.rd_idx;
        let byte = match d.read_byte() {
            Ok(b) => b,
            Err(e) => {
                return Err(e);
            },
        };
        match StatusCode::from_u8(byte) {
            Some(code) => Ok(code),
            None => {
                d.rd_idx = start;
                Err(Error::UnknownStatusCode(byte))
            },
        }
    }
}

impl MessagePayload {
    /// Reads the body of a payload whose message type byte is `ty`. On
    /// failure the deserializer stays where it was.
    pub fn deserialize_body(ty: u8, d: &mut Deserializer) -> (r: Result<MessagePayload, Error>)
        ensures
            final(d).input() == old(d).input(),
            match parse_body(ty, old(d).remaining()) {
                Ok((p, rest)) => r matches Ok(m) && m@ == p && final(d).remaining() == rest,
                Err(f) => r matches Err(e) && e.reports(f) && final(d).remaining() == old(
                    d,
                ).remaining(),
            },
    {
        proof {
            use_type_invariant(&*d);
        }
        let start = d.rd_idx;
        if ty == 0x00 {
            let key = d.deserialize_string()?;
            match d.deserialize_string() {
                Ok(value) => Ok(MessagePayload::Request(Request::Put(RequestSet { key, value }))),
                Err(e) => {
                    d.rd_idx = start;
                    Err(e)
                },
            }
        } else if ty == 0x01 {
            let key = d.deserialize_string()?;
            Ok(MessagePayload::Request(Request::Get(RequestGet { key })))
        } else if ty == 0x02 {
            let key = d.deserialize_string()?;
            Ok(MessagePayload::Request(Request::Remove(RequestRemove { key })))
        } else if ty == 0x80 {
            let code = StatusCode::deserialize(d)?;
            Ok(MessagePayload::Response(Response::Put(ResponseSet { code })))
        } else if ty == 0x81 {
            let code = StatusCode::deserialize(d)?;
            match d.deserialize_option() {
                Ok(value) => Ok(
                    MessagePayload::Response(Response::Get(ResponseGet { code, value })),
                ),
                Err(e) => {
                    d.rd_idx = start;
                    Err(e)
                },
            }
        } else if ty == 0x82 {
            let code = StatusCode::deserialize(d)?;
            Ok(MessagePayload::Response(Response::Remove(ResponseRemove { code })))
        } else {
            Err(Error::UnknownMessageType(ty))
        }
    }

    /// Reads a payload: the message type byte, then the body that the type
    /// calls for. On failure the deserializer stays where it was.
    pub fn deserialize(d: &mut Deserializer) -> (r: Result<MessagePayload, Error>)
        ensures
            final(d).input() == old(d).input(),
            match parse_payload(old(d).remaining()) {
                Ok((p, rest)) => r matches Ok(m) && m@ == p && final(d).remaining() == rest,
                Err(f) => r matches Err(e) && e.reports(f) && final(d).remaining() == old(
                    d,
                ).remaining(),
            },
    {
        proof {
            use_type_invariant(&*d);
        }
        let start = d.rd_idx;
        let ty = d.read_byte()?;
        match MessagePayload::deserialize_body(ty, d) {
            Ok(p) => Ok(p),
            Err(e) => {
                d.rd_idx = start;
                Err(e)
            },
        }
    }
}

impl Header {
    /// Reads a header: the version byte, which must be the protocol version,
    /// then the payload length. On failure the deserializer stays where it
    /// was.
    pub fn deserialize(d: &mut Deserializer) -> (r: Result<Header, Error>)
        ensures
            final(d).input() == old(d).input(),
            match parse_header(old(d).remaining()) {
                Ok((n, rest)) => {
                    &&& r matches Ok(h)
                    &&& h.protocol_version() == PROTOCOL_VERSION
                    &&& h.payload_length() == n
                    &&& final(d).remaining() == rest
                },
                Err(f) => r matches Err(e) && e.reports(f) && final(d).remaining() == old(
                    d,
                ).remaining(),
            },
    {
        proof {
            use_type_invariant(&*d);
        }
        let start = d.rd_idx;
        let protocol_version = d.read_byte()?;
        if protocol_version != PROTOCOL_VERSION {
            d.rd_idx = start;
            return Err(Error::VersionMismatch(protocol_version));
        }
        match d.read_u32() {
            Ok(payload_length) => Ok(Header { protocol_version, payload_length }),
            Err(e) => {
                d.rd_idx = start;
                Err(e)
            },
        }
    }
}

impl Message {
    /// Reads the message that the rest of the input is: the header, then a
    /// payload of exactly as many bytes as the header's length field says,
    /// with nothing behind it. On failure the deserializer stays where it
    /// was.
    pub fn deserialize(d: &mut Deserializer) -> (r: Result<Message, Error>)
        ensures
            final(d).input() == old(d).input(),
            match parse_message(old(d).remaining()) {
                Ok(p) => r matches Ok(m) && m@ == p && final(d).remaining().len() == 0,
                Err(f) => r matches Err(e) && e.reports(f) && final(d).remaining() == old(
                    d,
                ).remaining(),
            },
    {
        proof {
            use_type_invariant(&*d);
        }
        let start = d.rd_idx;
        let header = Header::deserialize(d)?;
        proof {
            use_type_invariant(&*d);
        }
        let left = d.buf.len() - d.rd_idx;
        let payload_length = header.payload_length() as usize;
        if left < payload_length {
            d.rd_idx = start;
            return Err(Error::Eof);
        }
        if left > payload_length {
            d.rd_idx = start;
            return Err(Error::TrailingBytes);
        }
        match MessagePayload::deserialize(d) {
            Ok(payload) => {
                if d.is_at_end() {
                    Ok(Message { payload })
                } else {
                    d.rd_idx = start;
                    Err(Error::TrailingBytes)
                }
            },
            Err(e) => {
                d.rd_idx = start;
                Err(e)
            },
        }
    }
}

/// Decodes the message that `bytes` are: a header, and a payload of exactly
/// as many bytes as the header's length field says, with nothing behind it.
pub fn from_bytes(bytes: &[u8]) -> (r: Result<Message, Error>)
    ensures
        match parse_message(bytes@) {
            Ok(p) => r matches Ok(m) && m@ == p,
            Err(f) => r matches Err(e) && e.reports(f),
        },
{
    let mut d = Deserializer::new(bytes);
    Message::deserialize(&mut d)
}

/// Decodes the header that `bytes` are: checks the version byte and gives
/// the payload length. Bytes behind the header are refused.
pub fn header_from_bytes(bytes: &[u8]) -> (r: Result<Header, Error>)
    ensures
        match parse_whole_header(bytes@) {
            Ok(n) => {
                &&& r matches Ok(h)
                &&& h.protocol_version() == PROTOCOL_VERSION
                &&& h.payload_length() == n
            },
            Err(f) => r matches Err(e) && e.reports(f),
        },
{
    let mut d = Deserializer::new(bytes);
    let header = Header::deserialize(&mut d)?;
    if d.is_at_end() {
        Ok(header)
    } else {
        Err(Error::TrailingBytes)
    }
}

/// Decodes the payload that `bytes` are. Bytes behind the payload are
/// refused.
pub fn payload_from_bytes(bytes: &[u8]) -> (r: Result<MessagePayload, Error>)
    ensures
        match parse_whole_payload(bytes@) {
            Ok(p) => r matches Ok(m) && m@ == p,
            Err(f) => r matches Err(e) && e.reports(f),
        },
{
    let mut d = Deserializer::new(bytes);
    let payload = MessagePayload::deserialize(&mut d)?;
    if d.is_at_end() {
        Ok(payload)
    } else {
        Err(Error::TrailingBytes)
    }
}

} // verus!
