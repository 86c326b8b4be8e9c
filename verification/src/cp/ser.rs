//! Encoding: writing values into a caller's buffer, and measuring how many
//! bytes that takes.

use crate::cp::error::Error;
use crate::cp::format::{
    be_u32, encodable, lemma_string_wire_len, lemma_u32_round_trip, message_wire,
    option_wire, payload_wire, status_byte, string_fits, string_wire, strings_fit, type_byte,
};
use crate::cp::{Message, MessagePayload, Request, Response, StatusCode, PROTOCOL_VERSION};
use vstd::prelude::*;
use vstd::string::StringSliceAdditionalSpecFns;
use vstd::utf8::*;

verus! {

/// Whether the message can be framed and its encoded length can be held in a
/// `usize`.
pub open spec fn measurable(m: &Message) -> bool {
    encodable(m@) && message_wire(m@).len() <= usize::MAX
}

/// The four big-endian bytes of `v`.
pub(crate) fn u32_to_be_bytes(v: u32) -> (b: [u8; 4])
    ensures
        b@ == be_u32(v),
{
    reveal(be_u32);
    let b = [
        (v / 0x100_0000) as u8,
        (v / 0x1_0000 % 0x100) as u8,
        (v / 0x100 % 0x100) as u8,
        (v % 0x100) as u8,
    ];
    assert(b@ =~= be_u32(v));
    b
}

/// The error for a length that no 32-bit length field can hold.
pub(crate) fn too_long() -> (e: Error)
    ensures
        e matches Error::Message(msg) && msg@ == too_long_text(),
{
    Error::Message("length is too large to be represented as 32bit unsigned integer".to_owned())
}

/// What the error for a length that no 32-bit length field can hold says.
pub open spec fn too_long_text() -> Seq<char> {
    "length is too large to be represented as 32bit unsigned integer"@
}

/// Whether the UTF-8 bytes of `v` can be counted in a 32-bit length field.
pub(crate) fn str_fits(v: &str) -> (b: bool)
    ensures
        b == string_fits(v@),
{
    v.as_bytes().len() <= u32::MAX as usize
}

/// Writes values, one after the other, into a buffer that the caller lends.
pub struct Serializer<'ser> {
    pub(crate) buf: &'ser mut [u8],
    pub(crate) wr_idx: usize,
}

impl<'ser> Serializer<'ser> {
    /// The write position lies within the buffer.
    pub closed spec fn wf(&self) -> bool {
        self.wr_idx <= self.buf@.len()
    }

    /// The bytes written so far.
    pub closed spec fn written(&self) -> Seq<u8> {
        self.buf@.take(self.wr_idx as int)
    }

    /// The part of the buffer that nothing was written to yet.
    pub closed spec fn unwritten(&self) -> Seq<u8> {
        self.buf@.skip(self.wr_idx as int)
    }

    /// A serializer that writes from the start of `buf`.
    pub(crate) fn new(buf: &'ser mut [u8]) -> (s: Self)
        ensures
            s.wf(),
            s.written() == Seq::<u8>::empty(),
            s.unwritten() == old(buf)@,
            final(s.buf)@ == final(buf)@,
            s.buf@ == old(buf)@,
    {
        let s = Serializer { buf, wr_idx: 0 };
        assert(s.buf@.take(0) =~= Seq::<u8>::empty());
        assert(s.buf@.skip(0) =~= s.buf@);
        s
    }

    /// Copies `bytes` to the write position and moves the position past them.
    /// Writes nothing where they do not all fit.
    pub(crate) fn write_bytes(&mut self, bytes: &[u8]) -> (r: Result<(), Error>)
        requires
            old(self).wf(),
        ensures
            final(self).wf(),
            final(final(self).buf)@ == final(old(self).buf)@,
            match r {
                Ok(()) => {
                    &&& bytes@.len() <= old(self).unwritten().len()
                    &&& final(self).written() == old(self).written() + bytes@
                    &&& final(self).unwritten() == old(self).unwritten().skip(bytes@.len() as int)
                },
                Err(e) => {
                    &&& e == Error::NotEnoughSpaceInBuffer
                    &&& bytes@.len() > old(self).unwritten().len()
                    &&& final(self).written() == old(self).written()
                    &&& final(self).unwritten() == old(self).unwritten()
                },
            },
    {
        let n = bytes.len();
        if n <= self.buf.len() - self.wr_idx {
            let ghost before = self.buf@;
            let start = self.wr_idx;
            let mut i: usize = 0;
            while i < n
                invariant
                    i <= n,
                    n == bytes@.len(),
                    start == self.wr_idx,
                    start + n <= self.buf@.len() <= usize::MAX,
                    self.buf@.len() == before.len(),
                    final(self.buf)@ == final(old(self).buf)@,
                    forall|k: int| 0 <= k < start ==> self.buf@[k] == before[k],
                    forall|k: int| 0 <= k < i ==> self.buf@[start + k] == bytes@[k],
                    forall|k: int| start + i <= k < before.len() ==> self.buf@[k] == before[k],
                decreases n - i,
            {
                self.buf[start + i] = bytes[i];
                i = i + 1;
            }
            self.wr_idx = start + n;
            assert(self.buf@.take(self.wr_idx as int) =~= before.take(start as int) + bytes@);
            assert(self.buf@.skip(self.wr_idx as int) =~= before.skip(start as int).skip(n as int));
            Ok(())
        } else {
            Err(Error::NotEnoughSpaceInBuffer)
        }
    }

    /// Writes one byte.
    pub(crate) fn serialize_u8(&mut self, v: u8) -> (r: Result<(), Error>)
        requires
            old(self).wf(),
        ensures
            final(self).wf(),
            final(final(self).buf)@ == final(old(self).buf)@,
            match r {
                Ok(()) => {
                    &&& 1 <= old(self).unwritten().len()
                    &&& final(self).written() == old(self).written() + seq![v]
                    &&& final(self).unwritten() == old(self).unwritten().skip(1)
                },
                Err(e) => {
                    &&& e == Error::NotEnoughSpaceInBuffer
                    &&& old(self).unwritten().len() < 1
                    &&& final(self).written() == old(self).written()
                    &&& final(self).unwritten() == old(self).unwritten()
                },
            },
    {
        let b = [v];
        assert(b@ =~= seq![v]);
        self.write_bytes(b.as_slice())
    }

    /// Writes a 32-bit number, most significant byte first.
    pub(crate) fn serialize_u32(&mut self, v: u32) -> (r: Result<(), Error>)
        requires
            old(self).wf(),
        ensures
            final(self).wf(),
            final(final(self).buf)@ == final(old(self).buf)@,
            match r {
                Ok(()) => {
                    &&& 4 <= old(self).unwritten().len()
                    &&& final(self).written() == old(self).written() + be_u32(v)
                    &&& final(self).unwritten() == old(self).unwritten().skip(4)
                },
                Err(e) => {
                    &&& e == Error::NotEnoughSpaceInBuffer
                    &&& old(self).unwritten().len() < 4
                    &&& final(self).written() == old(self).written()
                    &&& final(self).unwritten() == old(self).unwritten()
                },
            },
    {
        let b = u32_to_be_bytes(v);
        proof {
            lemma_u32_round_trip(v, Seq::empty());
        }
        self.write_bytes(b.as_slice())
    }

    /// Writes a string: the length of its UTF-8 bytes, then the bytes. Fails,
    /// and writes nothing, where the length does not fit 32 bits or the whole
    /// does not fit the buffer.
    pub(crate) fn serialize_str(&mut self, v: &str) -> (r: Result<(), Error>)
        requires
            old(self).wf(),
        ensures
            final(self).wf(),
            final(final(self).buf)@ == final(old(self).buf)@,
            match r {
                Ok(()) => {
                    &&& string_fits(v@)
                    &&& string_wire(v@).len() <= old(self).unwritten().len()
                    &&& final(self).written() == old(self).written() + string_wire(v@)
                    &&& final(self).unwritten() == old(self).unwritten().skip(
                        string_wire(v@).len() as int,
                    )
                },
                Err(e) => {
                    &&& final(self).written() == old(self).written()
                    &&& final(self).unwritten() == old(self).unwritten()
                    &&& if string_fits(v@) {
                        e == Error::NotEnoughSpaceInBuffer && string_wire(v@).len() > old(
                            self,
                        ).unwritten().len()
                    } else {
                        e is Message
                    }
                },
            },
    {
        let bytes = v.as_bytes();
        let str_len = bytes.len();
        proof {
            lemma_string_wire_len(v@);
            reveal(string_wire);
        }
        if str_len > u32::MAX as usize {
            return Err(too_long());
        }
        let room = self.buf.len() - self.wr_idx;
        if str_len > usize::MAX - 4 || str_len + 4 > room {
            return Err(Error::NotEnoughSpaceInBuffer);
        }
        let ghost before = *self;
        let r1 = self.serialize_u32(str_len as u32);
        let r2 = self.write_bytes(bytes);
        assert(r1 is Ok && r2 is Ok);
        assert(self.written() =~= before.written() + string_wire(v@));
        assert(self.unwritten() =~= before.unwritten().skip(string_wire(v@).len() as int));
        Ok(())
    }

    /// Writes the tag of an absent optional value.
    pub(crate) fn serialize_none(&mut self) -> (r: Result<(), Error>)
        requires
            old(self).wf(),
        ensures
            final(self).wf(),
            final(final(self).buf)@ == final(old(self).buf)@,
            match r {
                Ok(()) => {
                    &&& 1 <= old(self).unwritten().len()
                    &&& final(self).written() == old(self).written() + option_wire(None)
                    &&& final(self).unwritten() == old(self).unwritten().skip(1)
                },
                Err(e) => {
                    &&& e == Error::NotEnoughSpaceInBuffer
                    &&& old(self).unwritten().len() < 1
                    &&& final(self).written() == old(self).written()
                    &&& final(self).unwritten() == old(self).unwritten()
                },
            },
    {
        self.serialize_u8(0)
    }

    /// Writes a present optional string: tag 1, then the string. Fails, and
    /// writes nothing, where the string's length does not fit 32 bits or the
    /// whole does not fit the buffer.
    pub(crate) fn serialize_some(&mut self, v: &str) -> (r: Result<(), Error>)
        requires
            old(self).wf(),
        ensures
            final(self).wf(),
            final(final(self).buf)@ == final(old(self).buf)@,
            match r {
                Ok(()) => {
                    &&& string_fits(v@)
                    &&& option_wire(Some(v@)).len() <= old(self).unwritten().len()
                    &&& final(self).written() == old(self).written() + option_wire(Some(v@))
                    &&& final(self).unwritten() == old(self).unwritten().skip(
                        option_wire(Some(v@)).len() as int,
                    )
                },
                Err(e) => {
                    &&& final(self).written() == old(self).written()
                    &&& final(self).unwritten() == old(self).unwritten()
                    &&& if string_fits(v@) {
                        e == Error::NotEnoughSpaceInBuffer && option_wire(Some(v@)).len() > old(
                            self,
                        ).unwritten().len()
                    } else {
                        e is Message
                    }
                },
            },
    {
        let str_len = v.as_bytes().len();
        proof {
            lemma_string_wire_len(v@);
        }
        if str_len > u32::MAX as usize {
            return Err(too_long());
        }
        let room = self.buf.len() - self.wr_idx;
        if str_len > usize::MAX - 5 || str_len + 5 > room {
            return Err(Error::NotEnoughSpaceInBuffer);
        }
        let ghost before = *self;
        let r1 = self.serialize_u8(1);
        let r2 = self.serialize_str(v);
        assert(r1 is Ok && r2 is Ok);
        assert(self.written() =~= before.written() + option_wire(Some(v@)));
        assert(self.unwritten() =~= before.unwritten().skip(option_wire(Some(v@)).len() as int));
        Ok(())
    }
}

/// Counts the bytes that values take on the wire, without writing them.
pub struct SizeSerializer {
    total_len: usize,
}

impl SizeSerializer {
    /// The number of bytes counted so far.
    pub closed spec fn spec_total_len(&self) -> usize {
        self.total_len
    }

    /// A counter that has counted nothing.
    pub fn new() -> (s: SizeSerializer)
        ensures
            s.spec_total_len() == 0,
    {
        SizeSerializer { total_len: 0 }
    }

    /// The number of bytes counted so far.
    #[verifier::when_used_as_spec(spec_total_len)]
    pub fn total_len(&self) -> (n: usize)
        ensures
            n == self.spec_total_len(),
    {
        self.total_len
    }

    /// Counts `n` more bytes. Fails, and counts nothing, where the total
    /// would not fit a `usize`.
    fn advance(&mut self, n: usize) -> (r: Result<(), Error>)
        ensures
            match r {
                Ok(()) => final(self).total_len() == old(self).total_len() + n,
                Err(e) => {
                    &&& e is Message
                    &&& old(self).total_len() + n > usize::MAX
                    &&& final(self).total_len() == old(self).total_len()
                },
            },
    {
        match self.total_len.checked_add(n) {
            Some(t) => {
                self.total_len = t;
                Ok(())
            },
            None => Err(too_long()),
        }
    }

    /// Counts one byte.
    pub fn serialize_u8(&mut self, v: u8) -> (r: Result<(), Error>)
        ensures
            match r {
                Ok(()) => final(self).total_len() == old(self).total_len() + 1,
                Err(e) => {
                    &&& e is Message
                    &&& old(self).total_len() + 1 > usize::MAX
                    &&& final(self).total_len() == old(self).total_len()
                },
            },
    {
        self.advance(1)
    }

    /// Counts the four bytes of a 32-bit number.
    pub fn serialize_u32(&mut self, v: u32) -> (r: Result<(), Error>)
        ensures
            match r {
                Ok(()) => final(self).total_len() == old(self).total_len() + 4,
                Err(e) => {
                    &&& e is Message
                    &&& old(self).total_len() + 4 > usize::MAX
                    &&& final(self).total_len() == old(self).total_len()
                },
            },
    {
        self.advance(4)
    }

    /// Counts the bytes of a string on the wire. Fails, and counts nothing,
    /// where the string does not fit its length field or the total would not
    /// fit a `usize`.
    pub fn serialize_str(&mut self, v: &str) -> (r: Result<(), Error>)
        ensures
            match r {
                Ok(()) => {
                    &&& string_fits(v@)
                    &&& final(self).total_len() == old(self).total_len() + string_wire(v@).len()
                },
                Err(e) => {
                    &&& e is Message
                    &&& !string_fits(v@) || old(self).total_len() + string_wire(v@).len()
                        > usize::MAX
                    &&& final(self).total_len() == old(self).total_len()
                },
            },
    {
        let str_len = v.as_bytes().len();
        proof {
            lemma_string_wire_len(v@);
        }
        if str_len > u32::MAX as usize {
            return Err(too_long());
        }
        match str_len.checked_add(4) {
            Some(n) => self.advance(n),
            None => Err(too_long()),
        }
    }

    /// Counts the tag of an absent optional value.
    pub fn serialize_none(&mut self) -> (r: Result<(), Error>)
        ensures
            match r {
                Ok(()) => final(self).total_len() == old(self).total_len() + option_wire(
                    None,
                ).len(),
                Err(e) => {
                    &&& e is Message
                    &&& old(self).total_len() + 1 > usize::MAX
                    &&& final(self).total_len() == old(self).total_len()
                },
            },
    {
        self.advance(1)
    }

    /// Counts the bytes of a present optional string on the wire. Fails, and
    /// counts nothing, where the string does not fit its length field or the
    /// total would not fit a `usize`.
    pub fn serialize_some(&mut self, v: &str) -> (r: Result<(), Error>)
        ensures
            match r {
                Ok(()) => {
                    &&& string_fits(v@)
                    &&& final(self).total_len() == old(self).total_len() + option_wire(
                        Some(v@),
                    ).len()
                },
                Err(e) => {
                    &&& e is Message
                    &&& !string_fits(v@) || old(self).total_len() + option_wire(Some(v@)).len()
                        > usize::MAX
                    &&& final(self).total_len() == old(self).total_len()
                },
            },
    {
        let str_len = v.as_bytes().len();
        proof {
            lemma_string_wire_len(v@);
        }
        if str_len > u32::MAX as usize {
            return Err(too_long());
        }
        match str_len.checked_add(5) {
            Some(n) => self.advance(n),
            None => Err(too_long()),
        }
    }
}

impl StatusCode {
    /// The byte that stands for this status on the wire.
    pub fn to_u8(&self) -> (b: u8)
        ensures
            b == status_byte(*self),
    {
        match self {
            StatusCode::Okay => 0x00,
            StatusCode::KeyNotFound => 0x01,
            StatusCode::FatalError => 0x02,
        }
    }
}

impl MessagePayload {
    /// The message type byte of this payload.
    pub fn message_type(&self) -> (b: u8)
        ensures
            b == type_byte(self@),
    {
        match self {
            MessagePayload::Request(Request::Put(_)) => 0x00,
            MessagePayload::Request(Request::Get(_)) => 0x01,
            MessagePayload::Request(Request::Remove(_)) => 0x02,
            MessagePayload::Response(Response::Put(_)) => 0x80,
            MessagePayload::Response(Response::Get(_)) => 0x81,
            MessagePayload::Response(Response::Remove(_)) => 0x82,
        }
    }

    /// Whether every string of this payload fits its 32-bit length field.
    pub fn has_fitting_strings(&self) -> (b: bool)
        ensures
            b == strings_fit(self@),
    {
        match self {
            MessagePayload::Request(Request::Put(c)) => str_fits(c.key()) && str_fits(c.value()),
            MessagePayload::Request(Request::Get(c)) => str_fits(c.key()),
            MessagePayload::Request(Request::Remove(c)) => str_fits(c.key()),
            MessagePayload::Response(Response::Put(_)) => true,
            MessagePayload::Response(Response::Get(c)) => match c.value() {
                Some(v) => str_fits(v.as_str()),
                None => true,
            },
            MessagePayload::Response(Response::Remove(_)) => true,
        }
    }

    /// Counts the bytes of this payload on the wire: the message type byte
    /// and the body. Fails where a string does not fit its length field or
    /// the total would not fit a `usize`.
    pub fn measure(&self, s: &mut SizeSerializer) -> (r: Result<(), Error>)
        ensures
            match r {
                Ok(()) => {
                    &&& strings_fit(self@)
                    &&& final(s).total_len() == old(s).total_len() + payload_wire(self@).len()
                },
                Err(e) => {
                    &&& e is Message
                    &&& !strings_fit(self@) || old(s).total_len() + payload_wire(self@).len()
                        > usize::MAX
                    &&& final(s).total_len() == old(s).total_len()
                },
            },
    {
        let start = s.total_len;
        let r = self.measure_on(s);
        if r.is_err() {
            s.total_len = start;
        }
        r
    }

    /// Counts the bytes of this payload on the wire. On failure the count
    /// may hold a part of them.
    fn measure_on(&self, s: &mut SizeSerializer) -> (r: Result<(), Error>)
        ensures
            match r {
                Ok(()) => {
                    &&& strings_fit(self@)
                    &&& final(s).total_len() == old(s).total_len() + payload_wire(self@).len()
                },
                Err(e) => {
                    &&& e is Message
                    &&& !strings_fit(self@) || old(s).total_len() + payload_wire(self@).len()
                        > usize::MAX
                },
            },
    {
        s.serialize_u8(self.message_type())?;
        match self {
            MessagePayload::Request(Request::Put(c)) => {
                proof {
                    lemma_string_wire_len(c.spec_key());
                }
                s.serialize_str(c.key())?;
                s.serialize_str(c.value())
            },
            MessagePayload::Request(Request::Get(c)) => s.serialize_str(c.key()),
            MessagePayload::Request(Request::Remove(c)) => s.serialize_str(c.key()),
            MessagePayload::Response(Response::Put(c)) => s.serialize_u8(c.code().to_u8()),
            MessagePayload::Response(Response::Get(c)) => {
                s.serialize_u8(c.code().to_u8())?;
                match c.value() {
                    Some(v) => s.serialize_some(v.as_str()),
                    None => s.serialize_none(),
                }
            },
            MessagePayload::Response(Response::Remove(c)) => s.serialize_u8(c.code().to_u8()),
        }
    }

    /// Writes this payload: the message type byte, then the body. Fails, and
    /// writes nothing, where a string does not fit its length field or the
    /// whole does not fit the buffer.
    pub(crate) fn serialize(&self, s: &mut Serializer) -> (r: Result<(), Error>)
        requires
            old(s).wf(),
        ensures
            final(s).wf(),
            final(final(s).buf)@ == final(old(s).buf)@,
            match r {
                Ok(()) => {
                    &&& strings_fit(self@)
                    &&& payload_wire(self@).len() <= old(s).unwritten().len()
                    &&& final(s).written() == old(s).written() + payload_wire(self@)
                    &&& final(s).unwritten() == old(s).unwritten().skip(
                        payload_wire(self@).len() as int,
                    )
                },
                Err(e) => {
                    &&& final(s).written() == old(s).written()
                    &&& final(s).unwritten() == old(s).unwritten()
                    &&& if strings_fit(self@) {
                        e == Error::NotEnoughSpaceInBuffer && payload_wire(self@).len() > old(
                            s,
                        ).unwritten().len()
                    } else {
                        e is Message
                    }
                },
            },
    {
        let room = s.buf.len() - s.wr_idx;
        if !self.has_fitting_strings() {
            return Err(too_long());
        }
        let mut counter = SizeSerializer::new();
        if self.measure(&mut counter).is_err() || counter.total_len() > room {
            return Err(Error::NotEnoughSpaceInBuffer);
        }
        let ghost before = *s;
        let r0 = s.serialize_u8(self.message_type());
        assert(r0 is Ok);
        match self {
            MessagePayload::Request(Request::Put(c)) => {
                proof {
                    lemma_string_wire_len(c.spec_key());
                    lemma_string_wire_len(c.spec_value());
                }
                let r1 = s.serialize_str(c.key());
                let r2 = s.serialize_str(c.value());
                assert(r1 is Ok && r2 is Ok);
            },
            MessagePayload::Request(Request::Get(c)) => {
                let r1 = s.serialize_str(c.key());
                assert(r1 is Ok);
            },
            MessagePayload::Request(Request::Remove(c)) => {
                let r1 = s.serialize_str(c.key());
                assert(r1 is Ok);
            },
            MessagePayload::Response(Response::Put(c)) => {
                let r1 = s.serialize_u8(c.code().to_u8());
                assert(r1 is Ok);
            },
            MessagePayload::Response(Response::Get(c)) => {
                let r1 = s.serialize_u8(c.code().to_u8());
                let r2 = match c.value() {
                    Some(v) => s.serialize_some(v.as_str()),
                    None => s.serialize_none(),
                };
                assert(r1 is Ok && r2 is Ok);
            },
            MessagePayload::Response(Response::Remove(c)) => {
                let r1 = s.serialize_u8(c.code().to_u8());
                assert(r1 is Ok);
            },
        }
        assert(s.written() =~= before.written() + payload_wire(self@));
        assert(s.unwritten() =~= before.unwritten().skip(payload_wire(self@).len() as int));
        Ok(())
    }
}

/// A message on the wire takes five bytes more than its payload.
pub proof fn lemma_message_wire_len(p: crate::cp::PayloadView)
    ensures
        message_wire(p).len() == 5 + payload_wire(p).len(),
{
    lemma_u32_round_trip(payload_wire(p).len() as u32, Seq::empty());
}

impl Message {
    /// Writes this message: the version byte, the payload length, then the
    /// payload. Fails, and writes nothing, where the message cannot be framed
    /// or does not fit the buffer.
    pub(crate) fn serialize(&self, s: &mut Serializer) -> (r: Result<(), Error>)
        requires
            old(s).wf(),
        ensures
            final(s).wf(),
            final(final(s).buf)@ == final(old(s).buf)@,
            match r {
                Ok(()) => {
                    &&& encodable(self@)
                    &&& message_wire(self@).len() <= old(s).unwritten().len()
                    &&& final(s).written() == old(s).written() + message_wire(self@)
                    &&& final(s).unwritten() == old(s).unwritten().skip(
                        message_wire(self@).len() as int,
                    )
                },
                Err(e) => {
                    &&& final(s).written() == old(s).written()
                    &&& final(s).unwritten() == old(s).unwritten()
                    &&& if encodable(self@) {
                        e == Error::NotEnoughSpaceInBuffer && message_wire(self@).len() > old(
                            s,
                        ).unwritten().len()
                    } else {
                        e is Message
                    }
                },
            },
    {
        proof {
            lemma_message_wire_len(self@);
        }
        let room = s.buf.len() - s.wr_idx;
        if !self.payload.has_fitting_strings() {
            return Err(too_long());
        }
        let mut counter = SizeSerializer::new();
        if self.payload.measure(&mut counter).is_err() {
            return Err(too_long());
        }
        let payload_length = counter.total_len();
        if payload_length > u32::MAX as usize {
            return Err(too_long());
        }
        if payload_length > usize::MAX - 5 || payload_length + 5 > room {
            return Err(Error::NotEnoughSpaceInBuffer);
        }
        let ghost before = *s;
        let r0 = s.serialize_u8(PROTOCOL_VERSION);
        let r1 = s.serialize_u32(payload_length as u32);
        let r2 = self.payload.serialize(s);
        assert(r0 is Ok && r1 is Ok && r2 is Ok);
        assert(s.written() =~= before.written() + message_wire(self@));
        assert(s.unwritten() =~= before.unwritten().skip(message_wire(self@).len() as int));
        Ok(())
    }
}

/// Encodes `value` at the start of `bytes`.
///
/// Succeeds exactly where the message can be framed and `bytes` is long
/// enough; the bytes behind the encoding are left as they were. On failure
/// `bytes` is unchanged: the error is `NotEnoughSpaceInBuffer` where only the
/// room is missing, and `Message` where the message cannot be framed.
pub fn to_bytes(value: &Message, bytes: &mut [u8]) -> (r: Result<(), Error>)
    ensures
        match r {
            Ok(()) => {
                &&& encodable(value@)
                &&& message_wire(value@).len() <= old(bytes)@.len()
                &&& final(bytes)@ == message_wire(value@) + old(bytes)@.skip(
                    message_wire(value@).len() as int,
                )
            },
            Err(e) => {
                &&& final(bytes)@ == old(bytes)@
                &&& if encodable(value@) {
                    e == Error::NotEnoughSpaceInBuffer && message_wire(value@).len() > old(
                        bytes,
                    )@.len()
                } else {
                    e is Message
                }
            },
        },
{
    let mut serializer = Serializer::new(bytes);
    let r = value.serialize(&mut serializer);
    assert(serializer.buf@ =~= serializer.written() + serializer.unwritten());
    r
}

/// The number of bytes that `value` takes on the wire.
///
/// Succeeds exactly where the message can be framed and that number fits a
/// `usize`.
pub fn calc_len(value: &Message) -> (r: Result<usize, Error>)
    ensures
        match r {
            Ok(n) => measurable(value) && n == message_wire(value@).len(),
            Err(e) => e is Message && !measurable(value),
        },
{
    proof {
        lemma_message_wire_len(value@);
    }
    let mut serializer = SizeSerializer::new();
    if value.payload.measure(&mut serializer).is_err() {
        return Err(too_long());
    }
    let payload_length = serializer.total_len();
    if payload_length > u32::MAX as usize {
        return Err(too_long());
    }
    match payload_length.checked_add(5) {
        Some(n) => Ok(n),
        None => Err(too_long()),
    }
}

} // verus!
