//! Errors of the protocol's encoder and decoder.

use vstd::prelude::*;
use vstd::string::StringExecFns;

verus! {

/// The error that std reports for bytes that are not UTF-8. Nothing is known
/// of its contents here.
#[verifier::external_type_specification]
#[verifier::external_body]
pub struct ExUtf8Error(std::str::Utf8Error);

/// What went wrong while encoding or decoding a message.
#[derive(Debug, PartialEq)]
pub enum Error {
    /// A failure described in words.
    Message(String),
    /// An I/O operation failed while a frame was read or written.
    IoError(String),
    /// The bytes of a string are not UTF-8.
    InvalidUtf8Encoding(std::str::Utf8Error),
    /// The caller's buffer is too small for the encoded message.
    NotEnoughSpaceInBuffer,
    /// The input ended before the value was complete.
    Eof,
    /// The first header byte is not the protocol version; it is the byte found.
    VersionMismatch(u8),
    /// The message type byte names no message; it is the byte found.
    UnknownMessageType(u8),
    /// The status byte names no status; it is the byte found.
    UnknownStatusCode(u8),
    /// The tag of an optional value is neither 0 nor 1; it is the byte found.
    InvalidOptionTag(u8),
    /// Bytes are left behind the value that was decoded, or more bytes follow
    /// a header than its length field says.
    TrailingBytes,
}

/// The ways in which decoding a byte sequence can fail.
pub enum Fault {
    /// See [`Error::Eof`].
    Eof,
    /// See [`Error::InvalidUtf8Encoding`].
    InvalidUtf8,
    /// See [`Error::VersionMismatch`].
    VersionMismatch(u8),
    /// See [`Error::UnknownMessageType`].
    UnknownMessageType(u8),
    /// See [`Error::UnknownStatusCode`].
    UnknownStatusCode(u8),
    /// See [`Error::InvalidOptionTag`].
    InvalidOptionTag(u8),
    /// See [`Error::TrailingBytes`].
    TrailingBytes,
}

impl Clone for Error {
    fn clone(&self) -> (r: Error)
        ensures
            r == *self,
    {
        match self {
            Error::Message(msg) => Error::Message(msg.clone()),
            Error::IoError(msg) => Error::IoError(msg.clone()),
            Error::InvalidUtf8Encoding(e) => Error::InvalidUtf8Encoding(*e),
            Error::NotEnoughSpaceInBuffer => Error::NotEnoughSpaceInBuffer,
            Error::Eof => Error::Eof,
            Error::VersionMismatch(b) => Error::VersionMismatch(*b),
            Error::UnknownMessageType(b) => Error::UnknownMessageType(*b),
            Error::UnknownStatusCode(b) => Error::UnknownStatusCode(*b),
            Error::InvalidOptionTag(b) => Error::InvalidOptionTag(*b),
            Error::TrailingBytes => Error::TrailingBytes,
        }
    }
}

impl Error {
    /// Whether this error reports the decoding failure `f`.
    pub open spec fn reports(self, f: Fault) -> bool {
        match f {
            Fault::Eof => self == Error::Eof,
            Fault::InvalidUtf8 => self is InvalidUtf8Encoding,
            Fault::VersionMismatch(b) => self == Error::VersionMismatch(b),
            Fault::UnknownMessageType(b) => self == Error::UnknownMessageType(b),
            Fault::UnknownStatusCode(b) => self == Error::UnknownStatusCode(b),
            Fault::InvalidOptionTag(b) => self == Error::InvalidOptionTag(b),
            Fault::TrailingBytes => self == Error::TrailingBytes,
        }
    }
}

/// What std says of bytes that are not UTF-8. It depends on the error alone.
pub uninterp spec fn utf8_error_text(e: std::str::Utf8Error) -> Seq<char>;

/// `ToString::to_string` of `std::str::Utf8Error`: std's description of the
/// error.
#[verifier::external_body]
fn describe_utf8_error(e: &std::str::Utf8Error) -> (r: String)
    ensures
        r@ == utf8_error_text(*e),
{
    e.to_string()
}

impl Error {
    /// The error in words, as a sequence of characters.
    pub open spec fn text(self) -> Seq<char> {
        match self {
            Error::Message(msg) => msg@,
            Error::IoError(msg) => "Io Error: "@ + msg@,
            Error::InvalidUtf8Encoding(e) => "Utf8Error Error: "@ + utf8_error_text(e),
            Error::NotEnoughSpaceInBuffer => "there is not enough space in buffer"@,
            Error::Eof => "unexpected end of input"@,
            Error::VersionMismatch(_) => "protocol version mismatch"@,
            Error::UnknownMessageType(_) => "unknown message type"@,
            Error::UnknownStatusCode(_) => "unknown status code"@,
            Error::InvalidOptionTag(_) => "invalid option tag"@,
            Error::TrailingBytes => "bytes are left behind the message"@,
        }
    }

    /// The error in words.
    pub fn to_string(&self) -> (r: String)
        ensures
            r@ == self.text(),
    {
        match self {
            Error::Message(msg) => msg.clone(),
            Error::IoError(msg) => {
                let mut r = String::from_str("Io Error: ");
                r.append(msg.as_str());
                r
            },
            Error::InvalidUtf8Encoding(e) => {
                let mut r = String::from_str("Utf8Error Error: ");
                r.append(describe_utf8_error(e).as_str());
                r
            },
            Error::NotEnoughSpaceInBuffer => String::from_str(
                "there is not enough space in buffer",
            ),
            Error::Eof => String::from_str("unexpected end of input"),
            Error::VersionMismatch(_) => String::from_str("protocol version mismatch"),
            Error::UnknownMessageType(_) => String::from_str("unknown message type"),
            Error::UnknownStatusCode(_) => String::from_str("unknown status code"),
            Error::InvalidOptionTag(_) => String::from_str("invalid option tag"),
            Error::TrailingBytes => String::from_str("bytes are left behind the message"),
        }
    }
}

} // verus!
