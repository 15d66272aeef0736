//! The error taxonomy of the wire codec and of plugin loading.

use vstd::prelude::*;

verus! {

/// Everything that can go wrong while reading a packet buffer or loading
/// a plugin module.
#[derive(Debug, PartialEq, Eq)]
pub enum ErrorKind {
    /// The packet buffer has no more bytes left.
    NoMoreBytes,
    /// The received var-int ran past 5 bytes without terminating.
    VarIntTooLong,
    /// The received var-long ran past 10 bytes without terminating.
    VarLongTooLong,
    /// The received string data was not valid UTF-8.
    BadString,
    /// The received string length prefix was zero.
    StringSizeZero,
    /// The received string was longer than the packet field allows for.
    StringTooLong,
    /// A plugin module could not be opened, or lacked its entry symbol:
    /// the offending path and the reason.
    LibraryLoadingError(String, String),
}

impl ErrorKind {
    /// A short description of the error, for diagnostics.
    pub fn message(&self) -> (r: &'static str) {
        match self {
            ErrorKind::NoMoreBytes => "PacketBuffer reached EOF!",
            ErrorKind::VarIntTooLong => "VarInt was longer than 5 bytes!",
            ErrorKind::VarLongTooLong => "VarLong was longer than 10 bytes!",
            ErrorKind::BadString => "Invalid String!",
            ErrorKind::StringSizeZero => "String size was 0!",
            ErrorKind::StringTooLong => "String was longer than expected!",
            ErrorKind::LibraryLoadingError(_, _) => "Library could not be loaded!",
        }
    }
}

} // verus!
