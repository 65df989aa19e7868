//! Plain message error used to pass a description up the call chain.

use vstd::prelude::*;

verus! {

/// An error carrying a single human-readable message.
#[derive(Debug)]
pub struct CustomError {
    message: String,
}

impl View for CustomError {
    type V = Seq<char>;

    closed spec fn view(&self) -> Seq<char> {
        self.message@
    }
}

impl CustomError {
    pub fn new(m: &str) -> (r: Self)
        ensures
            r@ == m@,
    {
        Self { message: String::from_str(m) }
    }

    pub fn message(&self) -> (r: &String)
        ensures
            r@ == self@,
    {
        &self.message
    }
}

/// What went wrong while decoding a binary overlay stream.
///
/// Every failure is fatal to the whole decode: once the length of an entry
/// cannot be trusted, nothing behind it can be recovered.
#[derive(Debug, Clone, Copy, PartialEq, Eq, Structural)]
pub enum DecodeErrorKind {
    /// Fewer bytes remain than the field being read requires.
    InsufficientData,
    /// A fixed byte pattern (the magic header) does not match.
    LiteralMismatch,
    /// A length field exceeds the safety ceiling for text or blob fields.
    FieldTooLarge,
    /// A record-type code outside the known set; carries the offending code.
    UnsupportedEntryType { code: u16 },
}

/// A decode failure: its kind, the label of the field being read when it
/// occurred, and the detected format version (0 when version detection itself
/// failed).
#[derive(Debug)]
pub struct DecodeError {
    pub kind: DecodeErrorKind,
    pub field: String,
    pub version: u8,
}

} // verus!
