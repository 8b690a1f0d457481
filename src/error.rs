use vstd::prelude::*;

verus! {

/// Why a decimal axis token is not a valid unsigned byte.
#[derive(Clone, Copy, Debug, PartialEq, Eq, Structural)]
pub enum IntErrorKind {
    /// The token holds no digit at all.
    Empty,
    /// A character other than an ASCII digit (after an optional leading `+`).
    InvalidDigit,
    /// The value does not fit in a byte.
    PosOverflow,
}

/// Why one frame line of the text form could not be read.
#[derive(Clone, Copy, Debug, PartialEq, Eq, Structural)]
pub enum ControllerInputParseError {
    /// An analog axis token is not a decimal unsigned byte.
    ParseIntError(IntErrorKind),
    /// The line ends before all twelve buttons and six axes were given.
    MissingTokenError,
    /// A button token is neither the upper- nor the lower-case code of its button.
    InvalidButtonError,
    /// A token after the six axes is none of `CD`, `RST`, `CC`, `RSV`.
    UnknownFlagError,
}

/// Every failure of a decode or an encode call.
#[derive(Clone, Copy, Debug, PartialEq, Eq, Structural)]
pub enum Dtm2txtError {
    /// The input ended before a field or a frame it announces (a short read).
    UnexpectedEof,
    /// Bytes that should hold text are not valid UTF-8.
    FromUtf8Error,
    /// The binary form does not start with the four magic bytes.
    BadMagic,
    /// A header string is longer, in UTF-8 bytes, than its fixed field.
    StringTooLong,
    /// A frame line of the text form is malformed; `line` counts from 1.
    ControllerInputParseError { reason: ControllerInputParseError, line: u64 },
}

/// Why a hex string does not hold a byte array of the expected length.
#[derive(Clone, Copy, Debug, PartialEq, Eq, Structural)]
pub enum HexError {
    /// The string's length in bytes is not twice the array's length.
    InvalidLength,
    /// A character is not a hex digit (`0-9`, `A-F`, `a-f`).
    InvalidCharacter,
}

impl Dtm2txtError {
    /// A short description of the error, for reports.
    pub fn describe(&self) -> (r: &'static str) {
        match self {
            Dtm2txtError::UnexpectedEof => "unexpected end of input",
            Dtm2txtError::FromUtf8Error => "invalid UTF-8 text",
            Dtm2txtError::BadMagic => "bad magic value",
            Dtm2txtError::StringTooLong => "string too long for its field",
            Dtm2txtError::ControllerInputParseError { reason, .. } => reason.describe(),
        }
    }
}

impl ControllerInputParseError {
    /// A short description of the reason, for reports.
    pub fn describe(&self) -> (r: &'static str) {
        match self {
            ControllerInputParseError::ParseIntError(_) => "invalid axis value",
            ControllerInputParseError::MissingTokenError => "missing a button or axis",
            ControllerInputParseError::InvalidButtonError => "invalid button value",
            ControllerInputParseError::UnknownFlagError => "invalid flag value",
        }
    }
}

} // verus!
