//! Error codes shared by every operation of the library.

use vstd::prelude::*;

verus! {

/// Error codes; the numeric value of each is what crosses the C boundary.
#[derive(Debug, Clone, Copy, PartialEq, Eq, Structural)]
pub enum ErrorCode {
    Success,
    InvalidArgs,
    OpenFailed,
    NotFound,
    WriteFailed,
    ReadFailed,
    TimeoutFailed,
    PermissionDenied,
    IoError,
    JsonParseFailed,
    InvalidHandle,
    BufferOverflow,
    ProtocolError,
    Poisoned,
}

/// Numeric value of an error code.
pub open spec fn spec_code(e: ErrorCode) -> int {
    match e {
        ErrorCode::Success => 0,
        ErrorCode::InvalidArgs => 1,
        ErrorCode::OpenFailed => 2,
        ErrorCode::NotFound => 3,
        ErrorCode::WriteFailed => 4,
        ErrorCode::ReadFailed => 5,
        ErrorCode::TimeoutFailed => 6,
        ErrorCode::PermissionDenied => 7,
        ErrorCode::IoError => 8,
        ErrorCode::JsonParseFailed => 9,
        ErrorCode::InvalidHandle => 10,
        ErrorCode::BufferOverflow => 11,
        ErrorCode::ProtocolError => 12,
        ErrorCode::Poisoned => 13,
    }
}

/// Human-readable description of an error code.
pub open spec fn spec_message(e: ErrorCode) -> Seq<char> {
    match e {
        ErrorCode::Success => "Success"@,
        ErrorCode::InvalidArgs => "Invalid arguments"@,
        ErrorCode::OpenFailed => "Failed to open serial port"@,
        ErrorCode::NotFound => "Serial port not found"@,
        ErrorCode::WriteFailed => "Write operation failed"@,
        ErrorCode::ReadFailed => "Read operation failed"@,
        ErrorCode::TimeoutFailed => "Operation timed out"@,
        ErrorCode::PermissionDenied => "Permission denied"@,
        ErrorCode::IoError => "I/O error"@,
        ErrorCode::JsonParseFailed => "JSON parsing failed"@,
        ErrorCode::InvalidHandle => "Invalid handle"@,
        ErrorCode::BufferOverflow => "Buffer overflow"@,
        ErrorCode::ProtocolError => "Protocol error"@,
        ErrorCode::Poisoned => "Lock poisoned"@,
    }
}

impl ErrorCode {
    /// The numeric value of this code.
    pub fn as_c_int(self) -> (r: i32)
        ensures
            r == spec_code(self),
    {
        match self {
            ErrorCode::Success => 0,
            ErrorCode::InvalidArgs => 1,
            ErrorCode::OpenFailed => 2,
            ErrorCode::NotFound => 3,
            ErrorCode::WriteFailed => 4,
            ErrorCode::ReadFailed => 5,
            ErrorCode::TimeoutFailed => 6,
            ErrorCode::PermissionDenied => 7,
            ErrorCode::IoError => 8,
            ErrorCode::JsonParseFailed => 9,
            ErrorCode::InvalidHandle => 10,
            ErrorCode::BufferOverflow => 11,
            ErrorCode::ProtocolError => 12,
            ErrorCode::Poisoned => 13,
        }
    }

    /// The code with the given numeric value, if there is one.
    pub fn from_c_int(code: i32) -> (r: Option<ErrorCode>)
        ensures
            r is None <==> !(0 <= code <= 13),
            r matches Some(e) ==> spec_code(e) == code,
    {
        match code {
            0 => Some(ErrorCode::Success),
            1 => Some(ErrorCode::InvalidArgs),
            2 => Some(ErrorCode::OpenFailed),
            3 => Some(ErrorCode::NotFound),
            4 => Some(ErrorCode::WriteFailed),
            5 => Some(ErrorCode::ReadFailed),
            6 => Some(ErrorCode::TimeoutFailed),
            7 => Some(ErrorCode::PermissionDenied),
            8 => Some(ErrorCode::IoError),
            9 => Some(ErrorCode::JsonParseFailed),
            10 => Some(ErrorCode::InvalidHandle),
            11 => Some(ErrorCode::BufferOverflow),
            12 => Some(ErrorCode::ProtocolError),
            13 => Some(ErrorCode::Poisoned),
            _ => None,
        }
    }

    /// A description of this code, for display.
    pub fn to_string(&self) -> (r: String)
        ensures
            r@ == spec_message(*self),
    {
        let text: &str = match self {
            ErrorCode::Success => "Success",
            ErrorCode::InvalidArgs => "Invalid arguments",
            ErrorCode::OpenFailed => "Failed to open serial port",
            ErrorCode::NotFound => "Serial port not found",
            ErrorCode::WriteFailed => "Write operation failed",
            ErrorCode::ReadFailed => "Read operation failed",
            ErrorCode::TimeoutFailed => "Operation timed out",
            ErrorCode::PermissionDenied => "Permission denied",
            ErrorCode::IoError => "I/O error",
            ErrorCode::JsonParseFailed => "JSON parsing failed",
            ErrorCode::InvalidHandle => "Invalid handle",
            ErrorCode::BufferOverflow => "Buffer overflow",
            ErrorCode::ProtocolError => "Protocol error",
            ErrorCode::Poisoned => "Lock poisoned",
        };
        text.to_owned()
    }
}

/// Distinct error codes have distinct numeric values, and every code is
/// recovered from its numeric value.
pub proof fn lemma_code_round_trip(e: ErrorCode, f: ErrorCode)
    ensures
        0 <= spec_code(e) <= 13,
        spec_code(e) == spec_code(f) ==> e == f,
{
}

/// What kind of I/O failure a port operation reported.
#[derive(Debug, Clone, Copy, PartialEq, Eq, Structural)]
pub enum IoErrorKind {
    TimedOut,
    PermissionDenied,
    Other,
}

/// What kind of failure opening or configuring a port reported.
#[derive(Debug, Clone, Copy, PartialEq, Eq, Structural)]
pub enum SerialErrorKind {
    NoDevice,
    InvalidInput,
    Unknown,
    Io(IoErrorKind),
}

/// Maps a port failure onto the library's error codes.
pub fn map_serial_error(kind: SerialErrorKind) -> (r: ErrorCode)
    ensures
        r == (match kind {
            SerialErrorKind::NoDevice => ErrorCode::NotFound,
            SerialErrorKind::Io(IoErrorKind::TimedOut) => ErrorCode::TimeoutFailed,
            SerialErrorKind::Io(IoErrorKind::PermissionDenied) => ErrorCode::PermissionDenied,
            SerialErrorKind::Io(IoErrorKind::Other) => ErrorCode::IoError,
            _ => ErrorCode::OpenFailed,
        }),
{
    match kind {
        SerialErrorKind::NoDevice => ErrorCode::NotFound,
        SerialErrorKind::Io(io_kind) => match io_kind {
            IoErrorKind::TimedOut => ErrorCode::TimeoutFailed,
            IoErrorKind::PermissionDenied => ErrorCode::PermissionDenied,
            IoErrorKind::Other => ErrorCode::IoError,
        },
        _ => ErrorCode::OpenFailed,
    }
}

} // verus!
