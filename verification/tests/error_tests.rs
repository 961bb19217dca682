use ue_serial_port::error::{map_serial_error, ErrorCode, IoErrorKind, SerialErrorKind};

#[test]
fn error_test_error_code_conversion() {
    assert_eq!(ErrorCode::Success.as_c_int(), 0);
    assert_eq!(ErrorCode::InvalidArgs.as_c_int(), 1);
    assert_eq!(ErrorCode::from_c_int(0), Some(ErrorCode::Success));
    assert_eq!(ErrorCode::from_c_int(999), None);
}

#[test]
fn lib_test_error_code_conversion() {
    assert_eq!(ErrorCode::Success.as_c_int(), 0);
    assert_eq!(ErrorCode::InvalidArgs.as_c_int(), 1);
}

#[test]
fn test_error_display() {
    assert_eq!(ErrorCode::Success.to_string(), "Success");
    assert_eq!(ErrorCode::InvalidArgs.to_string(), "Invalid arguments");
}

const ALL: [ErrorCode; 14] = [
    ErrorCode::Success,
    ErrorCode::InvalidArgs,
    ErrorCode::OpenFailed,
    ErrorCode::NotFound,
    ErrorCode::WriteFailed,
    ErrorCode::ReadFailed,
    ErrorCode::TimeoutFailed,
    ErrorCode::PermissionDenied,
    ErrorCode::IoError,
    ErrorCode::JsonParseFailed,
    ErrorCode::InvalidHandle,
    ErrorCode::BufferOverflow,
    ErrorCode::ProtocolError,
    ErrorCode::Poisoned,
];

#[test]
fn error_codes_round_trip() {
    for (i, code) in ALL.iter().enumerate() {
        assert_eq!(code.as_c_int(), i as i32);
        assert_eq!(ErrorCode::from_c_int(i as i32), Some(*code));
    }
    assert_eq!(ErrorCode::from_c_int(-1), None);
    assert_eq!(ErrorCode::from_c_int(14), None);
}

#[test]
fn error_messages() {
    assert_eq!(ErrorCode::Poisoned.to_string(), "Lock poisoned");
    assert_eq!(ErrorCode::IoError.to_string(), "I/O error");
    assert_eq!(ErrorCode::OpenFailed.to_string(), "Failed to open serial port");
    assert_eq!(ErrorCode::TimeoutFailed.to_string(), "Operation timed out");
}

#[test]
fn serial_errors_map_to_codes() {
    assert_eq!(map_serial_error(SerialErrorKind::NoDevice), ErrorCode::NotFound);
    assert_eq!(map_serial_error(SerialErrorKind::InvalidInput), ErrorCode::OpenFailed);
    assert_eq!(map_serial_error(SerialErrorKind::Unknown), ErrorCode::OpenFailed);
    assert_eq!(
        map_serial_error(SerialErrorKind::Io(IoErrorKind::TimedOut)),
        ErrorCode::TimeoutFailed
    );
    assert_eq!(
        map_serial_error(SerialErrorKind::Io(IoErrorKind::PermissionDenied)),
        ErrorCode::PermissionDenied
    );
    assert_eq!(map_serial_error(SerialErrorKind::Io(IoErrorKind::Other)), ErrorCode::IoError);
}
