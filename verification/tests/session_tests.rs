use ue_serial_port::buffer::RingBuffer;
use ue_serial_port::error::{ErrorCode, IoErrorKind};
use ue_serial_port::sensor_config::{
    sensor_data_create_with_capacity, sensor_data_get_default_count, sensor_data_get_max_count,
    sensor_data_validate_count,
};
use ue_serial_port::session::{
    absorb_read, is_valid_magic, join_port_names, read_available, MAGIC_NUMBER,
};
use ue_serial_port::types::ProtocolConfig;

#[test]
fn test_serial_context_validation() {
    let config = ProtocolConfig::default();
    let _ = config;
}

#[test]
fn test_magic_number() {
    assert_eq!(MAGIC_NUMBER, 0xDEADBEEF);
}

#[test]
fn magic_check() {
    assert!(is_valid_magic(0xDEADBEEF));
    assert!(!is_valid_magic(0));
}

#[test]
fn read_available_copies_a_prefix() {
    let mut buffer = RingBuffer::new(8);
    buffer.push(b"abcdef").unwrap();
    assert_eq!(read_available(&buffer, 4), b"abcd".to_vec());
    assert_eq!(read_available(&buffer, 100), b"abcdef".to_vec());
    assert_eq!(read_available(&buffer, 0), Vec::<u8>::new());
    assert_eq!(buffer.len(), 6);
}

#[test]
fn absorb_read_outcomes() {
    let mut buffer = RingBuffer::new(8);
    assert_eq!(absorb_read(&mut buffer, Ok(b"xy")), Ok(2));
    assert_eq!(buffer.as_slice(), b"xy");
    assert_eq!(absorb_read(&mut buffer, Ok(b"")), Ok(0));
    assert_eq!(
        absorb_read(&mut buffer, Err(IoErrorKind::TimedOut)),
        Err(ErrorCode::TimeoutFailed)
    );
    assert_eq!(
        absorb_read(&mut buffer, Err(IoErrorKind::PermissionDenied)),
        Err(ErrorCode::ReadFailed)
    );
    assert_eq!(buffer.as_slice(), b"xy");
}

#[test]
fn sensor_count_rules() {
    assert_eq!(sensor_data_create_with_capacity(0), 1);
    assert_eq!(sensor_data_create_with_capacity(21), 21);
    assert_eq!(sensor_data_create_with_capacity(1000), 256);
    assert_eq!(sensor_data_validate_count(5, 0), 1);
    assert_eq!(sensor_data_validate_count(0, 0), 0);
    assert_eq!(sensor_data_validate_count(257, 0), 0);
    assert_eq!(sensor_data_validate_count(21, 21), 1);
    assert_eq!(sensor_data_validate_count(20, 21), 0);
    assert_eq!(sensor_data_validate_count(300, 300), 0);
    assert_eq!(sensor_data_get_default_count(), 21);
    assert_eq!(sensor_data_get_max_count(), 256);
}

#[test]
fn join_port_names_lists() {
    let names = vec![b"COM1".to_vec(), b"COM2".to_vec()];
    assert_eq!(join_port_names(&names, 64), Ok(b"COM1;COM2\0".to_vec()));
    assert_eq!(join_port_names(&names, 0), Err(ErrorCode::InvalidArgs));
    assert_eq!(join_port_names(&Vec::new(), 4), Ok(vec![0u8]));
    let longer = vec![b"COM1".to_vec(), b"COM22".to_vec()];
    assert_eq!(join_port_names(&longer, 7), Ok(b"COM1;\0".to_vec()));
    assert_eq!(join_port_names(&longer, 6), Ok(b"\0".to_vec()));
    assert_eq!(join_port_names(&vec![b"A\0B".to_vec()], 16), Err(ErrorCode::InvalidArgs));
}
