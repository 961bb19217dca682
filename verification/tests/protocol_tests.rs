use ue_serial_port::error::ErrorCode;
use ue_serial_port::protocol::ProtocolHandler;
use ue_serial_port::types::ProtocolConfig;

#[test]
fn test_protocol_handler_creation() {
    let config = ProtocolConfig::default();
    let handler = ProtocolHandler::new(config);
    assert!(handler.is_ok());

    let invalid_config = ProtocolConfig {
        min_length: 1,
        ..Default::default()
    };
    let handler = ProtocolHandler::new(invalid_config);
    assert!(handler.is_err());
}

#[test]
fn test_find_packet() {
    let config = ProtocolConfig::default();
    let handler = ProtocolHandler::new(config).unwrap();

    let buffer = vec![0x00, 0xAA, 0x01, 0x02, 0x55, 0xFF];
    let result = handler.find_packet(&buffer);
    assert_eq!(result, Some((1, 5)));
}

#[test]
fn test_wrap_unwrap_packet() {
    let config = ProtocolConfig::default();
    let handler = ProtocolHandler::new(config).unwrap();

    let data = vec![0x01, 0x02, 0x03];
    let packet = handler.wrap_packet(&data);

    assert_eq!(packet[0], 0xAA);
    assert_eq!(packet[packet.len() - 1], 0x55);

    let unwrapped = handler.unwrap_packet(&packet).unwrap();
    assert_eq!(unwrapped, data);
}

#[test]
fn test_checksum() {
    let config = ProtocolConfig {
        use_checksum: true,
        ..Default::default()
    };
    let handler = ProtocolHandler::new(config).unwrap();

    let data = vec![0x01, 0x02, 0x03];
    let checksum = handler.calculate_checksum(&data);
    assert_eq!(checksum, 0x01 ^ 0x02 ^ 0x03);
}

#[test]
fn test_escape_unescape() {
    let config = ProtocolConfig {
        escape_byte: 0x7D,
        ..Default::default()
    };
    let handler = ProtocolHandler::new(config).unwrap();

    let data = vec![0x01, 0xAA, 0x02, 0x55, 0x03];
    let escaped = handler.escape_data(&data);
    let unescaped = handler.unescape_data(&escaped);

    assert_eq!(unescaped, data);
    assert!(escaped.len() > data.len());
}

#[test]
fn handler_refuses_invalid_config_with_protocol_error() {
    let bad = ProtocolConfig { header: 0x55, ..Default::default() };
    assert_eq!(ProtocolHandler::new(bad).err(), Some(ErrorCode::ProtocolError));
    let mut handler = ProtocolHandler::new(ProtocolConfig::default()).unwrap();
    assert_eq!(handler.set_config(bad), Err(ErrorCode::ProtocolError));
    assert_eq!(*handler.config(), ProtocolConfig::default());
    let industrial = ProtocolConfig::industrial_preset();
    assert_eq!(handler.set_config(industrial), Ok(()));
    assert_eq!(*handler.config(), industrial);
    assert_eq!(handler.set_expected_points(5), Ok(()));
    assert_eq!(handler.config().expected_points, 5);
    assert_eq!(handler.config().max_length, 4096);
}

#[test]
fn wrap_with_checksum_and_find_it() {
    let config = ProtocolConfig { use_checksum: true, ..Default::default() };
    let handler = ProtocolHandler::new(config).unwrap();
    let packet = handler.wrap_packet(&[0x10, 0x20, 0x30]);
    assert_eq!(packet, vec![0xAA, 0x10, 0x20, 0x30, 0x10 ^ 0x20 ^ 0x30, 0x55]);
    let mut stream = vec![0x01, 0x02];
    stream.extend_from_slice(&packet);
    stream.push(0x09);
    assert_eq!(handler.find_packet(&stream), Some((2, 8)));
    assert_eq!(handler.unwrap_packet(&packet), Ok(vec![0x10, 0x20, 0x30]));
}

#[test]
fn find_packet_skips_bad_checksum_footer() {
    let config = ProtocolConfig { use_checksum: true, ..Default::default() };
    let handler = ProtocolHandler::new(config).unwrap();
    // The first footer closes a candidate whose checksum is wrong; the
    // second closes one whose checksum (0x01 ^ 0x02 ^ 0x55 ^ 0x07 = 0x51) is right.
    let buffer = vec![0xAA, 0x01, 0x02, 0x55, 0x07, 0x51, 0x55];
    assert_eq!(handler.find_packet(&buffer), Some((0, 7)));
}

#[test]
fn find_packet_absent_cases() {
    let handler = ProtocolHandler::new(ProtocolConfig::default()).unwrap();
    assert_eq!(handler.find_packet(&[0xAA, 0x55]), None);
    assert_eq!(handler.find_packet(&[0x01, 0x02, 0x03, 0x04]), None);
    assert_eq!(handler.find_packet(&[0x01, 0x02, 0x03, 0xAA, 0x55]), None);
    // A footer right after the header is too short for min_length 4.
    assert_eq!(handler.find_packet(&[0xAA, 0x55, 0x01, 0x02]), None);
    assert_eq!(handler.find_packet(&[0xAA, 0x55, 0x01, 0x55]), Some((0, 4)));
}

#[test]
fn unwrap_packet_errors() {
    let handler = ProtocolHandler::new(ProtocolConfig::default()).unwrap();
    assert_eq!(handler.unwrap_packet(&[0xAA, 0x55]), Err(ErrorCode::ProtocolError));
    assert_eq!(handler.unwrap_packet(&[0xAB, 0x01, 0x02, 0x55]), Err(ErrorCode::ProtocolError));
    assert_eq!(handler.unwrap_packet(&[0xAA, 0x01, 0x02, 0x56]), Err(ErrorCode::ProtocolError));
    assert_eq!(handler.unwrap_packet(&[0xAA, 0x01, 0x02, 0x55]), Ok(vec![0x01, 0x02]));
}

#[test]
fn escape_details() {
    let config = ProtocolConfig { escape_byte: 0x7D, ..Default::default() };
    let handler = ProtocolHandler::new(config).unwrap();
    assert_eq!(
        handler.escape_data(&[0x7D, 0x01, 0x55]),
        vec![0x7D, 0x7D, 0x01, 0x7D, 0x55]
    );
    assert_eq!(handler.unescape_data(&[0x7D, 0x7D, 0x01, 0x7D]), vec![0x7D, 0x01, 0x7D]);
    let plain = ProtocolHandler::new(ProtocolConfig::default()).unwrap();
    assert_eq!(plain.escape_data(&[0xAA, 0x7D]), vec![0xAA, 0x7D]);
    assert_eq!(plain.unescape_data(&[0x7D, 0xAA]), vec![0x7D, 0xAA]);
}

#[test]
fn find_packet_respects_max_length() {
    let config = ProtocolConfig { max_length: 4, ..ProtocolConfig::default() };
    let handler = ProtocolHandler::new(config).unwrap();
    // Header and footer are five bytes apart: one byte over the limit.
    assert_eq!(handler.find_packet(&[0xAA, 0x01, 0x02, 0x03, 0x55]), None);
    // Exactly four bytes, header and footer included.
    assert_eq!(handler.find_packet(&[0xAA, 0x01, 0x02, 0x55]), Some((0, 4)));
    assert_eq!(handler.find_packet(&[0x00, 0xAA, 0x01, 0x02, 0x55, 0x55]), Some((1, 5)));
}

#[test]
fn checksum_of_concatenation_is_xor_of_checksums() {
    let handler = ProtocolHandler::new(ProtocolConfig::default()).unwrap();
    let a = [0x12u8, 0x34, 0x56];
    let b = [0xF0u8, 0x0F];
    let ab: Vec<u8> = a.iter().chain(b.iter()).copied().collect();
    let ba: Vec<u8> = b.iter().chain(a.iter()).copied().collect();
    assert_eq!(handler.calculate_checksum(&[]), 0);
    assert_eq!(
        handler.calculate_checksum(&ab),
        handler.calculate_checksum(&a) ^ handler.calculate_checksum(&b)
    );
    assert_eq!(handler.calculate_checksum(&ab), handler.calculate_checksum(&ba));
    assert_eq!(handler.calculate_checksum(&ab), 0x12 ^ 0x34 ^ 0x56 ^ 0xF0 ^ 0x0F);
}
