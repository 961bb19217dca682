use ue_serial_port::buffer::{BufferStats, BUFFER_TRIM_SIZE, MAX_BUFFER_SIZE};
use ue_serial_port::error::{ErrorCode, IoErrorKind};
use ue_serial_port::protocol::ProtocolHandler;
use ue_serial_port::stream::{
    absorb_raw_read, append_received, build_packet, calculate_checksum, extract_payload,
    next_packet,
};
use ue_serial_port::types::ProtocolConfig;

#[test]
fn free_checksum_is_xor() {
    assert_eq!(calculate_checksum(&[]), 0);
    assert_eq!(calculate_checksum(&[0x01, 0x02, 0x03]), 0x00);
    assert_eq!(calculate_checksum(&[0xF0, 0x0F, 0x01]), 0xFE);
}

#[test]
fn build_packet_fills_the_front() {
    let cfg = ProtocolConfig { use_checksum: true, ..Default::default() };
    let mut out = [0u8; 8];
    let n = build_packet(&[0x10, 0x22], &cfg, &mut out);
    assert_eq!(n, 5);
    assert_eq!(out, [0xAA, 0x10, 0x22, 0x32, 0x55, 0, 0, 0]);

    let plain = ProtocolConfig::default();
    let mut small = [9u8; 3];
    assert_eq!(build_packet(&[0x10, 0x22], &plain, &mut small), 0);
    assert_eq!(small, [9, 9, 9]);
    let mut exact = [9u8; 4];
    assert_eq!(build_packet(&[0x10, 0x22], &plain, &mut exact), 4);
    assert_eq!(exact, [0xAA, 0x10, 0x22, 0x55]);
}

#[test]
fn extract_payload_cases() {
    let cfg = ProtocolConfig::default();
    assert_eq!(extract_payload(&[0xAA, 1, 2, 0x55], &cfg, 8), Ok(vec![1, 2]));
    assert_eq!(extract_payload(&[0xAA, 1, 2, 0x55], &cfg, 1), Err(ErrorCode::InvalidArgs));
    assert_eq!(extract_payload(&[0xAA, 1, 0x55], &cfg, 8), Err(ErrorCode::InvalidArgs));
    assert_eq!(extract_payload(&[], &cfg, 8), Err(ErrorCode::InvalidArgs));
    assert_eq!(extract_payload(&[0xAA, 1, 2, 0x55], &cfg, 0), Err(ErrorCode::InvalidArgs));
    let checked = ProtocolConfig { use_checksum: true, min_length: 3, ..Default::default() };
    assert_eq!(extract_payload(&[0xAA, 7, 0x55], &checked, 8), Ok(vec![]));
    assert_eq!(extract_payload(&[0xAA, 1, 2, 3, 0x55], &checked, 8), Ok(vec![1, 2]));
}

#[test]
fn next_packet_skips_garbage_and_drains() {
    let cfg = ProtocolConfig::default();
    let mut buf = vec![0x00, 0x01, 0xAA, 0x10, 0x20, 0x55, 0xAA, 0x33];
    assert_eq!(next_packet(&mut buf, &cfg, 16), Ok(Some(vec![0xAA, 0x10, 0x20, 0x55])));
    assert_eq!(buf, vec![0xAA, 0x33]);
    assert_eq!(next_packet(&mut buf, &cfg, 16), Ok(None));
    assert_eq!(buf, vec![0xAA, 0x33]);
    let mut junk = vec![1, 2, 3];
    assert_eq!(next_packet(&mut junk, &cfg, 16), Ok(None));
    assert!(junk.is_empty());
}

#[test]
fn next_packet_drops_short_and_bad_candidates() {
    let cfg = ProtocolConfig::default();
    // A footer right after the header gives a candidate that is too short.
    let mut buf = vec![0xAA, 0x55, 0xAA, 0x01, 0x02, 0x55];
    assert_eq!(next_packet(&mut buf, &cfg, 16), Ok(Some(vec![0xAA, 0x01, 0x02, 0x55])));
    assert!(buf.is_empty());

    let checked = ProtocolConfig { use_checksum: true, ..Default::default() };
    let mut buf = vec![0xAA, 0x01, 0x02, 0x05, 0x55, 0xAA, 0x01, 0x02, 0x03, 0x55];
    assert_eq!(next_packet(&mut buf, &checked, 16), Ok(Some(vec![0xAA, 0x01, 0x02, 0x03, 0x55])));
    assert!(buf.is_empty());
}

#[test]
fn next_packet_output_too_small_keeps_packet() {
    let cfg = ProtocolConfig::default();
    let mut buf = vec![0x07, 0xAA, 0x01, 0x02, 0x55];
    assert_eq!(next_packet(&mut buf, &cfg, 3), Err(ErrorCode::InvalidArgs));
    assert_eq!(buf, vec![0xAA, 0x01, 0x02, 0x55]);
    assert_eq!(next_packet(&mut buf, &cfg, 0), Err(ErrorCode::InvalidArgs));
    assert_eq!(buf.len(), 4);
}

#[test]
fn next_packet_too_long_without_footer() {
    let cfg = ProtocolConfig { max_length: 4, ..Default::default() };
    let mut buf = vec![0xAA, 1, 2, 3, 4, 0xAA, 9, 8, 0x55];
    assert_eq!(next_packet(&mut buf, &cfg, 16), Ok(Some(vec![0xAA, 9, 8, 0x55])));
    assert!(buf.is_empty());
}

#[test]
fn append_received_trims_and_counts() {
    let mut buf: Vec<u8> = vec![1; MAX_BUFFER_SIZE];
    let mut stats = BufferStats::new();
    append_received(&mut buf, &mut stats, &[]);
    assert_eq!(buf.len(), MAX_BUFFER_SIZE);
    assert_eq!(stats.warning_count(), 0);
    append_received(&mut buf, &mut stats, &[2, 3]);
    assert_eq!(buf.len(), BUFFER_TRIM_SIZE);
    assert_eq!(stats.warning_count(), 1);
    assert_eq!(stats.overflow_count(), 1);
    assert_eq!(stats.bytes_discarded(), MAX_BUFFER_SIZE + 2 - BUFFER_TRIM_SIZE);
    assert_eq!(&buf[BUFFER_TRIM_SIZE - 2..], &[2, 3]);
    let mut small = vec![5u8];
    let mut quiet = BufferStats::new();
    append_received(&mut small, &mut quiet, &[6]);
    assert_eq!(small, vec![5, 6]);
    assert_eq!(quiet.warning_count(), 0);
}

#[test]
fn raw_read_appends_what_arrived() {
    let mut buffer = vec![0x01u8];
    let mut stats = BufferStats::new();
    assert_eq!(absorb_raw_read(&mut buffer, &mut stats, Ok(&[0x02, 0x03])), Ok(2));
    assert_eq!(buffer, vec![0x01, 0x02, 0x03]);
    assert_eq!(stats.warning_count(), 0);
    assert_eq!(absorb_raw_read(&mut buffer, &mut stats, Ok(&[])), Ok(0));
    assert_eq!(buffer, vec![0x01, 0x02, 0x03]);
}

#[test]
fn raw_read_timeout_is_an_empty_read() {
    let mut buffer = vec![0xAAu8, 0x01];
    let mut stats = BufferStats::new();
    assert_eq!(absorb_raw_read(&mut buffer, &mut stats, Err(IoErrorKind::TimedOut)), Ok(0));
    assert_eq!(buffer, vec![0xAA, 0x01]);
    assert_eq!(
        absorb_raw_read(&mut buffer, &mut stats, Err(IoErrorKind::Other)),
        Err(ErrorCode::ReadFailed)
    );
    assert_eq!(
        absorb_raw_read(&mut buffer, &mut stats, Err(IoErrorKind::PermissionDenied)),
        Err(ErrorCode::ReadFailed)
    );
    assert_eq!(buffer, vec![0xAA, 0x01]);
    assert_eq!(stats.overflow_count(), 0);
    assert_eq!(stats.bytes_discarded(), 0);
    assert_eq!(stats.warning_count(), 0);
}

#[test]
fn raw_read_overflow_trims_and_counts() {
    let mut buffer = vec![0u8; MAX_BUFFER_SIZE];
    let mut stats = BufferStats::new();
    assert_eq!(absorb_raw_read(&mut buffer, &mut stats, Ok(&[7, 8])), Ok(2));
    assert_eq!(buffer.len(), BUFFER_TRIM_SIZE);
    assert_eq!(buffer[BUFFER_TRIM_SIZE - 1], 8);
    assert_eq!(stats.overflow_count(), 1);
    assert_eq!(stats.bytes_discarded(), MAX_BUFFER_SIZE + 2 - BUFFER_TRIM_SIZE);
    assert_eq!(stats.warning_count(), 1);
}

#[test]
fn build_packet_writes_what_wrap_packet_returns() {
    for use_checksum in [false, true] {
        let cfg = ProtocolConfig { use_checksum, ..Default::default() };
        let handler = ProtocolHandler::new(cfg).unwrap();
        let data = [0x10u8, 0x22, 0x33];
        let wrapped = handler.wrap_packet(&data);
        let mut out = [0xEEu8; 10];
        let n = build_packet(&data, &cfg, &mut out);
        assert_eq!(n, data.len() + 2 + usize::from(use_checksum));
        assert_eq!(&out[..n], wrapped.as_slice());
        assert!(out[n..].iter().all(|&b| b == 0xEE));
        let mut small = [0xEEu8; 4];
        assert_eq!(build_packet(&data, &cfg, &mut small), 0);
        assert_eq!(small, [0xEE; 4]);
    }
}
