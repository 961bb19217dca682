use ue_serial_port::buffer::{
    BufferStats, RingBuffer, BUFFER_TRIM_SIZE, BUFFER_WARNING_THRESHOLD, MAX_BUFFER_SIZE,
};

#[test]
fn test_ring_buffer_basic() {
    let mut buffer = RingBuffer::new(1024);
    assert!(buffer.is_empty());

    buffer.push(b"hello").unwrap();
    assert_eq!(buffer.len(), 5);
    assert_eq!(buffer.as_slice(), b"hello");

    buffer.clear();
    assert!(buffer.is_empty());
}

#[test]
fn test_ring_buffer_overflow() {
    let mut buffer = RingBuffer::new(1024);
    let large_data = vec![0u8; MAX_BUFFER_SIZE + 1000];

    buffer.push(&large_data).unwrap();
    assert!(buffer.len() <= BUFFER_TRIM_SIZE);
    assert!(buffer.stats().overflow_count() > 0);
}

#[test]
fn test_buffer_stats() {
    let mut stats = BufferStats::new();
    assert_eq!(stats.overflow_count(), 0);

    stats.record_overflow(100);
    assert_eq!(stats.overflow_count(), 1);
    assert_eq!(stats.bytes_discarded(), 100);

    stats.reset();
    assert_eq!(stats.overflow_count(), 0);
}

#[test]
fn buffer_stats_warning_and_default() {
    let mut stats = BufferStats::default();
    assert_eq!(stats.warning_count(), 0);
    stats.record_warning();
    stats.record_warning();
    assert_eq!(stats.warning_count(), 2);
    assert_eq!(stats.overflow_count(), 0);
    assert_eq!(stats.bytes_discarded(), 0);
    stats.reset();
    assert_eq!(stats.warning_count(), 0);
}

#[test]
fn buffer_stats_counters_wrap() {
    let mut stats = BufferStats::new();
    stats.record_overflow(usize::MAX);
    stats.record_overflow(2);
    assert_eq!(stats.overflow_count(), 2);
    assert_eq!(stats.bytes_discarded(), 1);
}

#[test]
fn ring_buffer_keeps_the_newest_bytes_on_overflow() {
    let mut buffer = RingBuffer::new(16);
    let first: Vec<u8> = (0..MAX_BUFFER_SIZE).map(|i| (i % 251) as u8).collect();
    buffer.push(&first).unwrap();
    assert_eq!(buffer.len(), MAX_BUFFER_SIZE);
    assert_eq!(buffer.stats().overflow_count(), 0);
    assert_eq!(buffer.stats().warning_count(), 1);

    buffer.push(&[7, 8, 9]).unwrap();
    assert_eq!(buffer.len(), BUFFER_TRIM_SIZE);
    assert_eq!(buffer.stats().overflow_count(), 1);
    assert_eq!(
        buffer.stats().bytes_discarded(),
        MAX_BUFFER_SIZE + 3 - BUFFER_TRIM_SIZE
    );
    let slice = buffer.as_slice();
    assert_eq!(&slice[BUFFER_TRIM_SIZE - 3..], &[7, 8, 9]);
    assert_eq!(slice[0], first[MAX_BUFFER_SIZE + 3 - BUFFER_TRIM_SIZE]);
}

#[test]
fn ring_buffer_warning_threshold() {
    let mut buffer = RingBuffer::new(0);
    buffer.push(&vec![1u8; BUFFER_WARNING_THRESHOLD]).unwrap();
    assert_eq!(buffer.stats().warning_count(), 0);
    buffer.push(&[2]).unwrap();
    assert_eq!(buffer.stats().warning_count(), 1);
    assert_eq!(buffer.len(), BUFFER_WARNING_THRESHOLD + 1);
    buffer.reset_stats();
    assert_eq!(buffer.stats().warning_count(), 0);
    assert_eq!(buffer.len(), BUFFER_WARNING_THRESHOLD + 1);
}

#[test]
fn ring_buffer_drain_range() {
    let mut buffer = RingBuffer::new(8);
    buffer.push(b"abcdefg").unwrap();
    buffer.drain(1..3);
    assert_eq!(buffer.as_slice(), b"adefg");
    buffer.drain(0..0);
    assert_eq!(buffer.as_slice(), b"adefg");
    buffer.drain(3..5);
    assert_eq!(buffer.as_slice(), b"ade");
    buffer.drain(0..3);
    assert!(buffer.is_empty());
}
