use ue_serial_port::types::ProtocolConfig;

#[test]
fn test_protocol_config_validation() {
    let valid = ProtocolConfig::default();
    assert!(valid.validate());

    let invalid = ProtocolConfig {
        min_length: 1,
        ..Default::default()
    };
    assert!(!invalid.validate());
}

#[test]
fn test_protocol_presets() {
    let industrial = ProtocolConfig::industrial_preset();
    assert!(industrial.validate());
    assert!(industrial.use_checksum);

    let simple = ProtocolConfig::simple_preset();
    assert!(simple.validate());
    assert!(!simple.use_checksum);
}

#[test]
fn protocol_config_rules() {
    let base = ProtocolConfig::default();
    assert_eq!(base, ProtocolConfig::simple_preset());
    assert_eq!(base.expected_points, 21);
    assert!(!ProtocolConfig { max_length: 3, ..base }.validate());
    assert!(ProtocolConfig { max_length: 4, ..base }.validate());
    assert!(!ProtocolConfig { use_checksum: true, min_length: 2, ..base }.validate());
    assert!(ProtocolConfig { use_checksum: true, min_length: 3, ..base }.validate());
    assert!(!ProtocolConfig { header: 0x55, ..base }.validate());
    assert!(ProtocolConfig { header: 0, footer: 0, ..base }.validate());
    let industrial = ProtocolConfig::industrial_preset();
    assert_eq!(industrial.max_length, 4096);
    assert_eq!(industrial.escape_byte, 0x7D);
    assert_eq!(industrial.expected_points, 0);
}
