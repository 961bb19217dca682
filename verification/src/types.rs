//! Protocol configuration.

use vstd::prelude::*;

verus! {

/// Framing parameters of the packet protocol.
#[derive(Clone, Copy, Debug, PartialEq, Eq, Structural)]
pub struct ProtocolConfig {
    /// Byte that opens a packet.
    pub header: u8,
    /// Byte that closes a packet.
    pub footer: u8,
    /// Smallest packet length, header and footer included.
    pub min_length: u8,
    /// Largest packet length, header and footer included.
    pub max_length: u16,
    /// Whether the byte before the footer is an XOR checksum of the payload.
    pub use_checksum: bool,
    /// Escape byte (0: no escaping).
    pub escape_byte: u8,
    /// Number of sensor points a reading must hold (0: any number).
    pub expected_points: u16,
}

impl ProtocolConfig {
    /// Whether the configuration is usable: room for header and footer
    /// (and checksum), a maximum no smaller than the minimum, and distinct
    /// header and footer unless both are 0.
    pub open spec fn spec_valid(self) -> bool {
        &&& self.min_length >= 2
        &&& self.max_length >= self.min_length
        &&& (self.use_checksum ==> self.min_length >= 3)
        &&& !(self.header == self.footer && self.header != 0)
    }

    pub fn validate(&self) -> (r: bool)
        ensures
            r == self.spec_valid(),
    {
        if self.min_length < 2 {
            return false;
        }
        if self.max_length < self.min_length as u16 {
            return false;
        }
        if self.use_checksum && self.min_length < 3 {
            return false;
        }
        if self.header == self.footer && self.header != 0 {
            return false;
        }
        true
    }

    /// Checksummed, escaped framing with large packets.
    pub fn industrial_preset() -> (r: Self)
        ensures
            r == (ProtocolConfig {
                header: 0xAA,
                footer: 0x55,
                min_length: 4,
                max_length: 4096,
                use_checksum: true,
                escape_byte: 0x7D,
                expected_points: 0,
            }),
            r.spec_valid(),
    {
        ProtocolConfig {
            header: 0xAA,
            footer: 0x55,
            min_length: 4,
            max_length: 4096,
            use_checksum: true,
            escape_byte: 0x7D,
            expected_points: 0,
        }
    }

    /// Plain framing without checksum or escaping.
    pub fn simple_preset() -> (r: Self)
        ensures
            r == spec_default_config(),
            r.spec_valid(),
    {
        ProtocolConfig {
            header: 0xAA,
            footer: 0x55,
            min_length: 4,
            max_length: 256,
            use_checksum: false,
            escape_byte: 0,
            expected_points: 21,
        }
    }
}

/// The default configuration (the same as the simple preset).
pub open spec fn spec_default_config() -> ProtocolConfig {
    ProtocolConfig {
        header: 0xAA,
        footer: 0x55,
        min_length: 4,
        max_length: 256,
        use_checksum: false,
        escape_byte: 0,
        expected_points: 21,
    }
}

impl Default for ProtocolConfig {
    fn default() -> (r: Self)
        ensures
            r == spec_default_config(),
            r.spec_valid(),
    {
        ProtocolConfig {
            header: 0xAA,
            footer: 0x55,
            min_length: 4,
            max_length: 256,
            use_checksum: false,
            escape_byte: 0,
            expected_points: 21,
        }
    }
}

} // verus!
