//! Packet framing: header byte, payload, optional XOR checksum, footer byte,
//! and byte escaping.

use vstd::prelude::*;

use crate::bytes::{copy_range, find_byte, first_index_from, lemma_first_index_from};
use crate::error::ErrorCode;
use crate::types::ProtocolConfig;

verus! {

/// XOR of all bytes of `data`.
pub open spec fn spec_checksum(data: Seq<u8>) -> u8
    decreases data.len(),
{
    if data.len() == 0 {
        0
    } else {
        spec_checksum(data.drop_last()) ^ data.last()
    }
}

/// Whether `packet` carries a correct checksum: at least three bytes, and
/// the byte before the last equals the XOR of the bytes between the first
/// byte and it.
pub open spec fn spec_checksum_ok(packet: Seq<u8>) -> bool {
    &&& packet.len() >= 3
    &&& spec_checksum(packet.subrange(1, packet.len() - 2)) == packet[packet.len() - 2]
}

/// The packet that frames `data` under `cfg`.
pub open spec fn spec_wrap(cfg: ProtocolConfig, data: Seq<u8>) -> Seq<u8> {
    seq![cfg.header] + data + (if cfg.use_checksum {
        seq![spec_checksum(data)]
    } else {
        Seq::<u8>::empty()
    }) + seq![cfg.footer]
}

/// The payload of `packet` under `cfg`, or `ProtocolError` when the packet
/// is shorter than the minimum or lacks the header or the footer. The
/// checksum byte, when configured, is dropped without being checked.
pub open spec fn spec_unwrap(cfg: ProtocolConfig, packet: Seq<u8>) -> Result<Seq<u8>, ErrorCode> {
    if packet.len() < cfg.min_length || packet.len() == 0 || packet[0] != cfg.header
        || packet.last() != cfg.footer {
        Err(ErrorCode::ProtocolError)
    } else {
        let end = if cfg.use_checksum {
            packet.len() - 2
        } else {
            packet.len() - 1
        };
        Ok(packet.subrange(1, end))
    }
}

/// Whether `b` must be escaped under `cfg`.
pub open spec fn is_special(cfg: ProtocolConfig, b: u8) -> bool {
    b == cfg.header || b == cfg.footer || b == cfg.escape_byte
}

/// `data` with the escape byte put before every header, footer or escape
/// byte.
pub open spec fn escape_bytes(cfg: ProtocolConfig, data: Seq<u8>) -> Seq<u8>
    decreases data.len(),
{
    if data.len() == 0 {
        Seq::<u8>::empty()
    } else {
        (if is_special(cfg, data[0]) {
            seq![cfg.escape_byte, data[0]]
        } else {
            seq![data[0]]
        }) + escape_bytes(cfg, data.skip(1))
    }
}

/// `data` with every escape byte that has a successor replaced by that
/// successor.
pub open spec fn unescape_bytes(esc: u8, data: Seq<u8>) -> Seq<u8>
    decreases data.len(),
{
    if data.len() == 0 {
        Seq::<u8>::empty()
    } else if data[0] == esc && data.len() >= 2 {
        seq![data[1]] + unescape_bytes(esc, data.skip(2))
    } else {
        seq![data[0]] + unescape_bytes(esc, data.skip(1))
    }
}

/// Escaping under `cfg`; the identity when the escape byte is 0.
pub open spec fn spec_escape(cfg: ProtocolConfig, data: Seq<u8>) -> Seq<u8> {
    if cfg.escape_byte == 0 {
        data
    } else {
        escape_bytes(cfg, data)
    }
}

/// Unescaping under `cfg`; the identity when the escape byte is 0.
pub open spec fn spec_unescape(cfg: ProtocolConfig, data: Seq<u8>) -> Seq<u8> {
    if cfg.escape_byte == 0 {
        data
    } else {
        unescape_bytes(cfg.escape_byte, data)
    }
}

/// Number of bytes after the header that the footer search looks at: a
/// packet, header and footer included, is at most `max_length` bytes long,
/// so its footer lies at most `max_length - 2` bytes past the header's
/// successor.
pub open spec fn search_limit(cfg: ProtocolConfig, buf: Seq<u8>, start: int) -> int {
    let rest = buf.len() - start - 1;
    if cfg.max_length - 1 < rest {
        cfg.max_length - 1
    } else {
        rest
    }
}

/// Whether a packet starting at `start` may end right after the footer
/// found at offset `i` past the header.
pub open spec fn ends_packet(cfg: ProtocolConfig, buf: Seq<u8>, start: int, i: int) -> bool {
    &&& buf[start + 1 + i] == cfg.footer
    &&& (cfg.use_checksum ==> spec_checksum_ok(buf.subrange(start, start + i + 2)))
}

/// The first acceptable footer offset at or after `i`.
pub open spec fn scan_footer(cfg: ProtocolConfig, buf: Seq<u8>, start: int, i: int) -> Option<(
    int,
    int,
)>
    decreases search_limit(cfg, buf, start) - i,
{
    if i < 0 || i >= search_limit(cfg, buf, start) {
        None
    } else if ends_packet(cfg, buf, start, i) {
        Some((start, start + i + 2))
    } else {
        scan_footer(cfg, buf, start, i + 1)
    }
}

/// The packet that `find_packet` reports: it starts at the first header
/// byte, and ends at the first footer whose packet, header and footer
/// included, is between `min_length` and `max_length` bytes long and (when
/// configured) carries a correct checksum.
pub open spec fn spec_find_packet(cfg: ProtocolConfig, buf: Seq<u8>) -> Option<(int, int)> {
    if buf.len() < cfg.min_length {
        None
    } else {
        match first_index_from(buf, cfg.header, 0) {
            None => None,
            Some(start) => if buf.len() - start < cfg.min_length {
                None
            } else {
                scan_footer(cfg, buf, start, cfg.min_length - 2)
            },
        }
    }
}

/// Packet handler for one validated configuration.
pub struct ProtocolHandler {
    config: ProtocolConfig,
}

impl ProtocolHandler {
    #[verifier::type_invariant]
    spec fn inv(self) -> bool {
        self.config.spec_valid()
    }

    /// The configuration in use.
    pub closed spec fn spec_config(&self) -> ProtocolConfig {
        self.config
    }

    /// A handler for `config`, or `ProtocolError` when `config` is invalid.
    pub fn new(config: ProtocolConfig) -> (r: Result<Self, ErrorCode>)
        ensures
            r is Ok <==> config.spec_valid(),
            r matches Ok(h) ==> h.spec_config() == config,
            r matches Err(e) ==> e == ErrorCode::ProtocolError,
    {
        if !config.validate() {
            return Err(ErrorCode::ProtocolError);
        }
        Ok(ProtocolHandler { config })
    }

    pub fn config(&self) -> (r: &ProtocolConfig)
        ensures
            *r == self.spec_config(),
            r.spec_valid(),
    {
        proof {
            use_type_invariant(self);
        }
        &self.config
    }

    /// Replaces the configuration; an invalid one is refused with
    /// `ProtocolError` and leaves the handler unchanged.
    pub fn set_config(&mut self, config: ProtocolConfig) -> (r: Result<(), ErrorCode>)
        ensures
            r is Ok <==> config.spec_valid(),
            r is Ok ==> final(self).spec_config() == config,
            r matches Err(e) ==> e == ErrorCode::ProtocolError && final(self).spec_config()
                == old(self).spec_config(),
    {
        if !config.validate() {
            return Err(ErrorCode::ProtocolError);
        }
        self.config = config;
        Ok(())
    }

    /// Sets the number of sensor points a reading must hold, keeping the
    /// rest of the configuration.
    pub fn set_expected_points(&mut self, points: u16) -> (r: Result<(), ErrorCode>)
        ensures
            r is Ok,
            final(self).spec_config() == (ProtocolConfig {
                expected_points: points,
                ..old(self).spec_config()
            }),
    {
        proof {
            use_type_invariant(&*self);
        }
        let mut config = self.config;
        config.expected_points = points;
        self.set_config(config)
    }

    /// Locates the first complete packet in `buffer` as a `(start, end)`
    /// byte range.
    pub fn find_packet(&self, buffer: &[u8]) -> (r: Option<(usize, usize)>)
        ensures
            match r {
                Some((s, e)) => spec_find_packet(self.spec_config(), buffer@) == Some(
                    (s as int, e as int),
                ),
                None => spec_find_packet(self.spec_config(), buffer@) is None,
            },
            r matches Some((s, e)) ==> s < e <= buffer@.len() && self.spec_config().min_length
                <= e - s <= self.spec_config().max_length,
    {
        proof {
            use_type_invariant(self);
            lemma_found_packet_unwraps(self.config, buffer@);
        }
        let cfg = self.config;
        if buffer.len() < cfg.min_length as usize {
            return None;
        }
        let start = match find_byte(buffer, cfg.header, 0) {
            Some(s) => s,
            None => return None,
        };
        proof {
            lemma_first_index_from(buffer@, cfg.header, 0);
        }
        if buffer.len() - start < cfg.min_length as usize {
            return None;
        }
        let rest = buffer.len() - start - 1;
        let max_search = if (cfg.max_length as usize) - 1 < rest {
            (cfg.max_length as usize) - 1
        } else {
            rest
        };
        let mut i: usize = cfg.min_length as usize - 2;
        while i < max_search
            invariant
                cfg == self.spec_config(),
                cfg.spec_valid(),
                start < buffer@.len(),
                buffer@.len() == buffer.len(),
                max_search == search_limit(cfg, buffer@, start as int),
                max_search <= buffer@.len() - start - 1,
                spec_find_packet(cfg, buffer@) == scan_footer(cfg, buffer@, start as int, i as int),
                spec_find_packet(cfg, buffer@) matches Some((s, e)) ==> s < e <= buffer@.len()
                    && cfg.min_length <= e - s <= cfg.max_length,
            decreases max_search - i,
        {
            if buffer[start + 1 + i] == cfg.footer {
                let end = start + 1 + i + 1;
                if !cfg.use_checksum || self.verify_checksum(&buffer[start..end]) {
                    return Some((start, end));
                }
            }
            i += 1;
        }
        None
    }

    /// Whether `packet` carries a correct XOR checksum.
    fn verify_checksum(&self, packet: &[u8]) -> (r: bool)
        ensures
            r == spec_checksum_ok(packet@),
    {
        if packet.len() < 3 {
            return false;
        }
        let n = packet.len();
        let data = &packet[1..n - 2];
        let checksum = packet[n - 2];
        let calculated = self.calculate_checksum(data);
        calculated == checksum
    }

    /// XOR of all bytes of `data`.
    pub fn calculate_checksum(&self, data: &[u8]) -> (r: u8)
        ensures
            r == spec_checksum(data@),
    {
        crate::stream::calculate_checksum(data)
    }

    /// Frames `data`: header, payload, checksum when configured, footer.
    pub fn wrap_packet(&self, data: &[u8]) -> (r: Vec<u8>)
        requires
            data@.len() + 3 <= usize::MAX,
        ensures
            r@ == spec_wrap(self.spec_config(), data@),
    {
        let cfg = self.config;
        let mut packet: Vec<u8> = Vec::with_capacity(data.len() + 3);
        packet.push(cfg.header);
        let mut i: usize = 0;
        while i < data.len()
            invariant
                i <= data@.len(),
                packet@ == seq![cfg.header] + data@.subrange(0, i as int),
            decreases data@.len() - i,
        {
            packet.push(data[i]);
            i += 1;
        }
        assert(data@.subrange(0, data@.len() as int) == data@);
        if cfg.use_checksum {
            let checksum = self.calculate_checksum(data);
            packet.push(checksum);
        }
        packet.push(cfg.footer);
        packet
    }

    /// Strips the framing from `packet`.
    pub fn unwrap_packet(&self, packet: &[u8]) -> (r: Result<Vec<u8>, ErrorCode>)
        ensures
            match r {
                Ok(v) => spec_unwrap(self.spec_config(), packet@) == Ok::<Seq<u8>, ErrorCode>(v@),
                Err(e) => spec_unwrap(self.spec_config(), packet@) == Err::<Seq<u8>, ErrorCode>(e),
            },
    {
        proof {
            use_type_invariant(self);
        }
        let cfg = self.config;
        if packet.len() < cfg.min_length as usize {
            return Err(ErrorCode::ProtocolError);
        }
        if packet[0] != cfg.header || packet[packet.len() - 1] != cfg.footer {
            return Err(ErrorCode::ProtocolError);
        }
        let data_end = if cfg.use_checksum {
            packet.len() - 2
        } else {
            packet.len() - 1
        };
        Ok(copy_range(packet, 1, data_end))
    }

    /// Escapes every header, footer or escape byte of `data` with the
    /// escape byte; returns `data` unchanged when the escape byte is 0.
    pub fn escape_data(&self, data: &[u8]) -> (r: Vec<u8>)
        ensures
            r@ == spec_escape(self.spec_config(), data@),
    {
        let cfg = self.config;
        if cfg.escape_byte == 0 {
            return copy_range(data, 0, data.len());
        }
        let mut escaped: Vec<u8> = Vec::with_capacity(data.len());
        let mut i: usize = 0;
        assert(data@.skip(0) == data@);
        while i < data.len()
            invariant
                cfg == self.spec_config(),
                i <= data@.len(),
                escaped@ + escape_bytes(cfg, data@.skip(i as int)) == escape_bytes(cfg, data@),
            decreases data@.len() - i,
        {
            let byte = data[i];
            assert(data@.skip(i as int).skip(1) == data@.skip(i + 1));
            if byte == cfg.header || byte == cfg.footer || byte == cfg.escape_byte {
                escaped.push(cfg.escape_byte);
            }
            escaped.push(byte);
            i += 1;
        }
        escaped
    }

    /// Replaces every escape byte that has a successor by that successor;
    /// returns `data` unchanged when the escape byte is 0.
    pub fn unescape_data(&self, data: &[u8]) -> (r: Vec<u8>)
        ensures
            r@ == spec_unescape(self.spec_config(), data@),
    {
        let cfg = self.config;
        if cfg.escape_byte == 0 {
            return copy_range(data, 0, data.len());
        }
        let esc = cfg.escape_byte;
        let mut unescaped: Vec<u8> = Vec::with_capacity(data.len());
        let mut i: usize = 0;
        assert(data@.skip(0) == data@);
        while i < data.len()
            invariant
                cfg == self.spec_config(),
                esc == cfg.escape_byte,
                i <= data@.len(),
                unescaped@ + unescape_bytes(esc, data@.skip(i as int)) == unescape_bytes(
                    esc,
                    data@,
                ),
            decreases data@.len() - i,
        {
            if data[i] == esc && i + 1 < data.len() {
                assert(data@.skip(i as int).skip(2) == data@.skip(i + 2));
                unescaped.push(data[i + 1]);
                i += 2;
            } else {
                assert(data@.skip(i as int).skip(1) == data@.skip(i + 1));
                unescaped.push(data[i]);
                i += 1;
            }
        }
        unescaped
    }
}

/// The checksum of no bytes is 0, and the checksum of two runs of bytes
/// one after the other is the XOR of their checksums.
pub proof fn lemma_checksum_concat(a: Seq<u8>, b: Seq<u8>)
    ensures
        spec_checksum(Seq::<u8>::empty()) == 0,
        spec_checksum(a + b) == spec_checksum(a) ^ spec_checksum(b),
    decreases b.len(),
{
    let ca = spec_checksum(a);
    if b.len() == 0 {
        assert(a + b =~= a);
        assert(ca ^ 0u8 == ca) by (bit_vector);
    } else {
        let b1 = b.drop_last();
        let l = b.last();
        lemma_checksum_concat(a, b1);
        assert((a + b).drop_last() =~= a + b1);
        let cb1 = spec_checksum(b1);
        assert((ca ^ cb1) ^ l == ca ^ (cb1 ^ l)) by (bit_vector);
    }
}

/// The checksum does not depend on the order of two runs of bytes.
pub proof fn lemma_checksum_swap(a: Seq<u8>, b: Seq<u8>)
    ensures
        spec_checksum(a + b) == spec_checksum(b + a),
{
    lemma_checksum_concat(a, b);
    lemma_checksum_concat(b, a);
    let ca = spec_checksum(a);
    let cb = spec_checksum(b);
    assert(ca ^ cb == cb ^ ca) by (bit_vector);
}

/// The framed packet is the header, the payload, the checksum of the
/// payload when checksums are on, and the footer: `data.len() + 2` bytes,
/// one more with a checksum. This is both what `wrap_packet` returns and
/// what `build_packet` writes to the front of its output buffer.
pub proof fn lemma_wrap_layout(cfg: ProtocolConfig, data: Seq<u8>)
    ensures
        spec_wrap(cfg, data).len() == data.len() + 2 + (if cfg.use_checksum {
            1int
        } else {
            0int
        }),
        spec_wrap(cfg, data)[0] == cfg.header,
        spec_wrap(cfg, data).subrange(1, data.len() + 1int) == data,
        cfg.use_checksum ==> spec_wrap(cfg, data)[data.len() + 1int] == spec_checksum(data),
        spec_wrap(cfg, data).last() == cfg.footer,
{
    assert(spec_wrap(cfg, data).subrange(1, data.len() + 1int) =~= data);
}

/// Unwrapping a framed payload gives the payload back, whenever the framed
/// packet (payload, header, footer and checksum when on) is at least
/// `min_length` bytes long.
pub proof fn lemma_unwrap_wrap(cfg: ProtocolConfig, data: Seq<u8>)
    requires
        cfg.spec_valid(),
        data.len() + 2 + (if cfg.use_checksum {
            1int
        } else {
            0int
        }) >= cfg.min_length,
    ensures
        spec_unwrap(cfg, spec_wrap(cfg, data)) == Ok::<Seq<u8>, ErrorCode>(data),
{
    let p = spec_wrap(cfg, data);
    let end = if cfg.use_checksum {
        p.len() - 2
    } else {
        p.len() - 1
    };
    assert(p.subrange(1, end) =~= data);
}

/// A framed packet with a checksum carries a correct checksum.
pub proof fn lemma_wrap_checksum_ok(cfg: ProtocolConfig, data: Seq<u8>)
    requires
        cfg.use_checksum,
    ensures
        spec_checksum_ok(spec_wrap(cfg, data)),
{
    let p = spec_wrap(cfg, data);
    assert(p.subrange(1, p.len() - 2) =~= data);
}

/// Unescaping undoes escaping.
pub proof fn lemma_unescape_escape(cfg: ProtocolConfig, data: Seq<u8>)
    ensures
        spec_unescape(cfg, spec_escape(cfg, data)) == data,
{
    if cfg.escape_byte != 0 {
        lemma_unescape_escape_bytes(cfg, data);
    }
}

proof fn lemma_unescape_escape_bytes(cfg: ProtocolConfig, data: Seq<u8>)
    ensures
        unescape_bytes(cfg.escape_byte, escape_bytes(cfg, data)) == data,
    decreases data.len(),
{
    if data.len() > 0 {
        let esc = cfg.escape_byte;
        let rest = escape_bytes(cfg, data.skip(1));
        let e = escape_bytes(cfg, data);
        lemma_unescape_escape_bytes(cfg, data.skip(1));
        if is_special(cfg, data[0]) {
            assert(e.skip(2) =~= rest);
        } else {
            assert(e.skip(1) =~= rest);
        }
        assert(data =~= seq![data[0]] + data.skip(1));
    }
}

/// Escaping never shortens the data, and lengthens it when escaping is on
/// and some byte is a header, footer or escape byte.
pub proof fn lemma_escape_length(cfg: ProtocolConfig, data: Seq<u8>)
    ensures
        spec_escape(cfg, data).len() >= data.len(),
        cfg.escape_byte != 0 && (exists|i: int| 0 <= i < data.len() && is_special(cfg, data[i]))
            ==> spec_escape(cfg, data).len() > data.len(),
{
    lemma_escape_bytes_length(cfg, data);
}

proof fn lemma_escape_bytes_length(cfg: ProtocolConfig, data: Seq<u8>)
    ensures
        escape_bytes(cfg, data).len() >= data.len(),
        (exists|i: int| 0 <= i < data.len() && is_special(cfg, data[i])) ==> escape_bytes(
            cfg,
            data,
        ).len() > data.len(),
    decreases data.len(),
{
    if data.len() > 0 {
        lemma_escape_bytes_length(cfg, data.skip(1));
        if exists|i: int| 0 <= i < data.len() && is_special(cfg, data[i]) {
            let i = choose|i: int| 0 <= i < data.len() && is_special(cfg, data[i]);
            if i > 0 {
                assert(data.skip(1)[i - 1] == data[i]);
            }
        }
    }
}

/// The footer scan gives the same answer from `i` as from `j` when no
/// offset in between ends a packet.
proof fn lemma_scan_skip(cfg: ProtocolConfig, buf: Seq<u8>, start: int, i: int, j: int)
    requires
        0 <= i <= j <= search_limit(cfg, buf, start),
        forall|k: int| i <= k < j ==> !ends_packet(cfg, buf, start, k),
    ensures
        scan_footer(cfg, buf, start, i) == scan_footer(cfg, buf, start, j),
    decreases j - i,
{
    if i < j {
        lemma_scan_skip(cfg, buf, start, i + 1, j);
    }
}

/// A packet framed by `wrap_packet` is found whole by `find_packet`,
/// provided its length is within the configured bounds and no byte between
/// header and footer equals the footer.
pub proof fn lemma_find_wrapped(cfg: ProtocolConfig, data: Seq<u8>)
    requires
        cfg.spec_valid(),
        cfg.min_length <= spec_wrap(cfg, data).len() <= cfg.max_length,
        forall|i: int| 0 <= i < data.len() ==> data[i] != cfg.footer,
        cfg.use_checksum ==> spec_checksum(data) != cfg.footer,
    ensures
        spec_find_packet(cfg, spec_wrap(cfg, data)) == Some((0int, spec_wrap(cfg, data).len() as int)),
{
    let w = spec_wrap(cfg, data);
    let n = w.len() as int;
    assert(first_index_from(w, cfg.header, 0) == Some(0int));
    assert(search_limit(cfg, w, 0) == n - 1);
    let i0 = cfg.min_length - 2;
    assert forall|k: int| i0 <= k < n - 2 implies !ends_packet(cfg, w, 0, k) by {
        if k < data.len() {
            assert(w[1 + k] == data[k]);
        } else {
            assert(w[1 + k] == spec_checksum(data));
        }
    }
    lemma_scan_skip(cfg, w, 0, i0, n - 2);
    if cfg.use_checksum {
        lemma_wrap_checksum_ok(cfg, data);
        assert(w.subrange(0, n) =~= w);
    }
    assert(ends_packet(cfg, w, 0, n - 2));
}

/// What the footer scan finds is a framed packet of the allowed length.
proof fn lemma_scan_found(cfg: ProtocolConfig, buf: Seq<u8>, start: int, i: int)
    requires
        0 <= start,
        i >= cfg.min_length - 2,
        search_limit(cfg, buf, start) <= buf.len() - start - 1,
    ensures
        scan_footer(cfg, buf, start, i) matches Some((s, e)) ==> {
            &&& s == start
            &&& start + cfg.min_length <= e <= buf.len()
            &&& e - start <= cfg.max_length
            &&& buf[e - 1] == cfg.footer
            &&& (cfg.use_checksum ==> spec_checksum_ok(buf.subrange(s, e)))
        },
    decreases search_limit(cfg, buf, start) - i,
{
    if 0 <= i < search_limit(cfg, buf, start) && !ends_packet(cfg, buf, start, i) {
        lemma_scan_found(cfg, buf, start, i + 1);
    }
}

/// A packet located by `find_packet` starts with the header, ends with the
/// footer, carries a correct checksum when one is configured, and is
/// accepted by `unwrap_packet`.
pub proof fn lemma_found_packet_unwraps(cfg: ProtocolConfig, buf: Seq<u8>)
    requires
        cfg.spec_valid(),
    ensures
        spec_find_packet(cfg, buf) matches Some((s, e)) ==> {
            &&& 0 <= s < e <= buf.len()
            &&& cfg.min_length <= e - s <= cfg.max_length
            &&& buf[s] == cfg.header
            &&& buf[e - 1] == cfg.footer
            &&& (cfg.use_checksum ==> spec_checksum_ok(buf.subrange(s, e)))
            &&& spec_unwrap(cfg, buf.subrange(s, e)) is Ok
        },
{
    if buf.len() >= cfg.min_length {
        lemma_first_index_from(buf, cfg.header, 0);
        if let Some(start) = first_index_from(buf, cfg.header, 0) {
            if buf.len() - start >= cfg.min_length {
                lemma_scan_found(cfg, buf, start, cfg.min_length - 2);
                if let Some((s, e)) = spec_find_packet(cfg, buf) {
                    let p = buf.subrange(s, e);
                    assert(p[0] == buf[s]);
                    assert(p.last() == buf[e - 1]);
                }
            }
        }
    }
}

/// Whether the byte `k + 1` places past a header at `s` closes an
/// acceptable packet `buf[s..s + k + 2]`: it is the footer byte and, with
/// checksums on, the byte before it is the XOR of the bytes between the
/// header and that byte.
pub open spec fn closes_packet(cfg: ProtocolConfig, buf: Seq<u8>, s: int, k: int) -> bool {
    &&& buf[s + 1 + k] == cfg.footer
    &&& cfg.use_checksum ==> k >= 1 && spec_checksum(buf.subrange(s + 1, s + k)) == buf[s + k]
}

proof fn lemma_ends_packet_closes(cfg: ProtocolConfig, buf: Seq<u8>, start: int, k: int)
    requires
        0 <= start,
        0 <= k,
        start + k + 2 <= buf.len(),
    ensures
        ends_packet(cfg, buf, start, k) == closes_packet(cfg, buf, start, k),
{
    let p = buf.subrange(start, start + k + 2);
    if k >= 1 {
        assert(p.subrange(1, p.len() - 2) =~= buf.subrange(start + 1, start + k));
        assert(p[p.len() - 2] == buf[start + k]);
    }
}

/// The footer scan from offset `i` stops at the first offset that ends a
/// packet, and finds nothing only when no offset in range does.
proof fn lemma_scan_first(cfg: ProtocolConfig, buf: Seq<u8>, start: int, i: int)
    requires
        0 <= start,
        0 <= i,
    ensures
        scan_footer(cfg, buf, start, i) matches Some((s, e)) ==> {
            &&& s == start
            &&& i <= e - start - 2 < search_limit(cfg, buf, start)
            &&& ends_packet(cfg, buf, start, e - start - 2)
            &&& forall|k: int| i <= k < e - start - 2 ==> !ends_packet(cfg, buf, start, k)
        },
        scan_footer(cfg, buf, start, i) is None ==> forall|k: int|
            i <= k < search_limit(cfg, buf, start) ==> !ends_packet(cfg, buf, start, k),
    decreases search_limit(cfg, buf, start) - i,
{
    if i < search_limit(cfg, buf, start) && !ends_packet(cfg, buf, start, i) {
        lemma_scan_first(cfg, buf, start, i + 1);
    }
}

/// `find_packet` reports the packet that opens at the first header byte of
/// the buffer and closes at the first acceptable footer after it: no
/// offset between the minimum length and the reported end closes a packet,
/// so two packets back to back are reported one at a time. It reports
/// nothing only when no footer within the length bounds after the first
/// header closes a packet.
pub proof fn lemma_find_packet_first_footer(cfg: ProtocolConfig, buf: Seq<u8>)
    requires
        cfg.spec_valid(),
    ensures
        spec_find_packet(cfg, buf) matches Some((s, e)) ==> {
            &&& 0 <= s
            &&& s + cfg.min_length <= e <= buf.len()
            &&& e - s <= cfg.max_length
            &&& buf[s] == cfg.header
            &&& forall|j: int| 0 <= j < s ==> buf[j] != cfg.header
            &&& buf[e - 1] == cfg.footer
            &&& cfg.use_checksum ==> e - s >= 3 && spec_checksum(buf.subrange(s + 1, e - 2))
                == buf[e - 2]
            &&& forall|k: int|
                cfg.min_length - 2 <= k < e - s - 2 ==> !#[trigger] closes_packet(cfg, buf, s, k)
        },
        spec_find_packet(cfg, buf) is None ==> forall|s: int, k: int|
            0 <= s && s + cfg.min_length <= buf.len() && buf[s] == cfg.header && (forall|j: int|
                0 <= j < s ==> buf[j] != cfg.header) && cfg.min_length - 2 <= k && s + k + 2
                <= buf.len() && k + 2 <= cfg.max_length ==> !#[trigger] closes_packet(
                cfg,
                buf,
                s,
                k,
            ),
{
    lemma_first_index_from(buf, cfg.header, 0);
    let i0 = cfg.min_length - 2;
    if let Some(start) = first_index_from(buf, cfg.header, 0) {
        lemma_scan_first(cfg, buf, start, i0);
        assert forall|k: int| i0 <= k < search_limit(cfg, buf, start) implies ends_packet(
            cfg,
            buf,
            start,
            k,
        ) == closes_packet(cfg, buf, start, k) by {
            lemma_ends_packet_closes(cfg, buf, start, k);
        }
        if let Some((s, e)) = spec_find_packet(cfg, buf) {
            lemma_ends_packet_closes(cfg, buf, start, e - start - 2);
        }
    }
    if spec_find_packet(cfg, buf) is None {
        assert forall|s: int, k: int|
            0 <= s && s + cfg.min_length <= buf.len() && buf[s] == cfg.header && (forall|j: int|
                0 <= j < s ==> buf[j] != cfg.header) && cfg.min_length - 2 <= k && s + k + 2
                <= buf.len() && k + 2 <= cfg.max_length implies !closes_packet(cfg, buf, s, k) by {
            match first_index_from(buf, cfg.header, 0) {
                None => {
                    assert(buf[s] != cfg.header);
                },
                Some(start) => {
                    if start < s {
                        assert(buf[start] != cfg.header);
                    }
                    if s < start {
                        assert(buf[s] != cfg.header);
                    }
                    assert(s == start);
                    assert(k < search_limit(cfg, buf, start));
                    lemma_ends_packet_closes(cfg, buf, start, k);
                },
            }
        }
    }
}

/// With escaping on, a single byte is escaped exactly when it is the
/// header, the footer or the escape byte: the escape byte is put before
/// it. With escaping off, data is returned as it is.
pub proof fn lemma_escape_one_byte(cfg: ProtocolConfig, b: u8, data: Seq<u8>)
    ensures
        cfg.escape_byte != 0 ==> spec_escape(cfg, seq![b]) == if b == cfg.header || b
            == cfg.footer || b == cfg.escape_byte {
            seq![cfg.escape_byte, b]
        } else {
            seq![b]
        },
        cfg.escape_byte == 0 ==> spec_escape(cfg, data) == data,
{
    if cfg.escape_byte != 0 {
        assert(seq![b].skip(1) =~= Seq::<u8>::empty());
        assert(escape_bytes(cfg, Seq::<u8>::empty()) =~= Seq::<u8>::empty());
    }
}

/// Escaping works byte by byte: the escaping of two runs one after the
/// other is the escaping of the first followed by that of the second.
pub proof fn lemma_escape_concat(cfg: ProtocolConfig, a: Seq<u8>, b: Seq<u8>)
    ensures
        spec_escape(cfg, a + b) == spec_escape(cfg, a) + spec_escape(cfg, b),
{
    if cfg.escape_byte != 0 {
        lemma_escape_bytes_concat(cfg, a, b);
    }
}

proof fn lemma_escape_bytes_concat(cfg: ProtocolConfig, a: Seq<u8>, b: Seq<u8>)
    ensures
        escape_bytes(cfg, a + b) == escape_bytes(cfg, a) + escape_bytes(cfg, b),
    decreases a.len(),
{
    if a.len() == 0 {
        assert(a + b =~= b);
        assert(escape_bytes(cfg, a) + escape_bytes(cfg, b) =~= escape_bytes(cfg, b));
    } else {
        lemma_escape_bytes_concat(cfg, a.skip(1), b);
        assert((a + b).skip(1) =~= a.skip(1) + b);
        assert((a + b)[0] == a[0]);
        let head = if is_special(cfg, a[0]) {
            seq![cfg.escape_byte, a[0]]
        } else {
            seq![a[0]]
        };
        assert(head + (escape_bytes(cfg, a.skip(1)) + escape_bytes(cfg, b)) =~= (head
            + escape_bytes(cfg, a.skip(1))) + escape_bytes(cfg, b));
    }
}

/// Unescaping with escaping on: an escape byte followed by a byte gives
/// that byte, any other byte (or an escape byte at the very end) stays as
/// it is, and the rest is unescaped the same way.
pub proof fn lemma_unescape_steps(cfg: ProtocolConfig, b: u8, rest: Seq<u8>)
    requires
        cfg.escape_byte != 0,
    ensures
        spec_unescape(cfg, seq![cfg.escape_byte, b] + rest) == seq![b] + spec_unescape(cfg, rest),
        b != cfg.escape_byte ==> spec_unescape(cfg, seq![b] + rest) == seq![b] + spec_unescape(
            cfg,
            rest,
        ),
        spec_unescape(cfg, seq![cfg.escape_byte]) == seq![cfg.escape_byte],
{
    let esc = cfg.escape_byte;
    assert((seq![esc, b] + rest).skip(2) =~= rest);
    assert((seq![b] + rest).skip(1) =~= rest);
    assert(seq![esc].skip(1) =~= Seq::<u8>::empty());
    assert(unescape_bytes(esc, Seq::<u8>::empty()) =~= Seq::<u8>::empty());
    assert(seq![esc] + Seq::<u8>::empty() =~= seq![esc]);
}

/// `unwrap_packet` accepts exactly the packets of at least `min_length`
/// bytes that open with the header and close with the footer, and what it
/// returns is the packet without its header, its footer and, when
/// checksums are on, the byte before the footer.
pub proof fn lemma_unwrap_accepts(cfg: ProtocolConfig, packet: Seq<u8>)
    requires
        cfg.spec_valid(),
    ensures
        spec_unwrap(cfg, packet) is Ok <==> (packet.len() >= cfg.min_length && packet[0]
            == cfg.header && packet[packet.len() - 1] == cfg.footer),
        spec_unwrap(cfg, packet) matches Err(e) ==> e == ErrorCode::ProtocolError,
        spec_unwrap(cfg, packet) matches Ok(d) ==> packet == seq![cfg.header] + d + (
        if cfg.use_checksum {
            seq![packet[packet.len() - 2]]
        } else {
            Seq::<u8>::empty()
        }) + seq![cfg.footer],
{
    if let Ok(d) = spec_unwrap(cfg, packet) {
        if cfg.use_checksum {
            assert(packet =~= seq![cfg.header] + d + seq![packet[packet.len() - 2]] + seq![
                cfg.footer,
            ]);
        } else {
            assert(packet =~= seq![cfg.header] + d + Seq::<u8>::empty() + seq![cfg.footer]);
        }
    }
}

} // verus!
