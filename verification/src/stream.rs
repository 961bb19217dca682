//! Packet handling on a plain receive buffer: building a packet into a
//! caller's output buffer, extracting a packet's payload, pulling the next
//! valid packet out of a receive buffer, and appending received bytes with
//! overflow trimming.

use vstd::prelude::*;

use crate::buffer::{
    spec_overflows, spec_push, without_range, BufferStats, BUFFER_TRIM_SIZE, BUFFER_WARNING_THRESHOLD, MAX_BUFFER_SIZE,
};
use crate::bytes::{copy_range, find_byte, first_index_from, lemma_first_index_from};
use crate::error::{ErrorCode, IoErrorKind};
use crate::protocol::{spec_checksum, spec_checksum_ok, spec_wrap};
use crate::types::ProtocolConfig;

verus! {

/// XOR of all bytes of `data`.
pub fn calculate_checksum(data: &[u8]) -> (r: u8)
    ensures
        r == spec_checksum(data@),
{
    let mut acc: u8 = 0;
    let mut i: usize = 0;
    while i < data.len()
        invariant
            i <= data@.len(),
            acc == spec_checksum(data@.subrange(0, i as int)),
        decreases data@.len() - i,
    {
        assert(data@.subrange(0, i + 1).drop_last() == data@.subrange(0, i as int));
        acc = acc ^ data[i];
        i += 1;
    }
    assert(data@.subrange(0, data@.len() as int) == data@);
    acc
}

/// Writes the packet framing `data` to the front of `out_buffer` and
/// returns its length; returns 0, writing nothing, when it does not fit.
pub fn build_packet(data: &[u8], protocol: &ProtocolConfig, out_buffer: &mut [u8]) -> (r: usize)
    requires
        data@.len() + 3 <= usize::MAX,
    ensures
        final(out_buffer)@.len() == old(out_buffer)@.len(),
        spec_wrap(*protocol, data@).len() > old(out_buffer)@.len() ==> {
            &&& r == 0
            &&& final(out_buffer)@ == old(out_buffer)@
        },
        spec_wrap(*protocol, data@).len() <= old(out_buffer)@.len() ==> {
            &&& r == spec_wrap(*protocol, data@).len()
            &&& final(out_buffer)@ == spec_wrap(*protocol, data@) + old(out_buffer)@.subrange(
                r as int,
                old(out_buffer)@.len() as int,
            )
        },
{
    let header = protocol.header;
    let footer = protocol.footer;
    let use_checksum = protocol.use_checksum;
    let total_len = if use_checksum {
        1 + data.len() + 1 + 1
    } else {
        1 + data.len() + 1
    };
    if total_len > out_buffer.len() {
        return 0;
    }
    let ghost original = out_buffer@;
    let ghost w = spec_wrap(*protocol, data@);
    assert(w.len() == total_len);
    let mut pos: usize = 0;
    out_buffer[pos] = header;
    pos += 1;
    let mut i: usize = 0;
    while i < data.len()
        invariant
            i <= data@.len(),
            pos == 1 + i,
            total_len <= out_buffer@.len() == original.len(),
            total_len == w.len(),
            w == spec_wrap(*protocol, data@),
            forall|k: int| 0 <= k < pos ==> out_buffer@[k] == w[k],
            forall|k: int| total_len <= k < original.len() ==> out_buffer@[k] == original[k],
        decreases data@.len() - i,
    {
        out_buffer[pos] = data[i];
        pos += 1;
        i += 1;
    }
    if use_checksum {
        let checksum = calculate_checksum(data);
        out_buffer[pos] = checksum;
        pos += 1;
    }
    out_buffer[pos] = footer;
    pos += 1;
    assert(out_buffer@ =~= w + original.subrange(pos as int, original.len() as int));
    pos
}

/// The payload of `packet` (everything between the header byte and the
/// checksum or footer byte), checked only for length: `InvalidArgs` when
/// the packet or the output capacity is empty, when the packet is shorter
/// than `min_length`, or when the payload exceeds `max_len` bytes.
pub open spec fn spec_extract_payload(cfg: ProtocolConfig, packet: Seq<u8>, max_len: int) -> Result<
    Seq<u8>,
    ErrorCode,
> {
    if packet.len() == 0 || max_len == 0 || packet.len() < cfg.min_length {
        Err(ErrorCode::InvalidArgs)
    } else {
        let end = if cfg.use_checksum {
            packet.len() - 2
        } else {
            packet.len() - 1
        };
        if 1 >= end {
            Ok(Seq::<u8>::empty())
        } else if end - 1 > max_len {
            Err(ErrorCode::InvalidArgs)
        } else {
            Ok(packet.subrange(1, end))
        }
    }
}

/// Extracts the payload of `packet` into at most `max_len` bytes.
pub fn extract_payload(packet: &[u8], protocol: &ProtocolConfig, max_len: usize) -> (r: Result<
    Vec<u8>,
    ErrorCode,
>)
    requires
        protocol.spec_valid(),
    ensures
        match r {
            Ok(v) => spec_extract_payload(*protocol, packet@, max_len as int) == Ok::<
                Seq<u8>,
                ErrorCode,
            >(v@),
            Err(e) => spec_extract_payload(*protocol, packet@, max_len as int) == Err::<
                Seq<u8>,
                ErrorCode,
            >(e),
        },
{
    let packet_len = packet.len();
    if packet_len == 0 || max_len == 0 {
        return Err(ErrorCode::InvalidArgs);
    }
    if packet_len < protocol.min_length as usize {
        return Err(ErrorCode::InvalidArgs);
    }
    let payload_start: usize = 1;
    let payload_end = if protocol.use_checksum {
        packet_len - 2
    } else {
        packet_len - 1
    };
    if payload_start >= payload_end {
        return Ok(Vec::new());
    }
    let payload_len = payload_end - payload_start;
    if payload_len > max_len {
        return Err(ErrorCode::InvalidArgs);
    }
    Ok(copy_range(packet, payload_start, payload_end))
}

/// Outcome of looking for the next packet in a receive buffer, with the
/// buffer left behind. Garbage before a header is dropped; a header with
/// no footer is dropped once the buffer exceeds `max_length`; a candidate
/// that is too short or fails its checksum is dropped through its footer,
/// one that is too long loses its header byte; the search then goes on.
/// It stops with no packet when no header is left (the buffer is emptied)
/// or more bytes are needed, with `InvalidArgs` when the packet found is
/// longer than `max_len` (it stays in the buffer), or with the packet,
/// which is removed from the buffer.
pub open spec fn spec_next_packet(cfg: ProtocolConfig, buf: Seq<u8>, max_len: int) -> (Result<
    Option<Seq<u8>>,
    ErrorCode,
>, Seq<u8>)
    decreases buf.len(),
{
    match first_index_from(buf, cfg.header, 0) {
        None => (Ok(None), Seq::<u8>::empty()),
        Some(st) => {
            proof {
                lemma_first_index_from(buf, cfg.header, 0);
            }
            let b = buf.subrange(st, buf.len() as int);
            if b.len() < cfg.min_length {
                (Ok(None), b)
            } else {
                match first_index_from(b, cfg.footer, 1) {
                    None => if b.len() > cfg.max_length {
                        spec_next_packet(cfg, b.subrange(1, b.len() as int), max_len)
                    } else {
                        (Ok(None), b)
                    },
                    Some(ep) => {
                        proof {
                            lemma_first_index_from(b, cfg.footer, 1);
                        }
                        let re = ep + 1;
                        let p = b.subrange(0, re);
                        if re < cfg.min_length {
                            spec_next_packet(cfg, b.subrange(re, b.len() as int), max_len)
                        } else if re > cfg.max_length {
                            spec_next_packet(cfg, b.subrange(1, b.len() as int), max_len)
                        } else if cfg.use_checksum && !spec_checksum_ok(p) {
                            spec_next_packet(cfg, b.subrange(re, b.len() as int), max_len)
                        } else if re > max_len {
                            (Err(ErrorCode::InvalidArgs), b)
                        } else {
                            (Ok(Some(p)), b.subrange(re, b.len() as int))
                        }
                    },
                }
            }
        },
    }
}

/// Removes the first `n` bytes of `v`.
fn drop_front(v: &mut Vec<u8>, n: usize)
    requires
        n <= old(v)@.len(),
    ensures
        final(v)@ == old(v)@.subrange(n as int, old(v)@.len() as int),
{
    let kept = without_range(v, 0, n);
    *v = kept;
    assert(final(v)@ =~= old(v)@.subrange(n as int, old(v)@.len() as int));
}

/// Whether `packet` carries a correct checksum.
fn checksum_ok(packet: &[u8]) -> (r: bool)
    ensures
        r == spec_checksum_ok(packet@),
{
    if packet.len() < 3 {
        return false;
    }
    let n = packet.len();
    calculate_checksum(&packet[1..n - 2]) == packet[n - 2]
}

/// Pulls the next valid packet out of `buffer`; see `spec_next_packet`.
/// An output capacity of 0 is refused with `InvalidArgs` before anything
/// else.
pub fn next_packet(buffer: &mut Vec<u8>, protocol: &ProtocolConfig, max_len: usize) -> (r: Result<
    Option<Vec<u8>>,
    ErrorCode,
>)
    ensures
        max_len == 0 ==> {
            &&& r == Err::<Option<Vec<u8>>, ErrorCode>(ErrorCode::InvalidArgs)
            &&& final(buffer)@ == old(buffer)@
        },
        max_len > 0 ==> {
            let (res, rest) = spec_next_packet(*protocol, old(buffer)@, max_len as int);
            &&& final(buffer)@ == rest
            &&& match r {
                Ok(Some(p)) => res == Ok::<Option<Seq<u8>>, ErrorCode>(Some(p@)),
                Ok(None) => res == Ok::<Option<Seq<u8>>, ErrorCode>(None),
                Err(e) => res == Err::<Option<Seq<u8>>, ErrorCode>(e),
            }
        },
{
    if max_len == 0 {
        return Err(ErrorCode::InvalidArgs);
    }
    let cfg = *protocol;
    let ghost target = spec_next_packet(cfg, buffer@, max_len as int);
    if buffer.len() == 0 {
        assert(first_index_from(buffer@, cfg.header, 0) is None);
        assert(buffer@ =~= Seq::<u8>::empty());
        return Ok(None);
    }
    loop
        invariant
            max_len > 0,
            cfg == *protocol,
            target == spec_next_packet(cfg, old(buffer)@, max_len as int),
            spec_next_packet(cfg, buffer@, max_len as int) == target,
        decreases buffer@.len(),
    {
        let ghost cur = buffer@;
        let start = match find_byte(buffer.as_slice(), cfg.header, 0) {
            Some(s) => s,
            None => {
                buffer.clear();
                return Ok(None);
            },
        };
        proof {
            lemma_first_index_from(buffer@, cfg.header, 0);
        }
        if start > 0 {
            drop_front(buffer, start);
        }
        assert(buffer@ =~= cur.subrange(start as int, cur.len() as int));
        if buffer.len() < cfg.min_length as usize {
            return Ok(None);
        }
        let footer_at = find_byte(buffer.as_slice(), cfg.footer, 1);
        proof {
            lemma_first_index_from(buffer@, cfg.footer, 1);
        }
        let end_pos = match footer_at {
            Some(e) => e,
            None => {
                if buffer.len() > cfg.max_length as usize {
                    drop_front(buffer, 1);
                    continue ;
                }
                return Ok(None);
            },
        };
        let real_end = end_pos + 1;
        if real_end < cfg.min_length as usize {
            drop_front(buffer, real_end);
            continue ;
        }
        if real_end > cfg.max_length as usize {
            drop_front(buffer, 1);
            continue ;
        }
        if cfg.use_checksum && !checksum_ok(&buffer.as_slice()[0..real_end]) {
            drop_front(buffer, real_end);
            continue ;
        }
        if real_end > max_len {
            return Err(ErrorCode::InvalidArgs);
        }
        let packet = copy_range(buffer.as_slice(), 0, real_end);
        drop_front(buffer, real_end);
        return Ok(Some(packet));
    }
}

/// Appends bytes received from a port to `buffer`. Above
/// `BUFFER_WARNING_THRESHOLD` a warning is counted; above `MAX_BUFFER_SIZE`
/// an overflow is counted as well and only the last `BUFFER_TRIM_SIZE`
/// bytes are kept. Receiving nothing changes nothing.
pub fn append_received(buffer: &mut Vec<u8>, stats: &mut BufferStats, data: &[u8])
    requires
        old(buffer)@.len() + data@.len() <= usize::MAX,
    ensures
        data@.len() == 0 ==> final(buffer)@ == old(buffer)@,
        data@.len() > 0 ==> final(buffer)@ == spec_push(old(buffer)@, data@),
        data@.len() > 0 ==> final(buffer)@.len() <= MAX_BUFFER_SIZE,
        final(stats).warnings() == if data@.len() > 0 && old(buffer)@.len() + data@.len()
            > BUFFER_WARNING_THRESHOLD {
            old(stats).warnings().wrapping_add(1)
        } else {
            old(stats).warnings()
        },
        final(stats).overflows() == if spec_overflows(
            old(buffer)@.len() as int,
            data@.len() as int,
        ) && data@.len() > 0 {
            old(stats).overflows().wrapping_add(1)
        } else {
            old(stats).overflows()
        },
        final(stats).discarded() == if spec_overflows(
            old(buffer)@.len() as int,
            data@.len() as int,
        ) && data@.len() > 0 {
            old(stats).discarded().wrapping_add(
                (old(buffer)@.len() + data@.len() - BUFFER_TRIM_SIZE) as usize,
            )
        } else {
            old(stats).discarded()
        },
{
    if data.len() == 0 {
        return;
    }
    let ghost held = buffer@;
    let mut i: usize = 0;
    while i < data.len()
        invariant
            i <= data@.len(),
            buffer@ == held + data@.subrange(0, i as int),
        decreases data@.len() - i,
    {
        buffer.push(data[i]);
        i += 1;
    }
    assert(data@.subrange(0, data@.len() as int) == data@);
    let current_size = buffer.len();
    if current_size > BUFFER_WARNING_THRESHOLD {
        stats.record_warning();
    }
    if current_size > MAX_BUFFER_SIZE {
        let keep_from = current_size - BUFFER_TRIM_SIZE;
        stats.record_overflow(keep_from);
        drop_front(buffer, keep_from);
    }
}

/// Whether `buffer` and `stats` are what appending `data` to `old_buffer`
/// with counters `old_stats` leaves, as `append_received` does it.
pub open spec fn spec_appended(
    old_buffer: Seq<u8>,
    old_stats: BufferStats,
    data: Seq<u8>,
    buffer: Seq<u8>,
    stats: BufferStats,
) -> bool {
    &&& data.len() == 0 ==> buffer == old_buffer
    &&& data.len() > 0 ==> buffer == spec_push(old_buffer, data)
    &&& stats.warnings() == if data.len() > 0 && old_buffer.len() + data.len()
        > BUFFER_WARNING_THRESHOLD {
        old_stats.warnings().wrapping_add(1)
    } else {
        old_stats.warnings()
    }
    &&& stats.overflows() == if spec_overflows(old_buffer.len() as int, data.len() as int)
        && data.len() > 0 {
        old_stats.overflows().wrapping_add(1)
    } else {
        old_stats.overflows()
    }
    &&& stats.discarded() == if spec_overflows(old_buffer.len() as int, data.len() as int)
        && data.len() > 0 {
        old_stats.discarded().wrapping_add((old_buffer.len() + data.len() - BUFFER_TRIM_SIZE) as usize)
    } else {
        old_stats.discarded()
    }
}

/// Takes in the outcome of one raw port read: the bytes received are
/// appended as `append_received` does and their number returned; a timeout
/// counts as a read of nothing (`Ok(0)`); any other failure gives
/// `ReadFailed`. A failure or a timeout leaves buffer and counters as they
/// were.
pub fn absorb_raw_read(
    buffer: &mut Vec<u8>,
    stats: &mut BufferStats,
    outcome: Result<&[u8], IoErrorKind>,
) -> (r: Result<usize, ErrorCode>)
    requires
        outcome matches Ok(data) ==> old(buffer)@.len() + data@.len() <= usize::MAX,
    ensures
        match outcome {
            Ok(data) => {
                &&& r == Ok::<usize, ErrorCode>(data@.len() as usize)
                &&& spec_appended(old(buffer)@, *old(stats), data@, final(buffer)@, *final(stats))
            },
            Err(kind) => {
                &&& r == if kind == IoErrorKind::TimedOut {
                    Ok::<usize, ErrorCode>(0)
                } else {
                    Err::<usize, ErrorCode>(ErrorCode::ReadFailed)
                }
                &&& final(buffer)@ == old(buffer)@
                &&& *final(stats) == *old(stats)
            },
        },
{
    match outcome {
        Ok(data) => {
            append_received(buffer, stats, data);
            Ok(data.len())
        },
        Err(IoErrorKind::TimedOut) => Ok(0),
        Err(_) => Err(ErrorCode::ReadFailed),
    }
}

/// Pulling the next packet only ever removes bytes from the front of the
/// buffer, and a packet it returns is framed: it starts with the header,
/// ends with the footer, has a length within the configured bounds and the
/// output capacity, carries a correct checksum when one is configured, and
/// stood in the buffer right before what is left.
pub proof fn lemma_next_packet_framed(cfg: ProtocolConfig, buf: Seq<u8>, max_len: int)
    ensures
        ({
            let (res, rest) = spec_next_packet(cfg, buf, max_len);
            &&& rest.len() <= buf.len()
            &&& rest == buf.subrange(buf.len() - rest.len(), buf.len() as int)
            &&& res matches Ok(Some(p)) ==> {
                &&& cfg.min_length <= p.len() <= cfg.max_length
                &&& p.len() <= max_len
                &&& p[0] == cfg.header
                &&& p.last() == cfg.footer
                &&& (cfg.use_checksum ==> spec_checksum_ok(p))
                &&& p.len() + rest.len() <= buf.len()
                &&& buf.subrange(buf.len() - rest.len() - p.len(), buf.len() as int) == p + rest
            }
        }),
    decreases buf.len(),
{
    lemma_first_index_from(buf, cfg.header, 0);
    match first_index_from(buf, cfg.header, 0) {
        None => {},
        Some(st) => {
            let b = buf.subrange(st, buf.len() as int);
            if b.len() >= cfg.min_length {
                lemma_first_index_from(b, cfg.footer, 1);
                match first_index_from(b, cfg.footer, 1) {
                    None => {
                        if b.len() > cfg.max_length {
                            lemma_next_packet_framed(cfg, b.subrange(1, b.len() as int), max_len);
                        }
                    },
                    Some(ep) => {
                        let re = ep + 1;
                        let p = b.subrange(0, re);
                        if re < cfg.min_length || (re <= cfg.max_length && cfg.use_checksum
                            && !spec_checksum_ok(p)) {
                            lemma_next_packet_framed(cfg, b.subrange(re, b.len() as int), max_len);
                        } else if re > cfg.max_length {
                            lemma_next_packet_framed(cfg, b.subrange(1, b.len() as int), max_len);
                        } else if re <= max_len {
                            let rest = b.subrange(re, b.len() as int);
                            assert(buf.subrange(buf.len() - rest.len() - p.len(), buf.len() as int)
                                =~= p + rest);
                        }
                    },
                }
            }
        },
    }
    let (res, rest) = spec_next_packet(cfg, buf, max_len);
    assert(rest =~= buf.subrange(buf.len() - rest.len(), buf.len() as int));
}

/// `first_index_from` finds the given position when it holds the byte and
/// no position between `from` and it does.
proof fn lemma_first_index_is(s: Seq<u8>, b: u8, from: int, q: int)
    requires
        0 <= from <= q < s.len(),
        s[q] == b,
        forall|j: int| from <= j < q ==> s[j] != b,
    ensures
        first_index_from(s, b, from) == Some(q),
{
    lemma_first_index_from(s, b, from);
    if let Some(i) = first_index_from(s, b, from) {
        if i < q {
            assert(s[i] != b);
        }
        if q < i {
            assert(s[q] != b);
        }
    }
}

/// With no header byte in the buffer there is no packet, and the buffer
/// is emptied.
pub proof fn lemma_next_packet_no_header(cfg: ProtocolConfig, buf: Seq<u8>, max_len: int)
    requires
        forall|j: int| 0 <= j < buf.len() ==> buf[j] != cfg.header,
    ensures
        spec_next_packet(cfg, buf, max_len) == (
        Ok::<Option<Seq<u8>>, ErrorCode>(None),
        Seq::<u8>::empty(),
        ),
{
    lemma_first_index_from(buf, cfg.header, 0);
    if let Some(i) = first_index_from(buf, cfg.header, 0) {
        assert(buf[i] != cfg.header);
    }
}

/// A packet whose footer has not arrived yet is kept: when the buffer from
/// its first header on holds no footer after that header and is no longer
/// than `max_length`, there is no packet yet, only the bytes before the
/// header are dropped, and the header and what follows it stay for the
/// next call.
pub proof fn lemma_next_packet_waits(cfg: ProtocolConfig, buf: Seq<u8>, max_len: int, st: int)
    requires
        0 <= st < buf.len(),
        buf[st] == cfg.header,
        forall|j: int| 0 <= j < st ==> buf[j] != cfg.header,
        forall|j: int| st < j < buf.len() ==> buf[j] != cfg.footer,
        buf.len() - st <= cfg.max_length,
    ensures
        spec_next_packet(cfg, buf, max_len) == (
        Ok::<Option<Seq<u8>>, ErrorCode>(None),
        buf.subrange(st, buf.len() as int),
        ),
{
    lemma_first_index_is(buf, cfg.header, 0, st);
    let b = buf.subrange(st, buf.len() as int);
    lemma_first_index_from(b, cfg.footer, 1);
    if let Some(i) = first_index_from(b, cfg.footer, 1) {
        assert(b[i] == buf[st + i]);
    }
}

/// A complete packet at the first header is taken: when the first footer
/// after the first header closes a packet within the length bounds and
/// the output capacity, whose checksum (when on) is right, that packet is
/// returned and the buffer keeps what follows it.
pub proof fn lemma_next_packet_takes_complete(
    cfg: ProtocolConfig,
    buf: Seq<u8>,
    max_len: int,
    st: int,
    e: int,
)
    requires
        0 <= st < e < buf.len(),
        buf[st] == cfg.header,
        forall|j: int| 0 <= j < st ==> buf[j] != cfg.header,
        buf[e] == cfg.footer,
        forall|j: int| st < j < e ==> buf[j] != cfg.footer,
        cfg.min_length <= e - st + 1 <= cfg.max_length,
        e - st + 1 <= max_len,
        cfg.use_checksum ==> e - st + 1 >= 3 && spec_checksum(buf.subrange(st + 1, e - 1)) == buf[e
            - 1],
    ensures
        spec_next_packet(cfg, buf, max_len) == (
        Ok::<Option<Seq<u8>>, ErrorCode>(Some(buf.subrange(st, e + 1))),
        buf.subrange(e + 1, buf.len() as int),
        ),
{
    lemma_first_index_is(buf, cfg.header, 0, st);
    let b = buf.subrange(st, buf.len() as int);
    lemma_first_index_is(b, cfg.footer, 1, e - st);
    let re = e - st + 1;
    let p = b.subrange(0, re);
    assert(p =~= buf.subrange(st, e + 1));
    if cfg.use_checksum {
        assert(p.subrange(1, p.len() - 2) =~= buf.subrange(st + 1, e - 1));
        assert(p[p.len() - 2] == buf[e - 1]);
    }
    assert(b.subrange(re, b.len() as int) =~= buf.subrange(e + 1, buf.len() as int));
}

/// Fewer than `min_length` bytes from the first header on: no packet yet,
/// and those bytes stay for the next call.
pub proof fn lemma_next_packet_short(cfg: ProtocolConfig, buf: Seq<u8>, max_len: int, st: int)
    requires
        0 <= st < buf.len(),
        buf[st] == cfg.header,
        forall|j: int| 0 <= j < st ==> buf[j] != cfg.header,
        buf.len() - st < cfg.min_length,
    ensures
        spec_next_packet(cfg, buf, max_len) == (
        Ok::<Option<Seq<u8>>, ErrorCode>(None),
        buf.subrange(st, buf.len() as int),
        ),
{
    lemma_first_index_is(buf, cfg.header, 0, st);
}

/// A header that no footer follows is given up once more than
/// `max_length` bytes stand from it on: the search goes on after that
/// header byte.
pub proof fn lemma_next_packet_gives_up(cfg: ProtocolConfig, buf: Seq<u8>, max_len: int, st: int)
    requires
        0 <= st < buf.len(),
        buf[st] == cfg.header,
        forall|j: int| 0 <= j < st ==> buf[j] != cfg.header,
        forall|j: int| st < j < buf.len() ==> buf[j] != cfg.footer,
        buf.len() - st > cfg.max_length,
        buf.len() - st >= cfg.min_length,
    ensures
        spec_next_packet(cfg, buf, max_len) == spec_next_packet(
            cfg,
            buf.subrange(st + 1, buf.len() as int),
            max_len,
        ),
{
    lemma_first_index_is(buf, cfg.header, 0, st);
    let b = buf.subrange(st, buf.len() as int);
    lemma_first_index_from(b, cfg.footer, 1);
    if let Some(i) = first_index_from(b, cfg.footer, 1) {
        assert(b[i] == buf[st + i]);
    }
    assert(b.subrange(1, b.len() as int) =~= buf.subrange(st + 1, buf.len() as int));
}

/// What happens to a candidate that runs from the first header to the
/// first footer after it: one shorter than `min_length`, or one whose
/// checksum (when on) is wrong, is dropped through its footer; one longer
/// than `max_length` loses only its header byte; one longer than the
/// output capacity is refused with `InvalidArgs` and stays in the buffer.
/// The search then goes on with what is left.
pub proof fn lemma_next_packet_candidate(
    cfg: ProtocolConfig,
    buf: Seq<u8>,
    max_len: int,
    st: int,
    e: int,
)
    requires
        0 <= st < e < buf.len(),
        buf[st] == cfg.header,
        forall|j: int| 0 <= j < st ==> buf[j] != cfg.header,
        buf[e] == cfg.footer,
        forall|j: int| st < j < e ==> buf[j] != cfg.footer,
        buf.len() - st >= cfg.min_length,
    ensures
        e - st + 1 < cfg.min_length ==> spec_next_packet(cfg, buf, max_len) == spec_next_packet(
            cfg,
            buf.subrange(e + 1, buf.len() as int),
            max_len,
        ),
        cfg.min_length <= e - st + 1 && e - st + 1 > cfg.max_length ==> spec_next_packet(
            cfg,
            buf,
            max_len,
        ) == spec_next_packet(cfg, buf.subrange(st + 1, buf.len() as int), max_len),
        cfg.min_length <= e - st + 1 <= cfg.max_length && cfg.use_checksum && !(e - st + 1 >= 3
            && spec_checksum(buf.subrange(st + 1, e - 1)) == buf[e - 1]) ==> spec_next_packet(
            cfg,
            buf,
            max_len,
        ) == spec_next_packet(cfg, buf.subrange(e + 1, buf.len() as int), max_len),
        cfg.min_length <= e - st + 1 <= cfg.max_length && (cfg.use_checksum ==> e - st + 1 >= 3
            && spec_checksum(buf.subrange(st + 1, e - 1)) == buf[e - 1]) && e - st + 1 > max_len
            ==> spec_next_packet(cfg, buf, max_len) == (
        Err::<Option<Seq<u8>>, ErrorCode>(ErrorCode::InvalidArgs),
        buf.subrange(st, buf.len() as int),
        ),
{
    lemma_first_index_is(buf, cfg.header, 0, st);
    let b = buf.subrange(st, buf.len() as int);
    lemma_first_index_is(b, cfg.footer, 1, e - st);
    let re = e - st + 1;
    let p = b.subrange(0, re);
    if re >= 3 {
        assert(p.subrange(1, p.len() - 2) =~= buf.subrange(st + 1, e - 1));
        assert(p[p.len() - 2] == buf[e - 1]);
    }
    assert(b.subrange(re, b.len() as int) =~= buf.subrange(e + 1, buf.len() as int));
    assert(b.subrange(1, b.len() as int) =~= buf.subrange(st + 1, buf.len() as int));
}

/// Extracting the payload of a packet framed from `data` gives `data`
/// back, when the framed packet is at least `min_length` bytes long and
/// `data` fits the output capacity.
pub proof fn lemma_extract_wrapped(cfg: ProtocolConfig, data: Seq<u8>, max_len: int)
    requires
        cfg.spec_valid(),
        spec_wrap(cfg, data).len() >= cfg.min_length,
        data.len() <= max_len,
        max_len > 0,
    ensures
        spec_extract_payload(cfg, spec_wrap(cfg, data), max_len) == Ok::<Seq<u8>, ErrorCode>(data),
{
    let w = spec_wrap(cfg, data);
    assert(w.subrange(1, data.len() + 1int) =~= data);
    if data.len() == 0 {
        assert(data =~= Seq::<u8>::empty());
    }
}

} // verus!
