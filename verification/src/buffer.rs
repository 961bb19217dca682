//! Receive buffer with a size cap, and counters of the trimming it did.

use vstd::prelude::*;

verus! {

/// Largest number of bytes the receive buffer holds.
pub const MAX_BUFFER_SIZE: usize = 1024 * 1024;
/// Number of bytes kept when the buffer overflows.
pub const BUFFER_TRIM_SIZE: usize = 512 * 1024;
/// Fill level above which a write is counted as a warning.
pub const BUFFER_WARNING_THRESHOLD: usize = MAX_BUFFER_SIZE * 80 / 100;

/// Counters of overflows, discarded bytes and high-fill warnings.
/// Each counter wraps around on overflow.
pub struct BufferStats {
    overflow_count: usize,
    bytes_discarded: usize,
    warning_count: usize,
}

impl BufferStats {
    pub closed spec fn overflows(&self) -> usize {
        self.overflow_count
    }

    pub closed spec fn discarded(&self) -> usize {
        self.bytes_discarded
    }

    pub closed spec fn warnings(&self) -> usize {
        self.warning_count
    }

    /// All three counters are zero.
    pub open spec fn is_zero(&self) -> bool {
        &&& self.overflows() == 0
        &&& self.discarded() == 0
        &&& self.warnings() == 0
    }

    pub fn new() -> (r: Self)
        ensures
            r.is_zero(),
    {
        BufferStats { overflow_count: 0, bytes_discarded: 0, warning_count: 0 }
    }

    /// Counts one overflow that discarded `bytes` bytes.
    pub fn record_overflow(&mut self, bytes: usize)
        ensures
            final(self).overflows() == old(self).overflows().wrapping_add(1),
            final(self).discarded() == old(self).discarded().wrapping_add(bytes),
            final(self).warnings() == old(self).warnings(),
    {
        self.overflow_count = self.overflow_count.wrapping_add(1);
        self.bytes_discarded = self.bytes_discarded.wrapping_add(bytes);
    }

    /// Counts one high-fill warning.
    pub fn record_warning(&mut self)
        ensures
            final(self).overflows() == old(self).overflows(),
            final(self).discarded() == old(self).discarded(),
            final(self).warnings() == old(self).warnings().wrapping_add(1),
    {
        self.warning_count = self.warning_count.wrapping_add(1);
    }

    /// Sets every counter back to zero.
    pub fn reset(&mut self)
        ensures
            final(self).is_zero(),
    {
        self.overflow_count = 0;
        self.bytes_discarded = 0;
        self.warning_count = 0;
    }

    pub fn overflow_count(&self) -> (r: usize)
        ensures
            r == self.overflows(),
    {
        self.overflow_count
    }

    pub fn bytes_discarded(&self) -> (r: usize)
        ensures
            r == self.discarded(),
    {
        self.bytes_discarded
    }

    pub fn warning_count(&self) -> (r: usize)
        ensures
            r == self.warnings(),
    {
        self.warning_count
    }
}

impl Default for BufferStats {
    fn default() -> (r: Self)
        ensures
            r.is_zero(),
    {
        BufferStats::new()
    }
}

/// Whether appending `added` bytes to `held` bytes overflows the cap.
pub open spec fn spec_overflows(held: int, added: int) -> bool {
    held + added > MAX_BUFFER_SIZE
}

/// Whether appending `added` bytes to `held` bytes crosses the warning
/// level without overflowing.
pub open spec fn spec_warns(held: int, added: int) -> bool {
    !spec_overflows(held, added) && held + added > BUFFER_WARNING_THRESHOLD
}

/// Contents after appending `data`: the concatenation, cut down to its last
/// `BUFFER_TRIM_SIZE` bytes when it exceeds `MAX_BUFFER_SIZE`.
pub open spec fn spec_push(held: Seq<u8>, data: Seq<u8>) -> Seq<u8> {
    let all = held + data;
    if spec_overflows(held.len() as int, data.len() as int) {
        all.subrange(all.len() - BUFFER_TRIM_SIZE, all.len() as int)
    } else {
        all
    }
}

/// The three counters, as (overflows, bytes discarded, warnings).
pub open spec fn counters(s: BufferStats) -> (usize, usize, usize) {
    (s.overflows(), s.discarded(), s.warnings())
}

/// The counters after appending `added` bytes to `held` bytes: an overflow
/// counts one overflow and the bytes trimmed, a crossing of the warning
/// level counts one warning.
pub open spec fn counters_after_push(s: BufferStats, held: int, added: int) -> (
    usize,
    usize,
    usize,
) {
    if spec_overflows(held, added) {
        (
            s.overflows().wrapping_add(1),
            s.discarded().wrapping_add((held + added - BUFFER_TRIM_SIZE) as usize),
            s.warnings(),
        )
    } else if spec_warns(held, added) {
        (s.overflows(), s.discarded(), s.warnings().wrapping_add(1))
    } else {
        counters(s)
    }
}

/// Copies `v` without the elements in `start..end`.
pub(crate) fn without_range(v: &Vec<u8>, start: usize, end: usize) -> (r: Vec<u8>)
    requires
        start <= end <= v@.len(),
    ensures
        r@ == v@.subrange(0, start as int) + v@.subrange(end as int, v@.len() as int),
{
    let mut r: Vec<u8> = Vec::with_capacity(v.len() - (end - start));
    let mut i: usize = 0;
    while i < start
        invariant
            i <= start <= end <= v@.len(),
            r@ == v@.subrange(0, i as int),
        decreases start - i,
    {
        r.push(v[i]);
        i += 1;
    }
    let mut j: usize = end;
    while j < v.len()
        invariant
            start <= end <= j <= v@.len(),
            r@ == v@.subrange(0, start as int) + v@.subrange(end as int, j as int),
        decreases v@.len() - j,
    {
        r.push(v[j]);
        j += 1;
    }
    r
}

/// Byte buffer for data received from a port.
pub struct RingBuffer {
    buffer: Vec<u8>,
    stats: BufferStats,
}

impl View for RingBuffer {
    type V = Seq<u8>;

    closed spec fn view(&self) -> Seq<u8> {
        self.buffer@
    }
}

impl RingBuffer {
    /// The counters of this buffer.
    pub closed spec fn stats_view(&self) -> BufferStats {
        self.stats
    }

    /// An empty buffer; `capacity` is only an allocation hint.
    pub fn new(capacity: usize) -> (r: Self)
        ensures
            r@ == Seq::<u8>::empty(),
            r.stats_view().is_zero(),
    {
        RingBuffer { buffer: Vec::with_capacity(capacity), stats: BufferStats::new() }
    }

    /// Appends `data`. When the result would exceed `MAX_BUFFER_SIZE`, only
    /// its last `BUFFER_TRIM_SIZE` bytes are kept and an overflow is counted;
    /// otherwise, above `BUFFER_WARNING_THRESHOLD`, a warning is counted.
    /// Always returns `Ok`.
    pub fn push(&mut self, data: &[u8]) -> (r: Result<(), usize>)
        requires
            old(self)@.len() + data@.len() <= usize::MAX,
        ensures
            r is Ok,
            final(self)@ == spec_push(old(self)@, data@),
            final(self)@.len() <= MAX_BUFFER_SIZE,
            counters(final(self).stats_view()) == counters_after_push(
                old(self).stats_view(),
                old(self)@.len() as int,
                data@.len() as int,
            ),
    {
        let new_size = self.buffer.len() + data.len();
        let ghost held = self.buffer@;
        let ghost counters = self.stats;
        let mut i: usize = 0;
        while i < data.len()
            invariant
                i <= data@.len(),
                self.stats == counters,
                self.buffer@ == held + data@.subrange(0, i as int),
            decreases data@.len() - i,
        {
            self.buffer.push(data[i]);
            i += 1;
        }
        assert(data@.subrange(0, data@.len() as int) == data@);
        if new_size > MAX_BUFFER_SIZE {
            let discard = new_size - BUFFER_TRIM_SIZE;
            let kept = without_range(&self.buffer, 0, discard);
            self.buffer = kept;
            self.stats.record_overflow(discard);
        } else if new_size > BUFFER_WARNING_THRESHOLD {
            self.stats.record_warning();
        }
        Ok(())
    }

    pub fn as_slice(&self) -> (r: &[u8])
        ensures
            r@ == self@,
    {
        self.buffer.as_slice()
    }

    /// Removes the bytes in `range`.
    pub fn drain(&mut self, range: std::ops::Range<usize>)
        requires
            range.start <= range.end <= old(self)@.len(),
        ensures
            final(self)@ == old(self)@.subrange(0, range.start as int) + old(self)@.subrange(
                range.end as int,
                old(self)@.len() as int,
            ),
            final(self).stats_view() == old(self).stats_view(),
    {
        let kept = without_range(&self.buffer, range.start, range.end);
        self.buffer = kept;
    }

    /// Removes every byte; the counters are kept.
    pub fn clear(&mut self)
        ensures
            final(self)@ == Seq::<u8>::empty(),
            final(self).stats_view() == old(self).stats_view(),
    {
        self.buffer.clear();
    }

    pub fn len(&self) -> (r: usize)
        ensures
            r == self@.len(),
    {
        self.buffer.len()
    }

    pub fn is_empty(&self) -> (r: bool)
        ensures
            r == (self@.len() == 0),
    {
        self.buffer.len() == 0
    }

    pub fn stats(&self) -> (r: &BufferStats)
        ensures
            *r == self.stats_view(),
    {
        &self.stats
    }

    /// Sets the counters back to zero; the contents are kept.
    pub fn reset_stats(&mut self)
        ensures
            final(self)@ == old(self)@,
            final(self).stats_view().is_zero(),
    {
        self.stats.reset();
    }
}

/// Appending keeps the newest bytes: the contents after a push are the
/// last bytes of the old contents followed by the data, all of them when
/// they fit within `MAX_BUFFER_SIZE`, otherwise the last
/// `BUFFER_TRIM_SIZE`.
pub proof fn lemma_push_keeps_newest(held: Seq<u8>, data: Seq<u8>)
    ensures
        ({
            let total = held.len() + data.len() as int;
            let kept = if total > MAX_BUFFER_SIZE {
                BUFFER_TRIM_SIZE as int
            } else {
                total as int
            };
            &&& spec_push(held, data).len() == kept
            &&& forall|k: int|
                0 <= k < kept ==> #[trigger] spec_push(held, data)[k] == (if total - kept + k
                    < held.len() {
                    held[total - kept + k]
                } else {
                    data[total - kept + k - held.len()]
                })
        }),
{
}

} // verus!
