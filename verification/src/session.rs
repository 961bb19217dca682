//! Decisions taken for an open port around its I/O: validating handles,
//! serving reads from the receive buffer and absorbing what a port read
//! delivered.

use vstd::prelude::*;

use crate::buffer::{counters, counters_after_push, spec_push, RingBuffer};
use crate::error::{ErrorCode, IoErrorKind};

verus! {

/// Value stored in every live port context; a handle whose context does
/// not hold it is refused.
pub const MAGIC_NUMBER: u32 = 0xDEADBEEF;

/// Whether a context carrying `magic` is a live one.
pub fn is_valid_magic(magic: u32) -> (r: bool)
    ensures
        r == (magic == MAGIC_NUMBER),
{
    magic == MAGIC_NUMBER
}

/// Copies up to `length` bytes from the front of the receive buffer,
/// leaving the buffer as it is.
pub fn read_available(buffer: &RingBuffer, length: usize) -> (r: Vec<u8>)
    ensures
        r@ == buffer@.subrange(
            0,
            if length < buffer@.len() {
                length as int
            } else {
                buffer@.len() as int
            },
        ),
{
    let available = buffer.as_slice();
    let to_copy = if length < available.len() {
        length
    } else {
        available.len()
    };
    crate::bytes::copy_range(available, 0, to_copy)
}

/// Absorbs the outcome of one port read: received bytes are appended to
/// the buffer and their number returned; a timeout gives `TimeoutFailed`
/// and any other failure `ReadFailed`, leaving the buffer unchanged.
pub fn absorb_read(buffer: &mut RingBuffer, outcome: Result<&[u8], IoErrorKind>) -> (r: Result<
    usize,
    ErrorCode,
>)
    requires
        outcome matches Ok(data) ==> old(buffer)@.len() + data@.len() <= usize::MAX,
    ensures
        match outcome {
            Ok(data) => {
                &&& r == Ok::<usize, ErrorCode>(data@.len() as usize)
                &&& data@.len() == 0 ==> final(buffer)@ == old(buffer)@
                &&& data@.len() == 0 ==> final(buffer).stats_view() == old(buffer).stats_view()
                &&& data@.len() > 0 ==> final(buffer)@ == spec_push(old(buffer)@, data@)
                &&& data@.len() > 0 ==> counters(final(buffer).stats_view()) == counters_after_push(
                    old(buffer).stats_view(),
                    old(buffer)@.len() as int,
                    data@.len() as int,
                )
            },
            Err(kind) => {
                &&& r == Err::<usize, ErrorCode>(
                    if kind == IoErrorKind::TimedOut {
                        ErrorCode::TimeoutFailed
                    } else {
                        ErrorCode::ReadFailed
                    },
                )
                &&& final(buffer)@ == old(buffer)@
                &&& final(buffer).stats_view() == old(buffer).stats_view()
            },
        },
{
    match outcome {
        Ok(data) => {
            let n = data.len();
            if n > 0 {
                match buffer.push(data) {
                    Ok(()) => Ok(n),
                    Err(_) => Err(ErrorCode::BufferOverflow),
                }
            } else {
                Ok(0)
            }
        },
        Err(IoErrorKind::TimedOut) => Err(ErrorCode::TimeoutFailed),
        Err(_) => Err(ErrorCode::ReadFailed),
    }
}

/// Separator between port names in a port list.
pub const PORT_SEPARATOR: u8 = 0x3b;

/// The names joined with `;` from `i` on, appended to `acc`: a name is
/// taken while `acc`, the name and two more bytes stay below `size`; the
/// first name that does not fit ends the list. Every name but the last of
/// the whole list is followed by the separator.
pub open spec fn join_names_from(names: Seq<Seq<u8>>, i: int, acc: Seq<u8>, size: int) -> Seq<u8>
    decreases names.len() - i,
{
    if i < 0 || i >= names.len() {
        acc
    } else if acc.len() + names[i].len() + 2 >= size {
        acc
    } else {
        join_names_from(
            names,
            i + 1,
            acc + names[i] + (if i < names.len() - 1 {
                seq![PORT_SEPARATOR]
            } else {
                Seq::<u8>::empty()
            }),
            size,
        )
    }
}

/// The NUL-terminated port list for an output buffer of `size` bytes:
/// `InvalidArgs` for an empty buffer, a lone NUL for no ports, otherwise
/// the joined names and a NUL, or `InvalidArgs` when the joined names hold
/// a NUL byte or do not fit.
pub open spec fn spec_join_port_names(names: Seq<Seq<u8>>, size: int) -> Result<Seq<u8>, ErrorCode> {
    if size == 0 {
        Err(ErrorCode::InvalidArgs)
    } else if names.len() == 0 {
        Ok(seq![0u8])
    } else {
        let joined = join_names_from(names, 0, Seq::<u8>::empty(), size);
        if joined.contains(0u8) || joined.len() + 1 > size {
            Err(ErrorCode::InvalidArgs)
        } else {
            Ok(joined.push(0u8))
        }
    }
}

/// The byte views of a list of names.
pub open spec fn names_view(names: Seq<Vec<u8>>) -> Seq<Seq<u8>> {
    names.map_values(|n: Vec<u8>| n@)
}

/// Builds the NUL-terminated, `;`-separated list of port names that fits an
/// output buffer of `buffer_size` bytes.
pub fn join_port_names(names: &Vec<Vec<u8>>, buffer_size: usize) -> (r: Result<Vec<u8>, ErrorCode>)
    requires
        forall|i: int| 0 <= i < names@.len() ==> #[trigger] names@[i]@.len() + buffer_size + 2
            <= usize::MAX,
    ensures
        match r {
            Ok(v) => spec_join_port_names(names_view(names@), buffer_size as int) == Ok::<
                Seq<u8>,
                ErrorCode,
            >(v@),
            Err(e) => spec_join_port_names(names_view(names@), buffer_size as int) == Err::<
                Seq<u8>,
                ErrorCode,
            >(e),
        },
{
    if buffer_size == 0 {
        return Err(ErrorCode::InvalidArgs);
    }
    let count = names.len();
    if count == 0 {
        let mut empty: Vec<u8> = Vec::new();
        empty.push(0u8);
        return Ok(empty);
    }
    let ghost nv = names_view(names@);
    assert(nv.len() == count);
    let mut result: Vec<u8> = Vec::new();
    let mut i: usize = 0;
    let mut full = false;
    while i < count && !full
        invariant
            count == names@.len(),
            nv == names_view(names@),
            nv.len() == count,
            i <= count,
            result@.len() < buffer_size,
            forall|k: int| 0 <= k < names@.len() ==> #[trigger] names@[k]@.len() + buffer_size + 2
                <= usize::MAX,
            join_names_from(nv, i as int, result@, buffer_size as int) == join_names_from(
                nv,
                0,
                Seq::<u8>::empty(),
                buffer_size as int,
            ),
            full ==> join_names_from(nv, i as int, result@, buffer_size as int) == result@,
        decreases count - i + (if full { 0int } else { 1int }),
    {
        let name = &names[i];
        assert(nv[i as int] == name@);
        let estimated_size = result.len() + name.len() + 2;
        if estimated_size >= buffer_size {
            full = true;
        } else {
            let mut k: usize = 0;
            let ghost before = result@;
            while k < name.len()
                invariant
                    k <= name@.len(),
                    result@ == before + name@.subrange(0, k as int),
                decreases name@.len() - k,
            {
                result.push(name[k]);
                k += 1;
            }
            assert(name@.subrange(0, name@.len() as int) == name@);
            if i < count - 1 {
                result.push(PORT_SEPARATOR);
            }
            assert(result@ =~= before + nv[i as int] + (if i < nv.len() - 1 {
                seq![PORT_SEPARATOR]
            } else {
                Seq::<u8>::empty()
            }));
            assert(join_names_from(nv, i as int, before, buffer_size as int) == join_names_from(
                nv,
                i + 1,
                result@,
                buffer_size as int,
            ));
            i += 1;
        }
    }
    let ghost joined = join_names_from(nv, 0, Seq::<u8>::empty(), buffer_size as int);
    assert(result@ == joined);
    let mut j: usize = 0;
    while j < result.len()
        invariant
            j <= result@.len(),
            forall|k: int| 0 <= k < j ==> result@[k] != 0u8,
            result@ == joined,
            nv == names_view(names@),
            nv.len() == count,
            count > 0,
            buffer_size > 0,
            joined == join_names_from(nv, 0, Seq::<u8>::empty(), buffer_size as int),
        decreases result@.len() - j,
    {
        if result[j] == 0u8 {
            assert(result@.contains(0u8));
            return Err(ErrorCode::InvalidArgs);
        }
        j += 1;
    }
    if result.len() + 1 > buffer_size {
        return Err(ErrorCode::InvalidArgs);
    }
    result.push(0u8);
    Ok(result)
}

/// A port list that is produced fits the output buffer and is a string
/// with exactly one NUL byte, at its end.
pub proof fn lemma_port_list_terminated(names: Seq<Seq<u8>>, size: int)
    requires
        0 <= size,
    ensures
        spec_join_port_names(names, size) matches Ok(v) ==> {
            &&& 1 <= v.len() <= size
            &&& v.last() == 0u8
            &&& forall|k: int| 0 <= k < v.len() - 1 ==> v[k] != 0u8
        },
        size == 0 ==> spec_join_port_names(names, size) == Err::<Seq<u8>, ErrorCode>(
            ErrorCode::InvalidArgs,
        ),
{
    if let Ok(v) = spec_join_port_names(names, size) {
        if names.len() > 0 {
            let joined = join_names_from(names, 0, Seq::<u8>::empty(), size);
            assert forall|k: int| 0 <= k < v.len() - 1 implies v[k] != 0u8 by {
                assert(v[k] == joined[k]);
                if joined[k] == 0u8 {
                    assert(joined.contains(0u8));
                }
            }
        }
    }
}

} // verus!
