//! Fixed-width little-endian integers, read from the front of a byte slice
//! and appended to a byte vector.

use vstd::prelude::*;
use vstd::slice::slice_subrange;

verus! {

/// The four bytes of `x`, least significant first.
pub open spec fn u32_le(x: u32) -> Seq<u8> {
    seq![
        (x & 0xff) as u8,
        ((x >> 8) & 0xff) as u8,
        ((x >> 16) & 0xff) as u8,
        ((x >> 24) & 0xff) as u8,
    ]
}

/// The integer whose little-endian bytes are the first four of `bytes`.
pub open spec fn u32_from_le(bytes: Seq<u8>) -> u32
    recommends
        bytes.len() >= 4,
{
    (bytes[0] as u32) | ((bytes[1] as u32) << 8) | ((bytes[2] as u32) << 16) | ((bytes[3] as u32)
        << 24)
}

/// The eight bytes of `x`, least significant first.
pub open spec fn u64_le(x: u64) -> Seq<u8> {
    seq![
        (x & 0xff) as u8,
        ((x >> 8) & 0xff) as u8,
        ((x >> 16) & 0xff) as u8,
        ((x >> 24) & 0xff) as u8,
        ((x >> 32) & 0xff) as u8,
        ((x >> 40) & 0xff) as u8,
        ((x >> 48) & 0xff) as u8,
        ((x >> 56) & 0xff) as u8,
    ]
}

/// The integer whose little-endian bytes are the first eight of `bytes`.
pub open spec fn u64_from_le(bytes: Seq<u8>) -> u64
    recommends
        bytes.len() >= 8,
{
    (bytes[0] as u64) | ((bytes[1] as u64) << 8) | ((bytes[2] as u64) << 16) | ((bytes[3] as u64)
        << 24) | ((bytes[4] as u64) << 32) | ((bytes[5] as u64) << 40) | ((bytes[6] as u64) << 48)
        | ((bytes[7] as u64) << 56)
}

/// One byte off the front of `bytes`, with what is left; `None` on empty input.
pub open spec fn take_u8(bytes: Seq<u8>) -> Option<(u8, Seq<u8>)> {
    if bytes.len() >= 1 {
        Some((bytes[0], bytes.skip(1)))
    } else {
        None
    }
}

/// A 32-bit integer off the front of `bytes`, with what is left; `None` when
/// fewer than four bytes are there.
pub open spec fn take_u32(bytes: Seq<u8>) -> Option<(u32, Seq<u8>)> {
    if bytes.len() >= 4 {
        Some((u32_from_le(bytes), bytes.skip(4)))
    } else {
        None
    }
}

/// A 64-bit integer off the front of `bytes`, with what is left; `None` when
/// fewer than eight bytes are there.
pub open spec fn take_u64(bytes: Seq<u8>) -> Option<(u64, Seq<u8>)> {
    if bytes.len() >= 8 {
        Some((u64_from_le(bytes), bytes.skip(8)))
    } else {
        None
    }
}

/// Reading back the bytes of a 32-bit integer gives that integer, whatever
/// follows them.
pub proof fn lemma_u32_le_round_trip(x: u32, tail: Seq<u8>)
    ensures
        u32_le(x).len() == 4,
        u32_from_le(u32_le(x) + tail) == x,
        take_u32(u32_le(x) + tail) == Some((x, tail)),
{
    let b = u32_le(x) + tail;
    assert(b[0] == (x & 0xff) as u8);
    assert(b[1] == ((x >> 8) & 0xff) as u8);
    assert(b[2] == ((x >> 16) & 0xff) as u8);
    assert(b[3] == ((x >> 24) & 0xff) as u8);
    assert(x == (((x & 0xff) as u8) as u32) | ((((x >> 8) & 0xff) as u8) as u32) << 8 | ((((x
        >> 16) & 0xff) as u8) as u32) << 16 | ((((x >> 24) & 0xff) as u8) as u32) << 24)
        by (bit_vector);
    assert(b.skip(4) =~= tail);
}

/// Writing out the integer that four bytes spell gives those four bytes.
pub proof fn lemma_u32_from_le_bytes(bytes: Seq<u8>)
    requires
        bytes.len() >= 4,
    ensures
        u32_le(u32_from_le(bytes)) == bytes.take(4),
{
    let b0 = bytes[0];
    let b1 = bytes[1];
    let b2 = bytes[2];
    let b3 = bytes[3];
    let x = (b0 as u32) | ((b1 as u32) << 8) | ((b2 as u32) << 16) | ((b3 as u32) << 24);
    assert((x & 0xff) as u8 == b0 && ((x >> 8) & 0xff) as u8 == b1 && ((x >> 16) & 0xff) as u8
        == b2 && ((x >> 24) & 0xff) as u8 == b3) by (bit_vector)
        requires
            x == (b0 as u32) | ((b1 as u32) << 8) | ((b2 as u32) << 16) | ((b3 as u32) << 24),
    ;
    assert(u32_le(x) =~= bytes.take(4));
}

/// Writing out the integer that eight bytes spell gives those eight bytes.
pub proof fn lemma_u64_from_le_bytes(bytes: Seq<u8>)
    requires
        bytes.len() >= 8,
    ensures
        u64_le(u64_from_le(bytes)) == bytes.take(8),
{
    let b0 = bytes[0];
    let b1 = bytes[1];
    let b2 = bytes[2];
    let b3 = bytes[3];
    let b4 = bytes[4];
    let b5 = bytes[5];
    let b6 = bytes[6];
    let b7 = bytes[7];
    let x = (b0 as u64) | ((b1 as u64) << 8) | ((b2 as u64) << 16) | ((b3 as u64) << 24) | ((
    b4 as u64) << 32) | ((b5 as u64) << 40) | ((b6 as u64) << 48) | ((b7 as u64) << 56);
    assert((x & 0xff) as u8 == b0 && ((x >> 8) & 0xff) as u8 == b1 && ((x >> 16) & 0xff) as u8
        == b2 && ((x >> 24) & 0xff) as u8 == b3 && ((x >> 32) & 0xff) as u8 == b4 && ((x >> 40)
        & 0xff) as u8 == b5 && ((x >> 48) & 0xff) as u8 == b6 && ((x >> 56) & 0xff) as u8 == b7)
        by (bit_vector)
        requires
            x == (b0 as u64) | ((b1 as u64) << 8) | ((b2 as u64) << 16) | ((b3 as u64) << 24) | ((
            b4 as u64) << 32) | ((b5 as u64) << 40) | ((b6 as u64) << 48) | ((b7 as u64) << 56),
    ;
    assert(u64_le(x) =~= bytes.take(8));
}

/// Reading back the bytes of a 64-bit integer gives that integer, whatever
/// follows them.
pub proof fn lemma_u64_le_round_trip(x: u64, tail: Seq<u8>)
    ensures
        u64_le(x).len() == 8,
        u64_from_le(u64_le(x) + tail) == x,
        take_u64(u64_le(x) + tail) == Some((x, tail)),
{
    let b = u64_le(x) + tail;
    assert(b[0] == (x & 0xff) as u8);
    assert(b[1] == ((x >> 8) & 0xff) as u8);
    assert(b[2] == ((x >> 16) & 0xff) as u8);
    assert(b[3] == ((x >> 24) & 0xff) as u8);
    assert(b[4] == ((x >> 32) & 0xff) as u8);
    assert(b[5] == ((x >> 40) & 0xff) as u8);
    assert(b[6] == ((x >> 48) & 0xff) as u8);
    assert(b[7] == ((x >> 56) & 0xff) as u8);
    assert(x == (((x & 0xff) as u8) as u64) | ((((x >> 8) & 0xff) as u8) as u64) << 8 | ((((x
        >> 16) & 0xff) as u8) as u64) << 16 | ((((x >> 24) & 0xff) as u8) as u64) << 24 | ((((x
        >> 32) & 0xff) as u8) as u64) << 32 | ((((x >> 40) & 0xff) as u8) as u64) << 40 | ((((x
        >> 48) & 0xff) as u8) as u64) << 48 | ((((x >> 56) & 0xff) as u8) as u64) << 56)
        by (bit_vector);
    assert(b.skip(8) =~= tail);
}

/// Takes one byte off the front of `reader`. A reader that is empty is left
/// as it was.
pub fn read_u8(reader: &mut &[u8]) -> (r: Option<u8>)
    ensures
        match take_u8(old(reader)@) {
            Some((x, rest)) => r == Some(x) && final(reader)@ == rest,
            None => r.is_none() && final(reader)@ == old(reader)@,
        },
{
    let bytes = *reader;
    if bytes.len() < 1 {
        return None;
    }
    let x = bytes[0];
    *reader = slice_subrange(bytes, 1, bytes.len());
    Some(x)
}

/// Takes a little-endian 32-bit integer off the front of `reader`. A reader
/// that holds fewer than four bytes is left as it was.
pub fn read_u32(reader: &mut &[u8]) -> (r: Option<u32>)
    ensures
        match take_u32(old(reader)@) {
            Some((x, rest)) => r == Some(x) && final(reader)@ == rest,
            None => r.is_none() && final(reader)@ == old(reader)@,
        },
{
    let bytes = *reader;
    if bytes.len() < 4 {
        return None;
    }
    let x = (bytes[0] as u32) | ((bytes[1] as u32) << 8) | ((bytes[2] as u32) << 16) | ((
    bytes[3] as u32) << 24);
    *reader = slice_subrange(bytes, 4, bytes.len());
    Some(x)
}

/// Takes a little-endian 64-bit integer off the front of `reader`. A reader
/// that holds fewer than eight bytes is left as it was.
pub fn read_u64(reader: &mut &[u8]) -> (r: Option<u64>)
    ensures
        match take_u64(old(reader)@) {
            Some((x, rest)) => r == Some(x) && final(reader)@ == rest,
            None => r.is_none() && final(reader)@ == old(reader)@,
        },
{
    let bytes = *reader;
    if bytes.len() < 8 {
        return None;
    }
    let x = (bytes[0] as u64) | ((bytes[1] as u64) << 8) | ((bytes[2] as u64) << 16) | ((
    bytes[3] as u64) << 24) | ((bytes[4] as u64) << 32) | ((bytes[5] as u64) << 40) | ((
    bytes[6] as u64) << 48) | ((bytes[7] as u64) << 56);
    *reader = slice_subrange(bytes, 8, bytes.len());
    Some(x)
}

/// Appends the four little-endian bytes of `x` to `writer`.
pub fn write_u32(writer: &mut Vec<u8>, x: u32)
    ensures
        final(writer)@ == old(writer)@ + u32_le(x),
{
    writer.push((x & 0xff) as u8);
    writer.push(((x >> 8) & 0xff) as u8);
    writer.push(((x >> 16) & 0xff) as u8);
    writer.push(((x >> 24) & 0xff) as u8);
    assert(writer@ =~= old(writer)@ + u32_le(x));
}

/// Appends the eight little-endian bytes of `x` to `writer`.
pub fn write_u64(writer: &mut Vec<u8>, x: u64)
    ensures
        final(writer)@ == old(writer)@ + u64_le(x),
{
    writer.push((x & 0xff) as u8);
    writer.push(((x >> 8) & 0xff) as u8);
    writer.push(((x >> 16) & 0xff) as u8);
    writer.push(((x >> 24) & 0xff) as u8);
    writer.push(((x >> 32) & 0xff) as u8);
    writer.push(((x >> 40) & 0xff) as u8);
    writer.push(((x >> 48) & 0xff) as u8);
    writer.push(((x >> 56) & 0xff) as u8);
    assert(writer@ =~= old(writer)@ + u64_le(x));
}

} // verus!
