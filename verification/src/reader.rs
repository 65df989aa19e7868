//! Primitive reader: fixed-size and little-endian integer fields consumed
//! from the front of an immutable byte buffer by an advancing cursor.
//!
//! Each reader consumes exactly the declared width and fails with an
//! insufficient-data error, tagged with the caller's field label, whenever
//! fewer bytes remain.  No reader ever looks past the end of the buffer.

use vstd::prelude::*;

use crate::error::{DecodeError, DecodeErrorKind};

verus! {

/// Outcome of one step of the specification-level decoder: either a value
/// (usually including the new cursor position) or a failure with its kind and
/// the label of the field being read.
pub ghost enum SpecOut<T> {
    Val(T),
    Fail { kind: DecodeErrorKind, field: Seq<char> },
}

/// The little-endian 16-bit integer at offset `i`.
pub open spec fn le16_at(s: Seq<u8>, i: int) -> u16
    recommends
        0 <= i,
        i + 2 <= s.len(),
{
    (s[i] + s[i + 1] * 0x100) as u16
}

/// The little-endian 32-bit integer at offset `i`.
pub open spec fn le32_at(s: Seq<u8>, i: int) -> u32
    recommends
        0 <= i,
        i + 4 <= s.len(),
{
    (s[i] + s[i + 1] * 0x100 + s[i + 2] * 0x1_0000 + s[i + 3] * 0x100_0000) as u32
}

/// The little-endian 64-bit pattern at offset `i` (the bits of an on-disk
/// IEEE 754 double).
pub open spec fn le64_at(s: Seq<u8>, i: int) -> u64
    recommends
        0 <= i,
        i + 8 <= s.len(),
{
    (s[i] + s[i + 1] * 0x100 + s[i + 2] * 0x1_0000 + s[i + 3] * 0x100_0000
        + s[i + 4] * 0x1_0000_0000 + s[i + 5] * 0x100_0000_0000
        + s[i + 6] * 0x1_0000_0000_0000 + s[i + 7] * 0x100_0000_0000_0000) as u64
}

/// An insufficient-data failure for the field named by `label`.
pub open spec fn spec_missing<T>(label: Seq<char>) -> SpecOut<T> {
    SpecOut::Fail { kind: DecodeErrorKind::InsufficientData, field: label }
}

fn insufficient(field: &'static str) -> (r: DecodeError)
    ensures
        r.kind == DecodeErrorKind::InsufficientData,
        r.field@ == field@,
        r.version == 0,
{
    DecodeError {
        kind: DecodeErrorKind::InsufficientData,
        field: String::from_str(field),
        version: 0,
    }
}

/// Read a little-endian 16-bit field at `pos`, returning the value and the
/// advanced cursor.
pub fn read_u16(buf: &[u8], pos: usize, field: &'static str) -> (r: Result<
    (u16, usize),
    DecodeError,
>)
    ensures
        pos + 2 <= buf@.len() ==> (r matches Ok(v) && v.0 == le16_at(buf@, pos as int) && v.1 == pos
            + 2),
        pos + 2 > buf@.len() ==> (r matches Err(e) && e.kind == DecodeErrorKind::InsufficientData
            && e.field@ == field@ && e.version == 0),
{
    if buf.len() < 2 || pos > buf.len() - 2 {
        return Err(insufficient(field));
    }
    let b0: u16 = buf[pos] as u16;
    let b1: u16 = buf[pos + 1] as u16;
    Ok((b0 + b1 * 0x100, pos + 2))
}

/// Read a little-endian 32-bit field at `pos`.
pub fn read_u32(buf: &[u8], pos: usize, field: &'static str) -> (r: Result<
    (u32, usize),
    DecodeError,
>)
    ensures
        pos + 4 <= buf@.len() ==> (r matches Ok(v) && v.0 == le32_at(buf@, pos as int) && v.1 == pos
            + 4),
        pos + 4 > buf@.len() ==> (r matches Err(e) && e.kind == DecodeErrorKind::InsufficientData
            && e.field@ == field@ && e.version == 0),
{
    if buf.len() < 4 || pos > buf.len() - 4 {
        return Err(insufficient(field));
    }
    let b0: u32 = buf[pos] as u32;
    let b1: u32 = buf[pos + 1] as u32;
    let b2: u32 = buf[pos + 2] as u32;
    let b3: u32 = buf[pos + 3] as u32;
    Ok((b0 + b1 * 0x100 + b2 * 0x1_0000 + b3 * 0x100_0000, pos + 4))
}

/// Read the eight bytes of an on-disk double at `pos` as its raw little-endian
/// bit pattern.
pub fn read_double_bits(buf: &[u8], pos: usize, field: &'static str) -> (r: Result<
    (u64, usize),
    DecodeError,
>)
    ensures
        pos + 8 <= buf@.len() ==> (r matches Ok(v) && v.0 == le64_at(buf@, pos as int) && v.1 == pos
            + 8),
        pos + 8 > buf@.len() ==> (r matches Err(e) && e.kind == DecodeErrorKind::InsufficientData
            && e.field@ == field@ && e.version == 0),
{
    if buf.len() < 8 || pos > buf.len() - 8 {
        return Err(insufficient(field));
    }
    let b0: u64 = buf[pos] as u64;
    let b1: u64 = buf[pos + 1] as u64;
    let b2: u64 = buf[pos + 2] as u64;
    let b3: u64 = buf[pos + 3] as u64;
    let b4: u64 = buf[pos + 4] as u64;
    let b5: u64 = buf[pos + 5] as u64;
    let b6: u64 = buf[pos + 6] as u64;
    let b7: u64 = buf[pos + 7] as u64;
    Ok((
        b0 + b1 * 0x100 + b2 * 0x1_0000 + b3 * 0x100_0000 + b4 * 0x1_0000_0000 + b5
            * 0x100_0000_0000 + b6 * 0x1_0000_0000_0000 + b7 * 0x100_0000_0000_0000,
        pos + 8,
    ))
}

/// Advance the cursor past `n` bytes without copying them.
pub fn skip_bytes(buf: &[u8], pos: usize, n: usize, field: &'static str) -> (r: Result<
    usize,
    DecodeError,
>)
    ensures
        pos + n <= buf@.len() ==> (r matches Ok(p) && p == pos + n),
        pos + n > buf@.len() ==> (r matches Err(e) && e.kind == DecodeErrorKind::InsufficientData
            && e.field@ == field@ && e.version == 0),
{
    if n > buf.len() || pos > buf.len() - n {
        return Err(insufficient(field));
    }
    Ok(pos + n)
}

/// Copy the `n` bytes at `pos` out of the buffer and advance the cursor.
pub fn take_bytes(buf: &[u8], pos: usize, n: usize, field: &'static str) -> (r: Result<
    (Vec<u8>, usize),
    DecodeError,
>)
    ensures
        pos + n <= buf@.len() ==> (r matches Ok(v) && v.0@ == buf@.subrange(
            pos as int,
            pos + n,
        ) && v.1 == pos + n),
        pos + n > buf@.len() ==> (r matches Err(e) && e.kind == DecodeErrorKind::InsufficientData
            && e.field@ == field@ && e.version == 0),
{
    if n > buf.len() || pos > buf.len() - n {
        return Err(insufficient(field));
    }
    let end: usize = pos + n;
    let mut out: Vec<u8> = Vec::new();
    let mut q: usize = pos;
    while q < end
        invariant
            pos <= q <= end,
            end == pos + n,
            end <= buf@.len(),
            out@ =~= buf@.subrange(pos as int, q as int),
        decreases end - q,
    {
        out.push(buf[q]);
        q = q + 1;
        proof {
            assert(out@ =~= buf@.subrange(pos as int, q as int));
        }
    }
    Ok((out, end))
}

} // verus!
