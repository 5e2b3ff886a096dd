use vstd::prelude::*;
use crate::error::Error;
use crate::source::Source;

verus! {

/// The byte order the container's fixed-layout records were written with.
#[derive(Clone, Copy, Debug, PartialEq, Eq, Structural)]
pub enum Endian {
    Little,
    Big,
}

/// The 16-bit word spelled by the two bytes at `off` under byte order `e`.
pub open spec fn word16(s: Seq<u8>, off: int, e: Endian) -> u16 {
    match e {
        Endian::Little => (s[off] + 0x100 * s[off + 1]) as u16,
        Endian::Big => (s[off + 1] + 0x100 * s[off]) as u16,
    }
}

/// The 32-bit word spelled by the four bytes at `off` under byte order `e`.
pub open spec fn word32(s: Seq<u8>, off: int, e: Endian) -> u32 {
    match e {
        Endian::Little => (s[off] + 0x100 * s[off + 1] + 0x1_0000 * s[off + 2] + 0x100_0000 * s[off
            + 3]) as u32,
        Endian::Big => (s[off + 3] + 0x100 * s[off + 2] + 0x1_0000 * s[off + 1] + 0x100_0000
            * s[off]) as u32,
    }
}

/// The 64-bit word spelled by the eight bytes at `off` under byte order `e`:
/// two 32-bit halves, the less significant one first under little endian.
pub open spec fn word64(s: Seq<u8>, off: int, e: Endian) -> u64 {
    match e {
        Endian::Little => (word32(s, off, e) + 0x1_0000_0000 * word32(s, off + 4, e)) as u64,
        Endian::Big => (word32(s, off + 4, e) + 0x1_0000_0000 * word32(s, off, e)) as u64,
    }
}

/// Decode the 16-bit field at `offset`; insufficient bytes are an error.
pub fn read_u16(source: &Source, offset: usize, endian: Endian) -> (r: Result<u16, Error>)
    ensures
        offset + 2 <= source@.len() ==> r == Ok::<u16, Error>(
            word16(source@, offset as int, endian),
        ),
        offset + 2 > source@.len() ==> r == Err::<u16, Error>(Error::OutOfBounds),
{
    let n = source.len();
    if offset < n && n - offset >= 2 {
        let b0 = source.byte_at(offset);
        let b1 = source.byte_at(offset + 1);
        match endian {
            Endian::Little => Ok(b0 as u16 + 0x100 * (b1 as u16)),
            Endian::Big => Ok(b1 as u16 + 0x100 * (b0 as u16)),
        }
    } else {
        Err(Error::OutOfBounds)
    }
}

/// Decode the 32-bit field at `offset`; insufficient bytes are an error.
pub fn read_u32(source: &Source, offset: usize, endian: Endian) -> (r: Result<u32, Error>)
    ensures
        offset + 4 <= source@.len() ==> r == Ok::<u32, Error>(
            word32(source@, offset as int, endian),
        ),
        offset + 4 > source@.len() ==> r == Err::<u32, Error>(Error::OutOfBounds),
{
    let n = source.len();
    if offset < n && n - offset >= 4 {
        let b0 = source.byte_at(offset) as u32;
        let b1 = source.byte_at(offset + 1) as u32;
        let b2 = source.byte_at(offset + 2) as u32;
        let b3 = source.byte_at(offset + 3) as u32;
        match endian {
            Endian::Little => Ok(b0 + 0x100 * b1 + 0x1_0000 * b2 + 0x100_0000 * b3),
            Endian::Big => Ok(b3 + 0x100 * b2 + 0x1_0000 * b1 + 0x100_0000 * b0),
        }
    } else {
        Err(Error::OutOfBounds)
    }
}

/// Decode the 64-bit field at `offset`; insufficient bytes are an error.
pub fn read_u64(source: &Source, offset: usize, endian: Endian) -> (r: Result<u64, Error>)
    ensures
        offset + 8 <= source@.len() ==> r == Ok::<u64, Error>(
            word64(source@, offset as int, endian),
        ),
        offset + 8 > source@.len() ==> r == Err::<u64, Error>(Error::OutOfBounds),
{
    let n = source.len();
    if offset < n && n - offset >= 8 {
        let lo = match read_u32(source, offset, endian) {
            Ok(w) => w,
            Err(e) => { return Err(e) },
        };
        let hi = match read_u32(source, offset + 4, endian) {
            Ok(w) => w,
            Err(e) => { return Err(e) },
        };
        match endian {
            Endian::Little => Ok(lo as u64 + 0x1_0000_0000 * (hi as u64)),
            Endian::Big => Ok(hi as u64 + 0x1_0000_0000 * (lo as u64)),
        }
    } else {
        Err(Error::OutOfBounds)
    }
}

} // verus!
