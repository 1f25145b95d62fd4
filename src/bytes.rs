//! A read-only cursor over a byte buffer: fixed-width integer fields in
//! either byte order, and raw byte runs.
use vstd::prelude::*;

use crate::error::ParseError;

verus! {

/// The outcome of an executable decoder, seen through the views of its value:
/// the decoded value and the position just past it, or the error.
pub open spec fn outcome<T: View>(r: Result<(T, usize), ParseError>) -> Result<(T::V, int), ParseError> {
    match r {
        Ok((v, p)) => Ok((v@, p as int)),
        Err(e) => Err(e),
    }
}

/// `n` bytes starting at `pos` lie inside `s`.
pub open spec fn fits(s: Seq<u8>, pos: int, n: int) -> bool {
    0 <= pos && 0 <= n && pos + n <= s.len()
}

pub open spec fn be16(s: Seq<u8>, i: int) -> int {
    s[i] * 0x100 + s[i + 1]
}

pub open spec fn be24(s: Seq<u8>, i: int) -> int {
    s[i] * 0x1_0000 + s[i + 1] * 0x100 + s[i + 2]
}

pub open spec fn be32(s: Seq<u8>, i: int) -> int {
    s[i] * 0x100_0000 + s[i + 1] * 0x1_0000 + s[i + 2] * 0x100 + s[i + 3]
}

pub open spec fn le32(s: Seq<u8>, i: int) -> int {
    s[i] + s[i + 1] * 0x100 + s[i + 2] * 0x1_0000 + s[i + 3] * 0x100_0000
}

pub open spec fn be64(s: Seq<u8>, i: int) -> int {
    be32(s, i) * 0x1_0000_0000 + be32(s, i + 4)
}

pub open spec fn be128(s: Seq<u8>, i: int) -> int {
    be64(s, i) * 0x1_0000_0000_0000_0000 + be64(s, i + 8)
}

/// A fixed-width field of `n` bytes at `pos`, with `value` its integer.
pub open spec fn field<T>(s: Seq<u8>, pos: int, n: int, value: T) -> Result<(T, int), ParseError> {
    if fits(s, pos, n) {
        Ok((value, pos + n))
    } else {
        Err(ParseError::UnexpectedEnd)
    }
}

pub open spec fn sp_u8(s: Seq<u8>, pos: int) -> Result<(u8, int), ParseError> {
    field(s, pos, 1, s[pos])
}

pub open spec fn sp_u16_be(s: Seq<u8>, pos: int) -> Result<(u16, int), ParseError> {
    field(s, pos, 2, be16(s, pos) as u16)
}

pub open spec fn sp_u24_be(s: Seq<u8>, pos: int) -> Result<(u32, int), ParseError> {
    field(s, pos, 3, be24(s, pos) as u32)
}

pub open spec fn sp_u32(s: Seq<u8>, pos: int, little: bool) -> Result<(u32, int), ParseError> {
    field(s, pos, 4, if little { le32(s, pos) as u32 } else { be32(s, pos) as u32 })
}

pub open spec fn sp_u64_be(s: Seq<u8>, pos: int) -> Result<(u64, int), ParseError> {
    field(s, pos, 8, be64(s, pos) as u64)
}

pub open spec fn sp_u128_be(s: Seq<u8>, pos: int) -> Result<(u128, int), ParseError> {
    field(s, pos, 16, be128(s, pos) as u128)
}

/// The `n` bytes at `pos`, taken as they are.
pub open spec fn sp_bytes(s: Seq<u8>, pos: int, n: int) -> Result<(Seq<u8>, int), ParseError> {
    field(s, pos, n, s.subrange(pos, pos + n))
}

/// Checks that `n` bytes are left at `pos`.
fn check_room(data: &[u8], pos: usize, n: usize) -> (r: bool)
    ensures
        r == fits(data@, pos as int, n as int),
{
    pos <= data.len() && n <= data.len() - pos
}

pub fn read_u8(data: &[u8], pos: usize) -> (r: Result<(u8, usize), ParseError>)
    ensures
        outcome(r) == sp_u8(data@, pos as int),
{
    if !check_room(data, pos, 1) {
        return Err(ParseError::UnexpectedEnd);
    }
    Ok((data[pos], pos + 1))
}

pub fn read_u16_be(data: &[u8], pos: usize) -> (r: Result<(u16, usize), ParseError>)
    ensures
        outcome(r) == sp_u16_be(data@, pos as int),
{
    if !check_room(data, pos, 2) {
        return Err(ParseError::UnexpectedEnd);
    }
    let v = (data[pos] as u16) * 0x100 + data[pos + 1] as u16;
    Ok((v, pos + 2))
}

pub fn read_u24_be(data: &[u8], pos: usize) -> (r: Result<(u32, usize), ParseError>)
    ensures
        outcome(r) == sp_u24_be(data@, pos as int),
{
    if !check_room(data, pos, 3) {
        return Err(ParseError::UnexpectedEnd);
    }
    let v = (data[pos] as u32) * 0x1_0000 + (data[pos + 1] as u32) * 0x100 + data[pos + 2] as u32;
    Ok((v, pos + 3))
}

/// A 32-bit field, little-endian when `little` holds and big-endian otherwise.
pub fn read_u32(data: &[u8], pos: usize, little: bool) -> (r: Result<(u32, usize), ParseError>)
    ensures
        outcome(r) == sp_u32(data@, pos as int, little),
{
    if !check_room(data, pos, 4) {
        return Err(ParseError::UnexpectedEnd);
    }
    let b0 = data[pos] as u32;
    let b1 = data[pos + 1] as u32;
    let b2 = data[pos + 2] as u32;
    let b3 = data[pos + 3] as u32;
    let v = if little {
        b0 + b1 * 0x100 + b2 * 0x1_0000 + b3 * 0x100_0000
    } else {
        b0 * 0x100_0000 + b1 * 0x1_0000 + b2 * 0x100 + b3
    };
    Ok((v, pos + 4))
}

pub fn read_u64_be(data: &[u8], pos: usize) -> (r: Result<(u64, usize), ParseError>)
    ensures
        outcome(r) == sp_u64_be(data@, pos as int),
{
    if !check_room(data, pos, 8) {
        return Err(ParseError::UnexpectedEnd);
    }
    let (hi, p) = match read_u32(data, pos, false) {
        Ok(x) => x,
        Err(e) => return Err(e),
    };
    let (lo, p) = match read_u32(data, p, false) {
        Ok(x) => x,
        Err(e) => return Err(e),
    };
    Ok(((hi as u64) * 0x1_0000_0000 + lo as u64, p))
}

pub fn read_u128_be(data: &[u8], pos: usize) -> (r: Result<(u128, usize), ParseError>)
    ensures
        outcome(r) == sp_u128_be(data@, pos as int),
{
    if !check_room(data, pos, 16) {
        return Err(ParseError::UnexpectedEnd);
    }
    let (hi, p) = match read_u64_be(data, pos) {
        Ok(x) => x,
        Err(e) => return Err(e),
    };
    let (lo, p) = match read_u64_be(data, p) {
        Ok(x) => x,
        Err(e) => return Err(e),
    };
    Ok(((hi as u128) * 0x1_0000_0000_0000_0000 + lo as u128, p))
}

/// Copies the `n` bytes at `pos` out of the buffer.
pub fn read_bytes(data: &[u8], pos: usize, n: usize) -> (r: Result<(Vec<u8>, usize), ParseError>)
    ensures
        outcome(r) == sp_bytes(data@, pos as int, n as int),
{
    if !check_room(data, pos, n) {
        return Err(ParseError::UnexpectedEnd);
    }
    let mut out: Vec<u8> = Vec::with_capacity(n);
    let mut i: usize = 0;
    while i < n
        invariant
            i <= n,
            pos + n <= data.len(),
            out@ == data@.subrange(pos as int, pos + i),
        decreases n - i,
    {
        out.push(data[pos + i]);
        i = i + 1;
        assert(out@ =~= data@.subrange(pos as int, pos + i));
    }
    Ok((out, pos + n))
}

} // verus!
