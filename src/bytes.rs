use vstd::prelude::*;
use crate::error::FormatError;

verus! {

/// Little-endian value of two bytes.
pub open spec fn le_u16(s: Seq<u8>) -> int {
    s[0] as int + 0x100 * s[1] as int
}

/// Little-endian value of four bytes.
pub open spec fn le_u32(s: Seq<u8>) -> int {
    le_u16(s) + 0x10000 * s[2] as int + 0x1000000 * s[3] as int
}

/// Little-endian value of eight bytes.
pub open spec fn le_u64(s: Seq<u8>) -> int {
    le_u32(s) + 0x100000000 * s[4] as int + 0x10000000000 * s[5] as int
        + 0x1000000000000 * s[6] as int + 0x100000000000000 * s[7] as int
}

/// The `n` bytes at `pos`, or `Truncated` when the buffer ends before them.
pub fn read_bytes(data: &[u8], pos: usize, n: usize) -> (r: Result<Vec<u8>, FormatError>)
    ensures
        pos + n <= data@.len() ==> (r matches Ok(v) && v@ == data@.subrange(pos as int, pos + n)),
        pos + n > data@.len() ==> r == Err::<Vec<u8>, FormatError>(FormatError::Truncated),
{
    if pos > data.len() || n > data.len() - pos {
        return Err(FormatError::Truncated);
    }
    let mut v: Vec<u8> = Vec::with_capacity(n);
    let end: usize = pos + n;
    let mut i: usize = pos;
    while i < end
        invariant
            pos <= i <= end,
            end == pos + n <= data@.len(),
            v@ == data@.subrange(pos as int, i as int),
        decreases end - i,
    {
        v.push(data[i]);
        i = i + 1;
        assert(v@ =~= data@.subrange(pos as int, i as int));
    }
    Ok(v)
}

/// The byte at `pos`.
pub fn read_u8(data: &[u8], pos: usize) -> (r: Result<u8, FormatError>)
    ensures
        pos < data@.len() ==> r == Ok::<u8, FormatError>(data@[pos as int]),
        pos >= data@.len() ==> r == Err::<u8, FormatError>(FormatError::Truncated),
{
    if pos < data.len() {
        Ok(data[pos])
    } else {
        Err(FormatError::Truncated)
    }
}

/// The little-endian `u16` at `pos`.
pub fn read_u16_le(data: &[u8], pos: usize) -> (r: Result<u16, FormatError>)
    ensures
        pos + 2 <= data@.len() ==> (r matches Ok(x) && x as int == le_u16(
            data@.subrange(pos as int, pos + 2),
        )),
        pos + 2 > data@.len() ==> r == Err::<u16, FormatError>(FormatError::Truncated),
{
    if pos > data.len() || 2 > data.len() - pos {
        return Err(FormatError::Truncated);
    }
    Ok((data[pos] as u16) + 0x100 * (data[pos + 1] as u16))
}

/// The little-endian `u32` held by a four-byte slice.
pub fn u32_from_le(s: &[u8]) -> (r: u32)
    requires
        s@.len() == 4,
    ensures
        r as int == le_u32(s@),
{
    (s[0] as u32) + 0x100 * (s[1] as u32) + 0x10000 * (s[2] as u32) + 0x1000000 * (s[3] as u32)
}

/// The little-endian `u64` held by an eight-byte slice.
pub fn u64_from_le(s: &[u8]) -> (r: u64)
    requires
        s@.len() == 8,
    ensures
        r as int == le_u64(s@),
{
    (s[0] as u64) + 0x100 * (s[1] as u64) + 0x10000 * (s[2] as u64) + 0x1000000 * (s[3] as u64)
        + 0x100000000 * (s[4] as u64) + 0x10000000000 * (s[5] as u64) + 0x1000000000000 * (
    s[6] as u64) + 0x100000000000000 * (s[7] as u64)
}

} // verus!
