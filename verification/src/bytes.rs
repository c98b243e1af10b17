//! Little-endian primitives: what a multi-byte integer stored in a byte
//! sequence means, and verified functions that read one from a buffer.

use vstd::prelude::*;

use crate::errors::MsfError;

verus! {

/// The value of the two little-endian bytes of `d` starting at `off`.
pub open spec fn le16_at(d: Seq<u8>, off: int) -> u16 {
    (d[off] + 0x100 * d[off + 1]) as u16
}

/// The value of the four little-endian bytes of `d` starting at `off`.
pub open spec fn le32_at(d: Seq<u8>, off: int) -> u32 {
    (d[off] + 0x100 * d[off + 1] + 0x10000 * d[off + 2] + 0x1000000 * d[off + 3]) as u32
}

/// Whether `p` may stand in a page list: page 0 is reserved for the header
/// and pages past the maximum valid page number do not exist.
pub open spec fn page_ok(p: u32, max: u32) -> bool {
    1 <= p && p <= max
}

/// Reading `count` 32-bit page numbers from `d` starting at `off`, each
/// validated against `max` in order: the sequence of values read, or the
/// error at the first page number that is out of range, or `ParseError`
/// when the buffer ends first.
pub open spec fn read_pages32(d: Seq<u8>, off: int, count: nat, max: u32) -> Result<
    Seq<u32>,
    MsfError,
>
    decreases count,
{
    if count == 0 {
        Ok(Seq::empty())
    } else if off + 4 > d.len() {
        Err(MsfError::ParseError)
    } else {
        let p = le32_at(d, off);
        if !page_ok(p, max) {
            Err(MsfError::PageReferenceOutOfRange(p))
        } else {
            match read_pages32(d, off + 4, (count - 1) as nat, max) {
                Ok(rest) => Ok(seq![p] + rest),
                Err(e) => Err(e),
            }
        }
    }
}

/// As `read_pages32`, for 16-bit page numbers widened to 32 bits.
pub open spec fn read_pages16(d: Seq<u8>, off: int, count: nat, max: u32) -> Result<
    Seq<u32>,
    MsfError,
>
    decreases count,
{
    if count == 0 {
        Ok(Seq::empty())
    } else if off + 2 > d.len() {
        Err(MsfError::ParseError)
    } else {
        let p = le16_at(d, off) as u32;
        if !page_ok(p, max) {
            Err(MsfError::PageReferenceOutOfRange(p))
        } else {
            match read_pages16(d, off + 2, (count - 1) as nat, max) {
                Ok(rest) => Ok(seq![p] + rest),
                Err(e) => Err(e),
            }
        }
    }
}

/// Reads a 16-bit little-endian integer at `*pos`, advancing `*pos` past it.
pub fn parse_u16(d: &Vec<u8>, pos: &mut usize) -> (r: Result<u16, MsfError>)
    requires
        *old(pos) <= d@.len(),
    ensures
        match r {
            Ok(v) => {
                &&& *old(pos) + 2 <= d@.len()
                &&& *final(pos) == *old(pos) + 2
                &&& v == le16_at(d@, *old(pos) as int)
            },
            Err(e) => {
                &&& e == MsfError::ParseError
                &&& *old(pos) + 2 > d@.len()
                &&& *final(pos) == *old(pos)
            },
        },
{
    if d.len() - *pos >= 2 {
        let b0 = d[*pos];
        let b1 = d[*pos + 1];
        let v: u16 = b0 as u16 + 0x100 * (b1 as u16);
        *pos = *pos + 2;
        Ok(v)
    } else {
        Err(MsfError::ParseError)
    }
}

/// Reads a 32-bit little-endian integer at `*pos`, advancing `*pos` past it.
pub fn parse_u32(d: &Vec<u8>, pos: &mut usize) -> (r: Result<u32, MsfError>)
    requires
        *old(pos) <= d@.len(),
    ensures
        match r {
            Ok(v) => {
                &&& *old(pos) + 4 <= d@.len()
                &&& *final(pos) == *old(pos) + 4
                &&& v == le32_at(d@, *old(pos) as int)
            },
            Err(e) => {
                &&& e == MsfError::ParseError
                &&& *old(pos) + 4 > d@.len()
                &&& *final(pos) == *old(pos)
            },
        },
{
    if d.len() - *pos >= 4 {
        let b0 = d[*pos];
        let b1 = d[*pos + 1];
        let b2 = d[*pos + 2];
        let b3 = d[*pos + 3];
        let v: u32 = b0 as u32 + 0x100 * (b1 as u32) + 0x10000 * (b2 as u32) + 0x1000000 * (
        b3 as u32);
        *pos = *pos + 4;
        Ok(v)
    } else {
        Err(MsfError::ParseError)
    }
}

/// Advances `*pos` by `n` bytes, failing when the buffer is too short.
pub fn skip_bytes(d: &Vec<u8>, pos: &mut usize, n: u64) -> (r: Result<(), MsfError>)
    requires
        *old(pos) <= d@.len(),
    ensures
        match r {
            Ok(u) => {
                &&& *old(pos) + n <= d@.len()
                &&& *final(pos) == *old(pos) + n
            },
            Err(e) => {
                &&& e == MsfError::ParseError
                &&& *old(pos) + n > d@.len()
                &&& *final(pos) == *old(pos)
            },
        },
{
    if n <= (d.len() - *pos) as u64 {
        *pos = *pos + n as usize;
        Ok(())
    } else {
        Err(MsfError::ParseError)
    }
}

/// A successful read yields exactly `count` page numbers.
pub proof fn lemma_read_pages32_len(d: Seq<u8>, off: int, count: nat, max: u32)
    ensures
        read_pages32(d, off, count, max) matches Ok(pgs) ==> pgs.len() == count,
    decreases count,
{
    if count > 0 && off + 4 <= d.len() {
        let p = le32_at(d, off);
        if page_ok(p, max) {
            lemma_read_pages32_len(d, off + 4, (count - 1) as nat, max);
        }
    }
}

/// A successful read yields exactly `count` page numbers.
pub proof fn lemma_read_pages16_len(d: Seq<u8>, off: int, count: nat, max: u32)
    ensures
        read_pages16(d, off, count, max) matches Ok(pgs) ==> pgs.len() == count,
    decreases count,
{
    if count > 0 && off + 2 <= d.len() {
        let p = le16_at(d, off) as u32;
        if page_ok(p, max) {
            lemma_read_pages16_len(d, off + 2, (count - 1) as nat, max);
        }
    }
}

} // verus!
