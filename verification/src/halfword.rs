//! Word-scaled 16-bit fields and big-endian byte strings.
//!
//! Offsets and sizes are stored as counts of four-byte words in sixteen bits;
//! `0xFFFF` marks a field that is absent.

use crate::error::{outcome, Failure, LinkError};
use vstd::prelude::*;

verus! {

/// The field value that stands for "absent".
pub const ABSENT: u16 = 0xFFFF;

/// The word count that stands for `x` bytes, where there is one.
pub open spec fn shorten_spec(x: u64) -> Result<u16, Failure> {
    if x % 4 != 0 {
        Err(Failure::Misaligned(x))
    } else if x / 4 > 0xFFFF {
        Err(Failure::Overflow(x))
    } else {
        Ok((x / 4) as u16)
    }
}

/// The field for a value that may be absent.
pub open spec fn opt_shorten_spec(x: Option<u64>) -> Result<u16, Failure> {
    match x {
        Some(x) => shorten_spec(x),
        None => Ok(ABSENT),
    }
}

/// Widening of an optional 32-bit value, for use in specifications.
pub open spec fn widen(x: Option<u32>) -> Option<u64> {
    match x {
        Some(x) => Some(x as u64),
        None => None,
    }
}

/// The two bytes of `x`, most significant first.
pub open spec fn be16(x: u16) -> Seq<u8> {
    seq![(x / 0x100) as u8, (x % 0x100) as u8]
}

/// The four bytes of `x`, most significant first.
pub open spec fn be32(x: u32) -> Seq<u8> {
    seq![
        (x / 0x100_0000) as u8,
        ((x / 0x1_0000) % 0x100) as u8,
        ((x / 0x100) % 0x100) as u8,
        (x % 0x100) as u8,
    ]
}

/// The value that four bytes spell, most significant first.
pub open spec fn from_be32(b: Seq<u8>) -> u32
    recommends
        b.len() == 4,
{
    (b[0] as int * 0x100_0000 + b[1] as int * 0x1_0000 + b[2] as int * 0x100 + b[3] as int) as u32
}

/// The value that two bytes spell, most significant first.
pub open spec fn from_be16(b: Seq<u8>) -> u16
    recommends
        b.len() == 2,
{
    (b[0] as int * 0x100 + b[1] as int) as u16
}

/// Reading back what was written gives the value that was written.
pub proof fn lemma_be_round_trip(x: u32, y: u16)
    ensures
        be32(x).len() == 4,
        be16(y).len() == 2,
        from_be32(be32(x)) == x,
        from_be16(be16(y)) == y,
{
}

/// Reduces a byte count or address to a 16-bit count of four-byte words.
pub fn shorten(x: u32) -> (r: Result<u16, LinkError>)
    ensures
        outcome(r) == shorten_spec(x as u64),
{
    if x % 4 != 0 {
        Err(LinkError::Misaligned(x as u64))
    } else if x / 4 > 0xFFFF {
        Err(LinkError::Overflow(x as u64))
    } else {
        Ok((x / 4) as u16)
    }
}

/// Reduces a value that may be absent: `x / 4`, or `0xFFFF` for none.
pub fn opt_shorten(x: Option<u32>) -> (r: Result<u16, LinkError>)
    ensures
        outcome(r) == opt_shorten_spec(widen(x)),
{
    match x {
        Some(x) => shorten(x),
        None => Ok(ABSENT),
    }
}

/// Appends the two bytes of `x`, most significant first.
pub fn push_be16(v: &mut Vec<u8>, x: u16)
    ensures
        final(v)@ == old(v)@ + be16(x),
{
    v.push((x / 0x100) as u8);
    v.push((x % 0x100) as u8);
    assert(v@ =~= old(v)@ + be16(x));
}

/// Appends the four bytes of `x`, most significant first.
pub fn push_be32(v: &mut Vec<u8>, x: u32)
    ensures
        final(v)@ == old(v)@ + be32(x),
{
    v.push((x / 0x100_0000) as u8);
    v.push(((x / 0x1_0000) % 0x100) as u8);
    v.push(((x / 0x100) % 0x100) as u8);
    v.push((x % 0x100) as u8);
    assert(v@ =~= old(v)@ + be32(x));
}

/// A field that is present holds a word count whose byte value is the
/// four-byte-aligned input; only an absent input gives `0xFFFF` together
/// with nothing to point at.
pub proof fn lemma_halfword_is_aligned_offset(x: Option<u64>)
    ensures
        match opt_shorten_spec(x) {
            Ok(h) => match x {
                Some(v) => v % 4 == 0 && h as int * 4 == v,
                None => h == ABSENT,
            },
            Err(_) => x is Some,
        },
{
}

} // verus!
