//! The descriptor table: twelve bytes for each file, then a terminator.

use crate::buffer::zeros;
use crate::error::{changed_to, Failure, LinkError};
use crate::halfword::{
    be16, be32, from_be16, from_be32, lemma_be_round_trip, opt_shorten, opt_shorten_spec,
    push_be16, push_be32, shorten, shorten_spec, widen, ABSENT,
};
use vstd::prelude::*;

verus! {

/// The number of bytes of one table entry, and of the terminator.
pub const ENTRY_LEN: usize = 12;

/// The bit of an entry's first word that marks a compressed file.
pub const COMPRESSED_FLAG: u32 = 0x8000_0000;

/// Where one file lies in the payload and how it is to be loaded.
#[derive(Debug, Copy, Clone, PartialEq, Eq)]
pub struct FileInfo {
    /// Where the file's bytes start in the payload.
    pub offset: u32,
    /// The length of the file once decompressed and padded.
    pub size: u32,
    /// The length of the file as stored, padded.
    pub rom_size: u32,
    /// Whether the stored bytes are compressed.
    pub compressed: bool,
    /// The site of the first internal relocation, within the decompressed file.
    pub inreloc: Option<u32>,
    /// The site of the first external relocation, within the decompressed file.
    pub exreloc: Option<u32>,
}

/// The first word of an entry: the offset, with the top bit set for a
/// compressed file.
pub open spec fn offset_with_flag(offset: u32, compressed: bool) -> u32 {
    if compressed {
        offset | COMPRESSED_FLAG
    } else {
        offset
    }
}

/// The twelve bytes that describe one file: the flagged offset, then the
/// word counts of the first internal relocation, the stored size, the first
/// external relocation and the size. The fields are reduced in the order
/// size, stored size, internal, external, and the first that cannot be
/// reduced decides the failure.
pub open spec fn table_entry(info: FileInfo) -> Result<Seq<u8>, Failure> {
    match shorten_spec(info.size as u64) {
        Err(e) => Err(e),
        Ok(size) => match shorten_spec(info.rom_size as u64) {
            Err(e) => Err(e),
            Ok(rom_size) => match opt_shorten_spec(widen(info.inreloc)) {
                Err(e) => Err(e),
                Ok(inreloc) => match opt_shorten_spec(widen(info.exreloc)) {
                    Err(e) => Err(e),
                    Ok(exreloc) => Ok(
                        be32(offset_with_flag(info.offset, info.compressed)) + be16(inreloc)
                            + be16(rom_size) + be16(exreloc) + be16(size),
                    ),
                },
            },
        },
    }
}

/// The entry that closes the table: the length of the payload, then eight
/// zero bytes.
pub open spec fn terminator(end: nat) -> Result<Seq<u8>, Failure> {
    if end > u32::MAX {
        Err(Failure::Overflow(end as u64))
    } else {
        Ok(be32(end as u32) + zeros(8))
    }
}

/// The offset that an entry's first word holds, without the flag.
pub open spec fn entry_offset(entry: Seq<u8>) -> u32 {
    from_be32(entry.subrange(0, 4)) & 0x7FFF_FFFFu32
}

/// Whether an entry's first word carries the flag for a compressed file.
pub open spec fn entry_compressed(entry: Seq<u8>) -> bool {
    from_be32(entry.subrange(0, 4)) & COMPRESSED_FLAG != 0
}

/// The 16-bit field of an entry that starts at byte `at`.
pub open spec fn entry_field(entry: Seq<u8>, at: int) -> u16 {
    from_be16(entry.subrange(at, at + 2))
}

/// What a field holds for a value that may be absent: `0xFFFF` for none, and
/// else the count of words of a value that is a multiple of four.
pub open spec fn field_holds(field: u16, value: Option<u32>) -> bool {
    match value {
        Some(v) => v % 4 == 0 && field as int * 4 == v,
        None => field == ABSENT,
    }
}

/// An entry is twelve bytes, and each of its four 16-bit fields is either
/// `0xFFFF` for a relocation start that is absent, or the word count of the
/// four-byte-aligned value it was made from.
pub proof fn lemma_entry_fields(info: FileInfo)
    requires
        table_entry(info) is Ok,
    ensures
        ({
            let e = table_entry(info)->Ok_0;
            &&& e.len() == ENTRY_LEN
            &&& from_be32(e.subrange(0, 4)) == offset_with_flag(info.offset, info.compressed)
            &&& field_holds(entry_field(e, 4), info.inreloc)
            &&& field_holds(entry_field(e, 6), Some(info.rom_size))
            &&& field_holds(entry_field(e, 8), info.exreloc)
            &&& field_holds(entry_field(e, 10), Some(info.size))
        }),
{
    let e = table_entry(info)->Ok_0;
    let size = shorten_spec(info.size as u64)->Ok_0;
    let rom_size = shorten_spec(info.rom_size as u64)->Ok_0;
    let inreloc = opt_shorten_spec(widen(info.inreloc))->Ok_0;
    let exreloc = opt_shorten_spec(widen(info.exreloc))->Ok_0;
    let word = offset_with_flag(info.offset, info.compressed);
    assert(e.subrange(0, 4) =~= be32(word));
    assert(e.subrange(4, 6) =~= be16(inreloc));
    assert(e.subrange(6, 8) =~= be16(rom_size));
    assert(e.subrange(8, 10) =~= be16(exreloc));
    assert(e.subrange(10, 12) =~= be16(size));
    lemma_be_round_trip(word, inreloc);
    lemma_be_round_trip(word, rom_size);
    lemma_be_round_trip(word, exreloc);
    lemma_be_round_trip(word, size);
}

/// Below 2 GiB, the flag and the offset of a first word do not touch.
pub proof fn lemma_flag_and_offset(offset: u32, compressed: bool)
    requires
        offset < 0x8000_0000,
    ensures
        offset_with_flag(offset, compressed) & 0x7FFF_FFFFu32 == offset,
        (offset_with_flag(offset, compressed) & 0x8000_0000u32 != 0) == compressed,
{
    assert((offset | 0x8000_0000u32) & 0x7FFF_FFFFu32 == offset && offset & 0x7FFF_FFFFu32
        == offset && (offset | 0x8000_0000u32) & 0x8000_0000u32 != 0 && offset & 0x8000_0000u32
        == 0) by (bit_vector)
        requires
            offset < 0x8000_0000u32,
    ;
}

/// For an offset below 2 GiB, the flag and the offset of an entry can be
/// told apart again.
pub proof fn lemma_entry_offset(info: FileInfo)
    requires
        table_entry(info) is Ok,
        info.offset < 0x8000_0000,
    ensures
        entry_offset(table_entry(info)->Ok_0) == info.offset,
        entry_compressed(table_entry(info)->Ok_0) == info.compressed,
{
    lemma_entry_fields(info);
    lemma_flag_and_offset(info.offset, info.compressed);
}

/// The terminator is twelve bytes and starts with the payload's length.
pub proof fn lemma_terminator(end: nat)
    requires
        end <= u32::MAX,
    ensures
        terminator(end) is Ok,
        terminator(end)->Ok_0.len() == ENTRY_LEN,
        from_be32(terminator(end)->Ok_0.subrange(0, 4)) == end,
        terminator(end)->Ok_0.subrange(4, 12) == zeros(8),
{
    let t = terminator(end)->Ok_0;
    assert(t.subrange(0, 4) =~= be32(end as u32));
    assert(t.subrange(4, 12) =~= zeros(8));
    lemma_be_round_trip(end as u32, 0);
}

/// Appends the entry for one file to the table, or fails and leaves the
/// table as it was.
pub fn add_file_info(table: &mut Vec<u8>, info: FileInfo) -> (r: Result<(), LinkError>)
    ensures
        changed_to(
            r,
            old(table)@,
            final(table)@,
            match table_entry(info) {
                Ok(entry) => Ok(old(table)@ + entry),
                Err(e) => Err(e),
            },
        ),
{
    let offset = if info.compressed {
        info.offset | COMPRESSED_FLAG
    } else {
        info.offset
    };
    let size = match shorten(info.size) {
        Ok(h) => h,
        Err(e) => return Err(e),
    };
    let comp_size = match shorten(info.rom_size) {
        Ok(h) => h,
        Err(e) => return Err(e),
    };
    let inreloc = match opt_shorten(info.inreloc) {
        Ok(h) => h,
        Err(e) => return Err(e),
    };
    let exreloc = match opt_shorten(info.exreloc) {
        Ok(h) => h,
        Err(e) => return Err(e),
    };
    push_be32(table, offset);
    push_be16(table, inreloc);
    push_be16(table, comp_size);
    push_be16(table, exreloc);
    push_be16(table, size);
    assert(table@ =~= old(table)@ + table_entry(info)->Ok_0);
    Ok(())
}

/// Closes the table with the payload's length and eight zero bytes, or
/// fails and leaves the table as it was where the length does not fit 32 bits.
pub fn terminate_table(table: &mut Vec<u8>, end: usize) -> (r: Result<(), LinkError>)
    ensures
        changed_to(
            r,
            old(table)@,
            final(table)@,
            match terminator(end as nat) {
                Ok(entry) => Ok(old(table)@ + entry),
                Err(e) => Err(e),
            },
        ),
{
    if end > u32::MAX as usize {
        return Err(LinkError::Overflow(end as u64));
    }
    push_be32(table, end as u32);
    let mut i: usize = 0;
    while i < 8
        invariant
            i <= 8,
            table@ == old(table)@ + be32(end as u32) + zeros(i as nat),
        decreases 8 - i,
    {
        table.push(0);
        i += 1;
        assert(table@ =~= old(table)@ + be32(end as u32) + zeros(i as nat));
    }
    assert(table@ =~= old(table)@ + (be32(end as u32) + zeros(8)));
    Ok(())
}

} // verus!
