//! What holds of every table and payload that the second pass gives.

use crate::buffer::{
    aligned, be16s, lemma_padded_append, lemma_padded_is_aligned, lemma_padding_idempotent, padded,
    zeros,
};
use crate::error::Failure;
use crate::halfword::from_be32;
use crate::pass1::Source;
use crate::pass2::{
    descriptor, entry_descriptor, link_entry, linked, placed, prepared, second_pass, stored,
    Layout,
};
use crate::symbols::Sym;
use crate::table::{
    entry_compressed, entry_field, entry_offset, field_holds, lemma_entry_fields,
    lemma_entry_offset, lemma_terminator, table_entry, terminator, FileInfo, ENTRY_LEN,
};
use vstd::prelude::*;

verus! {

/// The twelve bytes of a table that describe file `i`, or close the table.
pub open spec fn table_slot(table: Seq<u8>, i: int) -> Seq<u8> {
    table.subrange(12 * i, 12 * i + 12)
}

/// The length of the payload after the first `i` files: where file `i`
/// starts.
#[verifier::opaque]
pub open spec fn start_of_file(
    sources: Seq<Source>,
    index: Map<Seq<char>, Sym>,
    encoded: Seq<Option<Seq<u8>>>,
    i: int,
) -> nat {
    linked(sources, index, encoded, i)->Ok_0.payload.len()
}

/// The descriptor of file `i`.
#[verifier::opaque]
pub open spec fn file_descriptor(
    sources: Seq<Source>,
    index: Map<Seq<char>, Sym>,
    encoded: Seq<Option<Seq<u8>>>,
    i: int,
) -> FileInfo {
    entry_descriptor(linked(sources, index, encoded, i)->Ok_0, sources[i], index, encoded[i])
}

/// The trailer of a file as it stands in the payload: the file indices,
/// padded; nothing where the file has none.
pub open spec fn trailer(externs: Option<Seq<u16>>) -> Seq<u8> {
    match externs {
        Some(ids) => padded(be16s(ids)),
        None => Seq::empty(),
    }
}

/// Placing a file whose stored bytes end on a four-byte boundary, in a
/// payload that ends on one, appends the stored bytes and the trailer as
/// they are, and the payload ends on a four-byte boundary again.
pub proof fn lemma_placed(
    layout: Layout,
    size: u32,
    rom: Seq<u8>,
    compressed: bool,
    externs: Option<Seq<u16>>,
    inreloc: Option<u32>,
    exreloc: Option<u32>,
)
    requires
        aligned(layout.payload.len()),
        aligned(rom.len()),
        placed(layout, size, rom, compressed, externs, inreloc, exreloc) is Ok,
    ensures
        ({
            let next = placed(layout, size, rom, compressed, externs, inreloc, exreloc)->Ok_0;
            let info = descriptor(layout.payload, size, rom, compressed, inreloc, exreloc);
            &&& next.payload == layout.payload + rom + trailer(externs)
            &&& aligned(next.payload.len())
            &&& table_entry(info) is Ok
            &&& next.table == layout.table + table_entry(info)->Ok_0
            &&& info.offset == layout.payload.len()
            &&& info.rom_size == rom.len()
        }),
{
    let body = layout.payload + rom;
    lemma_padding_idempotent(body);
    match externs {
        Some(ids) => {
            lemma_padded_append(body, be16s(ids));
            lemma_padded_is_aligned(be16s(ids));
        },
        None => {
            assert(body + Seq::<u8>::empty() =~= body);
        },
    }
}

/// One more input adds one block to the payload and one entry to the
/// table. The block is the bytes that are stored for the input's file, as
/// many as the entry says, and then the file's trailer; it starts where the
/// entry says, on a four-byte boundary, and ends on one.
pub proof fn lemma_block(
    layout: Layout,
    source: Source,
    index: Map<Seq<char>, Sym>,
    encoded: Option<Seq<u8>>,
)
    requires
        aligned(layout.payload.len()),
        link_entry(layout, source, index, encoded) is Ok,
    ensures
        ({
            let next = link_entry(layout, source, index, encoded)->Ok_0;
            let file = prepared(source, index)->Ok_0;
            let rom = stored(padded(file.data), source.entry, encoded)->Ok_0;
            let info = entry_descriptor(layout, source, index, encoded);
            &&& next.payload == layout.payload + rom + trailer(file.externs)
            &&& aligned(next.payload.len())
            &&& table_entry(info) is Ok
            &&& next.table == layout.table + table_entry(info)->Ok_0
            &&& info.offset == layout.payload.len()
            &&& info.rom_size == rom.len()
            &&& info.size == padded(file.data).len()
            &&& info.compressed == source.entry.compressed
            &&& next.payload.len() == info.offset + info.rom_size + trailer(file.externs).len()
        }),
{
    reveal(link_entry);
    let file = prepared(source, index)->Ok_0;
    let data = padded(file.data);
    let rom = stored(data, source.entry, encoded)->Ok_0;
    assert(aligned(rom.len())) by {
        lemma_padded_is_aligned(file.data);
        if source.entry.compressed {
            lemma_padded_is_aligned(encoded->Some_0);
        }
    }
    lemma_placed(
        layout,
        data.len() as u32,
        rom,
        source.entry.compressed,
        file.externs,
        file.inreloc,
        file.exreloc,
    );
}

/// What input `n - 1` does to the layout after the inputs before it, in
/// terms of where the files start and of the file's descriptor.
proof fn lemma_linked_next(
    sources: Seq<Source>,
    index: Map<Seq<char>, Sym>,
    encoded: Seq<Option<Seq<u8>>>,
    n: int,
)
    requires
        n >= 1,
        linked(sources, index, encoded, n) is Ok,
        aligned(start_of_file(sources, index, encoded, n - 1)),
    ensures
        linked(sources, index, encoded, n - 1) is Ok,
        aligned(start_of_file(sources, index, encoded, n)),
        start_of_file(sources, index, encoded, n - 1) <= start_of_file(sources, index, encoded, n),
        table_entry(file_descriptor(sources, index, encoded, n - 1)) is Ok,
        table_entry(file_descriptor(sources, index, encoded, n - 1))->Ok_0.len() == ENTRY_LEN,
        linked(sources, index, encoded, n)->Ok_0.table == linked(
            sources,
            index,
            encoded,
            n - 1,
        )->Ok_0.table + table_entry(file_descriptor(sources, index, encoded, n - 1))->Ok_0,
        file_descriptor(sources, index, encoded, n - 1).offset == start_of_file(
            sources,
            index,
            encoded,
            n - 1,
        ),
        file_descriptor(sources, index, encoded, n - 1).compressed
            == sources[n - 1].entry.compressed,
{
    reveal(start_of_file);
    reveal(file_descriptor);
    let before = linked(sources, index, encoded, n - 1)->Ok_0;
    lemma_block(before, sources[n - 1], index, encoded[n - 1]);
    lemma_entry_fields(file_descriptor(sources, index, encoded, n - 1));
}

/// After any number of inputs the payload ends on a four-byte boundary and
/// the table has twelve bytes for each input, which are the entry of the
/// input's file. Every file starts on a four-byte boundary, where its
/// descriptor says, and no file starts before one that was linked earlier.
pub proof fn lemma_linked_layout(
    sources: Seq<Source>,
    index: Map<Seq<char>, Sym>,
    encoded: Seq<Option<Seq<u8>>>,
    n: int,
)
    requires
        0 <= n,
        linked(sources, index, encoded, n) is Ok,
    ensures
        linked(sources, index, encoded, n)->Ok_0.table.len() == 12 * n,
        linked(sources, index, encoded, n)->Ok_0.payload.len() == start_of_file(
            sources,
            index,
            encoded,
            n,
        ),
        aligned(start_of_file(sources, index, encoded, n)),
        forall|i: int, j: int|
            0 <= i <= j <= n ==> #[trigger] start_of_file(sources, index, encoded, i)
                <= #[trigger] start_of_file(sources, index, encoded, j),
        forall|i: int|
            0 <= i < n ==> {
                let info = #[trigger] file_descriptor(sources, index, encoded, i);
                &&& table_entry(info) is Ok
                &&& table_slot(linked(sources, index, encoded, n)->Ok_0.table, i) == table_entry(
                    info,
                )->Ok_0
                &&& info.offset == start_of_file(sources, index, encoded, i)
                &&& info.offset % 4 == 0
                &&& info.compressed == sources[i].entry.compressed
            },
    decreases n,
{
    if n <= 0 {
        reveal(start_of_file);
    } else {
        let layout = linked(sources, index, encoded, n)->Ok_0;
        assert(linked(sources, index, encoded, n - 1) is Ok);
        let before = linked(sources, index, encoded, n - 1)->Ok_0;
        lemma_linked_layout(sources, index, encoded, n - 1);
        lemma_linked_next(sources, index, encoded, n);
        let last = table_entry(file_descriptor(sources, index, encoded, n - 1))->Ok_0;
        assert(layout.payload.len() == start_of_file(sources, index, encoded, n)) by {
            reveal(start_of_file);
        }
        assert forall|i: int, j: int| 0 <= i <= j <= n implies #[trigger] start_of_file(
            sources,
            index,
            encoded,
            i,
        ) <= #[trigger] start_of_file(sources, index, encoded, j) by {
            if j == n && i < n {
                assert(start_of_file(sources, index, encoded, i) <= start_of_file(
                    sources,
                    index,
                    encoded,
                    n - 1,
                ));
            }
        }
        assert forall|i: int| 0 <= i < n implies {
            let info = #[trigger] file_descriptor(sources, index, encoded, i);
            &&& table_entry(info) is Ok
            &&& table_slot(layout.table, i) == table_entry(info)->Ok_0
            &&& info.offset == start_of_file(sources, index, encoded, i)
            &&& info.offset % 4 == 0
            &&& info.compressed == sources[i].entry.compressed
        } by {
            if i < n - 1 {
                assert(table_slot(layout.table, i) =~= table_slot(before.table, i));
            } else {
                assert(table_slot(layout.table, i) =~= last);
            }
        }
    }
}

/// The table that the second pass gives has twelve bytes for each input
/// and twelve for the terminator, and the payload ends on a four-byte
/// boundary.
pub proof fn lemma_table_length(
    sources: Seq<Source>,
    index: Map<Seq<char>, Sym>,
    encoded: Seq<Option<Seq<u8>>>,
)
    requires
        second_pass(sources, index, encoded) is Ok,
    ensures
        second_pass(sources, index, encoded)->Ok_0.table.len() == (sources.len() + 1) * 12,
        aligned(second_pass(sources, index, encoded)->Ok_0.payload.len()),
{
    let n = sources.len() as int;
    lemma_linked_layout(sources, index, encoded, n);
    let layout = linked(sources, index, encoded, n)->Ok_0;
    lemma_terminator(layout.payload.len());
}

/// In the table that the second pass gives, the offset of each entry is
/// where the file starts in the payload: a multiple of four that lies
/// within the payload and is not less than the offset of any entry before
/// it. The flag of the entry says whether the file is compressed, and the
/// terminator holds the length of the payload. This is stated of payloads
/// shorter than 2 GiB: from there on the flag and the offset share a bit.
pub proof fn lemma_table_offsets(
    sources: Seq<Source>,
    index: Map<Seq<char>, Sym>,
    encoded: Seq<Option<Seq<u8>>>,
)
    requires
        second_pass(sources, index, encoded) is Ok,
        second_pass(sources, index, encoded)->Ok_0.payload.len() < 0x8000_0000,
    ensures
        ({
            let out = second_pass(sources, index, encoded)->Ok_0;
            let n = sources.len() as int;
            &&& from_be32(table_slot(out.table, n).subrange(0, 4)) == out.payload.len()
            &&& table_slot(out.table, n).subrange(4, 12) == zeros(8)
            &&& forall|i: int|
                0 <= i < n ==> {
                    let slot = #[trigger] table_slot(out.table, i);
                    &&& entry_offset(slot) == start_of_file(sources, index, encoded, i)
                    &&& entry_offset(slot) % 4 == 0
                    &&& entry_offset(slot) <= out.payload.len()
                    &&& entry_compressed(slot) == sources[i].entry.compressed
                }
            &&& forall|i: int, j: int|
                0 <= i <= j < n ==> entry_offset(#[trigger] table_slot(out.table, i))
                    <= entry_offset(#[trigger] table_slot(out.table, j))
        }),
{
    let n = sources.len() as int;
    let out = second_pass(sources, index, encoded)->Ok_0;
    let layout = linked(sources, index, encoded, n)->Ok_0;
    lemma_linked_layout(sources, index, encoded, n);
    lemma_terminator(layout.payload.len());
    let end = terminator(layout.payload.len())->Ok_0;
    assert(table_slot(out.table, n) =~= end);
    assert forall|i: int| 0 <= i < n implies {
        let slot = #[trigger] table_slot(out.table, i);
        &&& entry_offset(slot) == start_of_file(sources, index, encoded, i)
        &&& entry_offset(slot) % 4 == 0
        &&& entry_offset(slot) <= out.payload.len()
        &&& entry_compressed(slot) == sources[i].entry.compressed
    } by {
        let info = file_descriptor(sources, index, encoded, i);
        assert(table_slot(out.table, i) =~= table_slot(layout.table, i));
        assert(start_of_file(sources, index, encoded, i) <= start_of_file(
            sources,
            index,
            encoded,
            n,
        ));
        lemma_entry_offset(info);
    }
    assert forall|i: int, j: int| 0 <= i <= j < n implies entry_offset(
        #[trigger] table_slot(out.table, i),
    ) <= entry_offset(#[trigger] table_slot(out.table, j)) by {
        assert(start_of_file(sources, index, encoded, i) <= start_of_file(
            sources,
            index,
            encoded,
            j,
        ));
    }
}

/// What can be read off a table of `n` files and its payload. The table
/// has twelve bytes for each file and twelve for the terminator, which holds
/// the length of the payload and eight zero bytes; the payload ends on a
/// four-byte boundary. While the payload is shorter than 2 GiB, the offset
/// of every entry is a multiple of four that lies within the payload, and
/// is not less than the offset of any entry before it.
pub open spec fn well_laid_out(table: Seq<u8>, payload: Seq<u8>, n: int) -> bool {
    &&& table.len() == (n + 1) * 12
    &&& aligned(payload.len())
    &&& from_be32(table_slot(table, n).subrange(0, 4)) == payload.len()
    &&& table_slot(table, n).subrange(4, 12) == zeros(8)
    &&& payload.len() < 0x8000_0000 ==> forall|i: int|
        0 <= i < n ==> entry_offset(#[trigger] table_slot(table, i)) % 4 == 0 && entry_offset(
            table_slot(table, i),
        ) <= payload.len()
    &&& payload.len() < 0x8000_0000 ==> forall|i: int, j: int|
        0 <= i <= j < n ==> entry_offset(#[trigger] table_slot(table, i)) <= entry_offset(
            #[trigger] table_slot(table, j),
        )
}

/// Every table and payload that the second pass gives is well laid out.
pub proof fn lemma_well_laid_out(
    sources: Seq<Source>,
    index: Map<Seq<char>, Sym>,
    encoded: Seq<Option<Seq<u8>>>,
)
    requires
        second_pass(sources, index, encoded) is Ok,
    ensures
        well_laid_out(
            second_pass(sources, index, encoded)->Ok_0.table,
            second_pass(sources, index, encoded)->Ok_0.payload,
            sources.len() as int,
        ),
{
    let n = sources.len() as int;
    let out = second_pass(sources, index, encoded)->Ok_0;
    lemma_table_length(sources, index, encoded);
    let layout = linked(sources, index, encoded, n)->Ok_0;
    lemma_terminator(layout.payload.len());
    assert(table_slot(out.table, n) =~= terminator(layout.payload.len())->Ok_0);
    if out.payload.len() < 0x8000_0000 {
        lemma_table_offsets(sources, index, encoded);
    }
}

/// In the table that the second pass gives, the entry of every file holds
/// in each of its four 16-bit fields either `0xFFFF`, for a chain of
/// relocations that the file does not have, or the number of words of a
/// multiple of four: of where a chain starts in the file, of the stored size
/// or of the size.
pub proof fn lemma_table_fields(
    sources: Seq<Source>,
    index: Map<Seq<char>, Sym>,
    encoded: Seq<Option<Seq<u8>>>,
    i: int,
)
    requires
        second_pass(sources, index, encoded) is Ok,
        0 <= i < sources.len(),
    ensures
        ({
            let slot = table_slot(second_pass(sources, index, encoded)->Ok_0.table, i);
            let info = file_descriptor(sources, index, encoded, i);
            &&& field_holds(entry_field(slot, 4), info.inreloc)
            &&& field_holds(entry_field(slot, 6), Some(info.rom_size))
            &&& field_holds(entry_field(slot, 8), info.exreloc)
            &&& field_holds(entry_field(slot, 10), Some(info.size))
        }),
{
    let n = sources.len() as int;
    let out = second_pass(sources, index, encoded)->Ok_0;
    let layout = linked(sources, index, encoded, n)->Ok_0;
    let info = file_descriptor(sources, index, encoded, i);
    lemma_linked_layout(sources, index, encoded, n);
    assert(table_slot(out.table, i) =~= table_slot(layout.table, i));
    lemma_entry_fields(info);
}

/// Every file starts where the file before it and that file's trailer end:
/// at the earlier file's offset plus its stored size plus the length of its
/// padded trailer. The payload ends where the last file and its trailer end.
pub proof fn lemma_files_adjoin(
    sources: Seq<Source>,
    index: Map<Seq<char>, Sym>,
    encoded: Seq<Option<Seq<u8>>>,
    n: int,
    i: int,
)
    requires
        0 <= i < n,
        linked(sources, index, encoded, n) is Ok,
    ensures
        ({
            let info = file_descriptor(sources, index, encoded, i);
            let file = prepared(sources[i], index)->Ok_0;
            start_of_file(sources, index, encoded, i + 1) == info.offset + info.rom_size + trailer(
                file.externs,
            ).len()
        }),
    decreases n - i,
{
    if i + 1 < n {
        lemma_files_adjoin(sources, index, encoded, n - 1, i);
    } else {
        lemma_linked_layout(sources, index, encoded, n - 1);
        reveal(start_of_file);
        reveal(file_descriptor);
        lemma_block(
            linked(sources, index, encoded, n - 1)->Ok_0,
            sources[n - 1],
            index,
            encoded[n - 1],
        );
    }
}

/// Linking the same inputs against the same index gives the same table and
/// the same payload, byte for byte, whenever the codec gave the same bytes
/// for each file that is compressed; so always where no file is.
pub proof fn lemma_link_repeats(
    sources: Seq<Source>,
    index: Map<Seq<char>, Sym>,
    a: Seq<Option<Seq<u8>>>,
    b: Seq<Option<Seq<u8>>>,
)
    requires
        forall|i: int| 0 <= i < sources.len() && sources[i].entry.compressed ==> a[i] == b[i],
    ensures
        second_pass(sources, index, a) == second_pass(sources, index, b),
{
    lemma_linked_repeats(sources, index, a, b, sources.len() as int);
}

/// The layout after `n` inputs is the same whenever the codec gave the same
/// bytes for each of them that is compressed.
pub proof fn lemma_linked_repeats(
    sources: Seq<Source>,
    index: Map<Seq<char>, Sym>,
    a: Seq<Option<Seq<u8>>>,
    b: Seq<Option<Seq<u8>>>,
    n: int,
)
    requires
        n <= sources.len(),
        forall|i: int| 0 <= i < n && sources[i].entry.compressed ==> a[i] == b[i],
    ensures
        linked(sources, index, a, n) == linked(sources, index, b, n),
    decreases n,
{
    if n > 0 {
        lemma_linked_repeats(sources, index, a, b, n - 1);
        reveal(link_entry);
    }
}

/// Without inputs the payload is empty and the table is the terminator
/// alone: twelve zero bytes.
pub proof fn lemma_empty_script(index: Map<Seq<char>, Sym>, encoded: Seq<Option<Seq<u8>>>)
    ensures
        second_pass(Seq::<Source>::empty(), index, encoded) == Ok::<Layout, Failure>(
            Layout { payload: Seq::empty(), table: zeros(12) },
        ),
{
    let out = second_pass(Seq::<Source>::empty(), index, encoded)->Ok_0;
    assert(out.table =~= zeros(12));
}

} // verus!
